//! Message envelope types: inbound client control messages, outbound
//! signaling messages, and the reports a room emits about anomalies.
//! Pure data; the behavior lives in `room` and `runtime`.

use vstd::prelude::*;

verus! {

/// A control action carried by a [`ClientMessage`].
#[derive(Debug, Clone, PartialEq, Eq)]
pub enum ClientAction {
    /// Opaque simulation payload; its content is not the room's concern.
    EntityState,
    /// Request to set up peer connections for the named players, in order.
    InitializeRoom { player_ids: Vec<String> },
    /// The client's SDP answer to an offer this room sent earlier.
    AnswerReceived { sdp: String },
    /// An ICE candidate gathered by the client.
    IceCandidate { candidate: String },
}

/// Mathematical value of a [`ClientAction`].
#[verifier::ext_equal]
pub enum ActionView {
    EntityState,
    InitializeRoom { player_ids: Seq<Seq<char>> },
    AnswerReceived { sdp: Seq<char> },
    IceCandidate { candidate: Seq<char> },
}

impl View for ClientAction {
    type V = ActionView;

    open spec fn view(&self) -> ActionView {
        match self {
            ClientAction::EntityState => ActionView::EntityState,
            ClientAction::InitializeRoom { player_ids } => ActionView::InitializeRoom {
                player_ids: player_ids.deep_view(),
            },
            ClientAction::AnswerReceived { sdp } => ActionView::AnswerReceived { sdp: sdp@ },
            ClientAction::IceCandidate { candidate } => ActionView::IceCandidate {
                candidate: candidate@,
            },
        }
    }
}

/// An inbound unit of work for one room.
#[derive(Debug, Clone, PartialEq, Eq)]
pub struct ClientMessage {
    /// UUID of the player the action concerns.
    pub player_id: String,
    /// UUID of the room this message is addressed to; it must match the
    /// processing room, a mismatch is a routing error.
    pub room_id: String,
    pub action: ClientAction,
}

/// Mathematical value of a [`ClientMessage`].
#[verifier::ext_equal]
pub struct MessageView {
    pub player_id: Seq<char>,
    pub room_id: Seq<char>,
    pub action: ActionView,
}

impl View for ClientMessage {
    type V = MessageView;

    open spec fn view(&self) -> MessageView {
        MessageView { player_id: self.player_id@, room_id: self.room_id@, action: self.action@ }
    }
}

/// A signal the room sends out to the signaling relay.
#[derive(Debug, Clone, PartialEq, Eq)]
pub enum ServerSignal {
    /// An SDP offer for a specific player.
    SendOffer { sdp: String },
    /// An ICE candidate for a specific player.
    SendIceCandidate { candidate: String },
}

/// Mathematical value of a [`ServerSignal`].
#[verifier::ext_equal]
pub enum SignalView {
    SendOffer { sdp: Seq<char> },
    SendIceCandidate { candidate: Seq<char> },
}

impl View for ServerSignal {
    type V = SignalView;

    open spec fn view(&self) -> SignalView {
        match self {
            ServerSignal::SendOffer { sdp } => SignalView::SendOffer { sdp: sdp@ },
            ServerSignal::SendIceCandidate { candidate } => SignalView::SendIceCandidate {
                candidate: candidate@,
            },
        }
    }
}

/// The wrapper for all outbound messages.
#[derive(Debug, Clone, PartialEq, Eq)]
pub struct OutboundMessage {
    /// The room this message is from.
    pub room_id: String,
    /// The player this message is intended for.
    pub target_player_id: String,
    /// The actual signal payload.
    pub signal: ServerSignal,
}

/// Mathematical value of an [`OutboundMessage`].
#[verifier::ext_equal]
pub struct OutboundView {
    pub room_id: Seq<char>,
    pub target_player_id: Seq<char>,
    pub signal: SignalView,
}

impl View for OutboundMessage {
    type V = OutboundView;

    open spec fn view(&self) -> OutboundView {
        OutboundView {
            room_id: self.room_id@,
            target_player_id: self.target_player_id@,
            signal: self.signal@,
        }
    }
}

impl DeepView for OutboundMessage {
    type V = OutboundView;

    open spec fn deep_view(&self) -> OutboundView {
        self.view()
    }
}

/// Construction contract a room requires from its host.
#[derive(Debug, Clone, PartialEq, Eq)]
pub struct RoomConfig {
    pub room_id: String,
}

/// A reported, non-fatal anomaly. Every per-message and per-peer error is
/// isolated to that message or peer; the room itself never fails on one.
#[derive(Debug, Clone, PartialEq, Eq)]
pub enum Report {
    /// The message's `room_id` does not match this room.
    RoutingError { room_id: String },
    /// An action referenced a player that was never initialized here.
    UnknownPeer { player_id: String },
    /// `InitializeRoom` named a player that is already negotiating or beyond.
    DuplicateInitialization { player_id: String },
    /// A peer's negotiation timed out or its transport failed.
    NegotiationFailed { player_id: String },
    /// An outbound message exhausted its send attempts and was given up.
    SendGivenUp { target_player_id: String },
}

/// Mathematical value of a [`Report`].
#[verifier::ext_equal]
pub enum ReportView {
    RoutingError { room_id: Seq<char> },
    UnknownPeer { player_id: Seq<char> },
    DuplicateInitialization { player_id: Seq<char> },
    NegotiationFailed { player_id: Seq<char> },
    SendGivenUp { target_player_id: Seq<char> },
}

impl View for Report {
    type V = ReportView;

    open spec fn view(&self) -> ReportView {
        match self {
            Report::RoutingError { room_id } => ReportView::RoutingError { room_id: room_id@ },
            Report::UnknownPeer { player_id } => ReportView::UnknownPeer {
                player_id: player_id@,
            },
            Report::DuplicateInitialization { player_id } => ReportView::DuplicateInitialization {
                player_id: player_id@,
            },
            Report::NegotiationFailed { player_id } => ReportView::NegotiationFailed {
                player_id: player_id@,
            },
            Report::SendGivenUp { target_player_id } => ReportView::SendGivenUp {
                target_player_id: target_player_id@,
            },
        }
    }
}

impl DeepView for Report {
    type V = ReportView;

    open spec fn deep_view(&self) -> ReportView {
        self.view()
    }
}

} // verus!
