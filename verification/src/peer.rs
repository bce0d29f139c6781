//! Per-player connection lifecycle: the state variants and the entry a room
//! keeps for each player, with the pure transition functions of the state
//! machine. A player with no entry in the room counts as `Uninitialized`.

use crate::messages::{OutboundView, SignalView};
use vstd::prelude::*;

verus! {

/// Lifecycle of one player's peer connection.
///
/// `Uninitialized -> Negotiating -> Connected -> Closed`, with `Failed`
/// terminal and reachable from `Negotiating` or `Connected`.
#[derive(Debug, Clone, Copy, PartialEq, Eq, Structural)]
pub enum PeerState {
    Uninitialized,
    Negotiating,
    Connected,
    Closed,
    Failed,
}

/// One peer-connection record, owned exclusively by its room's runtime.
#[derive(Debug, Clone, PartialEq, Eq)]
pub struct PeerConnectionEntry {
    /// UUID of the player this entry tracks.
    pub player_id: String,
    pub state: PeerState,
    /// ICE candidates that arrived before negotiation began, in arrival order.
    pub pending_ice: Vec<String>,
    /// ICE candidates handed to the underlying connection, in arrival order.
    pub applied_ice: Vec<String>,
    /// The SDP answer that connected this peer, once one arrived.
    pub answer_sdp: Option<String>,
    /// Ticks spent in `Negotiating` so far, for the per-peer timeout.
    pub ticks_negotiating: u32,
}

/// Mathematical value of a [`PeerConnectionEntry`].
#[verifier::ext_equal]
pub struct PeerView {
    pub player_id: Seq<char>,
    pub state: PeerState,
    pub pending_ice: Seq<Seq<char>>,
    pub applied_ice: Seq<Seq<char>>,
    pub answer_sdp: Option<Seq<char>>,
    pub ticks_negotiating: u32,
}

impl View for PeerConnectionEntry {
    type V = PeerView;

    open spec fn view(&self) -> PeerView {
        PeerView {
            player_id: self.player_id@,
            state: self.state,
            pending_ice: self.pending_ice.deep_view(),
            applied_ice: self.applied_ice.deep_view(),
            answer_sdp: match self.answer_sdp {
                Some(sdp) => Some(sdp@),
                None => None,
            },
            ticks_negotiating: self.ticks_negotiating,
        }
    }
}

impl DeepView for PeerConnectionEntry {
    type V = PeerView;

    open spec fn deep_view(&self) -> PeerView {
        self.view()
    }
}

/// A fresh entry for a player first seen through `InitializeRoom`:
/// negotiation starts at once, nothing is buffered yet.
pub open spec fn spec_new_negotiating(pid: Seq<char>) -> PeerView {
    PeerView {
        player_id: pid,
        state: PeerState::Negotiating,
        pending_ice: Seq::empty(),
        applied_ice: Seq::empty(),
        answer_sdp: None,
        ticks_negotiating: 0,
    }
}

/// A fresh entry for a player first seen through an early ICE candidate:
/// still uninitialized, the candidate buffered.
pub open spec fn spec_new_buffering(pid: Seq<char>, candidate: Seq<char>) -> PeerView {
    PeerView {
        player_id: pid,
        state: PeerState::Uninitialized,
        pending_ice: seq![candidate],
        applied_ice: Seq::empty(),
        answer_sdp: None,
        ticks_negotiating: 0,
    }
}

/// `Uninitialized -> Negotiating`: the buffered candidates are flushed to the
/// connection in arrival order, none lost or reordered.
pub open spec fn spec_flushed(p: PeerView) -> PeerView {
    PeerView {
        player_id: p.player_id,
        state: PeerState::Negotiating,
        pending_ice: Seq::empty(),
        applied_ice: p.applied_ice + p.pending_ice,
        answer_sdp: p.answer_sdp,
        ticks_negotiating: 0,
    }
}

/// `Negotiating -> Connected`: the player's answer arrived and is kept.
pub open spec fn spec_connected(p: PeerView, sdp: Seq<char>) -> PeerView {
    PeerView {
        player_id: p.player_id,
        state: PeerState::Connected,
        pending_ice: p.pending_ice,
        applied_ice: p.applied_ice,
        answer_sdp: Some(sdp),
        ticks_negotiating: 0,
    }
}

/// `Negotiating | Connected -> Failed`: buffered candidates are discarded,
/// not applied.
pub open spec fn spec_failed(p: PeerView) -> PeerView {
    PeerView {
        player_id: p.player_id,
        state: PeerState::Failed,
        pending_ice: Seq::empty(),
        applied_ice: p.applied_ice,
        answer_sdp: p.answer_sdp,
        ticks_negotiating: 0,
    }
}

/// `-> Closed` on explicit disconnect or room teardown: buffered candidates
/// are discarded, not applied.
pub open spec fn spec_closed(p: PeerView) -> PeerView {
    PeerView {
        player_id: p.player_id,
        state: PeerState::Closed,
        pending_ice: Seq::empty(),
        applied_ice: p.applied_ice,
        answer_sdp: p.answer_sdp,
        ticks_negotiating: 0,
    }
}

/// A buffered candidate appended while the peer is still uninitialized.
pub open spec fn spec_buffered(p: PeerView, candidate: Seq<char>) -> PeerView {
    PeerView {
        player_id: p.player_id,
        state: p.state,
        pending_ice: p.pending_ice.push(candidate),
        applied_ice: p.applied_ice,
        answer_sdp: p.answer_sdp,
        ticks_negotiating: p.ticks_negotiating,
    }
}

/// A candidate applied at once while the peer negotiates or is connected.
pub open spec fn spec_applied(p: PeerView, candidate: Seq<char>) -> PeerView {
    PeerView {
        player_id: p.player_id,
        state: p.state,
        pending_ice: p.pending_ice,
        applied_ice: p.applied_ice.push(candidate),
        answer_sdp: p.answer_sdp,
        ticks_negotiating: p.ticks_negotiating,
    }
}

/// The offer SDP a room synthesizes when it starts negotiating with a player.
pub open spec fn spec_offer_sdp(room_id: Seq<char>, pid: Seq<char>) -> Seq<char> {
    "offer:"@ + room_id + ":"@ + pid
}

/// The outbound `SendOffer` produced for one newly negotiating player.
pub open spec fn spec_offer_msg(room_id: Seq<char>, pid: Seq<char>) -> OutboundView {
    OutboundView {
        room_id: room_id,
        target_player_id: pid,
        signal: SignalView::SendOffer { sdp: spec_offer_sdp(room_id, pid) },
    }
}

} // verus!
