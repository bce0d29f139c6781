//! Per-room session runtime for a multiplayer backend.
//!
//! A room bridges an external signaling relay to its own simulation loop:
//! control messages arrive on an inbound channel, drive a per-player
//! WebRTC-negotiation state machine, and the resulting signaling messages
//! leave on an outbound channel. Everything a room decides is done by the
//! verified code here; the host only runs the tick loop and the transport.

pub mod bridge;
pub mod laws;
pub mod messages;
pub mod peer;
pub mod room;
pub mod runtime;

pub use bridge::{ClientMessageReceiver, OutboundMessageSender, RecvOutcome, SendOutcome};
pub use messages::{ClientAction, ClientMessage, OutboundMessage, Report, RoomConfig, ServerSignal};
pub use peer::{PeerConnectionEntry, PeerState};
pub use room::{NetworkState, StepOutput};
pub use runtime::{PendingSend, RoomRuntime, SendDisposition, TickOutput, TickStatus};
