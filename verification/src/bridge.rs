//! The channel bridge: the two bounded, multi-producer endpoints that
//! decouple the signaling transport's lifecycle from the room's tick loop.
//! The endpoints come from crossbeam_channel and are the only outside code
//! the room relies on; each call is wrapped here with the contract the
//! crate's own documentation gives it.

use crate::messages::{ClientMessage, OutboundMessage};
use vstd::prelude::*;

verus! {

/// crossbeam_channel's receiving endpoint, declared so the room can hold
/// one; its value is opaque to verification.
#[verifier::external_type_specification]
#[verifier::external_body]
#[verifier::reject_recursive_types(T)]
pub struct ExReceiver<T>(crossbeam_channel::Receiver<T>);

/// crossbeam_channel's sending endpoint, declared so the room can hold one;
/// its value is opaque to verification.
#[verifier::external_type_specification]
#[verifier::external_body]
#[verifier::reject_recursive_types(T)]
pub struct ExSender<T>(crossbeam_channel::Sender<T>);

/// Resource wrapper for the inbound endpoint of a room's bridge.
pub struct ClientMessageReceiver(pub crossbeam_channel::Receiver<ClientMessage>);

/// Resource wrapper for the outbound endpoint of a room's bridge.
pub struct OutboundMessageSender(pub crossbeam_channel::Sender<OutboundMessage>);

/// What one non-blocking receive can yield.
pub enum RecvOutcome {
    /// A message was ready.
    Msg(ClientMessage),
    /// Nothing is queued right now.
    Empty,
    /// The sending side is gone: the bridge is torn down.
    Disconnected,
}

/// What one non-blocking send can yield. On failure the message comes back
/// to the caller, so nothing is ever silently lost.
pub enum SendOutcome {
    Sent,
    /// The channel is at capacity: backpressure, retry later.
    Full(OutboundMessage),
    /// The receiving side is gone: the bridge is torn down.
    Disconnected(OutboundMessage),
}

/// Relies on crossbeam_channel::Receiver::try_recv: yields a queued message,
/// or reports the channel empty or disconnected, without ever blocking.
/// What arrives depends on the senders on the other side, so nothing is
/// promised of the outcome; the callers state what holds whatever came back.
#[verifier::external_body]
pub(crate) fn try_recv_client(rx: &ClientMessageReceiver) -> (r: RecvOutcome) {
    match rx.0.try_recv() {
        Ok(m) => RecvOutcome::Msg(m),
        Err(crossbeam_channel::TryRecvError::Empty) => RecvOutcome::Empty,
        Err(crossbeam_channel::TryRecvError::Disconnected) => RecvOutcome::Disconnected,
    }
}

/// Relies on crossbeam_channel::Sender::try_send: delivers the message
/// without blocking, or hands it back inside the error when the channel is
/// full or disconnected ("the returned error contains the original
/// message"). Whether it succeeds depends on the other side, so only the
/// handing-back is promised.
#[verifier::external_body]
pub(crate) fn try_send_outbound(tx: &OutboundMessageSender, msg: OutboundMessage) -> (r:
    SendOutcome)
    ensures
        match r {
            SendOutcome::Sent => true,
            SendOutcome::Full(m) => m == msg,
            SendOutcome::Disconnected(m) => m == msg,
        },
{
    match tx.0.try_send(msg) {
        Ok(()) => SendOutcome::Sent,
        Err(crossbeam_channel::TrySendError::Full(m)) => SendOutcome::Full(m),
        Err(crossbeam_channel::TrySendError::Disconnected(m)) => SendOutcome::Disconnected(m),
    }
}

} // verus!
