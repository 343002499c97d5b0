//! The two duties of one connection, as decisions.
//!
//! A connection reads what its client sends and forwards what the relay has
//! queued for it. Both run side by side until one of them finishes; then the
//! connection is torn down with [`Relay::on_disconnect`]. The waiting and
//! the sending are the server's; what to do on each event is decided here.

use vstd::prelude::*;
use crate::model::RelayView;
use crate::relay::{Delivery, Relay};

verus! {

/// What the inbound path of a connection yielded.
#[derive(Debug, PartialEq, Eq)]
pub enum Inbound {
    /// A text frame: the client's full new text.
    Text(String),
    /// A frame that is not text.
    NonText,
    /// Receiving failed.
    Failed,
    /// The client's stream has ended.
    Closed,
}

/// What the inbound duty does after an event.
#[derive(Clone, Copy, Debug, PartialEq, Eq, Structural)]
pub enum InboundStep {
    /// The text was accepted and queued for every live connection: wake
    /// those that wait for updates, then read on.
    Published,
    /// The frame was passed over: read on.
    Ignored,
    /// The duty is over: tear the connection down.
    Finish,
}

/// What the outbound path of a connection has to report.
#[derive(Clone, Copy, Debug, PartialEq, Eq, Structural)]
pub enum Outbound {
    /// The last message handed to the client went out.
    Sent,
    /// The last message could not be sent.
    SendFailed,
    /// The connection waited and was woken: updates may be queued.
    Woken,
}

/// What the outbound duty does after an event.
#[derive(Debug, PartialEq, Eq)]
pub enum OutboundStep {
    /// Send this text to the client, then report how it went.
    Send(String),
    /// Nothing is queued: wait to be woken.
    Wait,
    /// The duty is over: tear the connection down.
    Finish,
}

/// The relay and the step that follow an inbound event of the live or
/// departed connection `conn`: a text frame from a live connection is an
/// update; a frame that is not text is passed over; a failure or the end of
/// the stream ends the duty, as does a frame from a connection that is no
/// longer live.
pub open spec fn after_inbound(state: RelayView, conn: u64, event: Inbound) -> (
    RelayView,
    InboundStep,
) {
    match event {
        Inbound::Text(text) => if state.is_live(conn) {
            (state.publish(text@), InboundStep::Published)
        } else {
            (state, InboundStep::Finish)
        },
        Inbound::NonText => (state, InboundStep::Ignored),
        Inbound::Failed => (state, InboundStep::Finish),
        Inbound::Closed => (state, InboundStep::Finish),
    }
}

/// Decides what follows an inbound event of `conn`, and takes an accepted
/// text as the new shared text.
pub fn on_inbound(relay: &mut Relay, conn: u64, event: Inbound) -> (step: InboundStep)
    requires
        old(relay).wf(),
    ensures
        final(relay).wf(),
        (final(relay)@, step) == after_inbound(old(relay)@, conn, event),
{
    match event {
        Inbound::Text(text) => {
            if relay.on_client_message(conn, text) {
                InboundStep::Published
            } else {
                InboundStep::Finish
            }
        },
        Inbound::NonText => InboundStep::Ignored,
        Inbound::Failed => InboundStep::Finish,
        Inbound::Closed => InboundStep::Finish,
    }
}

/// Decides what follows an outbound event of `conn`. After a failed send the
/// duty is over and the relay is left alone. Otherwise the oldest queued
/// update is taken off the queue to be sent; with nothing queued the
/// connection waits; a connection that is no longer live is finished.
pub fn on_outbound(relay: &mut Relay, conn: u64, event: Outbound) -> (step: OutboundStep)
    requires
        old(relay).wf(),
    ensures
        final(relay).wf(),
        match step {
            OutboundStep::Send(text) => {
                &&& event != Outbound::SendFailed
                &&& old(relay)@.is_live(conn)
                &&& old(relay)@.queues[conn].len() > 0
                &&& text@ == old(relay)@.queues[conn].first()
                &&& final(relay)@ == old(relay)@.deliver(conn)
            },
            OutboundStep::Wait => {
                &&& event != Outbound::SendFailed
                &&& old(relay)@.is_live(conn)
                &&& old(relay)@.queues[conn].len() == 0
                &&& final(relay)@ == old(relay)@
            },
            OutboundStep::Finish => {
                &&& event == Outbound::SendFailed || !old(relay)@.is_live(conn)
                &&& final(relay)@ == old(relay)@
            },
        },
{
    match event {
        Outbound::SendFailed => OutboundStep::Finish,
        _ => match relay.next_delivery(conn) {
            Delivery::Message(text) => OutboundStep::Send(text),
            Delivery::Idle => OutboundStep::Wait,
            Delivery::Gone => OutboundStep::Finish,
        },
    }
}

} // verus!
