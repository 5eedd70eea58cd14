//! The life of one connection on the server: one read, one reply, then the
//! connection closes.
//!
//! The library decides and the caller acts: [`open`] and [`advance`] say
//! what to do next on the socket, and the caller reports what happened as
//! an [`Event`]. Whatever the caller reports, a connection is answered at
//! most once.

use crate::engine::KvsEngine;
use crate::resp::grammar::encoding;
use crate::resp::value::{well_formed, RespModel};
use crate::service::{handle_request, responded};
use vstd::prelude::*;

verus! {

/// The number of bytes that the one read of a connection asks for.
pub const REQUEST_CAPACITY: usize = 512;

/// Where a connection stands in its exchange.
#[derive(Debug, Clone, Copy, PartialEq, Eq, Structural)]
pub enum ConnectionState {
    /// The connection was accepted and nothing was read yet.
    Accepted,
    /// The request was read and the reply is on its way.
    RequestRead,
    /// The reply was handed over, or the exchange was given up. Nothing
    /// follows but closing.
    Responded,
}

/// What happened on the socket.
#[derive(Debug, Clone, PartialEq, Eq)]
pub enum Event {
    /// The read returned these bytes.
    Received(Vec<u8>),
    /// The reply was written.
    Sent,
}

/// What to do next on the socket.
#[derive(Debug, Clone, PartialEq, Eq)]
pub enum Action {
    /// Read once, up to [`REQUEST_CAPACITY`] bytes.
    Read,
    /// Write these bytes, all of them.
    Write(Vec<u8>),
    /// Close the connection.
    Close,
}

/// The two kinds of event, without what they carry.
pub ghost enum EventKind {
    Received,
    Sent,
}

impl Event {
    /// The kind of this event.
    pub open spec fn kind(self) -> EventKind {
        match self {
            Event::Received(_) => EventKind::Received,
            Event::Sent => EventKind::Sent,
        }
    }
}

/// The state that follows `state` on an event of kind `event`.
pub open spec fn next_state(state: ConnectionState, event: EventKind) -> ConnectionState {
    match (state, event) {
        (ConnectionState::Accepted, EventKind::Received) => ConnectionState::RequestRead,
        _ => ConnectionState::Responded,
    }
}

/// Whether a reply is written in `state` on an event of kind `event`.
pub open spec fn replies(state: ConnectionState, event: EventKind) -> bool {
    state == ConnectionState::Accepted && event == EventKind::Received
}

/// The number of replies that are written when the events `events` come
/// in this order, from `state` on.
pub open spec fn replies_written(state: ConnectionState, events: Seq<EventKind>) -> nat
    decreases events.len(),
{
    if events.len() == 0 {
        0
    } else {
        let rest = replies_written(next_state(state, events[0]), events.drop_first());
        if replies(state, events[0]) {
            rest + 1
        } else {
            rest
        }
    }
}

/// A new connection: nothing was read yet, and the first thing to do is to
/// read.
pub fn open() -> (out: (ConnectionState, Action))
    ensures
        out.0 == ConnectionState::Accepted,
        out.1 is Read,
{
    (ConnectionState::Accepted, Action::Read)
}

/// What follows `event` in `state`. The request that was read on a new
/// connection is answered on `engine`; the reply that was sent closes the
/// connection; anything else closes it without a word, and leaves the
/// engine alone.
pub fn advance<E: KvsEngine>(state: ConnectionState, event: Event, engine: &mut E) -> (out: (
    ConnectionState,
    Action,
))
    requires
        old(engine).valid(),
    ensures
        final(engine).valid(),
        out.0 == next_state(state, event.kind()),
        match (state, event) {
            (ConnectionState::Accepted, Event::Received(request)) => exists|reply: RespModel|
                {
                    &&& well_formed(reply)
                    &&& out.1 matches Action::Write(bytes)
                    &&& bytes@ == #[trigger] encoding(reply)
                    &&& responded(
                        old(engine).contents(),
                        final(engine).contents(),
                        request@,
                        reply,
                    )
                },
            _ => out.1 is Close && final(engine).contents() == old(engine).contents(),
        },
{
    match (state, event) {
        (ConnectionState::Accepted, Event::Received(request)) => {
            let reply = handle_request(engine, request.as_slice());
            (ConnectionState::RequestRead, Action::Write(reply))
        },
        _ => (ConnectionState::Responded, Action::Close),
    }
}

/// After the first event no reply is written any more.
pub proof fn lemma_no_second_reply(state: ConnectionState, events: Seq<EventKind>)
    requires
        state != ConnectionState::Accepted,
    ensures
        replies_written(state, events) == 0,
    decreases events.len(),
{
    if events.len() > 0 {
        lemma_no_second_reply(next_state(state, events[0]), events.drop_first());
    }
}

/// One connection, one reply: whatever happens on a connection, at most
/// one reply is written on it, and exactly one where the first thing that
/// happens is that a request is read.
pub proof fn lemma_one_reply(events: Seq<EventKind>)
    ensures
        replies_written(ConnectionState::Accepted, events) <= 1,
        events.len() > 0 && events[0] == EventKind::Received ==> replies_written(
            ConnectionState::Accepted,
            events,
        ) == 1,
{
    if events.len() > 0 {
        lemma_no_second_reply(
            next_state(ConnectionState::Accepted, events[0]),
            events.drop_first(),
        );
    }
}

/// Once the reply was sent the connection is done: the state that follows
/// is the last one, and it stays the last one.
pub proof fn lemma_responded_is_terminal(event: EventKind)
    ensures
        next_state(ConnectionState::RequestRead, event) == ConnectionState::Responded,
        next_state(ConnectionState::Responded, event) == ConnectionState::Responded,
{
}

} // verus!
