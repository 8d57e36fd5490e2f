//! What the worker polls, and how the result on its control channel is read.

use vstd::prelude::*;
use crate::frames::{POLLERR, POLLIN, POLLOUT};

verus! {

/// The events polled on the control channel and on a read socket.
pub const READ_EVENTS: i16 = 5;

/// The events polled on a written socket.
pub const WRITE_EVENTS: i16 = 6;

/// `READ_EVENTS` is `ZMQ_POLLIN | ZMQ_POLLERR` and `WRITE_EVENTS` is
/// `ZMQ_POLLOUT | ZMQ_POLLERR`.
pub proof fn lemma_event_masks()
    ensures
        READ_EVENTS == POLLIN | POLLERR,
        WRITE_EVENTS == POLLOUT | POLLERR,
{
    assert(5i16 == 1i16 | 4i16) by (bit_vector);
    assert(6i16 == 2i16 | 4i16) by (bit_vector);
}

/// What one round of polling covers, after the control channel that comes
/// first: the read sockets, then the written sockets, each list in
/// increasing order of id.
pub struct PollPlan {
    pub readers: Vec<u64>,
    pub writers: Vec<u64>,
}

/// What the worker does after a poll about its control channel.
#[derive(PartialEq, Eq, Structural, Debug, Clone, Copy)]
pub enum ControlEvent {
    /// Nothing happened on it.
    Idle,
    /// It failed: the worker stops.
    Closed,
    /// A request can be read from it.
    Readable,
    /// Something other than input or an error was reported: a broken
    /// invariant of the channel, on which the worker gives up.
    Unexpected,
}

/// Reads the events reported on the control channel.
pub fn control_event(revents: i16) -> (event: ControlEvent)
    ensures
        revents == 0 ==> event == ControlEvent::Idle,
        revents != 0 && revents & POLLERR != 0 ==> event == ControlEvent::Closed,
        revents != 0 && revents & POLLERR == 0 && revents & POLLIN != 0 ==> event == ControlEvent::Readable,
        revents != 0 && revents & POLLERR == 0 && revents & POLLIN == 0 ==> event == ControlEvent::Unexpected,
{
    if revents == 0 {
        ControlEvent::Idle
    } else if revents & POLLERR != 0 {
        ControlEvent::Closed
    } else if revents & POLLIN == 0 {
        ControlEvent::Unexpected
    } else {
        ControlEvent::Readable
    }
}

} // verus!
