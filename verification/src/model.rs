//! The mathematical model of the worker's state, and what each event does to it.

use vstd::prelude::*;
use crate::frames::FrameView;

verus! {

/// A reader waiting on a socket: whom to tell, and the frames of the message
/// received so far.
#[verifier::ext_equal]
pub struct ReaderView<L> {
    pub listener: L,
    pub frames: Seq<Seq<u8>>,
}

/// The state of the worker: the id the next socket gets, the errno with which
/// a non-blocking receive asks to be retried, the live sockets, the readers by
/// socket, the frames waiting to be sent by socket, and the socket whose
/// write round has just begun with a frame taken off its queue, if any.
#[verifier::ext_equal]
pub struct WorkerView<L> {
    pub next_id: u64,
    pub retry_errno: i32,
    pub sockets: Set<u64>,
    pub reading: Map<u64, ReaderView<L>>,
    pub writing: Map<u64, Seq<FrameView>>,
    pub first_out: Option<u64>,
}

impl<L> WorkerView<L> {
    /// A fresh worker: no sockets yet, and the first socket gets id 1.
    pub open spec fn initial(retry_errno: i32) -> Self {
        WorkerView {
            next_id: 1,
            retry_errno,
            sockets: Set::empty(),
            reading: Map::empty(),
            writing: Map::empty(),
            first_out: None,
        }
    }

    /// Every live socket has an id below the next one and above 0, and only
    /// live sockets are read or written.
    pub open spec fn wf(self) -> bool {
        &&& 1 <= self.next_id
        &&& forall|id: u64| #[trigger] self.sockets.contains(id) ==> 1 <= id < self.next_id
        &&& forall|id: u64| #[trigger] self.reading.contains_key(id) ==> self.sockets.contains(id)
        &&& forall|id: u64| #[trigger] self.writing.contains_key(id) ==> self.sockets.contains(id)
    }

    /// A socket was created: it is live under the next id, and the id after
    /// it is the next one.
    pub open spec fn with_new_socket(self) -> Self {
        WorkerView {
            next_id: (self.next_id + 1) as u64,
            sockets: self.sockets.insert(self.next_id),
            ..self
        }
    }

    /// A socket was destroyed: it is no longer live, read or written.
    pub open spec fn without_socket(self, id: u64) -> Self {
        WorkerView {
            sockets: self.sockets.remove(id),
            reading: self.reading.remove(id),
            writing: self.writing.remove(id),
            ..self
        }
    }

    /// A reader asked to read a socket: it is registered, with nothing
    /// received yet, unless the socket is already read or is not live.
    pub open spec fn with_reader(self, id: u64, listener: L) -> Self {
        if self.reading.contains_key(id) || !self.sockets.contains(id) {
            self
        } else {
            WorkerView {
                reading: self.reading.insert(id, ReaderView { listener, frames: Seq::empty() }),
                ..self
            }
        }
    }

    /// The socket is no longer read.
    pub open spec fn without_reader(self, id: u64) -> Self {
        WorkerView { reading: self.reading.remove(id), ..self }
    }

    /// The frames are queued for sending on a live socket, after those
    /// already waiting there; on a socket that is not live nothing changes.
    pub open spec fn with_queued(self, id: u64, frames: Seq<FrameView>) -> Self {
        if !self.sockets.contains(id) {
            self
        } else {
            let before = if self.writing.contains_key(id) {
                self.writing[id]
            } else {
                Seq::empty()
            };
            WorkerView { writing: self.writing.insert(id, before + frames), ..self }
        }
    }

    /// The frames that are waiting to be sent on a socket.
    pub open spec fn pending(self, id: u64) -> Seq<FrameView> {
        if self.writing.contains_key(id) {
            self.writing[id]
        } else {
            Seq::empty()
        }
    }

    /// A frame of a message that continues was received on a read socket: it
    /// is kept after those received before it.
    pub open spec fn with_partial_frame(self, id: u64, data: Seq<u8>) -> Self {
        if self.reading.contains_key(id) {
            let r = self.reading[id];
            WorkerView {
                reading: self.reading.insert(id, ReaderView { frames: r.frames.push(data), ..r }),
                ..self
            }
        } else {
            self
        }
    }

    /// The message received on a read socket was handed out: the reader keeps
    /// reading, with nothing received.
    pub open spec fn with_delivered(self, id: u64) -> Self {
        if self.reading.contains_key(id) {
            let r = self.reading[id];
            WorkerView {
                reading: self.reading.insert(id, ReaderView { frames: Seq::empty(), ..r }),
                ..self
            }
        } else {
            self
        }
    }

    /// A frame was received on a read socket: kept when more of its message
    /// follow, else its message was handed out.
    pub open spec fn with_frame(self, id: u64, frame: FrameView) -> Self {
        if frame.more {
            self.with_partial_frame(id, frame.data)
        } else {
            self.with_delivered(id)
        }
    }

    /// The message that a frame received on socket `id` completes: the frames
    /// received before it, then it, when it is its message's last.
    pub open spec fn message_completed_by(self, id: u64, frame: FrameView) -> Option<Seq<Seq<u8>>> {
        if self.reading.contains_key(id) && !frame.more {
            Some(self.reading[id].frames.push(frame.data))
        } else {
            None
        }
    }

    /// The socket is no longer written: what was waiting for it is dropped.
    pub open spec fn without_writer(self, id: u64) -> Self {
        WorkerView { writing: self.writing.remove(id), ..self }
    }

    /// The first frame waiting on a written socket was taken off its queue.
    pub open spec fn with_front_taken(self, id: u64) -> Self {
        if self.writing.contains_key(id) {
            WorkerView { writing: self.writing.insert(id, self.writing[id].drop_first()), ..self }
        } else {
            self
        }
    }

    /// A write round begins on a socket: its first frame is taken off its
    /// queue to be sent.
    pub open spec fn with_round_started(self, id: u64) -> Self {
        WorkerView { first_out: Some(id), ..self.with_front_taken(id) }
    }

    /// The state after a frame of a write round on socket `id` was sent or
    /// refused. If the round's first frame was refused, or nothing else
    /// waits, the socket is no longer written. A later frame leaves the queue
    /// once sent, and a refused one stays; when the last one is sent the
    /// socket is no longer written.
    pub open spec fn after_sent(self, id: u64, sent: bool) -> Self {
        let t = WorkerView { first_out: None, ..self };
        if !self.writing.contains_key(id) {
            t
        } else if self.first_out == Some(id) {
            if !sent || self.writing[id].len() == 0 {
                t.without_writer(id)
            } else {
                t
            }
        } else if self.writing[id].len() == 0 || (sent && self.writing[id].len() == 1) {
            t.without_writer(id)
        } else if !sent {
            t
        } else {
            t.with_front_taken(id)
        }
    }

    /// The frame to send next in the write round on socket `id`, after a
    /// frame was sent or refused: none once a frame was refused or nothing
    /// else waits.
    pub open spec fn offered_after(self, id: u64, sent: bool) -> Option<FrameView> {
        if !self.writing.contains_key(id) || !sent {
            None
        } else if self.first_out == Some(id) {
            if self.writing[id].len() == 0 { None } else { Some(self.writing[id][0]) }
        } else if self.writing[id].len() <= 1 {
            None
        } else {
            Some(self.writing[id][1])
        }
    }

    /// The worker stopped: every socket is gone, with its reader and its queue.
    pub open spec fn stopped(self) -> Self {
        WorkerView { sockets: Set::empty(), reading: Map::empty(), writing: Map::empty(), ..self }
    }
}

/// An event that changes the worker's state, as its methods report it.
pub enum Event<L> {
    /// A socket was created and registered.
    NewSocket,
    /// A socket was destroyed.
    DestroySocket(u64),
    /// A listener asked to read a socket.
    StartRead(u64, L),
    /// A socket is no longer read: the read was aborted, or it failed.
    StopReading(u64),
    /// A message's frames were queued on a socket.
    Queue(u64, Seq<FrameView>),
    /// A frame was received on a socket.
    FrameReceived(u64, FrameView),
    /// A socket is no longer written.
    StopWriting(u64),
    /// A write round began on a socket.
    RoundStarted(u64),
    /// A frame of a write round on a socket was sent, or refused.
    FrameSent(u64, bool),
    /// The worker stopped.
    Stop,
}

impl<L> WorkerView<L> {
    /// The state after one event. A socket is only registered while ids are
    /// left.
    pub open spec fn apply(self, event: Event<L>) -> Self {
        match event {
            Event::NewSocket => if self.next_id < u64::MAX { self.with_new_socket() } else { self },
            Event::DestroySocket(id) => self.without_socket(id),
            Event::StartRead(id, listener) => self.with_reader(id, listener),
            Event::StopReading(id) => self.without_reader(id),
            Event::Queue(id, frames) => self.with_queued(id, frames),
            Event::FrameReceived(id, frame) => self.with_frame(id, frame),
            Event::StopWriting(id) => self.without_writer(id),
            Event::RoundStarted(id) => self.with_round_started(id),
            Event::FrameSent(id, sent) => self.after_sent(id, sent),
            Event::Stop => self.stopped(),
        }
    }

    /// The state after the events, one after the other.
    pub open spec fn run(self, events: Seq<Event<L>>) -> Self
        decreases events.len(),
    {
        if events.len() == 0 {
            self
        } else {
            self.run(events.drop_last()).apply(events.last())
        }
    }

    /// The ids that the sockets registered by the events got, in order.
    pub open spec fn issued(self, events: Seq<Event<L>>) -> Seq<u64>
        decreases events.len(),
    {
        if events.len() == 0 {
            Seq::empty()
        } else {
            let before = self.run(events.drop_last());
            let earlier = self.issued(events.drop_last());
            if events.last() is NewSocket && before.next_id < u64::MAX {
                earlier.push(before.next_id)
            } else {
                earlier
            }
        }
    }
}

/// Whether the event ends the reading of socket `id`.
pub open spec fn ends_reading<L>(event: Event<L>, id: u64) -> bool {
    match event {
        Event::DestroySocket(i) => i == id,
        Event::StopReading(i) => i == id,
        Event::Stop => true,
        _ => false,
    }
}

/// Whether the event asks to read socket `id`.
pub open spec fn starts_reading<L>(event: Event<L>, id: u64) -> bool {
    match event {
        Event::StartRead(i, _) => i == id,
        _ => false,
    }
}

} // verus!
