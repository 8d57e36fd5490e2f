//! The worker's state and the decisions it takes on each request and on each
//! poll result. The I/O itself (polling, receiving, sending, replying) is done
//! by the caller, which hands the outcome back.

use vstd::prelude::*;
use std::collections::{BTreeMap, VecDeque};
use crate::frames::{Frame, FrameView, frames_view, frames_of, message_frames, items_view};
use crate::model::{ReaderView, WorkerView};
use crate::order::{enumerates, sorted_keys};
use crate::frames::{POLLERR, POLLIN, POLLOUT, term_list_items, decoded_view, binary_items, is_binary_list_term, encoded_binaries};
use crate::poll::PollPlan;

verus! {

broadcast use {vstd::std_specs::btree::group_btree_axioms, vstd::laws_cmp::group_laws_cmp};

/// Decodes a written message with rustler: `Env::binary_to_term` on the
/// bytes, which must hold a proper list (`Term::list_length`), then
/// `Term::into_binary` on each item of `Term::into_list_iterator`, an item
/// that is not a binary giving `None`. Whether it succeeds is not stated:
/// the decoding runs in safe mode, which refuses atoms the running VM does
/// not know yet, so it may fail on bytes that later decode. What a successful
/// decoding gives follows the external term format from the bytes alone, and
/// is named by `term_list_items`. Bytes that encode a list of binaries, as
/// `term_to_binary` writes it, hold no atom, so they decode, to those binaries.
#[verifier::external_body]
fn decode_write(message: &[u8]) -> (items: Option<Vec<Option<Vec<u8>>>>)
    ensures
        items matches Some(v) ==> items_view(v@) == term_list_items(message@),
        is_binary_list_term(message@) ==> decoded_view(items) == Some(binary_items(encoded_binaries(message@))),
{
    rustler::OwnedEnv::new().run(|env| {
        let (term, _) = env.binary_to_term(message)?;
        term.list_length().ok()?;
        let list = term.into_list_iterator().ok()?;
        Some(list.map(|x| x.into_binary().ok().map(|b| b.as_slice().to_vec())).collect())
    })
}

struct Reader<L> {
    listener: L,
    frames: Vec<Vec<u8>>,
}

impl<L> View for Reader<L> {
    type V = ReaderView<L>;

    closed spec fn view(&self) -> ReaderView<L> {
        ReaderView { listener: self.listener, frames: self.frames@.map_values(|f: Vec<u8>| f@) }
    }
}

spec fn readers_view<L>(m: Map<u64, Reader<L>>) -> Map<u64, ReaderView<L>> {
    Map::new(|id: u64| m.contains_key(id), |id: u64| m[id]@)
}

spec fn queues_view(m: Map<u64, VecDeque<Frame>>) -> Map<u64, Seq<FrameView>> {
    Map::new(|id: u64| m.contains_key(id), |id: u64| frames_view(m[id]@))
}

proof fn lemma_readers_insert<L>(m: Map<u64, Reader<L>>, id: u64, r: Reader<L>)
    ensures
        readers_view(m.insert(id, r)) == readers_view(m).insert(id, r@),
{
    assert(readers_view(m.insert(id, r)) =~= readers_view(m).insert(id, r@));
}

proof fn lemma_readers_remove<L>(m: Map<u64, Reader<L>>, id: u64)
    ensures
        readers_view(m.remove(id)) == readers_view(m).remove(id),
{
    assert(readers_view(m.remove(id)) =~= readers_view(m).remove(id));
}

proof fn lemma_queues_insert(m: Map<u64, VecDeque<Frame>>, id: u64, q: VecDeque<Frame>)
    ensures
        queues_view(m.insert(id, q)) == queues_view(m).insert(id, frames_view(q@)),
{
    assert(queues_view(m.insert(id, q)) =~= queues_view(m).insert(id, frames_view(q@)));
}

proof fn lemma_queues_remove(m: Map<u64, VecDeque<Frame>>, id: u64)
    ensures
        queues_view(m.remove(id)) == queues_view(m).remove(id),
{
    assert(queues_view(m.remove(id)) =~= queues_view(m).remove(id));
}

/// The worker's state, with no invariant of its own: `Worker` holds one and
/// keeps it well-formed.
struct Core<L, S> {
    next_id: u64,
    retry_errno: i32,
    sockets: BTreeMap<u64, S>,
    reading: BTreeMap<u64, Reader<L>>,
    writing: BTreeMap<u64, VecDeque<Frame>>,
    first_out: Option<u64>,
}

impl<L, S> View for Core<L, S> {
    type V = WorkerView<L>;

    closed spec fn view(&self) -> WorkerView<L> {
        WorkerView {
            next_id: self.next_id,
            retry_errno: self.retry_errno,
            sockets: self.sockets@.dom(),
            reading: readers_view(self.reading@),
            writing: queues_view(self.writing@),
            first_out: self.first_out,
        }
    }
}

impl<L, S> Core<L, S> {
    /// A worker with no sockets; the first socket it registers gets id 1.
    /// `retry_errno` is the errno with which a non-blocking receive reports
    /// that nothing was ready after all (`EAGAIN` on the target).
    fn new(retry_errno: i32) -> (w: Self)
        ensures
            w@ == WorkerView::<L>::initial(retry_errno),
            w.handles() == Map::<u64, S>::empty(),
            w@.wf(),
    {
        let w = Core {
            next_id: 1,
            retry_errno,
            sockets: BTreeMap::new(),
            reading: BTreeMap::new(),
            writing: BTreeMap::new(),
            first_out: None,
        };
        assert(readers_view(w.reading@) =~= Map::empty());
        assert(w.sockets@.dom() =~= Set::empty());
        assert(queues_view(w.writing@) =~= Map::empty());
        w
    }

    /// The handles of the live sockets, by id.
    closed spec fn handles(&self) -> Map<u64, S> {
        self.sockets@
    }

    /// The handle of a live socket.
    fn socket(&self, id: u64) -> (handle: Option<&S>)
        ensures
            match handle {
                Some(h) => self@.sockets.contains(id) && *h == self.handles()[id],
                None => !self@.sockets.contains(id),
            },
    {
        self.sockets.get(&id)
    }

    /// The id that the next socket will get.
    fn next_socket_id(&self) -> (id: u64)
        ensures
            id == self@.next_id,
    {
        self.next_id
    }

    /// The errno with which a non-blocking receive asks to be retried.
    fn retry_errno(&self) -> (errno: i32)
        ensures
            errno == self@.retry_errno,
    {
        self.retry_errno
    }

    /// Whether the socket is live.
    fn has_socket(&self, id: u64) -> (live: bool)
        ensures
            live == self@.sockets.contains(id),
    {
        self.sockets.contains_key(&id)
    }

    /// Whether the socket is read.
    fn is_reading(&self, id: u64) -> (reading: bool)
        ensures
            reading == self@.reading.contains_key(id),
    {
        self.reading.contains_key(&id)
    }

    /// Whether frames wait to be sent on the socket.
    fn is_writing(&self, id: u64) -> (writing: bool)
        ensures
            writing == self@.writing.contains_key(id),
    {
        self.writing.contains_key(&id)
    }

    /// How many frames wait to be sent on the socket.
    fn queued_frames(&self, id: u64) -> (n: usize)
        ensures
            n == self@.pending(id).len(),
    {
        match self.writing.get(&id) {
            Some(q) => q.len(),
            None => 0,
        }
    }

    /// Whom the reader of the socket tells, if the socket is read.
    fn listener(&self, id: u64) -> (listener: Option<&L>)
        ensures
            match listener {
                Some(l) => self@.reading.contains_key(id) && *l == self@.reading[id].listener,
                None => !self@.reading.contains_key(id),
            },
    {
        match self.reading.get(&id) {
            Some(r) => Some(&r.listener),
            None => None,
        }
    }
}

/// What came of a request to start reading a socket.
pub enum StartRead<L> {
    /// The socket is now read; its messages will go to the listener.
    Started,
    /// The socket is already read; the listener is handed back to be told so.
    AlreadyReading(L),
    /// No live socket has this id; the listener is handed back to be told so.
    NotFound(L),
}

/// What came of a request to send a message.
#[derive(PartialEq, Eq, Structural, Debug, Clone, Copy)]
pub enum WriteRequest {
    /// No live socket has this id: the message is dropped.
    NoSocket,
    /// The message was not a list of frames: it is dropped.
    Invalid,
    /// The message's frames wait to be sent.
    Queued,
}

impl<L, S> Core<L, S> {
    /// Registers a socket that was just created, taking its handle, or passes
    /// on the errno with which its creation failed. A new socket gets the
    /// next id.
    fn on_socket_created(&mut self, created: Result<S, i32>) -> (result: Result<u64, i32>)
        requires
            created is Ok ==> old(self)@.next_id < u64::MAX,
        ensures
            old(self)@.wf() ==> final(self)@.wf(),
            match created {
                Ok(handle) => {
                    &&& result == Ok::<u64, i32>(old(self)@.next_id)
                    &&& final(self)@ == old(self)@.with_new_socket()
                    &&& final(self).handles() == old(self).handles().insert(old(self)@.next_id, handle)
                },
                Err(errno) => {
                    &&& result == Err::<u64, i32>(errno)
                    &&& final(self)@ == old(self)@
                    &&& final(self).handles() == old(self).handles()
                },
            },
            result matches Ok(id) ==> {
                &&& final(self)@.sockets == old(self)@.sockets.insert(id)
                &&& final(self)@.next_id == id + 1
                &&& old(self)@.wf() ==> !old(self)@.sockets.contains(id)
            },
    {
        match created {
            Ok(handle) => {
                proof {
                    if self@.wf() {
                        crate::laws::law_new_socket_keeps_wf(self@);
                    }
                }
                let id = self.next_id;
                self.next_id = self.next_id + 1;
                self.sockets.insert(id, handle);
                assert(self@.sockets =~= old(self)@.sockets.insert(id));
                Ok(id)
            },
            Err(errno) => Err(errno),
        }
    }

    /// Destroys a socket: it is no longer live, read or written, and its
    /// handle is handed back to be closed. `None` when it was not live.
    fn destroy_socket(&mut self, id: u64) -> (handle: Option<S>)
        ensures
            old(self)@.wf() ==> final(self)@.wf(),
            final(self).handles() == old(self).handles().remove(id),
            match handle {
                Some(h) => {
                    &&& old(self)@.sockets.contains(id)
                    &&& h == old(self).handles()[id]
                    &&& final(self)@ == old(self)@.without_socket(id)
                },
                None => !old(self)@.sockets.contains(id) && final(self)@ == old(self)@,
            },
            handle is Some ==> {
                &&& !final(self)@.sockets.contains(id)
                &&& !final(self)@.reading.contains_key(id)
                &&& !final(self)@.writing.contains_key(id)
                &&& final(self)@.next_id == old(self)@.next_id
            },
    {
        let handle = self.sockets.remove(&id);
        if handle.is_some() {
            proof {
                lemma_readers_remove(self.reading@, id);
                lemma_queues_remove(self.writing@, id);
            }
            self.reading.remove(&id);
            self.writing.remove(&id);
            assert(self@ =~= old(self)@.without_socket(id));
        } else {
            assert(self@.sockets =~= old(self)@.sockets);
            assert(self.sockets@ =~= old(self).sockets@);
        }
        handle
    }

    /// Starts reading a socket for a listener, unless it is already read or
    /// is not live.
    fn start_read(&mut self, id: u64, listener: L) -> (outcome: StartRead<L>)
        ensures
            final(self).handles() == old(self).handles(),
            old(self)@.wf() ==> final(self)@.wf(),
            final(self)@ == old(self)@.with_reader(id, listener),
            old(self)@.reading.contains_key(id) ==> outcome == StartRead::AlreadyReading(listener),
            !old(self)@.reading.contains_key(id) && !old(self)@.sockets.contains(id)
                ==> outcome == StartRead::NotFound(listener),
            !old(self)@.reading.contains_key(id) && old(self)@.sockets.contains(id)
                ==> outcome == StartRead::<L>::Started,
            outcome is Started ==> {
                &&& final(self)@.reading.contains_key(id)
                &&& final(self)@.reading[id].listener == listener
                &&& final(self)@.reading[id].frames.len() == 0
            },
            outcome is Started <==> (!old(self)@.reading.contains_key(id) && old(self)@.sockets.contains(id)),
    {
        if self.reading.contains_key(&id) {
            StartRead::AlreadyReading(listener)
        } else if !self.sockets.contains_key(&id) {
            StartRead::NotFound(listener)
        } else {
            let r = Reader { listener, frames: Vec::new() };
            proof {
                lemma_readers_insert(self.reading@, id, r);
                assert(r@.frames =~= Seq::<Seq<u8>>::empty());
            }
            self.reading.insert(id, r);
            StartRead::Started
        }
    }

    /// Stops reading a socket.
    fn abort_read(&mut self, id: u64)
        ensures
            final(self).handles() == old(self).handles(),
            old(self)@.wf() ==> final(self)@.wf(),
            final(self)@ == old(self)@.without_reader(id),
    {
        proof {
            lemma_readers_remove(self.reading@, id);
            if self@.wf() {
                crate::laws::law_reading_keeps_wf(self@, id, Seq::empty());
            }
        }
        self.reading.remove(&id);
    }

    /// Queues a message for sending on a live socket. `items` is the message
    /// as decoded by the caller: `None` where it was not a list, else its
    /// items, each a binary or not.
    fn queue_write(&mut self, id: u64, items: Option<Vec<Option<Vec<u8>>>>) -> (outcome: WriteRequest)
        ensures
            final(self).handles() == old(self).handles(),
            old(self)@.wf() ==> final(self)@.wf(),
            !old(self)@.sockets.contains(id) ==> outcome == WriteRequest::NoSocket && final(self)@ == old(self)@,
            old(self)@.sockets.contains(id) && items is None ==> outcome == WriteRequest::Invalid && final(self)@ == old(self)@,
            old(self)@.sockets.contains(id) && items is Some ==> {
                &&& outcome == WriteRequest::Queued
                &&& final(self)@ == old(self)@.with_queued(id, message_frames(items_view(items->0@)))
            },
            outcome == WriteRequest::Queued ==> {
                &&& final(self)@.pending(id) == old(self)@.pending(id) + message_frames(items_view(items->0@))
                &&& final(self)@.writing.contains_key(id)
                &&& final(self)@.reading == old(self)@.reading
                &&& forall|other: u64| other != id ==> #[trigger] final(self)@.pending(other) == old(self)@.pending(other)
            },
    {
        if !self.sockets.contains_key(&id) {
            return WriteRequest::NoSocket;
        }
        match items {
            None => WriteRequest::Invalid,
            Some(items) => {
                let frames = frames_of(items);
                let ghost added = frames_view(frames@);
                proof {
                    if self@.wf() {
                        crate::laws::law_writing_keeps_wf(self@, id, added);
                    }
                }
                let mut q: VecDeque<Frame> = match self.writing.remove(&id) {
                    Some(q) => q,
                    None => VecDeque::new(),
                };
                let ghost before = frames_view(q@);
                assert(before == old(self)@.pending(id));
                let n: usize = frames.len();
                let mut i: usize = 0;
                for f in it: frames.into_iter()
                    invariant
                        n == frames@.len(),
                        it.seq() == frames@,
                        i == it.index(),
                        i <= frames@.len(),
                        frames_view(q@) == before + added.take(i as int),
                        added == frames_view(frames@),
                {
                    proof {
                        assert(f == frames@[i as int]);
                    }
                    let ghost q0 = q@;
                    q.push_back(f);
                    i = i + 1;
                    proof {
                        assert(added[i - 1] == f@);
                        assert(frames_view(q@) =~= frames_view(q0).push(f@));
                        assert(added.take(i as int) =~= added.take(i - 1).push(f@));
                        assert(frames_view(q@) =~= before + added.take(i as int));
                    }
                }
                assert(added.take(i as int) =~= added);
                proof {
                    lemma_queues_remove(old(self).writing@, id);
                    lemma_queues_insert(self.writing@, id, q);
                }
                self.writing.insert(id, q);
                assert(self@.writing =~= old(self)@.writing.insert(id, before + added));
                WriteRequest::Queued
            },
        }
    }

    /// Queues a message written in the external term format: a list whose
    /// items become its frames. On a socket that is not live the message is
    /// dropped undecoded; one that does not decode to a list is dropped as
    /// invalid. Whether the decoding succeeds is up to rustler; what a
    /// successful one queues is the list's items, named by `term_list_items`.
    /// A list of binaries as `term_to_binary` writes it always decodes: its
    /// binaries are queued as one multipart message.
    fn write_encoded(&mut self, id: u64, message: &[u8]) -> (outcome: WriteRequest)
        ensures
            old(self)@.wf() ==> final(self)@.wf(),
            final(self).handles() == old(self).handles(),
            !old(self)@.sockets.contains(id) ==> outcome == WriteRequest::NoSocket && final(self)@ == old(self)@,
            old(self)@.sockets.contains(id) ==> {
                ||| outcome == WriteRequest::Invalid && final(self)@ == old(self)@
                ||| outcome == WriteRequest::Queued
                    && final(self)@ == old(self)@.with_queued(id, message_frames(term_list_items(message@)))
            },
            old(self)@.sockets.contains(id) && is_binary_list_term(message@) ==> {
                &&& outcome == WriteRequest::Queued
                &&& final(self)@ == old(self)@.with_queued(id, message_frames(binary_items(encoded_binaries(message@))))
            },
    {
        if !self.sockets.contains_key(&id) {
            return WriteRequest::NoSocket;
        }
        let items = decode_write(message);
        self.queue_write(id, items)
    }

    /// Whether a bind or connect request is carried out: the socket is live
    /// and the endpoint holds no NUL byte. Otherwise the request is dropped
    /// unanswered.
    fn admits_endpoint(&self, id: u64, endpoint: &[u8]) -> (admitted: bool)
        ensures
            admitted == (self@.sockets.contains(id) && !endpoint@.contains(0u8)),
    {
        self.sockets.contains_key(&id) && crate::frames::endpoint_is_valid(endpoint)
    }

    /// Stops the worker: every socket is dropped, with its handle, its reader
    /// and its queue.
    fn stop(&mut self)
        ensures
            final(self).handles() == Map::<u64, S>::empty(),
            old(self)@.wf() ==> final(self)@.wf(),
            final(self)@ == old(self)@.stopped(),
    {
        self.sockets.clear();
        self.reading.clear();
        self.writing.clear();
        assert(self@.reading =~= Map::empty());
        assert(self@.writing =~= Map::empty());
        assert(self@.sockets =~= Set::empty());
    }
}

/// What to do about a read socket after a poll.
pub enum ReadStep<L> {
    /// Nothing.
    Idle,
    /// Receive a frame from it, without blocking.
    Receive,
    /// It failed: the reader was dropped and is to be told the error code.
    Failed { listener: L, code: i32 },
}

/// What came of a receive on a read socket.
pub enum Delivery<L> {
    /// The socket is not read.
    NotReading,
    /// A frame was kept; more frames of the message follow.
    Incomplete,
    /// The last frame arrived: here is the whole message, for the reader.
    Message(Vec<Vec<u8>>),
    /// Nothing was ready after all; the reader keeps waiting.
    Retry,
    /// The receive failed: the reader was dropped and is to be told the errno.
    Failed { listener: L, code: i32 },
}

/// What to do next on a written socket.
pub enum WriteStep {
    /// Nothing more this round.
    Idle,
    /// Send this frame, without blocking.
    Send(Frame),
}

impl<L, S> Core<L, S> {
    /// What one round of polling covers: the read sockets, then the written
    /// sockets, each in increasing order of id.
    fn poll_plan(&self) -> (plan: PollPlan)
        ensures
            enumerates(plan.readers@, self@.reading.dom()),
            enumerates(plan.writers@, self@.writing.dom()),
            self@.wf() ==> forall|i: int| 0 <= i < plan.readers@.len() ==> self@.sockets.contains(#[trigger] plan.readers@[i]),
            self@.wf() ==> forall|i: int| 0 <= i < plan.writers@.len() ==> self@.sockets.contains(#[trigger] plan.writers@[i]),
    {
        let readers = sorted_keys(&self.reading);
        let writers = sorted_keys(&self.writing);
        assert(self@.reading.dom() =~= self.reading@.dom());
        assert(self@.writing.dom() =~= self.writing@.dom());
        assert forall|i: int| 0 <= i < readers@.len() implies self@.reading.dom().contains(#[trigger] readers@[i]) by {
            assert(readers@.to_set().contains(readers@[i]));
        }
        assert forall|i: int| 0 <= i < writers@.len() implies self@.writing.dom().contains(#[trigger] writers@[i]) by {
            assert(writers@.to_set().contains(writers@[i]));
        }
        PollPlan { readers, writers }
    }

    /// Reads the events reported on a read socket. On an error the reader is
    /// dropped and is to be told error code 0; on input a frame is to be
    /// received.
    fn reader_ready(&mut self, id: u64, revents: i16) -> (step: ReadStep<L>)
        ensures
            final(self).handles() == old(self).handles(),
            old(self)@.wf() ==> final(self)@.wf(),
            !old(self)@.reading.contains_key(id) ==> step == ReadStep::<L>::Idle && final(self)@ == old(self)@,
            old(self)@.reading.contains_key(id) && revents & POLLERR != 0 ==> {
                &&& step == ReadStep::Failed { listener: old(self)@.reading[id].listener, code: 0 }
                &&& final(self)@ == old(self)@.without_reader(id)
            },
            old(self)@.reading.contains_key(id) && revents & POLLERR == 0 && revents & POLLIN != 0
                ==> step == ReadStep::<L>::Receive && final(self)@ == old(self)@,
            old(self)@.reading.contains_key(id) && revents & POLLERR == 0 && revents & POLLIN == 0
                ==> step == ReadStep::<L>::Idle && final(self)@ == old(self)@,
    {
        if !self.reading.contains_key(&id) {
            ReadStep::Idle
        } else if revents & POLLERR != 0 {
            proof {
                lemma_readers_remove(self.reading@, id);
                if self@.wf() {
                    crate::laws::law_reading_keeps_wf(self@, id, Seq::empty());
                }
            }
            let r = self.reading.remove(&id).unwrap();
            ReadStep::Failed { listener: r.listener, code: 0 }
        } else if revents & POLLIN != 0 {
            ReadStep::Receive
        } else {
            ReadStep::Idle
        }
    }

    /// Takes in the outcome of a receive on a read socket: a frame, or the
    /// errno of a failure. A frame followed by more is kept; the last frame
    /// completes the message, which is handed out while the reader keeps
    /// reading. A failure with the retry errno is ignored; any other drops
    /// the reader.
    fn frame_received(&mut self, id: u64, received: Result<Frame, i32>) -> (delivery: Delivery<L>)
        ensures
            final(self).handles() == old(self).handles(),
            old(self)@.wf() ==> final(self)@.wf(),
            !old(self)@.reading.contains_key(id) ==> delivery == Delivery::<L>::NotReading && final(self)@ == old(self)@,
            old(self)@.reading.contains_key(id) && received is Ok ==> {
                &&& final(self)@ == old(self)@.with_frame(id, received->Ok_0@)
                &&& match old(self)@.message_completed_by(id, received->Ok_0@) {
                    Some(message) => delivery matches Delivery::Message(m)
                        && m@.map_values(|f: Vec<u8>| f@) == message,
                    None => delivery == Delivery::<L>::Incomplete,
                }
            },
            old(self)@.reading.contains_key(id) ==> match received {
                Ok(frame) => if frame.more {
                    &&& delivery == Delivery::<L>::Incomplete
                    &&& final(self)@ == old(self)@.with_partial_frame(id, frame.data@)
                } else {
                    &&& delivery matches Delivery::Message(message)
                        && message@.map_values(|f: Vec<u8>| f@) == old(self)@.reading[id].frames.push(frame.data@)
                    &&& final(self)@ == old(self)@.with_delivered(id)
                },
                Err(errno) => if errno == old(self)@.retry_errno {
                    &&& delivery == Delivery::<L>::Retry
                    &&& final(self)@ == old(self)@
                } else {
                    &&& delivery == Delivery::Failed { listener: old(self)@.reading[id].listener, code: errno }
                    &&& final(self)@ == old(self)@.without_reader(id)
                },
            },
            old(self)@.reading.contains_key(id) && received is Ok ==> {
                &&& final(self)@.reading.contains_key(id)
                &&& final(self)@.reading[id].listener == old(self)@.reading[id].listener
                &&& final(self)@.reading[id].frames == if received->Ok_0.more {
                        old(self)@.reading[id].frames.push(received->Ok_0.data@)
                    } else {
                        Seq::<Seq<u8>>::empty()
                    }
                &&& final(self)@.sockets == old(self)@.sockets
                &&& final(self)@.writing == old(self)@.writing
            },
    {
        if !self.reading.contains_key(&id) {
            return Delivery::NotReading;
        }
        proof {
            lemma_readers_remove(self.reading@, id);
        }
        match received {
            Ok(frame) => {
                let r = self.reading.remove(&id).unwrap();
                let ghost kept = r@.frames;
                let mut frames = r.frames;
                let ghost f0 = frames@;
                frames.push(frame.data);
                assert(frames@.map_values(|f: Vec<u8>| f@) =~= kept.push(frame.data@));
                if frame.more {
                    let r2 = Reader { listener: r.listener, frames };
                    proof {
                        lemma_readers_insert(self.reading@, id, r2);
                    }
                    self.reading.insert(id, r2);
                    assert(self@ =~= old(self)@.with_partial_frame(id, frame.data@));
                    Delivery::Incomplete
                } else {
                    let r2 = Reader { listener: r.listener, frames: Vec::new() };
                    proof {
                        lemma_readers_insert(self.reading@, id, r2);
                        assert(r2@.frames =~= Seq::<Seq<u8>>::empty());
                    }
                    self.reading.insert(id, r2);
                    assert(self@ =~= old(self)@.with_delivered(id));
                    Delivery::Message(frames)
                }
            },
            Err(errno) => {
                if errno == self.retry_errno {
                    Delivery::Retry
                } else {
                    let r = self.reading.remove(&id).unwrap();
                    Delivery::Failed { listener: r.listener, code: errno }
                }
            },
        }
    }

    /// Takes the first frame waiting on a written socket off its queue.
    fn take_front(&mut self, id: u64) -> (frame: Frame)
        requires
            old(self)@.writing.contains_key(id),
            old(self)@.writing[id].len() > 0,
        ensures
            final(self).handles() == old(self).handles(),
            frame@ == old(self)@.writing[id][0],
            final(self)@ == old(self)@.with_front_taken(id),
    {
        proof {
            lemma_queues_remove(self.writing@, id);
        }
        let mut q = self.writing.remove(&id).unwrap();
        let frame = q.pop_front().unwrap();
        proof {
            lemma_queues_insert(self.writing@, id, q);
            assert(frames_view(q@) =~= old(self)@.writing[id].drop_first());
        }
        self.writing.insert(id, q);
        assert(self@ =~= old(self)@.with_front_taken(id));
        frame
    }

    /// Stops writing a socket, dropping what waits for it.
    fn drop_writer(&mut self, id: u64)
        ensures
            final(self).handles() == old(self).handles(),
            final(self)@ == old(self)@.without_writer(id),
    {
        proof {
            lemma_queues_remove(self.writing@, id);
        }
        self.writing.remove(&id);
        assert(self@ =~= old(self)@.without_writer(id));
    }

    /// A copy of the first frame waiting on a written socket.
    fn front(&self, id: u64) -> (frame: Frame)
        requires
            self@.writing.contains_key(id),
            self@.writing[id].len() > 0,
        ensures
            frame@ == self@.writing[id][0],
    {
        let q = self.writing.get(&id).unwrap();
        q[0].duplicate()
    }

    /// Reads the events reported on a written socket. On an error the socket
    /// is no longer written and what waited for it is dropped; when it can
    /// take output, a write round begins: its first frame is taken off the
    /// queue to be sent.
    fn writer_ready(&mut self, id: u64, revents: i16) -> (step: WriteStep)
        requires
            old(self)@.writing.contains_key(id) && revents & POLLERR == 0 && revents & POLLOUT != 0
                ==> old(self)@.writing[id].len() > 0,
        ensures
            final(self).handles() == old(self).handles(),
            old(self)@.wf() ==> final(self)@.wf(),
            !old(self)@.writing.contains_key(id) ==> step is Idle && final(self)@ == old(self)@,
            old(self)@.writing.contains_key(id) && revents & POLLERR != 0
                ==> step is Idle && final(self)@ == old(self)@.without_writer(id),
            old(self)@.writing.contains_key(id) && revents & POLLERR == 0 && revents & POLLOUT != 0 ==> {
                &&& step matches WriteStep::Send(frame) && frame@ == old(self)@.writing[id][0]
                &&& final(self)@ == old(self)@.with_round_started(id)
            },
            old(self)@.writing.contains_key(id) && revents & POLLERR == 0 && revents & POLLOUT == 0
                ==> step is Idle && final(self)@ == old(self)@,
    {
        if !self.writing.contains_key(&id) {
            WriteStep::Idle
        } else if revents & POLLERR != 0 {
            self.drop_writer(id);
            WriteStep::Idle
        } else if revents & POLLOUT != 0 {
            let frame = self.take_front(id);
            self.first_out = Some(id);
            WriteStep::Send(frame)
        } else {
            WriteStep::Idle
        }
    }

    /// Takes in whether the last frame handed out in the write round on a
    /// socket was sent. If the round's first frame was refused, or nothing
    /// else waits, the socket is no longer written and what waited for it is
    /// dropped. A later frame leaves the queue once sent, and a refused one
    /// stays for the next round. While frames are left, the next is handed out.
    fn frame_sent(&mut self, id: u64, sent: bool) -> (step: WriteStep)
        ensures
            final(self).handles() == old(self).handles(),
            old(self)@.wf() ==> final(self)@.wf(),
            final(self)@ == old(self)@.after_sent(id, sent),
            match old(self)@.offered_after(id, sent) {
                Some(next) => step matches WriteStep::Send(frame) && frame@ == next,
                None => step is Idle,
            },
            step matches WriteStep::Send(frame) ==> {
                &&& sent
                &&& final(self)@.writing.contains_key(id)
                &&& final(self)@.writing[id].len() > 0
                &&& frame@ == final(self)@.writing[id][0]
            },
    {
        let first = self.first_out == Some(id);
        self.first_out = None;
        if !self.writing.contains_key(&id) {
            return WriteStep::Idle;
        }
        let n = self.queued_frames(id);
        if first {
            if !sent || n == 0 {
                self.drop_writer(id);
                WriteStep::Idle
            } else {
                WriteStep::Send(self.front(id))
            }
        } else if n == 0 || (sent && n == 1) {
            self.drop_writer(id);
            WriteStep::Idle
        } else if !sent {
            WriteStep::Idle
        } else {
            self.take_front(id);
            WriteStep::Send(self.front(id))
        }
    }
}

/// The state of the worker that serves the sockets of one ZeroMQ context.
///
/// `L` is what a reader is told through: the caller's handle on the process to
/// notify and the token to tag its messages with. `S` is the handle of a live
/// socket, which the worker owns: it is dropped when the socket is destroyed
/// or the worker stops. The worker only keeps both.
pub struct Worker<L, S> {
    core: Core<L, S>,
}

impl<L, S> Worker<L, S> {
    /// Every worker is well-formed: only live sockets are read or written,
    /// and the ids of live sockets lie between 1 and the next id.
    #[verifier::type_invariant]
    spec fn well_formed(self) -> bool {
        self.core@.wf()
    }
}

impl<L, S> View for Worker<L, S> {
    type V = WorkerView<L>;

    closed spec fn view(&self) -> WorkerView<L> {
        self.core@
    }
}

impl<L, S> Worker<L, S> {
    /// The handles of the live sockets, by id.
    pub closed spec fn handles(&self) -> Map<u64, S> {
        self.core.handles()
    }

    fn take_core(&mut self) -> (core: Core<L, S>)
        ensures
            core@ == old(self)@,
            core.handles() == old(self).handles(),
            core@.wf(),
    {
        proof {
            use_type_invariant(&*self);
        }
        let mut core = Core::new(0);
        std::mem::swap(&mut core, &mut self.core);
        core
    }

    /// A worker with no sockets; the first socket it registers gets id 1.
    /// `retry_errno` is the errno with which a non-blocking receive reports
    /// that nothing was ready after all (`EAGAIN` on the target).
    pub fn new(retry_errno: i32) -> (w: Self)
        ensures
            w@ == WorkerView::<L>::initial(retry_errno),
            w.handles() == Map::<u64, S>::empty(),
            w@.wf(),
    {
        Worker { core: Core::new(retry_errno) }
    }

    /// The handle of a live socket.
    pub fn socket(&self, id: u64) -> (handle: Option<&S>)
        ensures
            self@.wf(),
            self.handles().dom() == self@.sockets,
            match handle {
                Some(h) => self@.sockets.contains(id) && *h == self.handles()[id],
                None => !self@.sockets.contains(id),
            },
    {
        proof {
            use_type_invariant(self);
        }
        self.core.socket(id)
    }

    /// The id that the next socket will get.
    pub fn next_socket_id(&self) -> (id: u64)
        ensures
            self@.wf(),
            id == self@.next_id,
    {
        proof {
            use_type_invariant(self);
        }
        self.core.next_socket_id()
    }

    /// The errno with which a non-blocking receive asks to be retried.
    pub fn retry_errno(&self) -> (errno: i32)
        ensures
            self@.wf(),
            errno == self@.retry_errno,
    {
        proof {
            use_type_invariant(self);
        }
        self.core.retry_errno()
    }

    /// Whether the socket is live.
    pub fn has_socket(&self, id: u64) -> (live: bool)
        ensures
            self@.wf(),
            live == self@.sockets.contains(id),
    {
        proof {
            use_type_invariant(self);
        }
        self.core.has_socket(id)
    }

    /// Whether the socket is read.
    pub fn is_reading(&self, id: u64) -> (reading: bool)
        ensures
            self@.wf(),
            reading == self@.reading.contains_key(id),
    {
        proof {
            use_type_invariant(self);
        }
        self.core.is_reading(id)
    }

    /// Whether frames wait to be sent on the socket.
    pub fn is_writing(&self, id: u64) -> (writing: bool)
        ensures
            self@.wf(),
            writing == self@.writing.contains_key(id),
    {
        proof {
            use_type_invariant(self);
        }
        self.core.is_writing(id)
    }

    /// How many frames wait to be sent on the socket.
    pub fn queued_frames(&self, id: u64) -> (n: usize)
        ensures
            self@.wf(),
            n == self@.pending(id).len(),
    {
        proof {
            use_type_invariant(self);
        }
        self.core.queued_frames(id)
    }

    /// Whom the reader of the socket tells, if the socket is read.
    pub fn listener(&self, id: u64) -> (listener: Option<&L>)
        ensures
            self@.wf(),
            match listener {
                Some(l) => self@.reading.contains_key(id) && *l == self@.reading[id].listener,
                None => !self@.reading.contains_key(id),
            },
    {
        proof {
            use_type_invariant(self);
        }
        self.core.listener(id)
    }

    /// Registers a socket that was just created, taking its handle, or passes
    /// on the errno with which its creation failed. A new socket gets the
    /// next id.
    pub fn on_socket_created(&mut self, created: Result<S, i32>) -> (result: Result<u64, i32>)
        requires
            created is Ok ==> old(self)@.next_id < u64::MAX,
        ensures
            final(self)@.wf(),
            match created {
                Ok(handle) => {
                    &&& result == Ok::<u64, i32>(old(self)@.next_id)
                    &&& final(self)@ == old(self)@.with_new_socket()
                    &&& final(self).handles() == old(self).handles().insert(old(self)@.next_id, handle)
                },
                Err(errno) => {
                    &&& result == Err::<u64, i32>(errno)
                    &&& final(self)@ == old(self)@
                    &&& final(self).handles() == old(self).handles()
                },
            },
            result matches Ok(id) ==> {
                &&& final(self)@.sockets == old(self)@.sockets.insert(id)
                &&& final(self)@.next_id == id + 1
                &&& !old(self)@.sockets.contains(id)
            },
    {
        let mut core = self.take_core();
        let result = core.on_socket_created(created);
        self.core = core;
        result
    }

    /// Destroys a socket: it is no longer live, read or written, and its
    /// handle is handed back to be closed. `None` when it was not live.
    pub fn destroy_socket(&mut self, id: u64) -> (handle: Option<S>)
        ensures
            final(self)@.wf(),
            final(self).handles() == old(self).handles().remove(id),
            match handle {
                Some(h) => {
                    &&& old(self)@.sockets.contains(id)
                    &&& h == old(self).handles()[id]
                    &&& final(self)@ == old(self)@.without_socket(id)
                },
                None => !old(self)@.sockets.contains(id) && final(self)@ == old(self)@,
            },
            handle is Some ==> {
                &&& !final(self)@.sockets.contains(id)
                &&& !final(self)@.reading.contains_key(id)
                &&& !final(self)@.writing.contains_key(id)
                &&& final(self)@.next_id == old(self)@.next_id
            },
    {
        let mut core = self.take_core();
        let handle = core.destroy_socket(id);
        self.core = core;
        handle
    }

    /// Starts reading a socket for a listener, unless it is already read or
    /// is not live.
    pub fn start_read(&mut self, id: u64, listener: L) -> (outcome: StartRead<L>)
        ensures
            final(self).handles() == old(self).handles(),
            final(self)@.wf(),
            final(self)@ == old(self)@.with_reader(id, listener),
            old(self)@.reading.contains_key(id) ==> outcome == StartRead::AlreadyReading(listener),
            !old(self)@.reading.contains_key(id) && !old(self)@.sockets.contains(id)
                ==> outcome == StartRead::NotFound(listener),
            !old(self)@.reading.contains_key(id) && old(self)@.sockets.contains(id)
                ==> outcome == StartRead::<L>::Started,
            outcome is Started ==> {
                &&& final(self)@.reading.contains_key(id)
                &&& final(self)@.reading[id].listener == listener
                &&& final(self)@.reading[id].frames.len() == 0
            },
            outcome is Started <==> (!old(self)@.reading.contains_key(id) && old(self)@.sockets.contains(id)),
    {
        let mut core = self.take_core();
        let outcome = core.start_read(id, listener);
        self.core = core;
        outcome
    }

    /// Stops reading a socket.
    pub fn abort_read(&mut self, id: u64)
        ensures
            final(self).handles() == old(self).handles(),
            final(self)@.wf(),
            final(self)@ == old(self)@.without_reader(id),
    {
        let mut core = self.take_core();
        core.abort_read(id);
        self.core = core;
    }

    /// Queues a message for sending on a live socket. `items` is the message
    /// as decoded by the caller: `None` where it was not a list, else its
    /// items, each a binary or not.
    pub fn queue_write(&mut self, id: u64, items: Option<Vec<Option<Vec<u8>>>>) -> (outcome: WriteRequest)
        ensures
            final(self).handles() == old(self).handles(),
            final(self)@.wf(),
            !old(self)@.sockets.contains(id) ==> outcome == WriteRequest::NoSocket && final(self)@ == old(self)@,
            old(self)@.sockets.contains(id) && items is None ==> outcome == WriteRequest::Invalid && final(self)@ == old(self)@,
            old(self)@.sockets.contains(id) && items is Some ==> {
                &&& outcome == WriteRequest::Queued
                &&& final(self)@ == old(self)@.with_queued(id, message_frames(items_view(items->0@)))
            },
            outcome == WriteRequest::Queued ==> {
                &&& final(self)@.pending(id) == old(self)@.pending(id) + message_frames(items_view(items->0@))
                &&& final(self)@.writing.contains_key(id)
                &&& final(self)@.reading == old(self)@.reading
                &&& forall|other: u64| other != id ==> #[trigger] final(self)@.pending(other) == old(self)@.pending(other)
            },
    {
        let mut core = self.take_core();
        let outcome = core.queue_write(id, items);
        self.core = core;
        outcome
    }

    /// Queues a message written in the external term format: a list whose
    /// items become its frames. On a socket that is not live the message is
    /// dropped undecoded; one that does not decode to a list is dropped as
    /// invalid. Whether the decoding succeeds is up to rustler; what a
    /// successful one queues is the list's items, named by `term_list_items`.
    /// A list of binaries as `term_to_binary` writes it always decodes: its
    /// binaries are queued as one multipart message.
    pub fn write_encoded(&mut self, id: u64, message: &[u8]) -> (outcome: WriteRequest)
        ensures
            final(self)@.wf(),
            final(self).handles() == old(self).handles(),
            !old(self)@.sockets.contains(id) ==> outcome == WriteRequest::NoSocket && final(self)@ == old(self)@,
            old(self)@.sockets.contains(id) ==> {
                ||| outcome == WriteRequest::Invalid && final(self)@ == old(self)@
                ||| outcome == WriteRequest::Queued
                    && final(self)@ == old(self)@.with_queued(id, message_frames(term_list_items(message@)))
            },
            old(self)@.sockets.contains(id) && is_binary_list_term(message@) ==> {
                &&& outcome == WriteRequest::Queued
                &&& final(self)@ == old(self)@.with_queued(id, message_frames(binary_items(encoded_binaries(message@))))
            },
    {
        let mut core = self.take_core();
        let outcome = core.write_encoded(id, message);
        self.core = core;
        outcome
    }

    /// Whether a bind or connect request is carried out: the socket is live
    /// and the endpoint holds no NUL byte. Otherwise the request is dropped
    /// unanswered.
    pub fn admits_endpoint(&self, id: u64, endpoint: &[u8]) -> (admitted: bool)
        ensures
            self@.wf(),
            admitted == (self@.sockets.contains(id) && !endpoint@.contains(0u8)),
    {
        proof {
            use_type_invariant(self);
        }
        self.core.admits_endpoint(id, endpoint)
    }

    /// Stops the worker: every socket is dropped, with its handle, its reader
    /// and its queue.
    pub fn stop(&mut self)
        ensures
            final(self).handles() == Map::<u64, S>::empty(),
            final(self)@.wf(),
            final(self)@ == old(self)@.stopped(),
    {
        let mut core = self.take_core();
        core.stop();
        self.core = core;
    }

    /// What one round of polling covers: the read sockets, then the written
    /// sockets, each in increasing order of id.
    pub fn poll_plan(&self) -> (plan: PollPlan)
        ensures
            self@.wf(),
            enumerates(plan.readers@, self@.reading.dom()),
            enumerates(plan.writers@, self@.writing.dom()),
            forall|i: int| 0 <= i < plan.readers@.len() ==> self@.sockets.contains(#[trigger] plan.readers@[i]),
            forall|i: int| 0 <= i < plan.writers@.len() ==> self@.sockets.contains(#[trigger] plan.writers@[i]),
    {
        proof {
            use_type_invariant(self);
        }
        self.core.poll_plan()
    }

    /// Reads the events reported on a read socket. On an error the reader is
    /// dropped and is to be told error code 0; on input a frame is to be
    /// received.
    pub fn reader_ready(&mut self, id: u64, revents: i16) -> (step: ReadStep<L>)
        ensures
            final(self).handles() == old(self).handles(),
            final(self)@.wf(),
            !old(self)@.reading.contains_key(id) ==> step == ReadStep::<L>::Idle && final(self)@ == old(self)@,
            old(self)@.reading.contains_key(id) && revents & POLLERR != 0 ==> {
                &&& step == ReadStep::Failed { listener: old(self)@.reading[id].listener, code: 0 }
                &&& final(self)@ == old(self)@.without_reader(id)
            },
            old(self)@.reading.contains_key(id) && revents & POLLERR == 0 && revents & POLLIN != 0
                ==> step == ReadStep::<L>::Receive && final(self)@ == old(self)@,
            old(self)@.reading.contains_key(id) && revents & POLLERR == 0 && revents & POLLIN == 0
                ==> step == ReadStep::<L>::Idle && final(self)@ == old(self)@,
    {
        let mut core = self.take_core();
        let step = core.reader_ready(id, revents);
        self.core = core;
        step
    }

    /// Takes in the outcome of a receive on a read socket: a frame, or the
    /// errno of a failure. A frame followed by more is kept; the last frame
    /// completes the message, which is handed out while the reader keeps
    /// reading. A failure with the retry errno is ignored; any other drops
    /// the reader.
    pub fn frame_received(&mut self, id: u64, received: Result<Frame, i32>) -> (delivery: Delivery<L>)
        ensures
            final(self).handles() == old(self).handles(),
            final(self)@.wf(),
            !old(self)@.reading.contains_key(id) ==> delivery == Delivery::<L>::NotReading && final(self)@ == old(self)@,
            old(self)@.reading.contains_key(id) && received is Ok ==> {
                &&& final(self)@ == old(self)@.with_frame(id, received->Ok_0@)
                &&& match old(self)@.message_completed_by(id, received->Ok_0@) {
                    Some(message) => delivery matches Delivery::Message(m)
                        && m@.map_values(|f: Vec<u8>| f@) == message,
                    None => delivery == Delivery::<L>::Incomplete,
                }
            },
            old(self)@.reading.contains_key(id) ==> match received {
                Ok(frame) => if frame.more {
                    &&& delivery == Delivery::<L>::Incomplete
                    &&& final(self)@ == old(self)@.with_partial_frame(id, frame.data@)
                } else {
                    &&& delivery matches Delivery::Message(message)
                        && message@.map_values(|f: Vec<u8>| f@) == old(self)@.reading[id].frames.push(frame.data@)
                    &&& final(self)@ == old(self)@.with_delivered(id)
                },
                Err(errno) => if errno == old(self)@.retry_errno {
                    &&& delivery == Delivery::<L>::Retry
                    &&& final(self)@ == old(self)@
                } else {
                    &&& delivery == Delivery::Failed { listener: old(self)@.reading[id].listener, code: errno }
                    &&& final(self)@ == old(self)@.without_reader(id)
                },
            },
            old(self)@.reading.contains_key(id) && received is Ok ==> {
                &&& final(self)@.reading.contains_key(id)
                &&& final(self)@.reading[id].listener == old(self)@.reading[id].listener
                &&& final(self)@.reading[id].frames == if received->Ok_0.more {
                        old(self)@.reading[id].frames.push(received->Ok_0.data@)
                    } else {
                        Seq::<Seq<u8>>::empty()
                    }
                &&& final(self)@.sockets == old(self)@.sockets
                &&& final(self)@.writing == old(self)@.writing
            },
    {
        let mut core = self.take_core();
        let delivery = core.frame_received(id, received);
        self.core = core;
        delivery
    }

    /// Reads the events reported on a written socket. On an error the socket
    /// is no longer written and what waited for it is dropped; when it can
    /// take output, a write round begins: its first frame is taken off the
    /// queue to be sent.
    pub fn writer_ready(&mut self, id: u64, revents: i16) -> (step: WriteStep)
        requires
            old(self)@.writing.contains_key(id) && revents & POLLERR == 0 && revents & POLLOUT != 0
                ==> old(self)@.writing[id].len() > 0,
        ensures
            final(self).handles() == old(self).handles(),
            final(self)@.wf(),
            !old(self)@.writing.contains_key(id) ==> step is Idle && final(self)@ == old(self)@,
            old(self)@.writing.contains_key(id) && revents & POLLERR != 0
                ==> step is Idle && final(self)@ == old(self)@.without_writer(id),
            old(self)@.writing.contains_key(id) && revents & POLLERR == 0 && revents & POLLOUT != 0 ==> {
                &&& step matches WriteStep::Send(frame) && frame@ == old(self)@.writing[id][0]
                &&& final(self)@ == old(self)@.with_round_started(id)
            },
            old(self)@.writing.contains_key(id) && revents & POLLERR == 0 && revents & POLLOUT == 0
                ==> step is Idle && final(self)@ == old(self)@,
    {
        let mut core = self.take_core();
        let step = core.writer_ready(id, revents);
        self.core = core;
        step
    }

    /// Takes in whether the last frame handed out in the write round on a
    /// socket was sent. If the round's first frame was refused, or nothing
    /// else waits, the socket is no longer written and what waited for it is
    /// dropped. A later frame leaves the queue once sent, and a refused one
    /// stays for the next round. While frames are left, the next is handed out.
    pub fn frame_sent(&mut self, id: u64, sent: bool) -> (step: WriteStep)
        ensures
            final(self).handles() == old(self).handles(),
            final(self)@.wf(),
            final(self)@ == old(self)@.after_sent(id, sent),
            match old(self)@.offered_after(id, sent) {
                Some(next) => step matches WriteStep::Send(frame) && frame@ == next,
                None => step is Idle,
            },
            step matches WriteStep::Send(frame) ==> {
                &&& sent
                &&& final(self)@.writing.contains_key(id)
                &&& final(self)@.writing[id].len() > 0
                &&& frame@ == final(self)@.writing[id][0]
            },
    {
        let mut core = self.take_core();
        let step = core.frame_sent(id, sent);
        self.core = core;
        step
    }

}

} // verus!
