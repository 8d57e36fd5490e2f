//! Properties of the worker that span several events.

use vstd::prelude::*;
use crate::frames::{FrameView, message_frames, binary_items};
use crate::model::{Event, WorkerView, ends_reading, starts_reading};

verus! {

/// Registering a new socket keeps the worker well-formed.
pub proof fn law_new_socket_keeps_wf<L>(s: WorkerView<L>)
    requires
        s.wf(),
        s.next_id < u64::MAX,
    ensures
        s.with_new_socket().wf(),
{
}

/// Destroying a socket, and stopping, keep the worker well-formed.
pub proof fn law_socket_removal_keeps_wf<L>(s: WorkerView<L>, id: u64)
    requires
        s.wf(),
    ensures
        s.without_socket(id).wf(),
        s.stopped().wf(),
{
}

/// Starting to read a socket keeps the worker well-formed.
pub proof fn law_start_read_keeps_wf<L>(s: WorkerView<L>, id: u64, listener: L)
    requires
        s.wf(),
    ensures
        s.with_reader(id, listener).wf(),
{
}

/// Receiving frames, handing out a message and dropping a reader keep the
/// worker well-formed.
pub proof fn law_reading_keeps_wf<L>(s: WorkerView<L>, id: u64, data: Seq<u8>)
    requires
        s.wf(),
    ensures
        s.with_partial_frame(id, data).wf(),
        s.with_delivered(id).wf(),
        s.without_reader(id).wf(),
{
}

/// Queuing frames, taking a frame off a queue and dropping a queue keep the
/// worker well-formed.
pub proof fn law_writing_keeps_wf<L>(s: WorkerView<L>, id: u64, frames: Seq<FrameView>)
    requires
        s.wf(),
    ensures
        s.with_queued(id, frames).wf(),
        s.with_front_taken(id).wf(),
        s.with_round_started(id).wf(),
        s.after_sent(id, true).wf(),
        s.after_sent(id, false).wf(),
        s.without_writer(id).wf(),
{
}

/// A new socket gets an id that no live socket has, and the next id grows,
/// so an id is never handed out twice.
pub proof fn law_socket_ids_are_fresh<L>(s: WorkerView<L>)
    requires
        s.wf(),
        s.next_id < u64::MAX,
    ensures
        !s.sockets.contains(s.next_id),
        s.with_new_socket().sockets.contains(s.next_id),
        s.with_new_socket().next_id > s.next_id,
{
}

/// Aborting a read that was just started on a socket that was not read
/// leaves the worker as it was.
pub proof fn law_abort_undoes_start<L>(s: WorkerView<L>, id: u64, listener: L)
    requires
        !s.reading.contains_key(id),
    ensures
        s.with_reader(id, listener).without_reader(id) == s,
{
    assert(s.with_reader(id, listener).without_reader(id).reading =~= s.reading);
}

/// A destroyed socket is forgotten: it is not live, read or written, and a
/// later read or write on its id changes nothing.
pub proof fn law_destroyed_socket_is_forgotten<L>(
    s: WorkerView<L>,
    id: u64,
    listener: L,
    frames: Seq<FrameView>,
)
    ensures
        !s.without_socket(id).sockets.contains(id),
        !s.without_socket(id).reading.contains_key(id),
        !s.without_socket(id).writing.contains_key(id),
        s.without_socket(id).with_reader(id, listener) == s.without_socket(id),
        s.without_socket(id).with_queued(id, frames) == s.without_socket(id),
{
}

/// Two messages queued on a socket wait in the order they were queued, as if
/// their frames had been queued at once.
pub proof fn law_writes_queue_in_order<L>(
    s: WorkerView<L>,
    id: u64,
    first: Seq<FrameView>,
    second: Seq<FrameView>,
)
    ensures
        s.with_queued(id, first).with_queued(id, second) == s.with_queued(id, first + second),
{
    if s.sockets.contains(id) {
        assert(s.pending(id) + first + second =~= s.pending(id) + (first + second));
        assert(s.with_queued(id, first).with_queued(id, second).writing
            =~= s.with_queued(id, first + second).writing);
    }
}

/// Frames leave a socket's queue from the front: once a frame is taken, what
/// waits is what waited before, without its first frame.
pub proof fn law_frames_leave_in_order<L>(s: WorkerView<L>, id: u64)
    requires
        s.writing.contains_key(id),
    ensures
        s.with_front_taken(id).pending(id) == s.pending(id).drop_first(),
{
}

/// An outgoing message becomes one frame per item, and every frame but the
/// last announces that more follow, so the message goes out as one multipart
/// message.
pub proof fn law_message_is_one_multipart(items: Seq<Option<Seq<u8>>>)
    ensures
        message_frames(items).len() == items.len(),
        forall|i: int| 0 <= i < items.len() - 1 ==> #[trigger] message_frames(items)[i].more,
        items.len() > 0 ==> !message_frames(items)[items.len() - 1].more,
{
}

/// The state after the frames `parts`, each followed by more, were received
/// one after the other on socket `id`.
pub open spec fn after_parts<L>(s: WorkerView<L>, id: u64, parts: Seq<Seq<u8>>) -> WorkerView<L>
    decreases parts.len(),
{
    if parts.len() == 0 {
        s
    } else {
        after_parts(s, id, parts.drop_last()).with_partial_frame(id, parts.last())
    }
}

/// Receiving frames that are followed by more keeps them after those already
/// received, in order, and changes nothing else.
pub proof fn law_parts_accumulate<L>(s: WorkerView<L>, id: u64, parts: Seq<Seq<u8>>)
    requires
        s.reading.contains_key(id),
    ensures
        after_parts(s, id, parts).reading.contains_key(id),
        after_parts(s, id, parts).reading[id].frames == s.reading[id].frames + parts,
        after_parts(s, id, parts).reading[id].listener == s.reading[id].listener,
        after_parts(s, id, parts).reading.dom() == s.reading.dom(),
        after_parts(s, id, parts).sockets == s.sockets,
        after_parts(s, id, parts).writing == s.writing,
    decreases parts.len(),
{
    if parts.len() > 0 {
        law_parts_accumulate(s, id, parts.drop_last());
        assert(s.reading[id].frames + parts.drop_last() + seq![parts.last()] =~= s.reading[id].frames + parts);
        let t = after_parts(s, id, parts.drop_last());
        assert(t.with_partial_frame(id, parts.last()).reading.dom() =~= t.reading.dom());
    }
}

/// A message is handed to its reader whole: when a reader with nothing
/// received gets the frames `parts`, each followed by more, and then the
/// frame `last`, the message handed out is `parts` then `last`, and the
/// reader is left with nothing received, ready for the next message.
pub proof fn law_message_delivered_whole<L>(s: WorkerView<L>, id: u64, parts: Seq<Seq<u8>>, last: Seq<u8>)
    requires
        s.reading.contains_key(id),
        s.reading[id].frames.len() == 0,
    ensures
        after_parts(s, id, parts).reading[id].frames.push(last) == parts.push(last),
        after_parts(s, id, parts).with_delivered(id).reading[id].frames.len() == 0,
        after_parts(s, id, parts).with_delivered(id).reading[id].listener == s.reading[id].listener,
{
    law_parts_accumulate(s, id, parts);
    assert(s.reading[id].frames + parts =~= parts);
}

/// The worker stays well-formed over any sequence of events: every read or
/// written socket is live, and every live id lies between 1 and the next id.
pub proof fn law_run_keeps_wf<L>(s: WorkerView<L>, events: Seq<Event<L>>)
    requires
        s.wf(),
    ensures
        s.run(events).wf(),
    decreases events.len(),
{
    if events.len() > 0 {
        law_run_keeps_wf(s, events.drop_last());
        let t = s.run(events.drop_last());
        match events.last() {
            Event::NewSocket => if t.next_id < u64::MAX { law_new_socket_keeps_wf(t); },
            Event::DestroySocket(id) => law_socket_removal_keeps_wf(t, id),
            Event::StartRead(id, listener) => law_start_read_keeps_wf(t, id, listener),
            Event::StopReading(id) => law_reading_keeps_wf(t, id, Seq::empty()),
            Event::Queue(id, frames) => law_writing_keeps_wf(t, id, frames),
            Event::FrameReceived(id, frame) => law_reading_keeps_wf(t, id, frame.data),
            Event::StopWriting(id) => law_writing_keeps_wf(t, id, Seq::empty()),
            Event::RoundStarted(id) => law_writing_keeps_wf(t, id, Seq::empty()),
            Event::FrameSent(id, _) => law_writing_keeps_wf(t, id, Seq::empty()),
            Event::Stop => law_socket_removal_keeps_wf(t, 0),
        }
    }
}

/// Over any sequence of events, sockets get consecutive ids from the next id
/// on, in the order they are registered: from a fresh worker 1, 2, 3, ...
/// The next id only grows, and no id that was live before is handed out.
pub proof fn law_ids_are_consecutive<L>(s: WorkerView<L>, events: Seq<Event<L>>)
    requires
        s.wf(),
    ensures
        forall|i: int| 0 <= i < s.issued(events).len() ==> s.issued(events)[i] == s.next_id + i,
        s.run(events).next_id == s.next_id + s.issued(events).len(),
        forall|i: int| 0 <= i < s.issued(events).len() ==> !s.sockets.contains(#[trigger] s.issued(events)[i]),
    decreases events.len(),
{
    if events.len() > 0 {
        law_ids_are_consecutive(s, events.drop_last());
    }
}

/// An id that was handed out and is no longer live stays dead over any
/// sequence of events: it is never live, read or written again.
pub proof fn law_destroyed_id_stays_dead<L>(s: WorkerView<L>, id: u64, events: Seq<Event<L>>)
    requires
        s.wf(),
        id < s.next_id,
        !s.sockets.contains(id),
    ensures
        !s.run(events).sockets.contains(id),
        !s.run(events).reading.contains_key(id),
        !s.run(events).writing.contains_key(id),
        id < s.run(events).next_id,
    decreases events.len(),
{
    law_run_keeps_wf(s, events);
    if events.len() > 0 {
        law_destroyed_id_stays_dead(s, id, events.drop_last());
    }
}

/// A reader keeps its socket, and its listener, over any sequence of events
/// that neither aborts the read, nor fails it, nor destroys the socket, nor
/// stops the worker: every message received meanwhile goes to that listener.
pub proof fn law_reader_persists<L>(s: WorkerView<L>, id: u64, events: Seq<Event<L>>)
    requires
        s.reading.contains_key(id),
        forall|i: int| 0 <= i < events.len() ==> !ends_reading(#[trigger] events[i], id),
    ensures
        s.run(events).reading.contains_key(id),
        s.run(events).reading[id].listener == s.reading[id].listener,
    decreases events.len(),
{
    if events.len() > 0 {
        assert(!ends_reading(events[events.len() - 1], id));
        law_reader_persists(s, id, events.drop_last());
    }
}

/// Once a socket is not read, no message reaches a reader of it over any
/// sequence of events until a new read is started on it.
pub proof fn law_no_reader_until_restarted<L>(s: WorkerView<L>, id: u64, events: Seq<Event<L>>)
    requires
        !s.reading.contains_key(id),
        forall|i: int| 0 <= i < events.len() ==> !starts_reading(#[trigger] events[i], id),
    ensures
        !s.run(events).reading.contains_key(id),
    decreases events.len(),
{
    if events.len() > 0 {
        assert(!starts_reading(events[events.len() - 1], id));
        law_no_reader_until_restarted(s, id, events.drop_last());
    }
}

/// The state after a write round on socket `id` began and its frames were
/// sent or refused as `results` says, one after the other.
pub open spec fn write_round<L>(s: WorkerView<L>, id: u64, results: Seq<bool>) -> WorkerView<L>
    decreases results.len(),
{
    if results.len() == 0 {
        s.with_round_started(id)
    } else {
        write_round(s, id, results.drop_last()).after_sent(id, results.last())
    }
}

/// `k` successful sends.
pub open spec fn all_sent(k: nat) -> Seq<bool> {
    Seq::new(k, |i: int| true)
}

proof fn lemma_round_sends_in_order<L>(s: WorkerView<L>, id: u64, k: nat)
    requires
        s.writing.contains_key(id),
        1 <= k < s.writing[id].len(),
    ensures
        write_round(s, id, all_sent(k)).writing.contains_key(id),
        write_round(s, id, all_sent(k)).writing[id] == s.writing[id].skip(k as int),
        write_round(s, id, all_sent(k)).first_out is None,
        write_round(s, id, all_sent(k)).reading == s.reading,
        write_round(s, id, all_sent(k)).sockets == s.sockets,
    decreases k,
{
    assert(all_sent(k).drop_last() =~= all_sent((k - 1) as nat));
    if k == 1 {
        assert(all_sent(0) =~= Seq::<bool>::empty());
        assert(s.writing[id].drop_first() =~= s.writing[id].skip(1));
    } else {
        lemma_round_sends_in_order(s, id, (k - 1) as nat);
        assert(s.writing[id].skip(k - 1).drop_first() =~= s.writing[id].skip(k as int));
    }
}

/// A write round sends a socket's frames in order, stopping at the first
/// that is refused. Its first frame is the head of the queue. If that one is
/// refused, the socket is no longer written. After `k` frames were sent and
/// before all were, the next to send is the `k`-th, and the rest wait; a
/// frame refused then stays queued, with those after it. Once every frame
/// was sent, the socket is no longer written. Nothing but the socket's queue
/// changes.
pub proof fn law_write_round<L>(s: WorkerView<L>, id: u64, k: nat)
    requires
        s.writing.contains_key(id),
        1 <= k <= s.writing[id].len(),
    ensures
        !write_round(s, id, seq![false]).writing.contains_key(id),
        k < s.writing[id].len() ==> {
            &&& write_round(s, id, all_sent(k)).writing[id] == s.writing[id].skip(k as int)
            &&& write_round(s, id, all_sent((k - 1) as nat)).offered_after(id, true) == Some(s.writing[id][k as int])
            &&& write_round(s, id, all_sent(k).push(false)).writing[id] == s.writing[id].skip(k as int)
        },
        k == s.writing[id].len() ==> !write_round(s, id, all_sent(k)).writing.contains_key(id),
        write_round(s, id, all_sent(k)).reading == s.reading,
        write_round(s, id, all_sent(k)).sockets == s.sockets,
{
    let q = s.writing[id];
    assert(seq![false].drop_last() =~= Seq::<bool>::empty());
    assert(seq![false].last() == false);
    assert(seq![false].len() == 1);
    assert(write_round(s, id, Seq::<bool>::empty()) == s.with_round_started(id));
    assert(write_round(s, id, seq![false]) == s.with_round_started(id).after_sent(id, false));
    assert(all_sent(k).drop_last() =~= all_sent((k - 1) as nat));
    assert(all_sent(k).push(false).drop_last() =~= all_sent(k));
    if k == 1 {
        assert(all_sent(0) =~= Seq::<bool>::empty());
        assert(q.drop_first() =~= q.skip(1));
        if k < q.len() {
            lemma_round_sends_in_order(s, id, k);
        }
    } else {
        lemma_round_sends_in_order(s, id, (k - 1) as nat);
        let r = write_round(s, id, all_sent((k - 1) as nat));
        assert(r.writing[id][0] == q[k - 1]);
        assert(r.writing[id].len() == q.len() - (k - 1));
        if k < q.len() {
            lemma_round_sends_in_order(s, id, k);
            assert(r.writing[id][1] == q[k as int]);
        }
    }
}

/// The state after the frames were received one after the other on socket
/// `id`, and the messages handed out meanwhile, in order.
pub open spec fn receive_run<L>(s: WorkerView<L>, id: u64, frames: Seq<FrameView>)
    -> (WorkerView<L>, Seq<Seq<Seq<u8>>>)
    decreases frames.len(),
{
    if frames.len() == 0 {
        (s, Seq::empty())
    } else {
        let (t, messages) = receive_run(s, id, frames.drop_last());
        let f = frames.last();
        (t.with_frame(id, f), match t.message_completed_by(id, f) {
            Some(m) => messages.push(m),
            None => messages,
        })
    }
}

/// How a stream of frames splits into whole messages, each ending at a frame
/// that is not followed by more, and the frames of the message still open.
pub open spec fn split_messages(frames: Seq<FrameView>) -> (Seq<Seq<Seq<u8>>>, Seq<Seq<u8>>)
    decreases frames.len(),
{
    if frames.len() == 0 {
        (Seq::empty(), Seq::empty())
    } else {
        let (messages, open) = split_messages(frames.drop_last());
        let f = frames.last();
        if f.more {
            (messages, open.push(f.data))
        } else {
            (messages.push(open.push(f.data)), Seq::empty())
        }
    }
}

/// Every message received on a read socket reaches its reader whole, in
/// order and once: a reader with nothing received that receives a stream of
/// frames is handed exactly the stream's whole messages, keeps the frames of
/// the one still open, and stays the socket's reader.
pub proof fn law_every_message_delivered_whole<L>(s: WorkerView<L>, id: u64, frames: Seq<FrameView>)
    requires
        s.reading.contains_key(id),
        s.reading[id].frames.len() == 0,
    ensures
        receive_run(s, id, frames).0.reading.contains_key(id),
        receive_run(s, id, frames).0.reading[id].listener == s.reading[id].listener,
        receive_run(s, id, frames).0.reading[id].frames == split_messages(frames).1,
        receive_run(s, id, frames).1 == split_messages(frames).0,
        receive_run(s, id, frames).0.sockets == s.sockets,
        receive_run(s, id, frames).0.writing == s.writing,
    decreases frames.len(),
{
    if frames.len() == 0 {
        assert(s.reading[id].frames =~= Seq::<Seq<u8>>::empty());
    } else {
        law_every_message_delivered_whole(s, id, frames.drop_last());
    }
}

/// The frames received on socket `id` among the events, in order.
pub open spec fn frames_on<L>(events: Seq<Event<L>>, id: u64) -> Seq<FrameView>
    decreases events.len(),
{
    if events.len() == 0 {
        Seq::empty()
    } else {
        let earlier = frames_on(events.drop_last(), id);
        match events.last() {
            Event::FrameReceived(i, frame) => if i == id { earlier.push(frame) } else { earlier },
            _ => earlier,
        }
    }
}

/// The messages handed to the reader of socket `id` while the events happen,
/// in order.
pub open spec fn messages_on<L>(s: WorkerView<L>, events: Seq<Event<L>>, id: u64) -> Seq<Seq<Seq<u8>>>
    decreases events.len(),
{
    if events.len() == 0 {
        Seq::empty()
    } else {
        let earlier = messages_on(s, events.drop_last(), id);
        let before = s.run(events.drop_last());
        match events.last() {
            Event::FrameReceived(i, frame) => if i == id {
                match before.message_completed_by(id, frame) {
                    Some(m) => earlier.push(m),
                    None => earlier,
                }
            } else {
                earlier
            },
            _ => earlier,
        }
    }
}

/// Every message received on a read socket reaches its reader whole, in
/// order and once, whatever else happens meanwhile on other sockets or on
/// the write side: until the read is aborted or fails, the socket is
/// destroyed or the worker stops, the messages handed out on the socket are
/// exactly the whole messages among the frames it received, the frames of
/// the one still open are kept, and the reader and its listener stay.
pub proof fn law_messages_delivered_amid_events<L>(s: WorkerView<L>, id: u64, events: Seq<Event<L>>)
    requires
        s.reading.contains_key(id),
        s.reading[id].frames.len() == 0,
        forall|i: int| 0 <= i < events.len() ==> !ends_reading(#[trigger] events[i], id),
    ensures
        s.run(events).reading.contains_key(id),
        s.run(events).reading[id].listener == s.reading[id].listener,
        s.run(events).reading[id].frames == split_messages(frames_on(events, id)).1,
        messages_on(s, events, id) == split_messages(frames_on(events, id)).0,
    decreases events.len(),
{
    if events.len() == 0 {
        assert(s.reading[id].frames =~= Seq::<Seq<u8>>::empty());
    } else {
        let last = events[events.len() - 1];
        assert(!ends_reading(last, id));
        law_messages_delivered_amid_events(s, id, events.drop_last());
        let fs = frames_on(events.drop_last(), id);
        match last {
            Event::FrameReceived(i, frame) => {
                if i == id {
                    assert(frames_on(events, id) == fs.push(frame));
                    assert(fs.push(frame).drop_last() =~= fs);
                }
            },
            _ => {},
        }
    }
}

/// Starting a read on a live socket that is not read registers the listener
/// on it, with nothing received, and changes nothing else; on any other
/// socket it changes nothing at all.
pub proof fn law_start_read_registers<L>(s: WorkerView<L>, id: u64, listener: L)
    ensures
        s.sockets.contains(id) && !s.reading.contains_key(id) ==> {
            let t = s.with_reader(id, listener);
            &&& t.reading.contains_key(id)
            &&& t.reading[id].listener == listener
            &&& t.reading[id].frames.len() == 0
            &&& t.reading.remove(id) == s.reading
            &&& t.sockets == s.sockets
            &&& t.writing == s.writing
            &&& t.next_id == s.next_id
        },
        !s.sockets.contains(id) || s.reading.contains_key(id) ==> s.with_reader(id, listener) == s,
{
    if s.sockets.contains(id) && !s.reading.contains_key(id) {
        let t = s.with_reader(id, listener);
        assert(t.reading.remove(id) =~= s.reading);
    }
}

/// Each frame of an outgoing message carries its item's bytes unchanged (no
/// bytes where the item is not a binary), and every frame but the last
/// announces that more follow.
pub proof fn law_frames_carry_items(items: Seq<Option<Seq<u8>>>)
    ensures
        message_frames(items).len() == items.len(),
        forall|i: int| 0 <= i < items.len() ==> {
            &&& (#[trigger] message_frames(items)[i]).data == match items[i] {
                Some(bytes) => bytes,
                None => Seq::<u8>::empty(),
            }
            &&& message_frames(items)[i].more == (i + 1 < items.len())
        },
{
}

/// A written list of binaries is queued as one multipart message whose
/// frames are the binaries, in order, each marked as followed by more but
/// the last.
pub proof fn law_binary_list_is_queued_whole(bins: Seq<Seq<u8>>)
    ensures
        message_frames(binary_items(bins)).len() == bins.len(),
        forall|i: int| 0 <= i < bins.len() ==> {
            &&& (#[trigger] message_frames(binary_items(bins))[i]).data == bins[i]
            &&& message_frames(binary_items(bins))[i].more == (i + 1 < bins.len())
        },
{
}

/// A write round ends with the queue's last frame: once every frame of the
/// queue was sent, no frame is offered again and the socket is no longer
/// written, so each frame goes out once.
pub proof fn law_round_ends_after_last_frame<L>(s: WorkerView<L>, id: u64)
    requires
        s.writing.contains_key(id),
        s.writing[id].len() >= 1,
    ensures
        write_round(s, id, all_sent((s.writing[id].len() - 1) as nat)).offered_after(id, true) is None,
        !write_round(s, id, all_sent(s.writing[id].len() as nat)).writing.contains_key(id),
{
    let n = s.writing[id].len();
    law_write_round(s, id, n as nat);
    if n == 1 {
        assert(all_sent(0) =~= Seq::<bool>::empty());
        assert(s.writing[id].drop_first().len() == 0);
    } else {
        lemma_round_sends_in_order(s, id, (n - 1) as nat);
    }
}

/// Queuing frames on a live socket appends them after those waiting there
/// and touches no other socket's queue, nor any reader; on a socket that is
/// not live it changes nothing.
pub proof fn law_queue_appends<L>(s: WorkerView<L>, id: u64, frames: Seq<FrameView>, other: u64)
    ensures
        s.sockets.contains(id) ==> s.with_queued(id, frames).pending(id) == s.pending(id) + frames,
        s.sockets.contains(id) ==> s.with_queued(id, frames).writing.contains_key(id),
        other != id ==> s.with_queued(id, frames).pending(other) == s.pending(other),
        other != id ==> (s.with_queued(id, frames).writing.contains_key(other) == s.writing.contains_key(other)),
        s.with_queued(id, frames).reading == s.reading,
        s.with_queued(id, frames).sockets == s.sockets,
        !s.sockets.contains(id) ==> s.with_queued(id, frames) == s,
{
}

/// Destroying a socket leaves every other socket as it was: live or not,
/// its reader and its queue.
pub proof fn law_destroy_spares_others<L>(s: WorkerView<L>, id: u64, other: u64)
    requires
        other != id,
    ensures
        s.without_socket(id).sockets.contains(other) == s.sockets.contains(other),
        s.without_socket(id).reading.contains_key(other) == s.reading.contains_key(other),
        s.reading.contains_key(other) ==> s.without_socket(id).reading[other] == s.reading[other],
        s.without_socket(id).pending(other) == s.pending(other),
{
}

/// The messages one after the other, each as its frames.
pub open spec fn concat_messages(messages: Seq<Seq<Seq<u8>>>) -> Seq<Seq<u8>>
    decreases messages.len(),
{
    if messages.len() == 0 {
        Seq::empty()
    } else {
        concat_messages(messages.drop_last()) + messages.last()
    }
}

/// Splitting a stream of frames into messages loses, adds and reorders no
/// frame: the whole messages one after the other, then the open one, are the
/// stream's frames; and every whole message has at least one frame.
pub proof fn law_split_keeps_every_frame(frames: Seq<FrameView>)
    ensures
        concat_messages(split_messages(frames).0) + split_messages(frames).1
            == frames.map_values(|f: FrameView| f.data),
        forall|i: int| 0 <= i < split_messages(frames).0.len() ==> #[trigger] split_messages(frames).0[i].len() > 0,
    decreases frames.len(),
{
    if frames.len() > 0 {
        law_split_keeps_every_frame(frames.drop_last());
        let (ms, open) = split_messages(frames.drop_last());
        let f = frames.last();
        assert(frames.drop_last().map_values(|f: FrameView| f.data).push(f.data)
            =~= frames.map_values(|f: FrameView| f.data));
        if f.more {
            assert(concat_messages(ms) + open.push(f.data) =~= (concat_messages(ms) + open).push(f.data));
        } else {
            assert(ms.push(open.push(f.data)).drop_last() =~= ms);
            assert(concat_messages(ms) + open.push(f.data) + Seq::<Seq<u8>>::empty()
                =~= (concat_messages(ms) + open).push(f.data));
        }
    } else {
        assert(frames.map_values(|f: FrameView| f.data) =~= Seq::<Seq<u8>>::empty());
    }
}

/// Stopping forgets every socket, reader and queue, and keeps the next id,
/// so ids are not reused after a stop either.
pub proof fn law_stop_forgets_everything<L>(s: WorkerView<L>)
    ensures
        s.stopped().sockets.is_empty(),
        s.stopped().reading.dom().is_empty(),
        s.stopped().writing.dom().is_empty(),
        s.stopped().next_id == s.next_id,
{
}

} // verus!
