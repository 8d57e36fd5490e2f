//! Message frames, how an outgoing multipart message is cut into them, and
//! the flags that the ZeroMQ calls take.

use vstd::prelude::*;

verus! {

/// `ZMQ_POLLIN`: the socket or descriptor has input ready.
pub const POLLIN: i16 = 1;

/// `ZMQ_POLLOUT`: a message can be sent without blocking.
pub const POLLOUT: i16 = 2;

/// `ZMQ_POLLERR`: an error condition is pending.
pub const POLLERR: i16 = 4;

/// `ZMQ_DONTWAIT`: send or receive without blocking.
pub const DONTWAIT: i32 = 1;

/// `ZMQ_SNDMORE`: more frames of the same message follow.
pub const SNDMORE: i32 = 2;

/// One frame of a multipart message: its bytes, and whether more frames of
/// the same message follow it.
pub struct Frame {
    pub data: Vec<u8>,
    pub more: bool,
}

/// The mathematical value of a [`Frame`].
pub struct FrameView {
    pub data: Seq<u8>,
    pub more: bool,
}

impl View for Frame {
    type V = FrameView;

    open spec fn view(&self) -> FrameView {
        FrameView { data: self.data@, more: self.more }
    }
}

impl Frame {
    /// A copy of the frame.
    pub fn duplicate(&self) -> (copy: Frame)
        ensures
            copy@ == self@,
    {
        Frame { data: self.data.clone(), more: self.more }
    }
}

/// The frame that the `i`-th of `n` items of an outgoing message becomes:
/// its bytes (none where the item is not a binary), and `more` on every
/// frame but the last.
pub open spec fn item_frame(item: Option<Seq<u8>>, i: int, n: int) -> FrameView {
    FrameView {
        data: match item {
            Some(bytes) => bytes,
            None => Seq::empty(),
        },
        more: i + 1 != n,
    }
}

/// The frames of an outgoing message whose items are `items`.
pub open spec fn message_frames(items: Seq<Option<Seq<u8>>>) -> Seq<FrameView> {
    Seq::new(items.len(), |i: int| item_frame(items[i], i, items.len() as int))
}

/// The bytes of an item, by view.
pub open spec fn item_view(item: Option<Vec<u8>>) -> Option<Seq<u8>> {
    match item {
        Some(bytes) => Some(bytes@),
        None => None,
    }
}

/// The items of a message, by view.
pub open spec fn items_view(items: Seq<Option<Vec<u8>>>) -> Seq<Option<Seq<u8>>> {
    items.map_values(|item: Option<Vec<u8>>| item_view(item))
}

/// The items of a list encoded in the external term format, as rustler
/// decodes them when it can: each item's bytes where it is a binary, `None`
/// where it is not.
pub uninterp spec fn term_list_items(bytes: Seq<u8>) -> Seq<Option<Seq<u8>>>;

/// The four bytes of `n` in big-endian order.
pub open spec fn be32(n: nat) -> Seq<u8> {
    seq![(n / 0x1000000 % 256) as u8, (n / 0x10000 % 256) as u8, (n / 0x100 % 256) as u8, (n % 256) as u8]
}

/// A binary in the external term format (`BINARY_EXT`): tag 109, its length
/// in four big-endian bytes, then its bytes.
pub open spec fn binary_ext(bytes: Seq<u8>) -> Seq<u8> {
    seq![109u8] + be32(bytes.len()) + bytes
}

/// The binaries one after the other in the external term format.
pub open spec fn binary_elements(bins: Seq<Seq<u8>>) -> Seq<u8>
    decreases bins.len(),
{
    if bins.len() == 0 {
        Seq::empty()
    } else {
        binary_elements(bins.drop_last()) + binary_ext(bins.last())
    }
}

/// A list of binaries as `term_to_binary` writes it: the version byte 131,
/// then `NIL_EXT` (106) for the empty list, else `LIST_EXT` (108), the
/// list's length in four big-endian bytes, its elements, and a `NIL_EXT` tail.
pub open spec fn binary_list_term(bins: Seq<Seq<u8>>) -> Seq<u8> {
    if bins.len() == 0 {
        seq![131u8, 106u8]
    } else {
        seq![131u8, 108u8] + be32(bins.len()) + binary_elements(bins) + seq![106u8]
    }
}

/// The list and each of its binaries are short enough for four-byte lengths.
pub open spec fn fits_term(bins: Seq<Seq<u8>>) -> bool {
    &&& bins.len() < 0x1_0000_0000
    &&& forall|i: int| 0 <= i < bins.len() ==> #[trigger] bins[i].len() < 0x1_0000_0000
}

/// Whether the bytes are a list of binaries as `term_to_binary` writes it.
pub open spec fn is_binary_list_term(bytes: Seq<u8>) -> bool {
    exists|bins: Seq<Seq<u8>>| fits_term(bins) && binary_list_term(bins) == bytes
}

/// The binaries of a list that the bytes encode.
pub open spec fn encoded_binaries(bytes: Seq<u8>) -> Seq<Seq<u8>> {
    choose|bins: Seq<Seq<u8>>| fits_term(bins) && binary_list_term(bins) == bytes
}

/// The items of a list of binaries: each is a binary.
pub open spec fn binary_items(bins: Seq<Seq<u8>>) -> Seq<Option<Seq<u8>>> {
    bins.map_values(|b: Seq<u8>| Some(b))
}

/// A decoded message, by view.
pub open spec fn decoded_view(items: Option<Vec<Option<Vec<u8>>>>) -> Option<Seq<Option<Seq<u8>>>> {
    match items {
        Some(items) => Some(items_view(items@)),
        None => None,
    }
}

/// The frames of a sequence of frames, by view.
pub open spec fn frames_view(frames: Seq<Frame>) -> Seq<FrameView> {
    frames.map_values(|f: Frame| f@)
}

/// Cuts an outgoing message into frames: each item becomes one frame, an item
/// that is not a binary becomes an empty frame, and every frame but the last
/// is marked as followed by more.
pub fn frames_of(items: Vec<Option<Vec<u8>>>) -> (frames: Vec<Frame>)
    ensures
        frames_view(frames@) == message_frames(items_view(items@)),
        frames@.len() == items@.len(),
        forall|i: int| 0 <= i < items@.len() ==> {
            &&& (#[trigger] frames@[i]).more == (i + 1 < items@.len())
            &&& frames@[i].data@ == match items@[i] {
                Some(bytes) => bytes@,
                None => Seq::<u8>::empty(),
            }
        },
{
    let n: usize = items.len();
    let ghost all = items@;
    let mut frames: Vec<Frame> = Vec::new();
    let mut i: usize = 0;
    for item in it: items.into_iter()
        invariant
            n == all.len(),
            it.seq() == all,
            i == it.index(),
            i <= n,
            frames@.len() == i,
            forall|j: int| 0 <= j < i ==> #[trigger] frames@[j]@ == item_frame(item_view(all[j]), j, n as int),
    {
        proof {
            assert(item == all[i as int]);
        }
        let data: Vec<u8> = match item {
            Some(bytes) => bytes,
            None => Vec::new(),
        };
        frames.push(Frame { data, more: i + 1 != n });
        i = i + 1;
    }
    assert forall|i: int| 0 <= i < all.len() implies {
        &&& (#[trigger] frames@[i]).more == (i + 1 < all.len())
        &&& frames@[i].data@ == match all[i] {
            Some(bytes) => bytes@,
            None => Seq::<u8>::empty(),
        }
    } by {
        assert(frames@[i]@ == item_frame(item_view(all[i]), i, n as int));
    }
    assert(frames_view(frames@) =~= message_frames(items_view(all)));
    frames
}

/// Whether an endpoint can be handed to ZeroMQ as a C string: it holds no NUL byte.
pub fn endpoint_is_valid(endpoint: &[u8]) -> (valid: bool)
    ensures
        valid == !endpoint@.contains(0u8),
{
    let mut i: usize = 0;
    while i < endpoint.len()
        invariant
            i <= endpoint@.len(),
            forall|j: int| 0 <= j < i ==> endpoint@[j] != 0u8,
        decreases endpoint@.len() - i,
    {
        if endpoint[i] == 0u8 {
            return false;
        }
        i = i + 1;
    }
    true
}

/// The reply to a call into libzmq that returns a negative value on failure:
/// its errno then, else success.
pub fn call_outcome(ret: i32, errno: i32) -> (reply: Result<(), i32>)
    ensures
        reply == if ret < 0 { Err::<(), i32>(errno) } else { Ok::<(), i32>(()) },
{
    if ret < 0 {
        Err(errno)
    } else {
        Ok(())
    }
}

/// The flags of a non-blocking send of a frame: `ZMQ_DONTWAIT`, with
/// `ZMQ_SNDMORE` where more frames of the message follow.
pub fn send_flags(more: bool) -> (flags: i32)
    ensures
        flags == if more { DONTWAIT | SNDMORE } else { DONTWAIT },
{
    if more {
        DONTWAIT | SNDMORE
    } else {
        DONTWAIT
    }
}

} // verus!
