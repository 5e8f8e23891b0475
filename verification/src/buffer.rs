//! The receive buffer of a link, kept in a `bytes::BytesMut`.

use bytes::{Buf, BytesMut};
use vstd::prelude::*;
use vstd::slice::{slice_subrange, slice_to_vec};

use crate::frame;

verus! {

/// The growable byte buffer of the `bytes` crate.
#[verifier::external_type_specification]
#[verifier::external_body]
pub struct ExBytesMut(BytesMut);

/// The readable bytes that a `BytesMut` holds, first to last.
pub uninterp spec fn buffer_bytes(buffer: BytesMut) -> Seq<u8>;

/// How many bytes a buffer may be made to hold.
///
/// No allocation exceeds `isize::MAX` bytes. `BytesMut` may keep consumed bytes
/// in front of the readable ones and doubles what it has when it grows, which
/// together can take four times the readable length.
pub open spec fn buffer_limit() -> int {
    isize::MAX / 4
}

/// Calls `BytesMut::with_capacity`: the new buffer is empty.
#[verifier::external_body]
fn buffer_with_capacity(capacity: usize) -> (buffer: BytesMut)
    requires
        capacity <= isize::MAX,
    ensures
        buffer_bytes(buffer) == Seq::<u8>::empty(),
{
    BytesMut::with_capacity(capacity)
}

/// Calls `BytesMut::extend_from_slice`: `data` is appended, the bytes already
/// there stay. It panics when the allocation would exceed `isize::MAX` bytes,
/// which `buffer_limit` rules out.
#[verifier::external_body]
fn buffer_extend_from_slice(buffer: &mut BytesMut, data: &[u8])
    requires
        buffer_bytes(*old(buffer)).len() + data@.len() <= buffer_limit(),
    ensures
        buffer_bytes(*final(buffer)) == buffer_bytes(*old(buffer)) + data@,
{
    buffer.extend_from_slice(data)
}

/// Calls `Buf::advance` of `BytesMut`: the first `count` bytes are dropped. It
/// panics when there are fewer.
#[verifier::external_body]
fn buffer_advance(buffer: &mut BytesMut, count: usize)
    requires
        count <= buffer_bytes(*old(buffer)).len(),
    ensures
        buffer_bytes(*final(buffer)) == buffer_bytes(*old(buffer)).skip(count as int),
{
    buffer.advance(count)
}

/// Calls `AsRef::<[u8]>::as_ref` of `BytesMut`: a view of the bytes that the
/// buffer holds.
#[verifier::external_body]
fn buffer_as_slice(buffer: &BytesMut) -> (slice: &[u8])
    ensures
        slice@ == buffer_bytes(*buffer),
{
    buffer.as_ref()
}

/// The contents of a list of payloads.
pub open spec fn payloads(frames: Seq<Vec<u8>>) -> Seq<Seq<u8>> {
    frames.map_values(|payload: Vec<u8>| payload@)
}

/// The bytes that have been received and not yet been taken out as frames.
pub struct FrameBuffer {
    bytes: BytesMut,
}

impl View for FrameBuffer {
    type V = Seq<u8>;

    closed spec fn view(&self) -> Seq<u8> {
        buffer_bytes(self.bytes)
    }
}

impl FrameBuffer {
    /// Makes an empty buffer.
    pub fn new() -> (buffer: Self)
        ensures
            buffer@ == Seq::<u8>::empty(),
    {
        FrameBuffer { bytes: buffer_with_capacity(4096) }
    }

    /// Appends received bytes.
    pub fn extend_from_slice(&mut self, data: &[u8])
        requires
            old(self)@.len() + data@.len() <= buffer_limit(),
        ensures
            final(self)@ == old(self)@ + data@,
    {
        buffer_extend_from_slice(&mut self.bytes, data);
    }

    /// The number of buffered bytes.
    pub fn len(&self) -> (len: usize)
        ensures
            len == self@.len(),
    {
        buffer_as_slice(&self.bytes).len()
    }

    /// Looks for the first complete frame, dropping bytes that cannot start one,
    /// and takes it out.
    fn take_frame(&mut self) -> (payload: Option<Vec<u8>>)
        ensures
            final(self)@ == frame::next_frame(old(self)@).1,
            match (payload, frame::next_frame(old(self)@).0) {
                (Some(taken), Some(expected)) => taken@ == expected,
                (None, None) => true,
                _ => false,
            },
    {
        while self.len() >= 3
            invariant
                frame::next_frame(self@) == frame::next_frame(old(self)@),
            decreases self@.len(),
        {
            let view: &[u8] = buffer_as_slice(&self.bytes);
            if view[0] != frame::FRAME_START {
                buffer_advance(&mut self.bytes, 1);
                continue;
            }
            let len: usize = (view[1] as usize) + 256 * (view[2] as usize);
            if view.len() < 3 + len {
                return None;
            }
            let payload: Vec<u8> = slice_to_vec(slice_subrange(view, 3, 3 + len));
            buffer_advance(&mut self.bytes, 3 + len);
            return Some(payload);
        }
        None
    }

    /// Takes the first complete frame out of the buffer and returns its payload.
    ///
    /// Bytes that cannot start a frame are dropped on the way.
    pub fn next_frame(&mut self) -> (payload: Option<Vec<u8>>)
        ensures
            final(self)@ == frame::next_frame(old(self)@).1,
            match (payload, frame::next_frame(old(self)@).0) {
                (Some(taken), Some(expected)) => taken@ == expected,
                (None, None) => true,
                _ => false,
            },
            ({
                let buf = old(self)@;
                let end = 3 + buf[1] + 256 * buf[2];
                buf.len() >= 3 && buf[0] == 0x3c ==> if end <= buf.len() {
                    &&& payload matches Some(taken)
                    &&& taken@ == buf.subrange(3, end)
                    &&& final(self)@ == buf.skip(end)
                } else {
                    payload is None && final(self)@ == buf
                }
            }),
            forall|start: int|
                0 <= start && start + 3 <= old(self)@.len() && #[trigger] old(self)@[start] == 0x3c && (
                forall|i: int| 0 <= i < start ==> old(self)@[i] != 0x3c) ==> ({
                    let buf = old(self)@;
                    let end = start + 3 + buf[start + 1] + 256 * buf[start + 2];
                    if end <= buf.len() {
                        &&& payload matches Some(taken)
                        &&& taken@ == buf.subrange(start + 3, end)
                        &&& final(self)@ == buf.skip(end)
                    } else {
                        payload is None && final(self)@ == buf.skip(start)
                    }
                }),
            (forall|i: int| 0 <= i < old(self)@.len() - 2 ==> old(self)@[i] != 0x3c) ==> {
                &&& payload is None
                &&& final(self)@ == (if old(self)@.len() >= 2 {
                    old(self)@.skip(old(self)@.len() - 2)
                } else {
                    old(self)@
                })
            },
    {
        let ghost buf = self@;
        let payload: Option<Vec<u8>> = self.take_frame();
        proof {
            if buf.len() >= 3 && buf[0] == 0x3c {
                frame::lemma_complete_frame_is_taken(buf);
            }
            assert forall|start: int|
                0 <= start && start + 3 <= buf.len() && #[trigger] buf[start] == 0x3c && (forall|i: int|
                    0 <= i < start ==> buf[i] != 0x3c) implies frame::next_frame(buf) == ({
                let end = start + 3 + buf[start + 1] + 256 * buf[start + 2];
                if end <= buf.len() {
                    (Some(buf.subrange(start + 3, end)), buf.skip(end))
                } else {
                    (None, buf.skip(start))
                }
            }) by {
                frame::lemma_frame_begins_at_first_start_byte(buf, start);
            }
            if forall|i: int| 0 <= i < buf.len() - 2 ==> buf[i] != 0x3c {
                frame::lemma_no_start_byte_no_frame(buf);
            }
        }
        payload
    }

    /// Takes all complete frames out of the buffer and returns their payloads in
    /// order.
    pub fn drain_frames(&mut self) -> (frames: Vec<Vec<u8>>)
        ensures
            payloads(frames@) == frame::drain(old(self)@).0,
            frames@.len() == frame::drain(old(self)@).0.len(),
            forall|i: int|
                0 <= i < frames@.len() ==> (#[trigger] frames@[i])@ == frame::drain(old(self)@).0[i],
            final(self)@ == frame::drain(old(self)@).1,
    {
        let mut frames: Vec<Vec<u8>> = Vec::new();
        assert(payloads(frames@) + frame::drain(self@).0 =~= frame::drain(self@).0);
        loop
            invariant
                payloads(frames@) + frame::drain(self@).0 == frame::drain(old(self)@).0,
                frame::drain(self@).1 == frame::drain(old(self)@).1,
            decreases self@.len(),
        {
            let ghost before = self@;
            let ghost taken = payloads(frames@);
            proof {
                frame::lemma_next_frame_shrinks(before);
            }
            match self.next_frame() {
                Some(payload) => {
                    frames.push(payload);
                    proof {
                        let later = frame::drain(self@).0;
                        assert(payloads(frames@) =~= taken.push(payload@));
                        assert(taken.push(payload@) + later =~= taken + (seq![payload@] + later));
                    }
                },
                None => {
                    proof {
                        assert(taken + frame::drain(before).0 =~= taken);
                        assert forall|i: int| 0 <= i < frames@.len() implies (#[trigger] frames@[i])@
                            == frame::drain(old(self)@).0[i] by {
                            assert(payloads(frames@)[i] == frames@[i]@);
                        }
                    }
                    return frames;
                },
            }
        }
    }
}

} // verus!
