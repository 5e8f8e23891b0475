//! The decisions of the two background tasks of a link.
//!
//! Each function takes what the task has just seen and says what the task does
//! next. Waiting, reading and writing are left to the caller.

use vstd::prelude::*;

use crate::buffer::{self, FrameBuffer};
use crate::frame::{self, frame_packet};

verus! {

/// The largest number of bytes that the read task asks for at once.
pub const READ_SIZE: usize = 1024;

/// What the read task does after a read.
pub enum ReadStep {
    /// Hand over these payloads one after the other, whether or not the receiver
    /// can make sense of them, and read again.
    Deliver(Vec<Vec<u8>>),
    /// The link is gone: mark the client as not connected, announce it and stop.
    Disconnect,
}

/// What happens in the write task.
pub enum WriteEvent {
    /// The next packet to send has come out of the queue.
    Queued(Vec<u8>),
    /// The queue is closed and empty.
    Closed,
    /// The last write has gone through.
    Written,
    /// The last write has failed.
    WriteFailed,
}

/// What the write task does next.
pub enum WriteStep {
    /// Write these bytes to the link.
    Write(Vec<u8>),
    /// Wait for the next packet.
    Receive,
    /// Stop.
    Stop,
}

/// Whether `step` is the right thing to do after a read with this outcome behind
/// the bytes `held`, and `left` is what is held then.
pub open spec fn follows_read<E>(
    held: Seq<u8>,
    outcome: Result<&[u8], E>,
    step: ReadStep,
    left: Seq<u8>,
) -> bool {
    match outcome {
        Ok(chunk) if chunk@.len() > 0 => {
            &&& step matches ReadStep::Deliver(frames)
            &&& buffer::payloads(frames@) == frame::drain(held + chunk@).0
            &&& left == frame::drain(held + chunk@).1
        },
        _ => step is Disconnect && left == held,
    }
}

/// Whether `step` is the right thing to do about `event`.
pub open spec fn follows_write(event: WriteEvent, step: WriteStep) -> bool {
    match event {
        WriteEvent::Queued(data) => {
            &&& step matches WriteStep::Write(packet)
            &&& packet@ == frame::framed(data@)
        },
        WriteEvent::Written => step is Receive,
        WriteEvent::Closed | WriteEvent::WriteFailed => step is Stop,
    }
}

/// Decides what follows a read on the link.
///
/// `outcome` holds the bytes that were read, none of them at the end of the
/// stream. Complete frames are taken out of `buffer`; what is left of the bytes
/// stays there for the next read.
pub fn read_task<E>(buffer: &mut FrameBuffer, outcome: Result<&[u8], E>) -> (step: ReadStep)
    requires
        outcome matches Ok(chunk) ==> old(buffer)@.len() + chunk@.len() <= buffer::buffer_limit(),
    ensures
        follows_read(old(buffer)@, outcome, step, final(buffer)@),
        match outcome {
            Ok(chunk) if chunk@.len() > 0 => {
                &&& step matches ReadStep::Deliver(frames)
                &&& buffer::payloads(frames@) == frame::drain(old(buffer)@ + chunk@).0
                &&& frames@.len() == frame::drain(old(buffer)@ + chunk@).0.len()
                &&& forall|i: int|
                    0 <= i < frames@.len() ==> (#[trigger] frames@[i])@ == frame::drain(
                        old(buffer)@ + chunk@,
                    ).0[i]
                &&& final(buffer)@ == frame::drain(old(buffer)@ + chunk@).1
            },
            _ => step is Disconnect && final(buffer)@ == old(buffer)@,
        },
{
    match outcome {
        Ok(chunk) => {
            if chunk.len() == 0 {
                return ReadStep::Disconnect;
            }
            buffer.extend_from_slice(chunk);
            ReadStep::Deliver(buffer.drain_frames())
        },
        Err(_) => ReadStep::Disconnect,
    }
}

/// Decides what the write task does about `event`: packets are framed and
/// written, and the task ends when the queue is closed or a write fails.
pub fn write_task(event: WriteEvent) -> (step: WriteStep)
    ensures
        follows_write(event, step),
        match event {
            WriteEvent::Queued(data) => {
                &&& step matches WriteStep::Write(packet)
                &&& packet@ == frame::framed(data@)
                &&& packet@.len() == 3 + data@.len()
                &&& packet@[0] == 0x3c
                &&& packet@[1] == data@.len() % 256
                &&& packet@[2] == (data@.len() / 256) % 256
                &&& packet@.skip(3) == data@
            },
            WriteEvent::Written => step is Receive,
            WriteEvent::Closed | WriteEvent::WriteFailed => step is Stop,
        },
{
    match event {
        WriteEvent::Queued(data) => WriteStep::Write(frame_packet(data.as_slice())),
        WriteEvent::Closed => WriteStep::Stop,
        WriteEvent::Written => WriteStep::Receive,
        WriteEvent::WriteFailed => WriteStep::Stop,
    }
}

/// A read that brings bytes never ends the link, and the end of the stream or a
/// failed read always does, with nothing taken out of the buffer.
pub proof fn lemma_when_the_link_ends<E>(
    held: Seq<u8>,
    outcome: Result<&[u8], E>,
    step: ReadStep,
    left: Seq<u8>,
)
    requires
        follows_read(held, outcome, step, left),
    ensures
        outcome matches Ok(chunk) ==> (step is Disconnect <==> chunk@.len() == 0),
        outcome is Err ==> step is Disconnect,
        step is Disconnect ==> left == held,
{
}

/// A frame is handed over by the read that completes it: when the bytes held and
/// those read begin with 0x3c, two length bytes and as many bytes as these say,
/// the first payload delivered is those bytes.
pub proof fn lemma_complete_frame_is_delivered<E>(
    held: Seq<u8>,
    chunk: &[u8],
    step: ReadStep,
    left: Seq<u8>,
)
    requires
        chunk@.len() > 0,
        follows_read(held, Ok::<&[u8], E>(chunk), step, left),
        (held + chunk@).len() >= 3,
        (held + chunk@)[0] == 0x3c,
        (held + chunk@).len() >= 3 + (held + chunk@)[1] + 256 * (held + chunk@)[2],
    ensures
        ({
            let buf = held + chunk@;
            let end = 3 + buf[1] + 256 * buf[2];
            &&& step matches ReadStep::Deliver(frames)
            &&& frames@.len() >= 1
            &&& frames@[0]@ == buf.subrange(3, end)
            &&& buf.len() == end ==> frames@.len() == 1 && left.len() == 0
        }),
{
    let buf = held + chunk@;
    let end = 3 + buf[1] + 256 * buf[2];
    frame::lemma_all_frames_are_taken_in_order(buf, 0);
    if let ReadStep::Deliver(frames) = step {
        assert(buffer::payloads(frames@).len() == frames@.len());
        assert(buffer::payloads(frames@)[0] == frames@[0]@);
    }
    if buf.len() == end {
        frame::lemma_nothing_is_taken_from_noise(buf.skip(end));
    }
}

/// Two reads deliver together what one read of all their bytes delivers, and leave
/// the same bytes.
pub proof fn lemma_two_reads_make_one<E>(
    held: Seq<u8>,
    first: &[u8],
    second: &[u8],
    both: &[u8],
    first_frames: Vec<Vec<u8>>,
    second_frames: Vec<Vec<u8>>,
    all_frames: Vec<Vec<u8>>,
    between: Seq<u8>,
    left: Seq<u8>,
    left_by_both: Seq<u8>,
)
    requires
        both@ == first@ + second@,
        follows_read(held, Ok::<&[u8], E>(first), ReadStep::Deliver(first_frames), between),
        follows_read(between, Ok::<&[u8], E>(second), ReadStep::Deliver(second_frames), left),
        follows_read(held, Ok::<&[u8], E>(both), ReadStep::Deliver(all_frames), left_by_both),
    ensures
        left == left_by_both,
        all_frames@.len() == first_frames@.len() + second_frames@.len(),
        forall|i: int|
            0 <= i < first_frames@.len() ==> (#[trigger] all_frames@[i])@ == first_frames@[i]@,
        forall|i: int|
            0 <= i < second_frames@.len() ==> all_frames@[first_frames@.len() + i]@ == (
            #[trigger] second_frames@[i])@,
{
    frame::lemma_drain_append(held + first@, second@);
    assert(held + both@ =~= (held + first@) + second@);
    let a = buffer::payloads(first_frames@);
    let b = buffer::payloads(second_frames@);
    let c = buffer::payloads(all_frames@);
    assert(c == a + b);
    assert(a.len() == first_frames@.len() && b.len() == second_frames@.len());
    assert(c.len() == all_frames@.len());
    assert forall|i: int| 0 <= i < first_frames@.len() implies (#[trigger] all_frames@[i])@
        == first_frames@[i]@ by {
        assert(c[i] == a[i]);
    }
    assert forall|i: int| 0 <= i < second_frames@.len() implies all_frames@[first_frames@.len() + i]@ == (
    #[trigger] second_frames@[i])@ by {
        assert(c[a.len() + i] == b[i]);
    }
}

/// The write task writes every queued packet behind 0x3c and its length in two
/// bytes, waits for the next one after a write that went through, and stops when
/// the queue is closed or a write fails.
pub proof fn lemma_write_task_serves_the_queue(event: WriteEvent, step: WriteStep)
    requires
        follows_write(event, step),
    ensures
        event matches WriteEvent::Queued(data) ==> {
            &&& step matches WriteStep::Write(packet)
            &&& packet@.len() == 3 + data@.len()
            &&& packet@[0] == 0x3c
            &&& packet@[1] == data@.len() % 256
            &&& packet@[2] == (data@.len() / 256) % 256
            &&& packet@.skip(3) == data@
        },
        step is Receive <==> event is Written,
        step is Stop <==> event is Closed || event is WriteFailed,
{
    if let WriteEvent::Queued(data) = event {
        frame::lemma_packet_layout(data@);
    }
}

/// Reading at most `READ_SIZE` bytes at a time never overfills the buffer: what
/// the last step of the read task left in it always has room for the next read.
pub proof fn lemma_read_always_fits(held: Seq<u8>, chunk: Seq<u8>)
    requires
        frame::drained(held),
        chunk.len() <= READ_SIZE,
    ensures
        held.len() + chunk.len() <= buffer::buffer_limit(),
{
    frame::lemma_held_is_one_partial_frame(held);
}

} // verus!
