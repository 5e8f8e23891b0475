//! The byte framing of the link to a companion device.
//!
//! A packet travels as `[START: 0x3c][LENGTH_L][LENGTH_H][PAYLOAD]`. This module
//! holds the encoder, the meaning of a received byte stream, and the laws that
//! tie the two together.

use vstd::prelude::*;

verus! {

/// First byte of every frame.
pub const FRAME_START: u8 = 0x3c;

/// The bytes that carry `data`: the start byte, the low sixteen bits of the
/// length in little-endian order, and `data` itself.
pub open spec fn framed(data: Seq<u8>) -> Seq<u8> {
    seq![FRAME_START, (data.len() % 256) as u8, ((data.len() / 256) % 256) as u8] + data
}

/// The payload length that a frame header announces.
pub open spec fn announced_len(low: u8, high: u8) -> nat {
    (low + 256 * high) as nat
}

/// The first frame of `buf`, if all of it has arrived, and the bytes that are
/// left then.
///
/// Bytes before a start byte are dropped, but fewer than three bytes are always
/// kept: they may be the beginning of a header.
pub open spec fn next_frame(buf: Seq<u8>) -> (Option<Seq<u8>>, Seq<u8>)
    decreases buf.len(),
{
    if buf.len() < 3 {
        (None, buf)
    } else if buf[0] != FRAME_START {
        next_frame(buf.skip(1))
    } else {
        let end = 3 + announced_len(buf[1], buf[2]);
        if buf.len() < end {
            (None, buf)
        } else {
            (Some(buf.subrange(3, end as int)), buf.skip(end as int))
        }
    }
}

/// Frames a packet for transmission.
///
/// Format: `[START: 0x3c][LENGTH_L][LENGTH_H][PAYLOAD]`
pub fn frame_packet(data: &[u8]) -> (packet: Vec<u8>)
    ensures
        packet@ == framed(data@),
        packet@.len() == 3 + data@.len(),
        packet@[0] == 0x3c,
        packet@[1] == data@.len() % 256,
        packet@[2] == (data@.len() / 256) % 256,
        packet@.skip(3) == data@,
{
    // A frame has three header bytes and the data itself.
    let frame_size: usize = data.len().checked_add(3).unwrap_or_default();
    let mut packet: Vec<u8> = Vec::with_capacity(frame_size);
    let size: usize = data.len();
    let len: u16 = #[verifier::truncate] (size as u16);
    assert(len == size % 0x1_0000) by (bit_vector)
        requires
            len == size as u16,
    ;
    assert((len & 0xFF) as u8 == len % 256 && (len >> 8) as u8 == len / 256) by (bit_vector);
    packet.push(FRAME_START);
    packet.push((len & 0xFF) as u8);
    packet.push((len >> 8) as u8);
    packet.extend_from_slice(data);
    proof {
        assert(packet@ =~= framed(data@));
        lemma_packet_layout(data@);
    }
    packet
}

/// Taking a frame out leaves fewer bytes, and finding none never adds any.
pub proof fn lemma_next_frame_shrinks(buf: Seq<u8>)
    ensures
        next_frame(buf).1.len() <= buf.len(),
        next_frame(buf).0 is Some ==> next_frame(buf).1.len() < buf.len(),
    decreases buf.len(),
{
    if buf.len() >= 3 && buf[0] != FRAME_START {
        lemma_next_frame_shrinks(buf.skip(1));
    }
}

/// All frames of `buf` that have arrived in full, in order, and the bytes that
/// are left when no more can be taken.
pub open spec fn drain(buf: Seq<u8>) -> (Seq<Seq<u8>>, Seq<u8>)
    decreases buf.len(),
    via drain_terminates
{
    match next_frame(buf) {
        (Some(payload), left) => {
            let (payloads, rest) = drain(left);
            (seq![payload] + payloads, rest)
        },
        (None, left) => (Seq::empty(), left),
    }
}

#[via_fn]
proof fn drain_terminates(buf: Seq<u8>) {
    lemma_next_frame_shrinks(buf);
}

/// The bytes on the wire when `packets` are framed one after the other.
pub open spec fn wire(packets: Seq<Seq<u8>>) -> Seq<u8>
    decreases packets.len(),
{
    if packets.len() == 0 {
        Seq::empty()
    } else {
        framed(packets[0]) + wire(packets.skip(1))
    }
}

/// `chunks` joined end to end.
pub open spec fn joined(chunks: Seq<Seq<u8>>) -> Seq<u8>
    decreases chunks.len(),
{
    if chunks.len() == 0 {
        Seq::empty()
    } else {
        chunks[0] + joined(chunks.skip(1))
    }
}

/// The frames taken out, in order, when `chunks` arrive one by one behind the
/// bytes `held` and all complete frames are taken out after each of them, and
/// the bytes that are held in the end.
pub open spec fn received(held: Seq<u8>, chunks: Seq<Seq<u8>>) -> (Seq<Seq<u8>>, Seq<u8>)
    decreases chunks.len(),
{
    if chunks.len() == 0 {
        (Seq::empty(), held)
    } else {
        let (payloads, rest) = drain(held + chunks[0]);
        let (later, left) = received(rest, chunks.skip(1));
        (payloads + later, left)
    }
}

/// Whether no more frames can be taken out of `held`: it is what is left of a
/// buffer out of which all frames have been taken.
pub open spec fn drained(held: Seq<u8>) -> bool {
    drain(held) == (Seq::<Seq<u8>>::empty(), held)
}

/// How a packet looks on the wire: 0x3c, the low byte and the high byte of the
/// length, and the data unchanged. Where the length fits in two bytes, these two
/// add up to it.
pub proof fn lemma_packet_layout(data: Seq<u8>)
    ensures
        framed(data).len() == 3 + data.len(),
        framed(data)[0] == 0x3c,
        framed(data)[1] == data.len() % 256,
        framed(data)[2] == (data.len() / 256) % 256,
        framed(data).skip(3) == data,
        data.len() <= 0xffff ==> framed(data)[1] + 256 * framed(data)[2] == data.len(),
{
    assert(framed(data).skip(3) =~= data);
}

/// A buffer that begins with 0x3c and two length bytes gives up exactly the bytes
/// that the length counts, as soon as all of them are there. Until then it is
/// left alone.
pub proof fn lemma_complete_frame_is_taken(buf: Seq<u8>)
    requires
        buf.len() >= 3,
        buf[0] == 0x3c,
    ensures
        buf.len() >= 3 + buf[1] + 256 * buf[2] ==> next_frame(buf) == (
            Some(buf.subrange(3, 3 + buf[1] + 256 * buf[2])),
            buf.skip(3 + buf[1] + 256 * buf[2]),
        ),
        buf.len() < 3 + buf[1] + 256 * buf[2] ==> next_frame(buf) == (None::<Seq<u8>>, buf),
{
}

/// Which frame comes out of a buffer: the one that begins at the first 0x3c, if
/// all of it is there. If not, the buffer is cut to begin with that byte.
pub proof fn lemma_frame_begins_at_first_start_byte(buf: Seq<u8>, start: int)
    requires
        0 <= start,
        start + 3 <= buf.len(),
        buf[start] == 0x3c,
        forall|i: int| 0 <= i < start ==> buf[i] != 0x3c,
    ensures
        ({
            let end = start + 3 + buf[start + 1] + 256 * buf[start + 2];
            next_frame(buf) == (if end <= buf.len() {
                (Some(buf.subrange(start + 3, end)), buf.skip(end))
            } else {
                (None, buf.skip(start))
            })
        }),
    decreases start,
{
    if start > 0 {
        let tail = buf.skip(1);
        lemma_frame_begins_at_first_start_byte(tail, start - 1);
        let end = start + 3 + buf[start + 1] + 256 * buf[start + 2];
        assert(tail[start] == buf[start + 1] && tail[start + 1] == buf[start + 2]);
        assert(tail.skip(start - 1) =~= buf.skip(start));
        if end <= buf.len() {
            assert(tail.subrange(start + 2, end - 1) =~= buf.subrange(start + 3, end));
            assert(tail.skip(end - 1) =~= buf.skip(end));
        }
    } else {
        lemma_complete_frame_is_taken(buf);
        assert(buf.skip(0) =~= buf);
    }
}

/// Where no 0x3c has room for two more bytes behind it, no frame comes out. Of a
/// longer buffer the last two bytes are kept, a shorter one is kept whole.
pub proof fn lemma_no_start_byte_no_frame(buf: Seq<u8>)
    requires
        forall|i: int| 0 <= i < buf.len() - 2 ==> buf[i] != 0x3c,
    ensures
        buf.len() >= 2 ==> next_frame(buf) == (None::<Seq<u8>>, buf.skip(buf.len() - 2)),
        buf.len() < 2 ==> next_frame(buf) == (None::<Seq<u8>>, buf),
    decreases buf.len(),
{
    if buf.len() > 2 {
        lemma_no_start_byte_no_frame(buf.skip(1));
        assert(buf.skip(1).skip(buf.len() - 3) =~= buf.skip(buf.len() - 2));
    } else {
        assert(buf.skip(0) =~= buf);
    }
}

/// Taking out all frames goes from one frame to the next: the first payload is
/// the one behind the first 0x3c, and the others, and the bytes that are left in
/// the end, are those of the bytes behind it. Where the first frame is not all
/// there, nothing is taken out and its bytes are left.
pub proof fn lemma_all_frames_are_taken_in_order(buf: Seq<u8>, start: int)
    requires
        0 <= start,
        start + 3 <= buf.len(),
        buf[start] == 0x3c,
        forall|i: int| 0 <= i < start ==> buf[i] != 0x3c,
    ensures
        ({
            let end = start + 3 + buf[start + 1] + 256 * buf[start + 2];
            if end <= buf.len() {
                &&& drain(buf).0.len() == 1 + drain(buf.skip(end)).0.len()
                &&& drain(buf).0[0] == buf.subrange(start + 3, end)
                &&& drain(buf).0.skip(1) == drain(buf.skip(end)).0
                &&& drain(buf).1 == drain(buf.skip(end)).1
            } else {
                drain(buf) == (Seq::<Seq<u8>>::empty(), buf.skip(start))
            }
        }),
{
    lemma_frame_begins_at_first_start_byte(buf, start);
    let end = start + 3 + buf[start + 1] + 256 * buf[start + 2];
    if end <= buf.len() {
        assert(drain(buf).0.skip(1) =~= drain(buf.skip(end)).0);
    }
}

/// Nothing is taken out of bytes among which no 0x3c has room for two more bytes
/// behind it.
pub proof fn lemma_nothing_is_taken_from_noise(buf: Seq<u8>)
    requires
        forall|i: int| 0 <= i < buf.len() - 2 ==> buf[i] != 0x3c,
    ensures
        drain(buf).0.len() == 0,
        buf.len() >= 2 ==> drain(buf).1 == buf.skip(buf.len() - 2),
        buf.len() < 2 ==> drain(buf).1 == buf,
{
    lemma_no_start_byte_no_frame(buf);
}

/// Nothing is made up: every payload that is taken out stands in the bytes, right
/// behind 0x3c and two bytes that give its length.
pub proof fn lemma_payloads_stand_in_the_stream(buf: Seq<u8>, i: int)
    requires
        0 <= i < drain(buf).0.len(),
    ensures
        exists|at: int|
            0 <= at && at + 3 + drain(buf).0[i].len() <= buf.len() && #[trigger] buf[at] == 0x3c
                && buf[at + 1] + 256 * buf[at + 2] == drain(buf).0[i].len() && buf.subrange(
                at + 3,
                at + 3 + drain(buf).0[i].len(),
            ) == drain(buf).0[i],
    decreases buf.len(),
{
    let payload = drain(buf).0[i];
    if buf[0] == 0x3c {
        lemma_complete_frame_is_taken(buf);
        let end = 3 + buf[1] + 256 * buf[2];
        if i == 0 {
            assert(buf[0] == 0x3c && buf.subrange(3, end) == payload);
        } else {
            let tail = buf.skip(end);
            lemma_payloads_stand_in_the_stream(tail, i - 1);
            let at = choose|at: int|
                0 <= at && at + 3 + payload.len() <= tail.len() && #[trigger] tail[at] == 0x3c
                    && tail[at + 1] + 256 * tail[at + 2] == payload.len() && tail.subrange(
                    at + 3,
                    at + 3 + payload.len(),
                ) == payload;
            assert(buf[end + at] == 0x3c);
            assert(buf.subrange(end + at + 3, end + at + 3 + payload.len()) =~= tail.subrange(
                at + 3,
                at + 3 + payload.len(),
            ));
        }
    } else {
        let tail = buf.skip(1);
        lemma_drain_skips_noise_byte(buf);
        lemma_payloads_stand_in_the_stream(tail, i);
        let at = choose|at: int|
            0 <= at && at + 3 + payload.len() <= tail.len() && #[trigger] tail[at] == 0x3c
                && tail[at + 1] + 256 * tail[at + 2] == payload.len() && tail.subrange(
                at + 3,
                at + 3 + payload.len(),
            ) == payload;
        assert(buf[1 + at] == 0x3c);
        assert(buf.subrange(1 + at + 3, 1 + at + 3 + payload.len()) =~= tail.subrange(
            at + 3,
            at + 3 + payload.len(),
        ));
    }
}

/// Packets that a device sends, each behind 0x3c and its length in two bytes, are
/// handed over whole and in order, however the bytes are cut into reads.
pub proof fn lemma_sent_packets_arrive(packets: Seq<Seq<u8>>, chunks: Seq<Seq<u8>>)
    requires
        forall|i: int| 0 <= i < packets.len() ==> (#[trigger] packets[i]).len() <= 0xffff,
        chunks.flatten() == packets.map_values(
            |packet: Seq<u8>|
                seq![0x3cu8, (packet.len() % 256) as u8, (packet.len() / 256) as u8] + packet,
        ).flatten(),
    ensures
        received(Seq::empty(), chunks) == (packets, Seq::<u8>::empty()),
{
    lemma_joined_is_flatten(chunks);
    lemma_wire_is_flatten(packets);
    lemma_link_round_trip(packets, chunks);
}

/// Reading chunk by chunk is reading the first chunk behind what is held, and the
/// others behind what that leaves.
pub proof fn lemma_reads_follow_each_other(held: Seq<u8>, chunk: Seq<u8>, later: Seq<Seq<u8>>)
    ensures
        received(held, Seq::<Seq<u8>>::empty()) == (Seq::<Seq<u8>>::empty(), held),
        received(held, seq![chunk] + later).0 == drain(held + chunk).0 + received(
            drain(held + chunk).1,
            later,
        ).0,
        received(held, seq![chunk] + later).1 == received(drain(held + chunk).1, later).1,
{
    assert((seq![chunk] + later).skip(1) =~= later);
}

proof fn lemma_joined_is_flatten(chunks: Seq<Seq<u8>>)
    ensures
        joined(chunks) == chunks.flatten(),
    decreases chunks.len(),
{
    if chunks.len() > 0 {
        assert(chunks.skip(1) =~= chunks.drop_first());
        lemma_joined_is_flatten(chunks.drop_first());
    }
}

proof fn lemma_wire_is_flatten(packets: Seq<Seq<u8>>)
    requires
        forall|i: int| 0 <= i < packets.len() ==> (#[trigger] packets[i]).len() <= 0xffff,
    ensures
        wire(packets) == packets.map_values(
            |packet: Seq<u8>|
                seq![0x3cu8, (packet.len() % 256) as u8, (packet.len() / 256) as u8] + packet,
        ).flatten(),
    decreases packets.len(),
{
    let sent = |packet: Seq<u8>|
        seq![0x3cu8, (packet.len() % 256) as u8, (packet.len() / 256) as u8] + packet;
    if packets.len() > 0 {
        let later = packets.skip(1);
        assert forall|i: int| 0 <= i < later.len() implies (#[trigger] later[i]).len() <= 0xffff by {
            assert(later[i] == packets[i + 1]);
        }
        lemma_wire_is_flatten(later);
        assert(packets[0].len() <= 0xffff);
        assert(framed(packets[0]) =~= sent(packets[0]));
        assert(packets.map_values(sent).drop_first() =~= later.map_values(sent));
    }
}

/// Reading back what `frame_packet` wrote gives the packet, whatever follows it.
///
/// The two length bytes hold at most 65535, so longer packets do not survive.
pub proof fn lemma_frame_round_trip(data: Seq<u8>, tail: Seq<u8>)
    requires
        data.len() <= 0xffff,
    ensures
        next_frame(framed(data) + tail) == (Some(data), tail),
{
    let buf = framed(data) + tail;
    assert(announced_len(buf[1], buf[2]) == data.len());
    let end = 3 + data.len() as int;
    assert(buf.subrange(3, end) =~= data);
    assert(buf.skip(end) =~= tail);
}

/// A run of framed packets reads back as those packets, in order, with nothing
/// left over.
pub proof fn lemma_wire_round_trip(packets: Seq<Seq<u8>>)
    requires
        forall|i: int| 0 <= i < packets.len() ==> (#[trigger] packets[i]).len() <= 0xffff,
    ensures
        drain(wire(packets)) == (packets, Seq::<u8>::empty()),
    decreases packets.len(),
{
    if packets.len() > 0 {
        let later = packets.skip(1);
        assert forall|i: int| 0 <= i < later.len() implies (#[trigger] later[i]).len() <= 0xffff by {
            assert(later[i] == packets[i + 1]);
        }
        lemma_wire_round_trip(later);
        lemma_frame_round_trip(packets[0], wire(later));
        assert(seq![packets[0]] + later =~= packets);
    } else {
        assert(packets =~= Seq::empty());
    }
}

/// Once frames have been taken out, a byte stream goes on as if they had never
/// been waited for: taking out the frames of `first`, appending `second` and
/// taking out again gives what taking out of both together gives.
pub proof fn lemma_drain_append(first: Seq<u8>, second: Seq<u8>)
    ensures
        drain(first + second) == ({
            let (payloads, rest) = drain(first);
            let (later, left) = drain(rest + second);
            (payloads + later, left)
        }),
    decreases first.len(),
{
    let both = first + second;
    if first.len() >= 3 && first[0] != FRAME_START {
        assert(both.skip(1) =~= first.skip(1) + second);
        lemma_drain_append(first.skip(1), second);
        lemma_drain_skips_noise_byte(first);
        lemma_drain_skips_noise_byte(both);
    } else if next_frame(first).0 is Some {
        let end = 3 + announced_len(first[1], first[2]) as int;
        assert(both.subrange(3, end) =~= first.subrange(3, end));
        assert(both.skip(end) =~= first.skip(end) + second);
        lemma_drain_append(first.skip(end), second);
        let payload = seq![first.subrange(3, end)];
        let (payloads, rest) = drain(first.skip(end));
        let (later, left) = drain(rest + second);
        assert(payload + (payloads + later) =~= (payload + payloads) + later);
    } else {
        let (later, left) = drain(first + second);
        assert(Seq::<Seq<u8>>::empty() + later =~= later);
    }
}

/// A byte that cannot start a frame adds nothing to what is taken out.
proof fn lemma_drain_skips_noise_byte(buf: Seq<u8>)
    requires
        buf.len() >= 3,
        buf[0] != FRAME_START,
    ensures
        drain(buf) == drain(buf.skip(1)),
{
}

/// How the byte stream is cut into chunks makes no difference to the frames
/// that come out of it, nor to the bytes that are held in the end.
pub proof fn lemma_chunking_is_irrelevant(held: Seq<u8>, chunks: Seq<Seq<u8>>)
    requires
        drained(held),
    ensures
        received(held, chunks) == drain(held + joined(chunks)),
    decreases chunks.len(),
{
    if chunks.len() == 0 {
        assert(held + joined(chunks) =~= held);
    } else {
        let later = chunks.skip(1);
        let (payloads, rest) = drain(held + chunks[0]);
        lemma_rest_is_drained(held + chunks[0]);
        lemma_chunking_is_irrelevant(rest, later);
        lemma_drain_append(held + chunks[0], joined(later));
        assert((held + chunks[0]) + joined(later) =~= held + joined(chunks));
    }
}

/// Packets that were framed and sent over a link come out whole and in order,
/// in whatever chunks the link hands them over.
pub proof fn lemma_link_round_trip(packets: Seq<Seq<u8>>, chunks: Seq<Seq<u8>>)
    requires
        forall|i: int| 0 <= i < packets.len() ==> (#[trigger] packets[i]).len() <= 0xffff,
        joined(chunks) == wire(packets),
    ensures
        received(Seq::empty(), chunks) == (packets, Seq::<u8>::empty()),
{
    lemma_chunking_is_irrelevant(Seq::empty(), chunks);
    lemma_wire_round_trip(packets);
    assert(Seq::<u8>::empty() + joined(chunks) =~= joined(chunks));
}

/// After all frames have been taken out, there is none left to take.
pub proof fn lemma_rest_is_drained(buf: Seq<u8>)
    ensures
        drained(drain(buf).1),
    decreases buf.len(),
{
    lemma_next_frame_shrinks(buf);
    if next_frame(buf).0 is Some {
        lemma_rest_is_drained(next_frame(buf).1);
    } else {
        lemma_no_frame_left(buf);
    }
}

/// When no frame is found, looking again at what is left finds none either.
proof fn lemma_no_frame_left(buf: Seq<u8>)
    requires
        next_frame(buf).0 is None,
    ensures
        next_frame(next_frame(buf).1) == (None::<Seq<u8>>, next_frame(buf).1),
    decreases buf.len(),
{
    if buf.len() >= 3 && buf[0] != FRAME_START {
        lemma_no_frame_left(buf.skip(1));
    }
}

/// What is held back between reads is less than one frame of the largest size:
/// too short for a header, or a header whose payload has not arrived in full.
pub proof fn lemma_held_is_one_partial_frame(buf: Seq<u8>)
    ensures
        ({
            let held = drain(buf).1;
            ||| held.len() < 3
            ||| held[0] == 0x3c && held.len() < 3 + held[1] + 256 * held[2]
        }),
        drain(buf).1.len() < 3 + 0xffff,
    decreases buf.len(),
{
    lemma_rest_is_drained(buf);
    let held = drain(buf).1;
    if held.len() >= 3 && held[0] != FRAME_START {
        lemma_next_frame_shrinks(held.skip(1));
        lemma_next_frame_shrinks(held);
    }
}

/// Noise on the line is harmless: bytes among which there is no start byte are
/// dropped, and the frames behind them come out as if the noise had not been.
///
/// Only when fewer than two bytes follow can some noise still be held, because
/// the last bytes of a buffer are kept until there are three.
pub proof fn lemma_noise_is_dropped(noise: Seq<u8>, buf: Seq<u8>)
    requires
        !noise.contains(0x3c),
    ensures
        drain(noise + buf).0 == drain(buf).0,
        buf.len() >= 2 ==> drain(noise + buf) == drain(buf),
    decreases noise.len(),
{
    let all = noise + buf;
    if noise.len() > 0 {
        assert(noise.contains(noise[0]));
        assert forall|i: int| 0 <= i < noise.skip(1).len() implies noise.skip(1)[i] != FRAME_START by {
            assert(noise.contains(noise[i + 1]));
        }
        assert(all.skip(1) =~= noise.skip(1) + buf);
        if all.len() >= 3 {
            lemma_drain_skips_noise_byte(all);
            lemma_noise_is_dropped(noise.skip(1), buf);
        }
    } else {
        assert(all =~= buf);
    }
}

/// No frame is longer than its two length bytes can say.
pub proof fn lemma_frames_are_bounded(buf: Seq<u8>, i: int)
    requires
        0 <= i < drain(buf).0.len(),
    ensures
        drain(buf).0[i].len() <= 0xffff,
    decreases buf.len(),
{
    lemma_next_frame_shrinks(buf);
    lemma_next_frame_is_bounded(buf);
    if i > 0 {
        lemma_frames_are_bounded(next_frame(buf).1, i - 1);
    }
}

proof fn lemma_next_frame_is_bounded(buf: Seq<u8>)
    ensures
        next_frame(buf).0 matches Some(payload) ==> payload.len() <= 0xffff,
    decreases buf.len(),
{
    if buf.len() >= 3 && buf[0] != FRAME_START {
        lemma_next_frame_is_bounded(buf.skip(1));
    }
}

} // verus!
