//! What holds across the functions of the link layer.

use crate::ather::{bits_of, packet_frames, payload_frame};
use crate::chunks::{
    chunk, chunk_count, chunk_start, join_chunks, lemma_chunk_len, lemma_join_all_chunks,
};
use crate::consts::{
    ADDRESS_BITS_LEN, ADDRESS_LIMIT, CHECKSUM_BITS_LEN, FLAG_BITS_LEN, HEADER_BITS_LEN, LENGTH_LEN,
    PAYLOAD_BITS_LEN, PAYLOAD_LEN, SEQ_BITS_LEN, SEQ_LIMIT, SOCKET_MAX_RESENDS, TYPE_BITS_LEN,
};
use crate::decode::{after_preamble, lemma_decode_encoded, spec_run};
use crate::daemon::{next_retry, spec_is_for_self, spec_resp, AttemptModel};
use crate::frame::{FrameFlag, FrameHeader, FrameModel, FrameType};
use crate::jar::{spec_observe, spec_push};
use crate::socket::{
    accepts, bucket_wf, lemma_insert, ordered, packet_frame, spec_insert, spec_join, spec_packet,
    spec_read, EntryModel,
};
use crate::timer::InnerModel;
use vstd::arithmetic::power2::{lemma2_to64, pow2};
use vstd::prelude::*;

verus! {

/// The layout of a frame: the fields in front of the payload fill the header,
/// a frame with a full payload is exactly as long as one audio frame carries,
/// and the limits are what the field widths allow.
pub proof fn lemma_layout()
    ensures
        HEADER_BITS_LEN == TYPE_BITS_LEN + FLAG_BITS_LEN + 2 * ADDRESS_BITS_LEN + SEQ_BITS_LEN,
        HEADER_BITS_LEN + PAYLOAD_BITS_LEN + CHECKSUM_BITS_LEN == PAYLOAD_LEN,
        ADDRESS_LIMIT == pow2(ADDRESS_BITS_LEN as nat),
        SEQ_LIMIT == pow2(SEQ_BITS_LEN as nat),
        PAYLOAD_LEN + 1 == pow2(LENGTH_LEN as nat),
{
    lemma2_to64();
}

/// A bit string of `len` bits takes at most `len` pieces, and the pieces of
/// `PAYLOAD_BITS_LEN` bits cover it.
pub proof fn lemma_chunk_count(len: nat)
    ensures
        chunk_count(len, PAYLOAD_BITS_LEN as nat) <= len,
        chunk_count(len, PAYLOAD_BITS_LEN as nat) * PAYLOAD_BITS_LEN >= len,
        len > 0 ==> (chunk_count(len, PAYLOAD_BITS_LEN as nat) - 1) * PAYLOAD_BITS_LEN < len,
        len > 0 ==> chunk_count(len, PAYLOAD_BITS_LEN as nat) > 0,
{
}

/// Sequence numbers of one write: the frames of a packet are data frames whose
/// sequence numbers rise by one from `base` and stay below `SEQ_LIMIT`; the last
/// frame, and no other, carries the end-of-packet flag; and with addresses that
/// fit, every frame can be laid out.
pub proof fn lemma_packet_sequence(bits: Seq<bool>, src: usize, dest: usize, base: usize)
    requires
        base + bits.len() <= SEQ_LIMIT,
    ensures
        spec_packet(bits, src, dest, base).len() == chunk_count(
            bits.len(),
            PAYLOAD_BITS_LEN as nat,
        ),
        forall|i: int|
            0 <= i < spec_packet(bits, src, dest, base).len() ==> {
                let frame = #[trigger] spec_packet(bits, src, dest, base)[i];
                &&& frame.kind == FrameType::Data
                &&& frame.header.src == src
                &&& frame.header.dest == dest
                &&& frame.header.seq == base + i
                &&& frame.header.seq < SEQ_LIMIT
                &&& frame.header.flag.eop == (i == spec_packet(bits, src, dest, base).len() - 1)
                &&& frame.payload == chunk(bits, PAYLOAD_BITS_LEN as nat, i as nat)
                &&& 0 < frame.payload.len() <= PAYLOAD_BITS_LEN
                &&& (src < ADDRESS_LIMIT && dest < ADDRESS_LIMIT ==> frame.wf())
            },
        forall|i: int, j: int|
            0 <= i < j < spec_packet(bits, src, dest, base).len() ==> spec_packet(
                bits,
                src,
                dest,
                base,
            )[i].header.seq < spec_packet(bits, src, dest, base)[j].header.seq,
{
    let packet = spec_packet(bits, src, dest, base);
    let count = chunk_count(bits.len(), PAYLOAD_BITS_LEN as nat);
    lemma_chunk_count(bits.len());
    assert forall|i: int| 0 <= i < packet.len() implies {
        let frame = #[trigger] packet[i];
        &&& frame.kind == FrameType::Data
        &&& frame.header.src == src
        &&& frame.header.dest == dest
        &&& frame.header.seq == base + i
        &&& frame.header.seq < SEQ_LIMIT
        &&& frame.header.flag.eop == (i == packet.len() - 1)
        &&& frame.payload == chunk(bits, PAYLOAD_BITS_LEN as nat, i as nat)
        &&& 0 < frame.payload.len() <= PAYLOAD_BITS_LEN
        &&& (src < ADDRESS_LIMIT && dest < ADDRESS_LIMIT ==> frame.wf())
    } by {
        assert(packet[i] == packet_frame(bits, src, dest, base, count, i as nat));
        lemma_chunk_len(bits, PAYLOAD_BITS_LEN as nat, i as nat);
        assert(i * PAYLOAD_BITS_LEN <= (count - 1) * PAYLOAD_BITS_LEN) by (nonlinear_arith)
            requires
                i <= count - 1,
        ;
    }
}

/// The entry that a data frame leaves in a reader's bucket.
pub open spec fn entry_of(frame: FrameModel) -> EntryModel {
    EntryModel { seq: frame.header.seq, payload: frame.payload }
}

/// The first packet that a reader returns when `arrivals` come in one by one,
/// starting with `bucket`; `None` if no packet is completed.
pub open spec fn spec_read_all(
    bucket: Seq<EntryModel>,
    filter: Option<usize>,
    arrivals: Seq<FrameModel>,
) -> Option<Seq<bool>>
    decreases arrivals.len(),
{
    if arrivals.len() == 0 {
        None
    } else {
        let (next, packet) = spec_read(bucket, filter, arrivals[0]);
        if packet.is_some() {
            packet
        } else {
            spec_read_all(next, filter, arrivals.drop_first())
        }
    }
}

/// Whether every entry of `bucket` is the entry of some frame of `packet`.
pub open spec fn drawn_from(bucket: Seq<EntryModel>, packet: Seq<FrameModel>) -> bool {
    forall|k: int|
        0 <= k < bucket.len() ==> exists|i: int|
            0 <= i < packet.len() && #[trigger] bucket[k] == entry_of(#[trigger] packet[i])
}

/// Whether `bucket` holds an entry under sequence number `seq`.
pub open spec fn holds(bucket: Seq<EntryModel>, seq: usize) -> bool {
    exists|k: int| 0 <= k < bucket.len() && (#[trigger] bucket[k]).seq == seq
}

/// In an ordered bucket sequence numbers rise at least as fast as places do.
proof fn lemma_ordered_gap(bucket: Seq<EntryModel>, i: int, j: int)
    requires
        ordered(bucket),
        0 <= i <= j < bucket.len(),
    ensures
        bucket[j].seq - bucket[i].seq >= j - i,
    decreases j - i,
{
    if i < j {
        lemma_ordered_gap(bucket, i, j - 1);
    }
}

/// An ordered bucket that holds a frame under each of `count` consecutive
/// sequence numbers from `base`, and nothing else, holds them in that order.
proof fn lemma_full_bucket_places(bucket: Seq<EntryModel>, base: usize, count: nat, i: int)
    requires
        ordered(bucket),
        forall|k: int| 0 <= k < bucket.len() ==> base <= (#[trigger] bucket[k]).seq < base + count,
        forall|n: int| 0 <= n < count ==> holds(bucket, #[trigger] ((base + n) as usize)),
        base + count <= SEQ_LIMIT,
        0 <= i < count,
    ensures
        i < bucket.len(),
        bucket[i].seq == base + i,
    decreases i,
{
    if i > 0 {
        lemma_full_bucket_places(bucket, base, count, i - 1);
    }
    assert(holds(bucket, (base + i) as usize));
    let j = choose|j: int| 0 <= j < bucket.len() && (#[trigger] bucket[j]).seq == (base + i) as usize;
    if j < i {
        lemma_full_bucket_places(bucket, base, count, j);
    } else {
        lemma_ordered_gap(bucket, 0, i);
        lemma_ordered_gap(bucket, i, j);
    }
}

/// The payloads of the first `n` entries of a bucket that holds piece `i` of
/// `bits` at place `i` are the first `n` pieces, joined.
proof fn lemma_join_pieces(bucket: Seq<EntryModel>, bits: Seq<bool>, n: int)
    requires
        0 <= n <= bucket.len(),
        forall|i: int|
            0 <= i < bucket.len() ==> (#[trigger] bucket[i]).payload == chunk(
                bits,
                PAYLOAD_BITS_LEN as nat,
                i as nat,
            ),
    ensures
        spec_join(bucket.subrange(0, n)) == join_chunks(bits, PAYLOAD_BITS_LEN as nat, n as nat),
    decreases n,
{
    if n > 0 {
        lemma_join_pieces(bucket, bits, n - 1);
        let front = bucket.subrange(0, n);
        assert(front.drop_last() =~= bucket.subrange(0, n - 1));
        assert(front.last() == bucket[n - 1]);
    }
}

/// A bucket that holds exactly the frames of a packet joins to the packet's bits.
proof fn lemma_full_bucket(
    bucket: Seq<EntryModel>,
    bits: Seq<bool>,
    src: usize,
    dest: usize,
    base: usize,
)
    requires
        base + bits.len() <= SEQ_LIMIT,
        ordered(bucket),
        drawn_from(bucket, spec_packet(bits, src, dest, base)),
        forall|i: int|
            0 <= i < spec_packet(bits, src, dest, base).len() ==> holds(
                bucket,
                (#[trigger] spec_packet(bits, src, dest, base)[i]).header.seq,
            ),
    ensures
        spec_join(bucket) == bits,
{
    let packet = spec_packet(bits, src, dest, base);
    let count = packet.len();
    lemma_packet_sequence(bits, src, dest, base);
    lemma_chunk_count(bits.len());
    assert forall|k: int| 0 <= k < bucket.len() implies base <= (#[trigger] bucket[k]).seq < base
        + count by {
        let i = choose|i: int|
            0 <= i < packet.len() && #[trigger] bucket[k] == entry_of(#[trigger] packet[i]);
        assert(packet[i].header.seq == base + i);
    }
    assert forall|n: int| 0 <= n < count implies holds(bucket, #[trigger] ((base + n) as usize)) by {
        assert(packet[n].header.seq == base + n);
        assert(holds(bucket, packet[n].header.seq));
    }
    if count > 0 {
        lemma_full_bucket_places(bucket, base, count, count - 1);
    }
    if bucket.len() > 0 {
        lemma_ordered_gap(bucket, 0, bucket.len() - 1);
    }
    assert(bucket.len() == count);
    assert forall|i: int| 0 <= i < bucket.len() implies (#[trigger] bucket[i]).payload == chunk(
        bits,
        PAYLOAD_BITS_LEN as nat,
        i as nat,
    ) by {
        lemma_full_bucket_places(bucket, base, count, i);
        let n = choose|n: int|
            0 <= n < packet.len() && #[trigger] bucket[i] == entry_of(#[trigger] packet[n]);
        assert(packet[n].header.seq == base + n);
        assert(n == i);
    }
    lemma_join_pieces(bucket, bits, bucket.len() as int);
    assert(bucket.subrange(0, bucket.len() as int) =~= bucket);
    lemma_join_all_chunks(bits, PAYLOAD_BITS_LEN as nat, count);
}

/// What holds of frame `i` of a packet.
proof fn lemma_packet_frame(bits: Seq<bool>, src: usize, dest: usize, base: usize, i: int)
    requires
        base + bits.len() <= SEQ_LIMIT,
        0 <= i < spec_packet(bits, src, dest, base).len(),
    ensures
        accepts(Some(src), spec_packet(bits, src, dest, base)[i]),
        spec_packet(bits, src, dest, base)[i].header.seq == base + i,
        spec_packet(bits, src, dest, base)[i].header.seq < SEQ_LIMIT,
        spec_packet(bits, src, dest, base)[i].payload.len() <= PAYLOAD_BITS_LEN,
        spec_packet(bits, src, dest, base)[i].header.flag.eop == (i == spec_packet(
            bits,
            src,
            dest,
            base,
        ).len() - 1),
{
    lemma_packet_sequence(bits, src, dest, base);
}

/// Whether every frame of `packet` is in `bucket` or among `arrivals`.
pub open spec fn covered(
    bucket: Seq<EntryModel>,
    arrivals: Seq<FrameModel>,
    packet: Seq<FrameModel>,
) -> bool {
    forall|i: int|
        0 <= i < packet.len() ==> holds(bucket, (#[trigger] packet[i]).header.seq)
            || arrivals.contains(packet[i])
}

/// Whether every arrival that a read from `src` takes is a frame of `packet`.
pub open spec fn only_from(arrivals: Seq<FrameModel>, src: usize, packet: Seq<FrameModel>) -> bool {
    forall|k: int|
        0 <= k < arrivals.len() && accepts(Some(src), #[trigger] arrivals[k]) ==> packet.contains(
            arrivals[k],
        )
}

/// Whether no arrival but the last carries the end-of-packet flag.
pub open spec fn ends_last(arrivals: Seq<FrameModel>) -> bool {
    forall|k: int| 0 <= k < arrivals.len() - 1 ==> !(#[trigger] arrivals[k]).header.flag.eop
}

/// A bucket of frames of a packet stays one when another frame of it goes in.
proof fn lemma_insert_drawn(bucket: Seq<EntryModel>, packet: Seq<FrameModel>, at: int)
    requires
        bucket_wf(bucket),
        drawn_from(bucket, packet),
        0 <= at < packet.len(),
        packet[at].header.seq < SEQ_LIMIT,
        packet[at].payload.len() <= PAYLOAD_BITS_LEN,
    ensures
        bucket_wf(spec_insert(bucket, entry_of(packet[at]))),
        drawn_from(spec_insert(bucket, entry_of(packet[at])), packet),
{
    let entry = entry_of(packet[at]);
    let filled = spec_insert(bucket, entry);
    lemma_insert(bucket, entry);
    assert forall|k: int| 0 <= k < filled.len() implies exists|i: int|
        0 <= i < packet.len() && #[trigger] filled[k] == entry_of(#[trigger] packet[i]) by {
        if filled[k] == entry {
            assert(filled[k] == entry_of(packet[at]));
        } else {
            assert(bucket.contains(filled[k]));
            let m = choose|m: int| 0 <= m < bucket.len() && bucket[m] == filled[k];
            let i = choose|i: int|
                0 <= i < packet.len() && #[trigger] bucket[m] == entry_of(#[trigger] packet[i]);
            assert(filled[k] == entry_of(packet[i]));
        }
    }
}

/// When the first arrival goes into the bucket, the packet stays covered by the
/// bucket and the arrivals behind it.
proof fn lemma_covered_taken(
    bucket: Seq<EntryModel>,
    arrivals: Seq<FrameModel>,
    packet: Seq<FrameModel>,
)
    requires
        bucket_wf(bucket),
        arrivals.len() > 0,
        arrivals[0].header.seq < SEQ_LIMIT,
        arrivals[0].payload.len() <= PAYLOAD_BITS_LEN,
        covered(bucket, arrivals, packet),
    ensures
        covered(spec_insert(bucket, entry_of(arrivals[0])), arrivals.drop_first(), packet),
{
    let entry = entry_of(arrivals[0]);
    let filled = spec_insert(bucket, entry);
    let rest = arrivals.drop_first();
    lemma_insert(bucket, entry);
    assert forall|i: int| 0 <= i < packet.len() implies holds(
        filled,
        (#[trigger] packet[i]).header.seq,
    ) || rest.contains(packet[i]) by {
        if holds(bucket, packet[i].header.seq) {
            let k = choose|k: int|
                0 <= k < bucket.len() && (#[trigger] bucket[k]).seq == packet[i].header.seq;
            assert(filled.contains(bucket[k]));
            let m = choose|m: int| 0 <= m < filled.len() && filled[m] == bucket[k];
            assert(filled[m].seq == packet[i].header.seq);
        } else {
            assert(arrivals.contains(packet[i]));
            let k = choose|k: int| 0 <= k < arrivals.len() && arrivals[k] == packet[i];
            if k == 0 {
                let m = choose|m: int|
                    0 <= m < filled.len() && (#[trigger] filled[m]).seq == entry.seq;
                assert(filled[m].seq == packet[i].header.seq);
            } else {
                assert(rest[k - 1] == packet[i]);
            }
        }
    }
}

/// When the first arrival is no frame of the packet, the packet stays covered by
/// the bucket and the arrivals behind it.
proof fn lemma_covered_passed(
    bucket: Seq<EntryModel>,
    arrivals: Seq<FrameModel>,
    packet: Seq<FrameModel>,
)
    requires
        arrivals.len() > 0,
        !packet.contains(arrivals[0]),
        covered(bucket, arrivals, packet),
    ensures
        covered(bucket, arrivals.drop_first(), packet),
{
    let rest = arrivals.drop_first();
    assert forall|i: int| 0 <= i < packet.len() implies holds(
        bucket,
        (#[trigger] packet[i]).header.seq,
    ) || rest.contains(packet[i]) by {
        if !holds(bucket, packet[i].header.seq) {
            assert(arrivals.contains(packet[i]));
            let k = choose|k: int| 0 <= k < arrivals.len() && arrivals[k] == packet[i];
            assert(k != 0);
            assert(rest[k - 1] == packet[i]);
        }
    }
}

/// What stays true of the arrivals when the first one is taken off.
proof fn lemma_read_tail(arrivals: Seq<FrameModel>, src: usize, packet: Seq<FrameModel>)
    requires
        arrivals.len() > 1,
        only_from(arrivals, src, packet),
        ends_last(arrivals),
    ensures
        arrivals.drop_first().len() == arrivals.len() - 1,
        arrivals.drop_first().last() == arrivals.last(),
        only_from(arrivals.drop_first(), src, packet),
        ends_last(arrivals.drop_first()),
{
    let rest = arrivals.drop_first();
    assert forall|k: int| 0 <= k < rest.len() && accepts(Some(src), #[trigger] rest[k])
        implies packet.contains(rest[k]) by {
        assert(rest[k] == arrivals[k + 1]);
    }
    assert forall|k: int| 0 <= k < rest.len() - 1 implies !(#[trigger] rest[k]).header.flag.eop by {
        assert(rest[k] == arrivals[k + 1]);
    }
}

/// Reading with frames still to come: the general step behind
/// [`lemma_read_in_order`], for a bucket that is partly filled.
proof fn lemma_read_rest(
    bucket: Seq<EntryModel>,
    arrivals: Seq<FrameModel>,
    bits: Seq<bool>,
    src: usize,
    dest: usize,
    base: usize,
)
    requires
        base + bits.len() <= SEQ_LIMIT,
        bits.len() > 0,
        bucket_wf(bucket),
        drawn_from(bucket, spec_packet(bits, src, dest, base)),
        arrivals.len() > 0,
        arrivals.last() == spec_packet(bits, src, dest, base).last(),
        only_from(arrivals, src, spec_packet(bits, src, dest, base)),
        ends_last(arrivals),
        covered(bucket, arrivals, spec_packet(bits, src, dest, base)),
    ensures
        spec_read_all(bucket, Some(src), arrivals) == Some(bits),
    decreases arrivals.len(),
{
    let packet = spec_packet(bits, src, dest, base);
    let first = arrivals[0];
    let rest = arrivals.drop_first();
    lemma_chunk_count(bits.len());
    assert(packet.len() > 0);
    lemma_packet_frame(bits, src, dest, base, packet.len() - 1);
    if accepts(Some(src), first) {
        assert(packet.contains(first));
        let at = choose|at: int| 0 <= at < packet.len() && packet[at] == first;
        lemma_packet_frame(bits, src, dest, base, at);
        lemma_insert_drawn(bucket, packet, at);
        lemma_covered_taken(bucket, arrivals, packet);
        let filled = spec_insert(bucket, entry_of(first));
        if arrivals.len() == 1 {
            assert forall|i: int| 0 <= i < packet.len() implies holds(
                filled,
                (#[trigger] packet[i]).header.seq,
            ) by {
                if !holds(filled, packet[i].header.seq) {
                    assert(rest.contains(packet[i]));
                }
            }
            lemma_full_bucket(filled, bits, src, dest, base);
        } else {
            lemma_read_tail(arrivals, src, packet);
            lemma_read_rest(filled, rest, bits, src, dest, base);
        }
    } else {
        if packet.contains(first) {
            let at = choose|at: int| 0 <= at < packet.len() && packet[at] == first;
            lemma_packet_frame(bits, src, dest, base, at);
        }
        lemma_covered_passed(bucket, arrivals, packet);
        lemma_read_tail(arrivals, src, packet);
        lemma_read_rest(bucket, rest, bits, src, dest, base);
    }
}

/// Ordering on read: when the data frames of one write arrive in any order and
/// any number of times, mixed with frames that the reader does not listen to,
/// but so that every frame of the write arrives and the one that ends the packet
/// arrives last and only then, the reader returns exactly the bits that were
/// written.
pub proof fn lemma_read_in_order(
    arrivals: Seq<FrameModel>,
    bits: Seq<bool>,
    src: usize,
    dest: usize,
    base: usize,
)
    requires
        base + bits.len() <= SEQ_LIMIT,
        bits.len() > 0,
        arrivals.len() > 0,
        arrivals.last() == spec_packet(bits, src, dest, base).last(),
        only_from(arrivals, src, spec_packet(bits, src, dest, base)),
        ends_last(arrivals),
        forall|i: int|
            0 <= i < spec_packet(bits, src, dest, base).len() ==> arrivals.contains(
                #[trigger] spec_packet(bits, src, dest, base)[i],
            ),
    ensures
        spec_read_all(Seq::<EntryModel>::empty(), Some(src), arrivals) == Some(bits),
{
    lemma_read_rest(Seq::<EntryModel>::empty(), arrivals, bits, src, dest, base);
}

/// Acknowledgement symmetry: a data frame from `peer` to the station at
/// `address` is for that station, and the frame that answers it is the
/// acknowledgement from `address` to `peer` with the data frame's sequence number.
pub proof fn lemma_ack_mirrors(frame: FrameModel, address: usize, peer: usize)
    requires
        frame.kind == FrameType::Data,
        frame.header.dest == address,
        frame.header.src == peer,
    ensures
        spec_is_for_self(address, frame.header),
        spec_resp(frame) == Some(
            FrameModel {
                kind: FrameType::Ack,
                header: FrameHeader {
                    dest: peer,
                    src: address,
                    seq: frame.header.seq,
                    flag: FrameFlag { eop: false },
                },
                payload: Seq::<bool>::empty(),
            },
        ),
        frame.wf() ==> spec_resp(frame).unwrap().wf(),
{
}

/// The jar after the sequence numbers `seen` were observed one by one.
pub open spec fn jar_after(jar: Seq<usize>, capacity: nat, seen: Seq<usize>) -> Seq<usize>
    decreases seen.len(),
{
    if seen.len() == 0 {
        jar
    } else {
        spec_observe(jar_after(jar, capacity, seen.drop_last()), capacity, seen.last())
    }
}

/// Whether the data frame that is number `k` to arrive is handed to the reader:
/// its sequence number is not in the jar that the frames before it left.
pub open spec fn forwarded(jar: Seq<usize>, capacity: nat, seen: Seq<usize>, k: int) -> bool {
    !jar_after(jar, capacity, seen.take(k)).contains(seen[k])
}

/// Whether `value` stands in `jar` with at most `distance` numbers behind it.
pub open spec fn near_end(jar: Seq<usize>, value: usize, distance: int) -> bool {
    exists|p: int| 0 <= p < jar.len() && #[trigger] jar[p] == value && jar.len() - 1 - p <= distance
}

/// A jar never holds more than its capacity.
pub proof fn lemma_jar_after_len(jar: Seq<usize>, capacity: nat, seen: Seq<usize>)
    requires
        0 < capacity,
        jar.len() <= capacity,
    ensures
        jar_after(jar, capacity, seen).len() <= capacity,
    decreases seen.len(),
{
    if seen.len() > 0 {
        lemma_jar_after_len(jar, capacity, seen.drop_last());
    }
}

/// What the jar holds was there at the start or was seen since: the jar
/// remembers only sequence numbers of frames that came in.
pub proof fn lemma_jar_holds_seen(jar: Seq<usize>, capacity: nat, seen: Seq<usize>, value: usize)
    requires
        0 < capacity,
        jar_after(jar, capacity, seen).contains(value),
    ensures
        jar.contains(value) || seen.contains(value),
    decreases seen.len(),
{
    if seen.len() > 0 {
        let before = jar_after(jar, capacity, seen.drop_last());
        let after = jar_after(jar, capacity, seen);
        let at = choose|at: int| 0 <= at < after.len() && after[at] == value;
        if value == seen.last() {
            assert(seen[seen.len() - 1] == value);
        } else {
            if before.contains(seen.last()) {
                assert(before.contains(value));
            } else if before.len() >= capacity {
                let kept = before.drop_first();
                assert(after == kept.push(seen.last()));
                assert(at < kept.len());
                assert(kept[at] == before[at + 1]);
                assert(before[at + 1] == value);
            } else {
                assert(after == before.push(seen.last()));
                assert(at < before.len());
                assert(before[at] == value);
            }
            lemma_jar_holds_seen(jar, capacity, seen.drop_last(), value);
            if seen.drop_last().contains(value) {
                let k = choose|k: int| 0 <= k < seen.drop_last().len() && seen.drop_last()[k] == value;
                assert(seen[k] == value);
            }
        }
    }
}

/// One observation moves a number at most one place further from the end, and
/// does not push it out while it has fewer than `capacity - 1` numbers behind it.
proof fn lemma_observe_keeps(
    jar: Seq<usize>,
    capacity: nat,
    value: usize,
    distance: int,
    next: usize,
)
    requires
        jar.len() <= capacity,
        near_end(jar, value, distance),
        0 <= distance,
        distance + 1 < capacity,
    ensures
        near_end(spec_observe(jar, capacity, next), value, distance + 1),
{
    let p = choose|p: int|
        0 <= p < jar.len() && #[trigger] jar[p] == value && jar.len() - 1 - p <= distance;
    let after = spec_observe(jar, capacity, next);
    if jar.contains(next) {
        assert(after[p] == value);
    } else if jar.len() >= capacity {
        assert(after[p - 1] == value);
    } else {
        assert(after[p] == value);
    }
}

/// A number that was put into the jar by arrival `i` is still there before
/// arrival `k`, as long as no more than `capacity` arrivals lie between.
proof fn lemma_jar_keeps(jar: Seq<usize>, capacity: nat, seen: Seq<usize>, i: int, k: int)
    requires
        0 < capacity,
        jar.len() <= capacity,
        0 <= i < k <= seen.len(),
        k - i <= capacity,
        forwarded(jar, capacity, seen, i),
    ensures
        near_end(jar_after(jar, capacity, seen.take(k)), seen[i], k - i - 1),
    decreases k,
{
    let upto = seen.take(k);
    assert(upto.drop_last() =~= seen.take(k - 1));
    assert(upto.last() == seen[k - 1]);
    let before = jar_after(jar, capacity, seen.take(k - 1));
    let after = jar_after(jar, capacity, upto);
    lemma_jar_after_len(jar, capacity, seen.take(k - 1));
    if k == i + 1 {
        assert(after == spec_push(before, capacity, seen[i]));
        assert(after[after.len() - 1] == seen[i]);
    } else {
        lemma_jar_keeps(jar, capacity, seen, i, k - 1);
        lemma_observe_keeps(before, capacity, seen[i], k - i - 2, seen[k - 1]);
    }
}

/// At-most-once delivery: of two arrivals of the same sequence number that lie
/// no more than the jar's capacity apart, at most one is handed to the reader.
/// (Every one of them is acknowledged: see [`SocketDaemon::receive`].)
///
/// [`SocketDaemon::receive`]: crate::daemon::SocketDaemon::receive
pub proof fn lemma_at_most_once(jar: Seq<usize>, capacity: nat, seen: Seq<usize>, i: int, j: int)
    requires
        0 < capacity,
        jar.len() <= capacity,
        0 <= i < j < seen.len(),
        seen[i] == seen[j],
        j - i <= capacity,
    ensures
        !(forwarded(jar, capacity, seen, i) && forwarded(jar, capacity, seen, j)),
{
    if forwarded(jar, capacity, seen, i) {
        lemma_jar_keeps(jar, capacity, seen, i, j);
    }
}

/// How one attempt to send went: whether the channel was free, and, if the
/// frame was played, whether it went out whole.
pub struct Round {
    pub free: bool,
    pub delivered: bool,
}

/// How often the frame of a task goes out whole when its attempts go as
/// `rounds` say, beginning with `attempt`. On a busy channel and after a
/// collision the task backs off and comes again; after a frame that went out
/// whole it comes again when the acknowledgement timeout and the back-off
/// behind it have run out; a task that is no longer sendable ends.
pub open spec fn delivered_count(attempt: AttemptModel, rounds: Seq<Round>) -> nat
    decreases rounds.len(),
{
    if rounds.len() == 0 {
        0
    } else if !rounds[0].free {
        delivered_count(
            AttemptModel { inner: attempt.inner, retry: attempt.retry_when_busy(), fresh: false },
            rounds.drop_first(),
        )
    } else if !attempt.sendable() {
        0
    } else if rounds[0].delivered {
        1 + delivered_count(
            AttemptModel {
                inner: InnerModel {
                    task: attempt.inner.task,
                    resends: attempt.resends_when_sent(),
                },
                retry: 0,
                fresh: false,
            },
            rounds.drop_first(),
        )
    } else {
        delivered_count(
            AttemptModel { inner: attempt.inner, retry: next_retry(attempt.retry), fresh: false },
            rounds.drop_first(),
        )
    }
}

/// Bounded retries: whatever the channel does, the frame of a task goes out
/// whole at most once for every resend that the task has left, and once more if
/// the task is new. For a new task that is `SOCKET_MAX_RESENDS + 2` times at most.
pub proof fn lemma_bounded_retries(attempt: AttemptModel, rounds: Seq<Round>)
    requires
        attempt.inner.resends <= SOCKET_MAX_RESENDS + 1,
    ensures
        delivered_count(attempt, rounds) <= SOCKET_MAX_RESENDS + 1 - attempt.inner.resends + (
        if attempt.fresh {
            1nat
        } else {
            0nat
        }),
    decreases rounds.len(),
{
    if rounds.len() > 0 {
        let rest = rounds.drop_first();
        if !rounds[0].free {
            lemma_bounded_retries(
                AttemptModel {
                    inner: attempt.inner,
                    retry: attempt.retry_when_busy(),
                    fresh: false,
                },
                rest,
            );
        } else if attempt.sendable() {
            if rounds[0].delivered {
                lemma_bounded_retries(
                    AttemptModel {
                        inner: InnerModel {
                            task: attempt.inner.task,
                            resends: attempt.resends_when_sent(),
                        },
                        retry: 0,
                        fresh: false,
                    },
                    rest,
                );
            } else {
                lemma_bounded_retries(
                    AttemptModel {
                        inner: attempt.inner,
                        retry: next_retry(attempt.retry),
                        fresh: false,
                    },
                    rest,
                );
            }
        }
    }
}

/// Modulation round trip of a write: a bit string of at most `PAYLOAD_BITS_LEN`
/// bits goes out in one audio frame behind the warmup, and the symbols of that
/// frame, read behind its preamble with every sign intact, give the bit string.
pub proof fn lemma_write_round_trip(bits: Seq<bool>)
    requires
        bits.len() <= PAYLOAD_BITS_LEN,
    ensures
        packet_frames(bits) == seq![payload_frame(bits)],
        spec_run(
            after_preamble(),
            bits_of(packet_frames(bits)[0].length + packet_frames(bits)[0].body),
        ) == Some(bits),
{
    let size = PAYLOAD_LEN as nat;
    assert(0 * size == 0 && (0 + 1) * size == size) by (nonlinear_arith);
    assert(chunk_start(bits.len(), size, 0) == 0);
    assert(chunk_start(bits.len(), size, 1) == bits.len());
    assert(chunk(bits, size, 0) =~= bits);
    assert(bits.len() / size == 0);
    assert(packet_frames(bits) =~= seq![payload_frame(bits)]);
    lemma_decode_encoded(bits);
}

/// Modulation round trip of a bit string of any length: every audio frame of
/// the bit string, read behind its preamble with every sign intact, gives its
/// piece of the bit string, and the pieces, joined in order, are the bit string.
pub proof fn lemma_packet_round_trip(bits: Seq<bool>, index: int)
    requires
        0 <= index < packet_frames(bits).len(),
    ensures
        spec_run(
            after_preamble(),
            bits_of(packet_frames(bits)[index].length + packet_frames(bits)[index].body),
        ) == Some(chunk(bits, PAYLOAD_LEN as nat, index as nat)),
        join_chunks(bits, PAYLOAD_LEN as nat, packet_frames(bits).len()) == bits,
{
    let size = PAYLOAD_LEN as nat;
    let count = packet_frames(bits).len();
    let piece = chunk(bits, size, index as nat);
    lemma_chunk_len(bits, size, index as nat);
    assert(packet_frames(bits)[index] == payload_frame(piece));
    lemma_decode_encoded(piece);
    assert(count * size >= bits.len()) by (nonlinear_arith)
        requires
            count == bits.len() / size + 1,
            size == 127,
    ;
    lemma_join_all_chunks(bits, size, count);
}

} // verus!
