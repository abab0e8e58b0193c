//! What a socket's handles compute: the frames of a write, and the packet that
//! a read puts together from the frames that arrive.

use crate::ather::AtherStreamConfig;
use crate::backoff::uniform_upto;
use crate::bits::{bits_view, Bits};
use crate::chunks::{chunk, chunk_count, take_chunk};
use crate::consts::{
    PAYLOAD_BITS_LEN, SEQ_LIMIT, SOCKET_BROADCAST_ADDRESS, SOCKET_PERF_INTERVAL,
    SOCKET_PERF_TIMEOUT,
};
use crate::error::AcsmaIoError;
use crate::frame::{FrameFlag, FrameHeader, FrameModel, FrameType, MacFrame};
use rand::rngs::SmallRng;
use vstd::prelude::*;

verus! {

/// What a socket is set up with.
#[derive(Clone, Copy, Debug, PartialEq, Eq, Structural)]
pub struct AcsmaSocketConfig {
    /// The socket's own address.
    pub address: usize,
    /// The configuration of the physical layer underneath.
    pub ather_config: AtherStreamConfig,
}

impl AcsmaSocketConfig {
    /// A socket configuration.
    pub fn new(address: usize, ather_config: AtherStreamConfig) -> (config: AcsmaSocketConfig)
        ensures
            config == (AcsmaSocketConfig { address, ather_config }),
    {
        AcsmaSocketConfig { address, ather_config }
    }
}

/// Frame `index` of the packet that carries `bits` from `src` to `dest` with
/// sequence numbers from `base`: a data frame with piece `index` of the bits,
/// flagged as the end of the packet if it is the last of `count`.
pub open spec fn packet_frame(
    bits: Seq<bool>,
    src: usize,
    dest: usize,
    base: usize,
    count: nat,
    index: nat,
) -> FrameModel {
    FrameModel {
        kind: FrameType::Data,
        header: FrameHeader {
            dest,
            src,
            seq: (base + index) as usize,
            flag: FrameFlag { eop: index + 1 == count },
        },
        payload: chunk(bits, PAYLOAD_BITS_LEN as nat, index),
    }
}

/// The data frames that carry `bits` from `src` to `dest`, one per
/// `PAYLOAD_BITS_LEN` bits, numbered from `base` upwards.
pub open spec fn spec_packet(bits: Seq<bool>, src: usize, dest: usize, base: usize) -> Seq<
    FrameModel,
> {
    let count = chunk_count(bits.len(), PAYLOAD_BITS_LEN as nat);
    Seq::new(count, |i: int| packet_frame(bits, src, dest, base, count, i as nat))
}

/// The views of a vector of frames.
pub open spec fn packet_view(frames: Seq<MacFrame>) -> Seq<FrameModel> {
    Seq::new(frames.len(), |i: int| frames[i]@)
}

/// The data frames that carry `bits` from `src` to `dest`, numbered from `base`.
pub fn frame_packet(bits: &Bits, src: usize, dest: usize, base: usize) -> (frames: Vec<MacFrame>)
    requires
        base + bits@.len() <= SEQ_LIMIT,
    ensures
        packet_view(frames@) == spec_packet(bits@, src, dest, base),
{
    let len = bits.len();
    let count = (len + (PAYLOAD_BITS_LEN - 1)) / PAYLOAD_BITS_LEN;
    let mut frames: Vec<MacFrame> = Vec::new();
    let mut i: usize = 0;
    while i < count
        invariant
            i <= count == chunk_count(bits@.len(), PAYLOAD_BITS_LEN as nat),
            count <= len == bits@.len(),
            base + len <= SEQ_LIMIT,
            frames@.len() == i,
            forall|j: int|
                0 <= j < i ==> (#[trigger] frames@[j])@ == packet_frame(
                    bits@,
                    src,
                    dest,
                    base,
                    count as nat,
                    j as nat,
                ),
        decreases count - i,
    {
        let flag = if i + 1 == count {
            FrameFlag::end_of_packet()
        } else {
            FrameFlag::empty()
        };
        let payload = take_chunk(bits, PAYLOAD_BITS_LEN, i);
        frames.push(MacFrame::data(dest, src, base + i, flag, payload));
        i += 1;
    }
    assert(packet_view(frames@) =~= spec_packet(bits@, src, dest, base));
    frames
}

/// The data frames that carry `bits` from `src` to `dest`, numbered from a base
/// that is drawn at random so that every number stays below `SEQ_LIMIT`.
pub fn encode_packet(rng: &mut SmallRng, bits: &Bits, src: usize, dest: usize) -> (frames: Vec<
    MacFrame,
>)
    requires
        bits@.len() < SEQ_LIMIT,
    ensures
        exists|base: usize|
            base + bits@.len() < SEQ_LIMIT && packet_view(frames@) == #[trigger] spec_packet(
                bits@,
                src,
                dest,
                base,
            ),
{
    let len = bits.len();
    let room: usize = SEQ_LIMIT - len;
    let base = uniform_upto(rng, (room - 1) as u32) as usize;
    frame_packet(bits, src, dest, base)
}

/// The writing handle of a socket.
pub struct AcsmaSocketWriter {
    pub config: AcsmaSocketConfig,
}

impl AcsmaSocketWriter {
    /// A writer for the socket with the given configuration.
    pub fn new(config: AcsmaSocketConfig) -> (writer: AcsmaSocketWriter)
        ensures
            writer.config == config,
    {
        AcsmaSocketWriter { config }
    }

    /// The frames of a write of `bits` to `dest`, to be sent one after the
    /// other, each once the one before was acknowledged.
    pub fn write(&self, rng: &mut SmallRng, dest: usize, bits: &Bits) -> (frames: Vec<MacFrame>)
        requires
            bits@.len() < SEQ_LIMIT,
        ensures
            exists|base: usize|
                base + bits@.len() < SEQ_LIMIT && packet_view(frames@) == #[trigger] spec_packet(
                    bits@,
                    self.config.address,
                    dest,
                    base,
                ),
    {
        encode_packet(rng, bits, self.config.address, dest)
    }

    /// The frames of a write of `bits` to every station.
    pub fn write_unchecked(&self, rng: &mut SmallRng, bits: &Bits) -> (frames: Vec<MacFrame>)
        requires
            bits@.len() < SEQ_LIMIT,
        ensures
            exists|base: usize|
                base + bits@.len() < SEQ_LIMIT && packet_view(frames@) == #[trigger] spec_packet(
                    bits@,
                    self.config.address,
                    SOCKET_BROADCAST_ADDRESS,
                    base,
                ),
    {
        encode_packet(rng, bits, self.config.address, SOCKET_BROADCAST_ADDRESS)
    }

    /// The frame that a ping of `dest` sends, again and again.
    pub fn ping(&self, dest: usize) -> (frame: MacFrame)
        ensures
            frame@ == (FrameModel {
                kind: FrameType::MacPingReq,
                header: FrameHeader {
                    dest,
                    src: self.config.address,
                    seq: 0,
                    flag: FrameFlag { eop: false },
                },
                payload: Seq::<bool>::empty(),
            }),
    {
        MacFrame::ping_req(dest, self.config.address)
    }

    /// The frame that a throughput probe of `dest` sends, again and again: a
    /// full payload of zeros under sequence number zero.
    pub fn perf(&self, dest: usize) -> (frame: MacFrame)
        ensures
            frame@ == (FrameModel {
                kind: FrameType::Data,
                header: FrameHeader {
                    dest,
                    src: self.config.address,
                    seq: 0,
                    flag: FrameFlag { eop: false },
                },
                payload: Seq::new(PAYLOAD_BITS_LEN as nat, |i: int| false),
            }),
    {
        let mut bits = Bits::new();
        let mut i: usize = 0;
        while i < PAYLOAD_BITS_LEN
            invariant
                i <= PAYLOAD_BITS_LEN,
                bits@ == Seq::new(i as nat, |i: int| false),
            decreases PAYLOAD_BITS_LEN - i,
        {
            bits.push(false);
            i += 1;
            assert(bits@ =~= Seq::new(i as nat, |i: int| false));
        }
        MacFrame::data(dest, self.config.address, 0, FrameFlag::empty(), bits)
    }

    /// The error with which a throughput probe ends.
    pub fn perf_timeout() -> (error: AcsmaIoError)
        ensures
            error == AcsmaIoError::PerfTimeout(SOCKET_PERF_TIMEOUT as usize),
    {
        AcsmaIoError::PerfTimeout(SOCKET_PERF_TIMEOUT as usize)
    }
}

/// What a write does next.
#[derive(Debug, PartialEq, Eq)]
pub enum WriteStep {
    /// Queue this frame and wait for its outcome.
    Send(MacFrame),
    /// The write is over, with this result.
    Done(Result<(), AcsmaIoError>),
}

/// The view of a step.
pub open spec fn step_view(step: WriteStep) -> Option<FrameModel> {
    match step {
        WriteStep::Send(frame) => Some(frame@),
        WriteStep::Done(_) => None,
    }
}

/// A write in progress: the frames of the packet, and how many of them were
/// queued. One frame is outstanding at a time.
pub struct WriteCursor {
    pub frames: Vec<MacFrame>,
    pub queued: usize,
}

impl WriteCursor {
    /// No more frames are queued than there are.
    pub open spec fn wf(&self) -> bool {
        self.queued <= self.frames@.len()
    }

    /// A write of `frames` of which none is queued yet.
    pub fn new(frames: Vec<MacFrame>) -> (cursor: WriteCursor)
        ensures
            cursor.wf(),
            cursor.queued == 0,
            packet_view(cursor.frames@) == packet_view(frames@),
    {
        WriteCursor { frames, queued: 0 }
    }

    /// Takes the outcome of the frame that was queued last (`None` before the
    /// first) and says how the write goes on. A failure ends the write with that
    /// failure. Else the next frame is queued; when none is left, the write has
    /// succeeded.
    pub fn step(&mut self, outcome: Option<Result<(), AcsmaIoError>>) -> (step: WriteStep)
        requires
            old(self).wf(),
        ensures
            final(self).wf(),
            packet_view(final(self).frames@) == packet_view(old(self).frames@),
            match outcome {
                Some(Err(error)) => {
                    &&& step == WriteStep::Done(Err(error))
                    &&& final(self).queued == old(self).queued
                },
                _ => if old(self).queued < old(self).frames@.len() {
                    &&& step_view(step) == Some(old(self).frames@[old(self).queued as int]@)
                    &&& final(self).queued == old(self).queued + 1
                } else {
                    &&& step == WriteStep::Done(Ok(()))
                    &&& final(self).queued == old(self).queued
                },
            },
    {
        match outcome {
            Some(Err(error)) => WriteStep::Done(Err(error)),
            _ => {
                if self.queued < self.frames.len() {
                    let frame = self.frames[self.queued].clone();
                    self.queued = self.queued + 1;
                    WriteStep::Send(frame)
                } else {
                    WriteStep::Done(Ok(()))
                }
            },
        }
    }
}

/// The tally of a throughput probe: the bits acknowledged so far, and the
/// reports made.
#[derive(Clone, Copy, Debug, PartialEq, Eq, Structural)]
pub struct PerfMeter {
    pub sent: u64,
    pub epochs: u64,
}

impl PerfMeter {
    /// A tally of nothing.
    pub fn new() -> (meter: PerfMeter)
        ensures
            meter == (PerfMeter { sent: 0, epochs: 0 }),
    {
        PerfMeter { sent: 0, epochs: 0 }
    }

    /// Counts `bits` acknowledged bits.
    pub fn record(&mut self, bits: usize)
        requires
            old(self).sent + bits <= u64::MAX,
        ensures
            final(self).sent == old(self).sent + bits,
            final(self).epochs == old(self).epochs,
    {
        self.sent = self.sent + bits as u64;
    }

    /// Closes one report interval and gives the average throughput since the
    /// probe began, in bits per second: the bits counted, over the time that the
    /// intervals so far took.
    pub fn report(&mut self) -> (rate: u64)
        requires
            old(self).epochs < u64::MAX / SOCKET_PERF_INTERVAL,
            old(self).sent <= u64::MAX / 1000,
        ensures
            final(self).sent == old(self).sent,
            final(self).epochs == old(self).epochs + 1,
            rate == (old(self).sent * 1000) / ((old(self).epochs + 1) * SOCKET_PERF_INTERVAL),
    {
        self.epochs = self.epochs + 1;
        assert(self.epochs * SOCKET_PERF_INTERVAL <= u64::MAX) by (nonlinear_arith)
            requires
                self.epochs <= u64::MAX / SOCKET_PERF_INTERVAL,
                SOCKET_PERF_INTERVAL == 1000,
        ;
        assert(self.sent * 1000 <= u64::MAX) by (nonlinear_arith)
            requires
                self.sent <= u64::MAX / 1000,
        ;
        (self.sent * 1000) / (self.epochs * SOCKET_PERF_INTERVAL)
    }
}

/// One payload of a packet in the making, under its sequence number.
pub struct Entry {
    pub seq: usize,
    pub payload: Bits,
}

/// An entry as a mathematical value.
pub struct EntryModel {
    pub seq: usize,
    pub payload: Seq<bool>,
}

impl View for Entry {
    type V = EntryModel;

    open spec fn view(&self) -> EntryModel {
        EntryModel { seq: self.seq, payload: self.payload@ }
    }
}

/// The views of a vector of entries.
pub open spec fn bucket_view(bucket: Seq<Entry>) -> Seq<EntryModel> {
    Seq::new(bucket.len(), |i: int| bucket[i]@)
}

/// Whether the entries stand in strictly rising order of sequence number.
pub open spec fn ordered(bucket: Seq<EntryModel>) -> bool {
    forall|i: int, j: int| 0 <= i < j < bucket.len() ==> bucket[i].seq < bucket[j].seq
}

/// Whether a bucket is ordered and every entry could have come in one frame.
pub open spec fn bucket_wf(bucket: Seq<EntryModel>) -> bool {
    &&& ordered(bucket)
    &&& forall|i: int|
        0 <= i < bucket.len() ==> (#[trigger] bucket[i]).seq < SEQ_LIMIT && bucket[i].payload.len()
            <= PAYLOAD_BITS_LEN
}

/// The bucket with `entry` put in its place by sequence number. An entry whose
/// number is in the bucket already is dropped: the first payload stays.
pub open spec fn spec_insert(bucket: Seq<EntryModel>, entry: EntryModel) -> Seq<EntryModel>
    decreases bucket.len(),
{
    if bucket.len() == 0 {
        seq![entry]
    } else if bucket.last().seq < entry.seq {
        bucket.push(entry)
    } else if bucket.last().seq == entry.seq {
        bucket
    } else {
        spec_insert(bucket.drop_last(), entry).push(bucket.last())
    }
}

/// The payloads of a bucket, joined in the bucket's order.
pub open spec fn spec_join(bucket: Seq<EntryModel>) -> Seq<bool>
    decreases bucket.len(),
{
    if bucket.len() == 0 {
        Seq::<bool>::empty()
    } else {
        spec_join(bucket.drop_last()) + bucket.last().payload
    }
}

/// Whether a read that listens to `filter` (everybody, if `None`) takes `frame`.
pub open spec fn accepts(filter: Option<usize>, frame: FrameModel) -> bool {
    &&& frame.kind == FrameType::Data
    &&& (filter.is_none() || filter == Some(frame.header.src))
}

/// The bucket after `frame` arrived, and the packet if the frame ended one.
///
/// A data frame from the source that is listened to goes into the bucket. If it
/// carries the end-of-packet flag, the bucket's payloads, joined in order of
/// sequence number, are the packet, and the bucket starts over.
pub open spec fn spec_read(bucket: Seq<EntryModel>, filter: Option<usize>, frame: FrameModel) -> (
    Seq<EntryModel>,
    Option<Seq<bool>>,
) {
    if accepts(filter, frame) {
        let filled = spec_insert(
            bucket,
            EntryModel { seq: frame.header.seq, payload: frame.payload },
        );
        if frame.header.flag.eop {
            (Seq::<EntryModel>::empty(), Some(spec_join(filled)))
        } else {
            (filled, None)
        }
    } else {
        (bucket, None)
    }
}

/// Putting an entry into a well-formed bucket leaves it well formed. Every entry
/// of the result is the new one or an old one, and every old one is still there.
pub proof fn lemma_insert(bucket: Seq<EntryModel>, entry: EntryModel)
    requires
        bucket_wf(bucket),
        entry.seq < SEQ_LIMIT,
        entry.payload.len() <= PAYLOAD_BITS_LEN,
    ensures
        bucket_wf(spec_insert(bucket, entry)),
        bucket.len() <= spec_insert(bucket, entry).len() <= bucket.len() + 1,
        forall|i: int|
            0 <= i < spec_insert(bucket, entry).len() ==> (#[trigger] spec_insert(
                bucket,
                entry,
            )[i]) == entry || bucket.contains(spec_insert(bucket, entry)[i]),
        forall|i: int|
            0 <= i < bucket.len() ==> spec_insert(bucket, entry).contains(#[trigger] bucket[i]),
        exists|i: int|
            0 <= i < spec_insert(bucket, entry).len() && (#[trigger] spec_insert(
                bucket,
                entry,
            )[i]).seq == entry.seq,
    decreases bucket.len(),
{
    let out = spec_insert(bucket, entry);
    if bucket.len() == 0 {
        assert(out[0] == entry);
    } else if bucket.last().seq < entry.seq {
        assert(out[bucket.len() as int] == entry);
        assert forall|i: int| 0 <= i < bucket.len() implies out.contains(#[trigger] bucket[i]) by {
            assert(out[i] == bucket[i]);
        }
        assert forall|i: int| 0 <= i < out.len() implies (#[trigger] out[i]) == entry
            || bucket.contains(out[i]) by {
            if i < bucket.len() {
                assert(bucket[i] == out[i]);
            }
        }
    } else if bucket.last().seq == entry.seq {
        assert(out[bucket.len() - 1].seq == entry.seq);
        assert forall|i: int| 0 <= i < out.len() implies (#[trigger] out[i]) == entry
            || bucket.contains(out[i]) by {
            assert(bucket[i] == out[i]);
        }
        assert forall|i: int| 0 <= i < bucket.len() implies out.contains(#[trigger] bucket[i]) by {
            assert(out[i] == bucket[i]);
        }
    } else {
        let front = bucket.drop_last();
        let last = bucket.last();
        assert(bucket_wf(front));
        lemma_insert(front, entry);
        let mid = spec_insert(front, entry);
        assert(out == mid.push(last));
        assert forall|i: int| 0 <= i < mid.len() implies (#[trigger] mid[i]).seq < last.seq by {
            if mid[i] != entry {
                assert(front.contains(mid[i]));
                let k = choose|k: int| 0 <= k < front.len() && front[k] == mid[i];
                assert(bucket[k] == mid[i]);
            }
        }
        assert forall|i: int| 0 <= i < out.len() implies (#[trigger] out[i]) == entry
            || bucket.contains(out[i]) by {
            if i < mid.len() {
                assert(out[i] == mid[i]);
                if mid[i] != entry {
                    let k = choose|k: int| 0 <= k < front.len() && front[k] == mid[i];
                    assert(bucket[k] == mid[i]);
                }
            } else {
                assert(bucket[bucket.len() - 1] == out[i]);
            }
        }
        assert forall|i: int| 0 <= i < bucket.len() implies out.contains(#[trigger] bucket[i]) by {
            if i < front.len() {
                assert(front[i] == bucket[i]);
                assert(mid.contains(front[i]));
                let k = choose|k: int| 0 <= k < mid.len() && mid[k] == front[i];
                assert(out[k] == bucket[i]);
            } else {
                assert(out[mid.len() as int] == bucket[i]);
            }
        }
        let at = choose|i: int| 0 <= i < mid.len() && (#[trigger] mid[i]).seq == entry.seq;
        assert(out[at].seq == entry.seq);
        assert(ordered(out)) by {
            assert forall|i: int, j: int| 0 <= i < j < out.len() implies out[i].seq
                < out[j].seq by {
                if j < mid.len() {
                    assert(out[i] == mid[i] && out[j] == mid[j]);
                } else {
                    assert(out[i] == mid[i]);
                }
            }
        }
        assert forall|i: int| 0 <= i < out.len() implies (#[trigger] out[i]).seq < SEQ_LIMIT
            && out[i].payload.len() <= PAYLOAD_BITS_LEN by {
            if i < mid.len() {
                assert(out[i] == mid[i]);
            } else {
                assert(out[i] == bucket[bucket.len() - 1]);
            }
        }
    }
}

/// Putting an entry into a well-formed bucket leaves it well formed.
pub proof fn lemma_insert_wf(bucket: Seq<EntryModel>, entry: EntryModel)
    requires
        bucket_wf(bucket),
        entry.seq < SEQ_LIMIT,
        entry.payload.len() <= PAYLOAD_BITS_LEN,
    ensures
        bucket_wf(spec_insert(bucket, entry)),
{
    lemma_insert(bucket, entry);
}

/// Where an entry goes: with every entry from place `at` on above the new
/// number and the one in front of `at`, if any, not above it, the new entry
/// lands at `at`, unless the one in front of it has the same number.
pub proof fn lemma_insert_at(bucket: Seq<EntryModel>, entry: EntryModel, at: int)
    requires
        0 <= at <= bucket.len(),
        forall|j: int| at <= j < bucket.len() ==> (#[trigger] bucket[j]).seq > entry.seq,
        at > 0 ==> bucket[at - 1].seq <= entry.seq,
    ensures
        spec_insert(bucket, entry) == (if at > 0 && bucket[at - 1].seq == entry.seq {
            bucket
        } else {
            bucket.insert(at, entry)
        }),
    decreases bucket.len() - at,
{
    if at == bucket.len() {
        if bucket.len() == 0 {
            assert(bucket.insert(0, entry) =~= seq![entry]);
        } else if bucket.last().seq < entry.seq {
            assert(bucket.insert(at, entry) =~= bucket.push(entry));
        }
    } else {
        let front = bucket.drop_last();
        let last = bucket.last();
        assert(last == bucket[bucket.len() - 1]);
        assert(last.seq > entry.seq);
        assert forall|j: int| at <= j < front.len() implies (#[trigger] front[j]).seq
            > entry.seq by {
            assert(front[j] == bucket[j]);
        }
        if at > 0 {
            assert(front[at - 1] == bucket[at - 1]);
        }
        lemma_insert_at(front, entry, at);
        if at > 0 && bucket[at - 1].seq == entry.seq {
            assert(front.push(last) =~= bucket);
        } else {
            assert(front.insert(at, entry).push(last) =~= bucket.insert(at, entry));
        }
    }
}

/// In an ordered bucket the sequence number at place `i` is at least `i`, so a
/// well-formed bucket has at most `SEQ_LIMIT` entries.
pub proof fn lemma_bucket_len(bucket: Seq<EntryModel>, i: int)
    requires
        ordered(bucket),
        0 <= i < bucket.len(),
    ensures
        bucket[i].seq >= i,
    decreases i,
{
    if i > 0 {
        lemma_bucket_len(bucket, i - 1);
    }
}

/// The reading handle of a socket: the bucket in which a packet is put together.
pub struct AcsmaSocketReader {
    pub bucket: Vec<Entry>,
}

impl View for AcsmaSocketReader {
    type V = Seq<EntryModel>;

    open spec fn view(&self) -> Seq<EntryModel> {
        bucket_view(self.bucket@)
    }
}

impl AcsmaSocketReader {
    /// The bucket is ordered and holds what frames can carry.
    pub open spec fn wf(&self) -> bool {
        bucket_wf(self@)
    }

    /// A reader with an empty bucket.
    pub fn new() -> (reader: AcsmaSocketReader)
        ensures
            reader.wf(),
            reader@ == Seq::<EntryModel>::empty(),
    {
        let reader = AcsmaSocketReader { bucket: Vec::new() };
        assert(reader@ =~= Seq::<EntryModel>::empty());
        reader
    }

    /// The place at which an entry under `seq` belongs: behind every entry with
    /// a number up to `seq`, in front of every entry with a higher one.
    fn place(&self, seq: usize) -> (at: usize)
        ensures
            at <= self@.len(),
            forall|j: int| at <= j < self@.len() ==> (#[trigger] self@[j]).seq > seq,
            at > 0 ==> self@[at - 1].seq <= seq,
    {
        let mut at: usize = self.bucket.len();
        while at > 0 && self.bucket[at - 1].seq > seq
            invariant
                at <= self.bucket@.len(),
                self@.len() == self.bucket@.len(),
                forall|j: int| at <= j < self@.len() ==> (#[trigger] self@[j]).seq > seq,
            decreases at,
        {
            at -= 1;
        }
        at
    }

    /// Puts `entry` in its place, unless its sequence number is there already.
    fn insert(&mut self, entry: Entry)
        requires
            old(self).wf(),
            entry.seq < SEQ_LIMIT,
            entry.payload@.len() <= PAYLOAD_BITS_LEN,
        ensures
            final(self).wf(),
            final(self)@ == spec_insert(old(self)@, entry@),
    {
        let ghost whole = self@;
        let ghost added = entry@;
        let at = self.place(entry.seq);
        proof {
            lemma_insert_at(whole, added, at as int);
            lemma_insert_wf(whole, added);
        }
        let known = at > 0 && self.bucket[at - 1].seq == entry.seq;
        if !known {
            self.bucket.insert(at, entry);
            assert(self@ =~= whole.insert(at as int, added));
        }
    }

    /// The payloads of the bucket, joined in order.
    fn join(&self) -> (bits: Bits)
        requires
            self.wf(),
        ensures
            bits@ == spec_join(self@),
    {
        let len = self.bucket.len();
        let mut bits = Bits::new();
        let mut i: usize = 0;
        proof {
            if len > 0 {
                lemma_bucket_len(self@, len - 1);
                assert(self@[len - 1].seq < SEQ_LIMIT);
            }
        }
        while i < len
            invariant
                i <= len == self.bucket@.len(),
                len <= SEQ_LIMIT,
                self.wf(),
                bits@ == spec_join(self@.subrange(0, i as int)),
                bits@.len() <= i * PAYLOAD_BITS_LEN,
            decreases len - i,
        {
            proof {
                let next = self@.subrange(0, i + 1);
                assert(next.drop_last() =~= self@.subrange(0, i as int));
                assert(next.last() == self@[i as int]);
                assert(self@[i as int] == self.bucket@[i as int]@);
                assert(self@[i as int].payload.len() <= PAYLOAD_BITS_LEN);
                assert((i + 1) * PAYLOAD_BITS_LEN <= SEQ_LIMIT * PAYLOAD_BITS_LEN)
                    by (nonlinear_arith)
                    requires
                        i + 1 <= SEQ_LIMIT,
                ;
                assert((i + 1) * PAYLOAD_BITS_LEN == i * PAYLOAD_BITS_LEN + PAYLOAD_BITS_LEN)
                    by (nonlinear_arith);
            }
            bits.extend_from_bits(&self.bucket[i].payload);
            i += 1;
        }
        assert(self@.subrange(0, len as int) =~= self@);
        bits
    }

    /// Takes one frame that the daemon handed up, listening to `filter`.
    fn take_frame(&mut self, filter: Option<usize>, frame: MacFrame) -> (packet: Option<Bits>)
        requires
            old(self).wf(),
            frame@.wf(),
        ensures
            final(self).wf(),
            (final(self)@, bits_view(packet)) == spec_read(old(self)@, filter, frame@),
    {
        let listened = match filter {
            Some(src) => frame.header().src == src,
            None => true,
        };
        match frame {
            MacFrame::Data { header, payload } => {
                if !listened {
                    return None;
                }
                self.insert(Entry { seq: header.seq, payload });
                if header.flag.contains(FrameFlag::end_of_packet()) {
                    let packet = self.join();
                    self.bucket.clear();
                    assert(self@ =~= Seq::<EntryModel>::empty());
                    Some(packet)
                } else {
                    None
                }
            },
            _ => None,
        }
    }

    /// Takes one frame that the daemon handed up. A data frame from `src` goes
    /// into the bucket; the one with the end-of-packet flag completes the packet,
    /// which is returned, and empties the bucket. Other frames are passed over.
    pub fn read(&mut self, src: usize, frame: MacFrame) -> (packet: Option<Bits>)
        requires
            old(self).wf(),
            frame@.wf(),
        ensures
            final(self).wf(),
            (final(self)@, bits_view(packet)) == spec_read(old(self)@, Some(src), frame@),
    {
        self.take_frame(Some(src), frame)
    }

    /// As [`read`](Self::read), but listening to every source.
    pub fn read_unchecked(&mut self, frame: MacFrame) -> (packet: Option<Bits>)
        requires
            old(self).wf(),
            frame@.wf(),
        ensures
            final(self).wf(),
            (final(self)@, bits_view(packet)) == spec_read(old(self)@, None, frame@),
    {
        self.take_frame(None, frame)
    }

    /// What the bucket holds when no more frames will come: its payloads, joined
    /// in order. The bucket is emptied.
    pub fn finish(&mut self) -> (packet: Bits)
        requires
            old(self).wf(),
        ensures
            final(self).wf(),
            final(self)@ == Seq::<EntryModel>::empty(),
            packet@ == spec_join(old(self)@),
    {
        let packet = self.join();
        self.bucket.clear();
        assert(self@ =~= Seq::<EntryModel>::empty());
        packet
    }
}

} // verus!
