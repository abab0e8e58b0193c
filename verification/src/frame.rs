//! Link frames: their kinds, their header, and their layout in bits.
//!
//! A frame is laid out as
//! `[ type:2 | flag:1 | dest:4 | src:4 | seq:12 | payload:0..96 | checksum:8 ]`,
//! each field least significant bit first. The checksum covers every bit in
//! front of it. Only a data frame has a payload.

use crate::bits::Bits;
use crate::consts::{
    ADDRESS_BITS_LEN, ADDRESS_LIMIT, CHECKSUM_BITS_LEN, FLAG_BITS_LEN, HEADER_BITS_LEN,
    PAYLOAD_BITS_LEN, PAYLOAD_LEN, SEQ_BITS_LEN, SEQ_LIMIT, TYPE_BITS_LEN,
};
use crate::wire::{
    checksum, crc8, le_bits, le_value, lemma_le_bits_len, lemma_le_bits_of_value,
    lemma_le_value_bound, lemma_le_value_of_bits, push_le, read_le,
};
use vstd::arithmetic::power2::lemma2_to64;
use vstd::prelude::*;

verus! {

/// The four kinds of link frame.
#[derive(Clone, Copy, Debug, PartialEq, Eq, Structural)]
pub enum FrameType {
    Data,
    Ack,
    MacPingReq,
    MacPingResp,
}

impl FrameType {
    /// The number that stands for the kind on the wire.
    pub open spec fn spec_tag(self) -> nat {
        match self {
            FrameType::Data => 0,
            FrameType::Ack => 1,
            FrameType::MacPingReq => 2,
            FrameType::MacPingResp => 3,
        }
    }

    /// The kind that a wire number stands for; numbers wrap modulo four.
    pub open spec fn spec_from_tag(tag: nat) -> FrameType {
        if tag % 4 == 0 {
            FrameType::Data
        } else if tag % 4 == 1 {
            FrameType::Ack
        } else if tag % 4 == 2 {
            FrameType::MacPingReq
        } else {
            FrameType::MacPingResp
        }
    }

    /// The number that stands for the kind on the wire.
    pub fn tag(self) -> (tag: usize)
        ensures
            tag == self.spec_tag(),
    {
        match self {
            FrameType::Data => 0,
            FrameType::Ack => 1,
            FrameType::MacPingReq => 2,
            FrameType::MacPingResp => 3,
        }
    }

    /// The kind that a wire number stands for.
    pub fn from_tag(tag: usize) -> (kind: FrameType)
        ensures
            kind == FrameType::spec_from_tag(tag as nat),
    {
        let low = tag % 4;
        if low == 0 {
            FrameType::Data
        } else if low == 1 {
            FrameType::Ack
        } else if low == 2 {
            FrameType::MacPingReq
        } else {
            FrameType::MacPingResp
        }
    }

    /// The kind of frame that answers a frame of this kind, if one does.
    pub open spec fn spec_answer(self) -> Option<FrameType> {
        match self {
            FrameType::Data => Some(FrameType::Ack),
            FrameType::MacPingReq => Some(FrameType::MacPingResp),
            _ => None,
        }
    }
}

/// The flags of a frame. There is one: end of packet.
#[derive(Clone, Copy, Debug, PartialEq, Eq, Structural)]
pub struct FrameFlag {
    /// Set on the last data frame of a packet.
    pub eop: bool,
}

impl FrameFlag {
    /// No flag set.
    pub fn empty() -> (flag: FrameFlag)
        ensures
            flag == (FrameFlag { eop: false }),
    {
        FrameFlag { eop: false }
    }

    /// The end-of-packet flag.
    pub fn end_of_packet() -> (flag: FrameFlag)
        ensures
            flag == (FrameFlag { eop: true }),
    {
        FrameFlag { eop: true }
    }

    /// Whether every flag of `other` is set in `self`.
    pub fn contains(self, other: FrameFlag) -> (yes: bool)
        ensures
            yes == (other.eop ==> self.eop),
    {
        !other.eop || self.eop
    }

    /// The flag field on the wire.
    pub open spec fn spec_field(self) -> nat {
        if self.eop {
            1
        } else {
            0
        }
    }
}

/// What every frame carries in front of its payload.
#[derive(Clone, Copy, Debug, PartialEq, Eq, Structural)]
pub struct FrameHeader {
    /// The station the frame is for.
    pub dest: usize,
    /// The station the frame is from.
    pub src: usize,
    /// The frame's sequence number.
    pub seq: usize,
    /// The frame's flags.
    pub flag: FrameFlag,
}

impl FrameHeader {
    /// Whether both addresses and the sequence number fit their fields.
    pub open spec fn wf(self) -> bool {
        &&& self.dest < ADDRESS_LIMIT
        &&& self.src < ADDRESS_LIMIT
        &&& self.seq < SEQ_LIMIT
    }

    /// Whether both addresses and the sequence number fit their fields.
    pub fn is_valid(&self) -> (ok: bool)
        ensures
            ok == self.wf(),
    {
        self.dest < ADDRESS_LIMIT && self.src < ADDRESS_LIMIT && self.seq < SEQ_LIMIT
    }
}

/// A link frame as a mathematical value.
pub struct FrameModel {
    pub kind: FrameType,
    pub header: FrameHeader,
    pub payload: Seq<bool>,
}

impl FrameModel {
    /// Whether the frame can be laid out: its header fits, its payload is at most
    /// `PAYLOAD_BITS_LEN` bits, and only a data frame has one.
    pub open spec fn wf(self) -> bool {
        &&& self.header.wf()
        &&& self.payload.len() <= PAYLOAD_BITS_LEN
        &&& (self.kind != FrameType::Data ==> self.payload.len() == 0)
    }
}

/// The first `HEADER_BITS_LEN` bits of a frame.
pub open spec fn header_bits(kind: FrameType, header: FrameHeader) -> Seq<bool> {
    le_bits(kind.spec_tag(), TYPE_BITS_LEN as nat) + le_bits(
        header.flag.spec_field(),
        FLAG_BITS_LEN as nat,
    ) + le_bits(header.dest as nat, ADDRESS_BITS_LEN as nat) + le_bits(
        header.src as nat,
        ADDRESS_BITS_LEN as nat,
    ) + le_bits(header.seq as nat, SEQ_BITS_LEN as nat)
}

/// Everything that the checksum covers: header, then payload.
pub open spec fn covered_bits(frame: FrameModel) -> Seq<bool> {
    header_bits(frame.kind, frame.header) + frame.payload
}

/// The bits of a frame on the wire.
pub open spec fn frame_bits(frame: FrameModel) -> Seq<bool> {
    covered_bits(frame) + le_bits(crc8(covered_bits(frame)) as nat, CHECKSUM_BITS_LEN as nat)
}

/// Why a bit string is no frame.
#[derive(Clone, Copy, Debug, PartialEq, Eq, Structural)]
pub enum DecodeError {
    /// Fewer bits than a header and a checksum.
    TooShort,
    /// More bits than one audio frame carries.
    TooLong,
    /// The checksum field does not match the bits in front of it.
    Checksum,
    /// A payload on a frame whose kind has none.
    Payload,
}

/// The header that the first `HEADER_BITS_LEN` bits spell.
pub open spec fn parse_header(bits: Seq<bool>) -> FrameHeader {
    FrameHeader {
        dest: le_value(bits.subrange(3, 7)) as usize,
        src: le_value(bits.subrange(7, 11)) as usize,
        seq: le_value(bits.subrange(11, 23)) as usize,
        flag: FrameFlag { eop: le_value(bits.subrange(2, 3)) == 1 },
    }
}

/// What a bit string decodes to.
pub open spec fn parse(bits: Seq<bool>) -> Result<FrameModel, DecodeError> {
    let covered = bits.len() - CHECKSUM_BITS_LEN;
    if bits.len() < HEADER_BITS_LEN + CHECKSUM_BITS_LEN {
        Err(DecodeError::TooShort)
    } else if bits.len() > PAYLOAD_LEN {
        Err(DecodeError::TooLong)
    } else if le_value(bits.subrange(covered, bits.len() as int)) != crc8(
        bits.subrange(0, covered),
    ) {
        Err(DecodeError::Checksum)
    } else {
        let kind = FrameType::spec_from_tag(le_value(bits.subrange(0, 2)));
        if kind != FrameType::Data && covered != HEADER_BITS_LEN {
            Err(DecodeError::Payload)
        } else {
            Ok(
                FrameModel {
                    kind,
                    header: parse_header(bits),
                    payload: bits.subrange(HEADER_BITS_LEN as int, covered),
                },
            )
        }
    }
}

/// A link frame.
#[derive(Debug, PartialEq, Eq)]
pub enum MacFrame {
    /// Carries up to `PAYLOAD_BITS_LEN` bits of a packet.
    Data { header: FrameHeader, payload: Bits },
    /// Acknowledges the data frame with the same sequence number.
    Ack { header: FrameHeader },
    /// Asks the destination to answer.
    MacPingReq { header: FrameHeader },
    /// Answers a ping request.
    MacPingResp { header: FrameHeader },
}

impl View for MacFrame {
    type V = FrameModel;

    open spec fn view(&self) -> FrameModel {
        match self {
            MacFrame::Data { header, payload } => FrameModel {
                kind: FrameType::Data,
                header: *header,
                payload: payload@,
            },
            MacFrame::Ack { header } => FrameModel {
                kind: FrameType::Ack,
                header: *header,
                payload: Seq::<bool>::empty(),
            },
            MacFrame::MacPingReq { header } => FrameModel {
                kind: FrameType::MacPingReq,
                header: *header,
                payload: Seq::<bool>::empty(),
            },
            MacFrame::MacPingResp { header } => FrameModel {
                kind: FrameType::MacPingResp,
                header: *header,
                payload: Seq::<bool>::empty(),
            },
        }
    }
}

impl Clone for MacFrame {
    fn clone(&self) -> (out: MacFrame)
        ensures
            out@ == self@,
    {
        match self {
            MacFrame::Data { header, payload } => MacFrame::Data {
                header: *header,
                payload: payload.to_owned(),
            },
            MacFrame::Ack { header } => MacFrame::Ack { header: *header },
            MacFrame::MacPingReq { header } => MacFrame::MacPingReq { header: *header },
            MacFrame::MacPingResp { header } => MacFrame::MacPingResp { header: *header },
        }
    }
}

impl MacFrame {
    /// A data frame.
    pub fn data(dest: usize, src: usize, seq: usize, flag: FrameFlag, payload: Bits) -> (frame:
        MacFrame)
        ensures
            frame@ == (FrameModel {
                kind: FrameType::Data,
                header: FrameHeader { dest, src, seq, flag },
                payload: payload@,
            }),
    {
        MacFrame::Data { header: FrameHeader { dest, src, seq, flag }, payload }
    }

    /// The acknowledgement of sequence number `seq`.
    pub fn ack(dest: usize, src: usize, seq: usize) -> (frame: MacFrame)
        ensures
            frame@ == (FrameModel {
                kind: FrameType::Ack,
                header: FrameHeader { dest, src, seq, flag: FrameFlag { eop: false } },
                payload: Seq::<bool>::empty(),
            }),
    {
        MacFrame::Ack { header: FrameHeader { dest, src, seq, flag: FrameFlag::empty() } }
    }

    /// A ping request. Its sequence number is zero.
    pub fn ping_req(dest: usize, src: usize) -> (frame: MacFrame)
        ensures
            frame@ == (FrameModel {
                kind: FrameType::MacPingReq,
                header: FrameHeader { dest, src, seq: 0, flag: FrameFlag { eop: false } },
                payload: Seq::<bool>::empty(),
            }),
    {
        MacFrame::MacPingReq {
            header: FrameHeader { dest, src, seq: 0, flag: FrameFlag::empty() },
        }
    }

    /// The answer to a ping request. Its sequence number is zero.
    pub fn ping_resp(dest: usize, src: usize) -> (frame: MacFrame)
        ensures
            frame@ == (FrameModel {
                kind: FrameType::MacPingResp,
                header: FrameHeader { dest, src, seq: 0, flag: FrameFlag { eop: false } },
                payload: Seq::<bool>::empty(),
            }),
    {
        MacFrame::MacPingResp {
            header: FrameHeader { dest, src, seq: 0, flag: FrameFlag::empty() },
        }
    }

    /// The frame's header.
    pub fn header(&self) -> (header: &FrameHeader)
        ensures
            *header == self@.header,
    {
        match self {
            MacFrame::Data { header, .. } => header,
            MacFrame::Ack { header } => header,
            MacFrame::MacPingReq { header } => header,
            MacFrame::MacPingResp { header } => header,
        }
    }

    /// The frame's kind.
    pub fn kind(&self) -> (kind: FrameType)
        ensures
            kind == self@.kind,
    {
        match self {
            MacFrame::Data { .. } => FrameType::Data,
            MacFrame::Ack { .. } => FrameType::Ack,
            MacFrame::MacPingReq { .. } => FrameType::MacPingReq,
            MacFrame::MacPingResp { .. } => FrameType::MacPingResp,
        }
    }

    /// The payload of a data frame; `None` for the other kinds.
    pub fn payload(&self) -> (payload: Option<&Bits>)
        ensures
            payload.is_some() == (self@.kind == FrameType::Data),
            payload.is_some() ==> payload.unwrap()@ == self@.payload,
    {
        match self {
            MacFrame::Data { payload, .. } => Some(payload),
            _ => None,
        }
    }

    /// Whether `reply` is of the kind that answers this frame: an acknowledgement
    /// for data, a ping response for a ping request.
    pub fn corresponds(&self, reply: &MacFrame) -> (yes: bool)
        ensures
            yes == (self@.kind.spec_answer() == Some(reply@.kind)),
    {
        match (self, reply) {
            (MacFrame::Data { .. }, MacFrame::Ack { .. }) => true,
            (MacFrame::MacPingReq { .. }, MacFrame::MacPingResp { .. }) => true,
            _ => false,
        }
    }

    /// Whether the frame can be laid out in bits.
    pub fn is_valid(&self) -> (ok: bool)
        ensures
            ok == self@.wf(),
    {
        match self {
            MacFrame::Data { header, payload } => header.is_valid() && payload.len()
                <= PAYLOAD_BITS_LEN,
            MacFrame::Ack { header } => header.is_valid(),
            MacFrame::MacPingReq { header } => header.is_valid(),
            MacFrame::MacPingResp { header } => header.is_valid(),
        }
    }

    /// Whether two frames are of the same kind with the same header and payload.
    pub fn same(&self, other: &MacFrame) -> (eq: bool)
        ensures
            eq == (self@ == other@),
    {
        let headers = {
            let a = self.header();
            let b = other.header();
            a.dest == b.dest && a.src == b.src && a.seq == b.seq && a.flag.eop == b.flag.eop
        };
        match (self, other) {
            (MacFrame::Data { payload: p, .. }, MacFrame::Data { payload: q, .. }) => headers
                && p.same(q),
            (MacFrame::Ack { .. }, MacFrame::Ack { .. }) => headers,
            (MacFrame::MacPingReq { .. }, MacFrame::MacPingReq { .. }) => headers,
            (MacFrame::MacPingResp { .. }, MacFrame::MacPingResp { .. }) => headers,
            _ => false,
        }
    }

    /// Lays the frame out in bits.
    pub fn encode(&self) -> (out: Bits)
        requires
            self@.wf(),
        ensures
            out@ == frame_bits(self@),
            HEADER_BITS_LEN + CHECKSUM_BITS_LEN <= out@.len() <= PAYLOAD_LEN,
    {
        let header = self.header();
        let mut out = Bits::new();
        proof {
            lemma_le_bits_len(self@.kind.spec_tag(), TYPE_BITS_LEN as nat);
            lemma_le_bits_len(header.flag.spec_field(), FLAG_BITS_LEN as nat);
            lemma_le_bits_len(header.dest as nat, ADDRESS_BITS_LEN as nat);
            lemma_le_bits_len(header.src as nat, ADDRESS_BITS_LEN as nat);
            lemma_le_bits_len(header.seq as nat, SEQ_BITS_LEN as nat);
        }
        push_le(&mut out, self.kind().tag(), TYPE_BITS_LEN);
        push_le(&mut out, if header.flag.eop { 1 } else { 0 }, FLAG_BITS_LEN);
        push_le(&mut out, header.dest, ADDRESS_BITS_LEN);
        push_le(&mut out, header.src, ADDRESS_BITS_LEN);
        push_le(&mut out, header.seq, SEQ_BITS_LEN);
        assert(out@ =~= header_bits(self@.kind, self@.header));
        match self {
            MacFrame::Data { payload, .. } => {
                out.extend_from_bits(payload);
            },
            _ => {
                assert(out@ + Seq::<bool>::empty() =~= out@);
            },
        }
        assert(out@ == covered_bits(self@));
        let covered = out.len();
        let crc = checksum(&out, covered);
        assert(out@.subrange(0, covered as int) == out@);
        proof {
            lemma_le_bits_len(crc as nat, CHECKSUM_BITS_LEN as nat);
        }
        push_le(&mut out, crc as usize, CHECKSUM_BITS_LEN);
        out
    }

    /// Reads a frame from its bits, or says why the bits are none.
    pub fn decode(bits: &Bits) -> (frame: Result<MacFrame, DecodeError>)
        ensures
            match frame {
                Ok(f) => parse(bits@) == Ok::<FrameModel, DecodeError>(f@) && f@.wf(),
                Err(e) => parse(bits@) == Err::<FrameModel, DecodeError>(e),
            },
    {
        proof {
            if parse(bits@) is Ok {
                lemma_frame_bits_parse(bits@);
            }
        }
        let total = bits.len();
        if total < HEADER_BITS_LEN + CHECKSUM_BITS_LEN {
            return Err(DecodeError::TooShort);
        }
        if total > PAYLOAD_LEN {
            return Err(DecodeError::TooLong);
        }
        let covered = total - CHECKSUM_BITS_LEN;
        let crc = checksum(bits, covered);
        let stored = read_le(bits, covered, CHECKSUM_BITS_LEN);
        if stored != crc as usize {
            return Err(DecodeError::Checksum);
        }
        let kind = FrameType::from_tag(read_le(bits, 0, TYPE_BITS_LEN));
        let flag = read_le(bits, 2, FLAG_BITS_LEN);
        let dest = read_le(bits, 3, ADDRESS_BITS_LEN);
        let src = read_le(bits, 7, ADDRESS_BITS_LEN);
        let seq = read_le(bits, 11, SEQ_BITS_LEN);
        let header = FrameHeader { dest, src, seq, flag: FrameFlag { eop: flag == 1 } };
        assert(header == parse_header(bits@));
        match kind {
            FrameType::Data => {
                let payload = bits.slice(HEADER_BITS_LEN, covered);
                Ok(MacFrame::Data { header, payload })
            },
            _ => {
                if covered != HEADER_BITS_LEN {
                    return Err(DecodeError::Payload);
                }
                assert(bits@.subrange(HEADER_BITS_LEN as int, covered as int)
                    =~= Seq::<bool>::empty());
                Ok(
                    match kind {
                        FrameType::Ack => MacFrame::Ack { header },
                        FrameType::MacPingReq => MacFrame::MacPingReq { header },
                        _ => MacFrame::MacPingResp { header },
                    },
                )
            },
        }
    }
}


/// Decoding the bits of a well-formed frame gives the frame back.
pub proof fn lemma_parse_frame_bits(frame: FrameModel)
    requires
        frame.wf(),
    ensures
        parse(frame_bits(frame)) == Ok::<FrameModel, DecodeError>(frame),
        HEADER_BITS_LEN + CHECKSUM_BITS_LEN <= frame_bits(frame).len() <= PAYLOAD_LEN,
{
    let header = frame.header;
    let t = le_bits(frame.kind.spec_tag(), TYPE_BITS_LEN as nat);
    let f = le_bits(header.flag.spec_field(), FLAG_BITS_LEN as nat);
    let d = le_bits(header.dest as nat, ADDRESS_BITS_LEN as nat);
    let s = le_bits(header.src as nat, ADDRESS_BITS_LEN as nat);
    let q = le_bits(header.seq as nat, SEQ_BITS_LEN as nat);
    let covered = covered_bits(frame);
    let crc = crc8(covered);
    let c = le_bits(crc as nat, CHECKSUM_BITS_LEN as nat);
    let bits = frame_bits(frame);
    lemma2_to64();
    lemma_le_bits_len(frame.kind.spec_tag(), TYPE_BITS_LEN as nat);
    lemma_le_bits_len(header.flag.spec_field(), FLAG_BITS_LEN as nat);
    lemma_le_bits_len(header.dest as nat, ADDRESS_BITS_LEN as nat);
    lemma_le_bits_len(header.src as nat, ADDRESS_BITS_LEN as nat);
    lemma_le_bits_len(header.seq as nat, SEQ_BITS_LEN as nat);
    lemma_le_bits_len(crc as nat, CHECKSUM_BITS_LEN as nat);
    lemma_le_value_of_bits(frame.kind.spec_tag(), TYPE_BITS_LEN as nat);
    lemma_le_value_of_bits(header.flag.spec_field(), FLAG_BITS_LEN as nat);
    lemma_le_value_of_bits(header.dest as nat, ADDRESS_BITS_LEN as nat);
    lemma_le_value_of_bits(header.src as nat, ADDRESS_BITS_LEN as nat);
    lemma_le_value_of_bits(header.seq as nat, SEQ_BITS_LEN as nat);
    lemma_le_value_of_bits(crc as nat, CHECKSUM_BITS_LEN as nat);
    assert(bits.subrange(0, 2) =~= t);
    assert(bits.subrange(2, 3) =~= f);
    assert(bits.subrange(3, 7) =~= d);
    assert(bits.subrange(7, 11) =~= s);
    assert(bits.subrange(11, 23) =~= q);
    assert(bits.subrange(0, bits.len() - 8) =~= covered);
    assert(bits.subrange(bits.len() - 8, bits.len() as int) =~= c);
    assert(bits.subrange(23, bits.len() - 8) =~= frame.payload);
    assert(parse_header(bits) == header);
}

/// A bit string that decodes to a frame is the layout of that frame, and the
/// frame is well formed: no two bit strings decode to the same frame.
pub proof fn lemma_frame_bits_parse(bits: Seq<bool>)
    requires
        parse(bits) is Ok,
    ensures
        parse(bits).unwrap().wf(),
        frame_bits(parse(bits).unwrap()) == bits,
{
    let frame = parse(bits).unwrap();
    let covered = bits.len() - 8;
    lemma2_to64();
    lemma_le_value_bound(bits.subrange(0, 2));
    lemma_le_value_bound(bits.subrange(2, 3));
    lemma_le_value_bound(bits.subrange(3, 7));
    lemma_le_value_bound(bits.subrange(7, 11));
    lemma_le_value_bound(bits.subrange(11, 23));
    lemma_le_bits_of_value(bits.subrange(0, 2));
    lemma_le_bits_of_value(bits.subrange(2, 3));
    lemma_le_bits_of_value(bits.subrange(3, 7));
    lemma_le_bits_of_value(bits.subrange(7, 11));
    lemma_le_bits_of_value(bits.subrange(11, 23));
    lemma_le_bits_of_value(bits.subrange(covered, bits.len() as int));
    assert(frame.kind.spec_tag() == le_value(bits.subrange(0, 2)));
    assert(frame.header.flag.spec_field() == le_value(bits.subrange(2, 3)));
    assert(header_bits(frame.kind, frame.header) =~= bits.subrange(0, 23));
    assert(covered_bits(frame) =~= bits.subrange(0, covered));
    assert(frame_bits(frame) =~= bits);
}

} // verus!
