//! The acoustic framing layer, on the level of symbols.
//!
//! A bit travels as one of two waveforms of equal length, 180 degrees apart. What
//! is decided here is which waveform follows which; the samples themselves are
//! made and played by the caller.

use crate::bits::{Bits, MAX_BITS};
use crate::chunks::{chunk, take_chunk};
use crate::consts::{LENGTH_LEN, PAYLOAD_LEN, PREAMBLE_LEN, WARMUP_LEN};
use crate::wire::{le_bits, lemma_le_bits_len, push_le};
use vstd::prelude::*;

verus! {

/// Symbols after the warmup chirp: a whole machine word of zeros.
pub const WORD_LEN: usize = 64;

/// One of the two waveforms.
#[derive(Clone, Copy, Debug, PartialEq, Eq, Structural)]
pub enum Symbol {
    /// In phase with the carrier: a `0` bit.
    Zero,
    /// Opposite in phase: a `1` bit.
    One,
}

impl Symbol {
    /// The symbol that carries `bit`.
    pub open spec fn spec_from_bit(bit: bool) -> Symbol {
        if bit {
            Symbol::One
        } else {
            Symbol::Zero
        }
    }

    /// The bit that the symbol carries.
    pub open spec fn spec_bit(self) -> bool {
        self == Symbol::One
    }

    /// The symbol that carries `bit`.
    pub fn from_bit(bit: bool) -> (symbol: Symbol)
        ensures
            symbol == Symbol::spec_from_bit(bit),
    {
        if bit {
            Symbol::One
        } else {
            Symbol::Zero
        }
    }

    /// The bit that the symbol carries.
    pub fn bit(self) -> (bit: bool)
        ensures
            bit == self.spec_bit(),
    {
        match self {
            Symbol::One => true,
            Symbol::Zero => false,
        }
    }
}

/// The symbols that carry `bits`, one each.
pub open spec fn symbols_of(bits: Seq<bool>) -> Seq<Symbol> {
    Seq::new(bits.len(), |i: int| Symbol::spec_from_bit(bits[i]))
}

/// The bits that `symbols` carry, one each.
pub open spec fn bits_of(symbols: Seq<Symbol>) -> Seq<bool> {
    Seq::new(symbols.len(), |i: int| symbols[i].spec_bit())
}

/// Reading the symbols of a bit string gives the bit string.
pub proof fn lemma_bits_of_symbols(bits: Seq<bool>)
    ensures
        bits_of(symbols_of(bits)) == bits,
{
    assert(bits_of(symbols_of(bits)) =~= bits);
}

/// What the physical layer is set up with.
#[derive(Clone, Copy, Debug, PartialEq, Eq, Structural)]
pub struct AtherStreamConfig {
    /// The carrier frequency in Hz.
    pub frequency: u32,
    /// Symbols per second.
    pub bit_rate: u32,
    /// Samples per second.
    pub sample_rate: u32,
}

impl AtherStreamConfig {
    /// A configuration is usable if a symbol has at least one sample and a
    /// preamble's worth of samples can be counted.
    pub open spec fn wf(self) -> bool {
        &&& self.bit_rate > 0
        &&& self.sample_rate >= self.bit_rate
        &&& PREAMBLE_LEN * (self.sample_rate / self.bit_rate) <= usize::MAX
    }

    /// Samples per symbol: `sample_rate / bit_rate`.
    pub open spec fn spec_symbol_len(self) -> nat {
        (self.sample_rate / self.bit_rate) as nat
    }

    /// The configuration for a carrier, a symbol rate and a sample rate.
    pub fn new(frequency: u32, bit_rate: u32, sample_rate: u32) -> (config: AtherStreamConfig)
        ensures
            config == (AtherStreamConfig { frequency, bit_rate, sample_rate }),
    {
        AtherStreamConfig { frequency, bit_rate, sample_rate }
    }

    /// Whether the configuration is usable.
    pub fn is_valid(&self) -> (ok: bool)
        ensures
            ok == self.wf(),
    {
        if self.bit_rate == 0 || self.sample_rate < self.bit_rate {
            return false;
        }
        let per_symbol: u64 = (self.sample_rate / self.bit_rate) as u64;
        assert(PREAMBLE_LEN * per_symbol <= 48 * 0xffff_ffff) by (nonlinear_arith)
            requires
                per_symbol <= 0xffff_ffff,
                PREAMBLE_LEN == 48,
        ;
        (PREAMBLE_LEN as u64) * per_symbol <= usize::MAX as u64
    }

    /// Samples per symbol.
    pub fn symbol_len(&self) -> (len: usize)
        requires
            self.wf(),
        ensures
            len == self.spec_symbol_len(),
            len > 0,
    {
        let len = (self.sample_rate / self.bit_rate) as usize;
        assert(self.sample_rate / self.bit_rate > 0) by (nonlinear_arith)
            requires
                self.sample_rate >= self.bit_rate,
                self.bit_rate > 0,
        ;
        len
    }

    /// Samples of the preamble: `PREAMBLE_LEN` symbol-durations.
    pub fn preamble_len(&self) -> (len: usize)
        requires
            self.wf(),
        ensures
            len == PREAMBLE_LEN * self.spec_symbol_len(),
    {
        PREAMBLE_LEN * self.symbol_len()
    }

    /// Samples of the warmup: `WARMUP_LEN` symbol-durations.
    pub fn warmup_len(&self) -> (len: usize)
        requires
            self.wf(),
        ensures
            len == WARMUP_LEN * self.spec_symbol_len(),
    {
        let per_symbol = self.symbol_len();
        assert(WARMUP_LEN * per_symbol <= PREAMBLE_LEN * per_symbol) by (nonlinear_arith)
            requires
                WARMUP_LEN <= PREAMBLE_LEN,
        ;
        WARMUP_LEN * per_symbol
    }
}

/// What an audio frame starts with.
#[derive(Clone, Copy, Debug, PartialEq, Eq, Structural)]
pub enum Lead {
    /// The chirp that primes the hardware.
    Warmup,
    /// The chirp that the receiver synchronizes on.
    Preamble,
}

/// One audio frame: a chirp, the symbols of the length field, and the symbols of
/// the payload.
#[derive(Debug, PartialEq, Eq)]
pub struct AtherFrame {
    pub lead: Lead,
    pub length: Vec<Symbol>,
    pub body: Vec<Symbol>,
}

/// An audio frame as a mathematical value.
pub struct AtherFrameModel {
    pub lead: Lead,
    pub length: Seq<Symbol>,
    pub body: Seq<Symbol>,
}

impl View for AtherFrame {
    type V = AtherFrameModel;

    open spec fn view(&self) -> AtherFrameModel {
        AtherFrameModel { lead: self.lead, length: self.length@, body: self.body@ }
    }
}

/// The symbols of the low `width` bits of `value`, least significant first.
pub fn encode_number(value: usize, width: usize) -> (symbols: Vec<Symbol>)
    requires
        width <= MAX_BITS,
    ensures
        symbols@ == symbols_of(le_bits(value as nat, width as nat)),
{
    let mut bits = Bits::new();
    push_le(&mut bits, value, width);
    proof {
        lemma_le_bits_len(value as nat, width as nat);
        assert(bits@ =~= le_bits(value as nat, width as nat));
    }
    let symbols = encode_bits(&bits);
    symbols
}

/// The symbols of a bit string, one per bit.
pub fn encode_bits(bits: &Bits) -> (symbols: Vec<Symbol>)
    ensures
        symbols@ == symbols_of(bits@),
{
    let len = bits.len();
    let mut symbols: Vec<Symbol> = Vec::new();
    let mut i: usize = 0;
    while i < len
        invariant
            i <= len == bits@.len(),
            symbols@ == symbols_of(bits@.subrange(0, i as int)),
        decreases len - i,
    {
        let bit = bits.get(i);
        symbols.push(Symbol::from_bit(bit.unwrap()));
        i += 1;
        assert(symbols@ =~= symbols_of(bits@.subrange(0, i as int)));
    }
    assert(bits@.subrange(0, len as int) =~= bits@);
    symbols
}

/// The frame that opens every transmission: the warmup chirp and a word of zeros.
pub open spec fn warmup_frame() -> AtherFrameModel {
    AtherFrameModel {
        lead: Lead::Warmup,
        length: symbols_of(le_bits(0, WORD_LEN as nat)),
        body: Seq::<Symbol>::empty(),
    }
}

/// The audio frame that carries `payload`: the preamble, the payload's length in
/// `LENGTH_LEN` symbols, and the payload.
pub open spec fn payload_frame(payload: Seq<bool>) -> AtherFrameModel {
    AtherFrameModel {
        lead: Lead::Preamble,
        length: symbols_of(le_bits(payload.len(), LENGTH_LEN as nat)),
        body: symbols_of(payload),
    }
}

/// The audio frames of a bit string: one per `PAYLOAD_LEN` bits. The last frame
/// is the only one that is not full; it is empty when the bit string fills the
/// frames before it, which tells the receiver that nothing follows.
pub open spec fn packet_frames(bits: Seq<bool>) -> Seq<AtherFrameModel> {
    Seq::new(
        bits.len() / PAYLOAD_LEN as nat + 1,
        |i: int| payload_frame(chunk(bits, PAYLOAD_LEN as nat, i as nat)),
    )
}

/// The views of a vector of frames.
pub open spec fn frames_view(frames: Seq<AtherFrame>) -> Seq<AtherFrameModel> {
    Seq::new(frames.len(), |i: int| frames[i]@)
}

/// The frame that opens every transmission.
pub fn create_warmup() -> (frame: AtherFrame)
    ensures
        frame@ == warmup_frame(),
{
    AtherFrame { lead: Lead::Warmup, length: encode_number(0, WORD_LEN), body: Vec::new() }
}

/// The audio frames of a bit string.
pub fn encode_packet(bits: &Bits) -> (frames: Vec<AtherFrame>)
    ensures
        frames_view(frames@) == packet_frames(bits@),
{
    let len = bits.len();
    let count = len / PAYLOAD_LEN + 1;
    let mut frames: Vec<AtherFrame> = Vec::new();
    let mut i: usize = 0;
    while i < count
        invariant
            i <= count == len / PAYLOAD_LEN + 1,
            len == bits@.len(),
            frames@.len() == i,
            forall|j: int|
                0 <= j < i ==> (#[trigger] frames@[j])@ == payload_frame(
                    chunk(bits@, PAYLOAD_LEN as nat, j as nat),
                ),
        decreases count - i,
    {
        assert(i * PAYLOAD_LEN <= len) by (nonlinear_arith)
            requires
                i <= len / PAYLOAD_LEN,
                PAYLOAD_LEN == 127,
        ;
        let piece = take_chunk(bits, PAYLOAD_LEN, i);
        let frame = AtherFrame {
            lead: Lead::Preamble,
            length: encode_number(piece.len(), LENGTH_LEN),
            body: encode_bits(&piece),
        };
        frames.push(frame);
        i += 1;
    }
    assert(frames_view(frames@) =~= packet_frames(bits@));
    frames
}

/// The sending side of the physical layer.
pub struct AtherOutputStream {
    pub config: AtherStreamConfig,
}

impl AtherOutputStream {
    /// An output stream with the given configuration.
    pub fn new(config: AtherStreamConfig) -> (stream: AtherOutputStream)
        ensures
            stream.config == config,
    {
        AtherOutputStream { config }
    }

    /// The frames that one write plays, in order: the warmup frame, then the
    /// frames of the bit string.
    pub fn write(&self, bits: &Bits) -> (frames: Vec<AtherFrame>)
        ensures
            frames_view(frames@) == seq![warmup_frame()] + packet_frames(bits@),
    {
        let mut frames: Vec<AtherFrame> = Vec::new();
        frames.push(create_warmup());
        let mut rest = encode_packet(bits);
        let ghost tail = rest@;
        frames.append(&mut rest);
        assert(frames_view(frames@) =~= seq![warmup_frame()] + frames_view(tail));
        frames
    }
}

} // verus!
