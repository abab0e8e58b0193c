//! The receiving side of the physical layer: finding a frame in the stream of
//! samples and reading its symbols.
//!
//! The decoder never sees a sample. It is told how many samples are buffered,
//! what the search for the preamble found, and which way each symbol's
//! correlation with the reference waveform points; it says what to do next.

use crate::ather::{bits_of, payload_frame, AtherStreamConfig};
use crate::bits::{bits_view, Bits};
use crate::consts::{LENGTH_LEN, PAYLOAD_LEN};
use crate::wire::{le_bits, lemma_le_bits_len};
use vstd::arithmetic::power2::{lemma2_to64, lemma_pow2_unfold, pow2};
use vstd::prelude::*;

verus! {

/// Where the decoder stands within a frame.
pub enum DecodePhase {
    /// Looking for the preamble.
    Preamble,
    /// Reading the length field: `index` symbols are read and spell `length`.
    Length { index: usize, length: usize },
    /// Reading the payload of `length` bits, of which `bits` are read.
    Payload { length: usize, bits: Bits },
}

/// A decoder's phase as a mathematical value.
pub enum PhaseModel {
    Preamble,
    Length { index: nat, length: nat },
    Payload { length: nat, bits: Seq<bool> },
}

impl PhaseModel {
    /// In the length field fewer than `LENGTH_LEN` symbols are read and the
    /// length so far fits them; in the payload at least one bit is missing.
    pub open spec fn wf(self) -> bool {
        match self {
            PhaseModel::Preamble => true,
            PhaseModel::Length { index, length } => index < LENGTH_LEN && length < pow2(index),
            PhaseModel::Payload { length, bits } => bits.len() < length <= PAYLOAD_LEN,
        }
    }
}

impl View for DecodePhase {
    type V = PhaseModel;

    open spec fn view(&self) -> PhaseModel {
        match self {
            DecodePhase::Preamble => PhaseModel::Preamble,
            DecodePhase::Length { index, length } => PhaseModel::Length {
                index: *index as nat,
                length: *length as nat,
            },
            DecodePhase::Payload { length, bits } => PhaseModel::Payload {
                length: *length as nat,
                bits: bits@,
            },
        }
    }
}

/// The phase after one symbol, and the payload that the symbol completed, if it
/// completed one. `one` says that the symbol reads as a `1` bit. Length bits
/// come least significant first; a frame of length zero ends with its length
/// field. Outside a frame a symbol means nothing.
pub open spec fn spec_feed(phase: PhaseModel, one: bool) -> (PhaseModel, Option<Seq<bool>>) {
    match phase {
        PhaseModel::Preamble => (PhaseModel::Preamble, None),
        PhaseModel::Length { index, length } => {
            let length = if one {
                length + pow2(index)
            } else {
                length
            };
            if index + 1 < LENGTH_LEN {
                (PhaseModel::Length { index: index + 1, length }, None)
            } else if length == 0 {
                (PhaseModel::Preamble, Some(Seq::<bool>::empty()))
            } else {
                (PhaseModel::Payload { length, bits: Seq::<bool>::empty() }, None)
            }
        },
        PhaseModel::Payload { length, bits } => {
            let bits = bits.push(one);
            if bits.len() >= length {
                (PhaseModel::Preamble, Some(bits))
            } else {
                (PhaseModel::Payload { length, bits }, None)
            }
        },
    }
}

/// The first payload that comes out when `symbols` are fed one by one, starting
/// in `phase`; `None` if they end before a payload is complete.
pub open spec fn spec_run(phase: PhaseModel, symbols: Seq<bool>) -> Option<Seq<bool>>
    decreases symbols.len(),
{
    if symbols.len() == 0 {
        None
    } else {
        let (next, out) = spec_feed(phase, symbols[0]);
        if out.is_some() {
            out
        } else {
            spec_run(next, symbols.drop_first())
        }
    }
}

/// The phase right behind a preamble.
pub open spec fn after_preamble() -> PhaseModel {
    PhaseModel::Length { index: 0, length: 0 }
}

/// What the decoder needs next.
#[derive(Clone, Copy, Debug, PartialEq, Eq, Structural)]
pub enum Demand {
    /// More samples.
    Pull,
    /// A search for the preamble in the buffered samples.
    Synchronize,
    /// The sign of the first buffered symbol.
    Demodulate,
}

/// The decoder of one receiver.
pub struct AtherDecoder {
    pub preamble_len: usize,
    pub symbol_len: usize,
    pub phase: DecodePhase,
}

/// `2^index` for an index inside the length field.
fn weight(index: usize) -> (w: usize)
    requires
        index < LENGTH_LEN,
    ensures
        w == pow2(index as nat),
{
    proof {
        lemma2_to64();
    }
    if index == 0 {
        1
    } else if index == 1 {
        2
    } else if index == 2 {
        4
    } else if index == 3 {
        8
    } else if index == 4 {
        16
    } else if index == 5 {
        32
    } else {
        64
    }
}

impl AtherDecoder {
    /// The decoder is in a well-formed phase.
    pub open spec fn wf(&self) -> bool {
        self.phase@.wf()
    }

    /// A decoder that looks for a preamble.
    pub fn new(config: &AtherStreamConfig) -> (decoder: AtherDecoder)
        requires
            config.wf(),
        ensures
            decoder.wf(),
            decoder.phase@ == PhaseModel::Preamble,
            decoder.symbol_len == config.spec_symbol_len(),
            decoder.preamble_len == crate::consts::PREAMBLE_LEN * config.spec_symbol_len(),
    {
        AtherDecoder {
            preamble_len: config.preamble_len(),
            symbol_len: config.symbol_len(),
            phase: DecodePhase::Preamble,
        }
    }

    /// What the decoder needs when `buffered` samples are at hand: outside a
    /// frame a search once a preamble's worth is buffered, inside a frame a
    /// symbol's sign once a symbol's worth is buffered, else more samples.
    pub fn demand(&self, buffered: usize) -> (demand: Demand)
        ensures
            demand == (match self.phase@ {
                PhaseModel::Preamble => if buffered >= self.preamble_len {
                    Demand::Synchronize
                } else {
                    Demand::Pull
                },
                _ => if buffered >= self.symbol_len {
                    Demand::Demodulate
                } else {
                    Demand::Pull
                },
            }),
    {
        match self.phase {
            DecodePhase::Preamble => if buffered >= self.preamble_len {
                Demand::Synchronize
            } else {
                Demand::Pull
            },
            _ => if buffered >= self.symbol_len {
                Demand::Demodulate
            } else {
                Demand::Pull
            },
        }
    }

    /// Whether a search result starts a frame: the decoder looks for a preamble,
    /// the search found a place, the peak there is above the threshold, and the
    /// preamble lies wholly inside the buffer.
    pub open spec fn locks(&self, buffered: usize, index: isize, strong: bool) -> bool {
        &&& self.phase@ == PhaseModel::Preamble
        &&& index >= 0
        &&& strong
        &&& index + self.preamble_len <= buffered
    }

    /// Takes the result of a search for the preamble among `buffered` samples:
    /// the place of the highest correlation, negative if there is none, and
    /// whether the peak is above the threshold.
    ///
    /// Where that starts a frame, the decoder moves on to the length field and
    /// returns the number of samples to drop from the front of the buffer, up to
    /// the end of the preamble. Else nothing changes; more samples are needed.
    pub fn on_sync(&mut self, buffered: usize, index: isize, strong: bool) -> (skip: Option<usize>)
        requires
            old(self).wf(),
        ensures
            final(self).wf(),
            final(self).preamble_len == old(self).preamble_len,
            final(self).symbol_len == old(self).symbol_len,
            old(self).locks(buffered, index, strong) ==> {
                &&& skip == Some((index + old(self).preamble_len) as usize)
                &&& final(self).phase@ == after_preamble()
            },
            !old(self).locks(buffered, index, strong) ==> {
                &&& skip.is_none()
                &&& final(self).phase@ == old(self).phase@
            },
    {
        let searching = match self.phase {
            DecodePhase::Preamble => true,
            _ => false,
        };
        if !searching || index < 0 || !strong {
            return None;
        }
        let at = index as usize;
        if at > buffered || buffered - at < self.preamble_len {
            return None;
        }
        proof {
            lemma2_to64();
        }
        self.phase = DecodePhase::Length { index: 0, length: 0 };
        Some(at + self.preamble_len)
    }

    /// Takes the sign of one symbol: `one` says that it reads as a `1` bit.
    /// Returns the payload if the symbol completed a frame.
    pub fn on_symbol(&mut self, one: bool) -> (frame: Option<Bits>)
        requires
            old(self).wf(),
        ensures
            final(self).wf(),
            final(self).preamble_len == old(self).preamble_len,
            final(self).symbol_len == old(self).symbol_len,
            (final(self).phase@, bits_view(frame)) == spec_feed(old(self).phase@, one),
    {
        let mut phase = DecodePhase::Preamble;
        core::mem::swap(&mut self.phase, &mut phase);
        match phase {
            DecodePhase::Preamble => None,
            DecodePhase::Length { index, length } => {
                proof {
                    lemma2_to64();
                    lemma_pow2_unfold((index + 1) as nat);
                    crate::wire::lemma_pow2_grows((index + 1) as nat, 7);
                }
                let length = if one {
                    length + weight(index)
                } else {
                    length
                };
                if index + 1 < LENGTH_LEN {
                    self.phase = DecodePhase::Length { index: index + 1, length };
                    None
                } else if length == 0 {
                    Some(Bits::new())
                } else {
                    self.phase = DecodePhase::Payload { length, bits: Bits::new() };
                    None
                }
            },
            DecodePhase::Payload { length, bits } => {
                let mut bits = bits;
                bits.push(one);
                if bits.len() >= length {
                    Some(bits)
                } else {
                    self.phase = DecodePhase::Payload { length, bits };
                    None
                }
            },
        }
    }

    /// Gives up the frame in progress and looks for a preamble again.
    pub fn reset(&mut self)
        ensures
            final(self).wf(),
            final(self).phase@ == PhaseModel::Preamble,
            final(self).preamble_len == old(self).preamble_len,
            final(self).symbol_len == old(self).symbol_len,
    {
        self.phase = DecodePhase::Preamble;
    }
}

/// Feeding the rest of a payload completes it: with `got` read and exactly the
/// missing bits to come, the payload is `got` followed by them.
pub proof fn lemma_run_payload(length: nat, got: Seq<bool>, rest: Seq<bool>)
    requires
        got.len() < length,
        got.len() + rest.len() == length,
    ensures
        spec_run(PhaseModel::Payload { length, bits: got }, rest) == Some(got + rest),
    decreases rest.len(),
{
    let next = got.push(rest[0]);
    if next.len() >= length {
        assert(got + rest =~= next);
    } else {
        lemma_run_payload(length, next, rest.drop_first());
        assert(next + rest.drop_first() =~= got + rest);
    }
}

/// Feeding the rest of a length field and then a payload of the length that the
/// field spells gives the payload.
pub proof fn lemma_run_length(index: nat, sofar: nat, rest: nat, payload: Seq<bool>)
    requires
        index < LENGTH_LEN,
        sofar < pow2(index),
        payload.len() == sofar + pow2(index) * rest,
        payload.len() <= PAYLOAD_LEN,
    ensures
        spec_run(
            PhaseModel::Length { index, length: sofar },
            le_bits(rest, (LENGTH_LEN - index) as nat) + payload,
        ) == Some(payload),
    decreases LENGTH_LEN - index,
{
    let width = (LENGTH_LEN - index) as nat;
    let symbols = le_bits(rest, width) + payload;
    let one = rest % 2 == 1;
    let tail = le_bits(rest / 2, (width - 1) as nat);
    lemma_le_bits_len(rest, width);
    lemma_le_bits_len(rest / 2, (width - 1) as nat);
    lemma_pow2_unfold(index + 1);
    assert(symbols[0] == one);
    assert(symbols.drop_first() =~= tail + payload);
    let length = if one {
        sofar + pow2(index)
    } else {
        sofar
    };
    assert(payload.len() == length + pow2(index + 1) * (rest / 2)) by (nonlinear_arith)
        requires
            payload.len() == sofar + pow2(index) * rest,
            pow2(index + 1) == 2 * pow2(index),
            length == sofar + pow2(index) * (rest % 2),
    ;
    if index + 1 < LENGTH_LEN {
        lemma_run_length(index + 1, length, rest / 2, payload);
    } else {
        lemma2_to64();
        assert(rest / 2 == 0) by (nonlinear_arith)
            requires
                payload.len() == length + 128 * (rest / 2),
                payload.len() <= 127,
        ;
        assert(tail + payload =~= payload);
        if length > 0 {
            lemma_run_payload(length, Seq::<bool>::empty(), payload);
            assert(Seq::<bool>::empty() + payload =~= payload);
        } else {
            assert(payload =~= Seq::<bool>::empty());
        }
    }
}

/// Modulation round trip: the symbols of the audio frame that carries a payload
/// of at most `PAYLOAD_LEN` bits, read behind the preamble with every symbol's
/// sign intact, give exactly the payload.
pub proof fn lemma_decode_encoded(payload: Seq<bool>)
    requires
        payload.len() <= PAYLOAD_LEN,
    ensures
        spec_run(
            after_preamble(),
            bits_of(payload_frame(payload).length + payload_frame(payload).body),
        ) == Some(payload),
{
    let frame = payload_frame(payload);
    let field = le_bits(payload.len(), LENGTH_LEN as nat);
    lemma_le_bits_len(payload.len(), LENGTH_LEN as nat);
    lemma2_to64();
    assert(bits_of(frame.length + frame.body) =~= field + payload);
    assert(payload.len() == 0 + pow2(0) * payload.len()) by (nonlinear_arith)
        requires
            pow2(0) == 1,
    ;
    lemma_run_length(0, 0, payload.len(), payload);
}

} // verus!
