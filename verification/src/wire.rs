//! Little-endian fields and the checksum of a link frame, bit by bit.

use crate::bits::{Bits, MAX_BITS};
use vstd::arithmetic::power2::{lemma2_to64, lemma_pow2_unfold, pow2};
use vstd::prelude::*;

verus! {

/// The low `width` bits of `value`, least significant first.
pub open spec fn le_bits(value: nat, width: nat) -> Seq<bool>
    decreases width,
{
    if width == 0 {
        Seq::<bool>::empty()
    } else {
        seq![value % 2 == 1] + le_bits(value / 2, (width - 1) as nat)
    }
}

/// The number that `bits` spells, least significant bit first.
pub open spec fn le_value(bits: Seq<bool>) -> nat
    decreases bits.len(),
{
    if bits.len() == 0 {
        0
    } else {
        (if bits[0] { 1nat } else { 0nat }) + 2 * le_value(bits.drop_first())
    }
}

/// `le_bits` yields exactly `width` bits.
pub proof fn lemma_le_bits_len(value: nat, width: nat)
    ensures
        le_bits(value, width).len() == width,
    decreases width,
{
    if width > 0 {
        lemma_le_bits_len(value / 2, (width - 1) as nat);
    }
}

/// A string of `n` bits spells a number below `2^n`.
pub proof fn lemma_le_value_bound(bits: Seq<bool>)
    ensures
        le_value(bits) < pow2(bits.len()),
    decreases bits.len(),
{
    if bits.len() == 0 {
        lemma2_to64();
    } else {
        lemma_le_value_bound(bits.drop_first());
        lemma_pow2_unfold(bits.len());
    }
}

/// Reading back the `width` low bits of a number below `2^width` gives the number.
pub proof fn lemma_le_value_of_bits(value: nat, width: nat)
    requires
        value < pow2(width),
    ensures
        le_value(le_bits(value, width)) == value,
    decreases width,
{
    if width == 0 {
        lemma2_to64();
    } else {
        lemma_pow2_unfold(width);
        let rest = le_bits(value / 2, (width - 1) as nat);
        let all = le_bits(value, width);
        lemma_le_value_of_bits(value / 2, (width - 1) as nat);
        assert(all.drop_first() == rest);
        assert(all[0] == (value % 2 == 1));
    }
}

/// Writing out the number that a bit string spells, at its own width, gives the string.
pub proof fn lemma_le_bits_of_value(bits: Seq<bool>)
    ensures
        le_bits(le_value(bits), bits.len()) == bits,
    decreases bits.len(),
{
    if bits.len() > 0 {
        let tail = bits.drop_first();
        lemma_le_bits_of_value(tail);
        let v = le_value(bits);
        let head: nat = if bits[0] { 1 } else { 0 };
        assert(v == head + 2 * le_value(tail));
        assert(v / 2 == le_value(tail));
        assert((v % 2 == 1) == bits[0]);
        assert(seq![bits[0]] + tail == bits);
    }
}

/// Appends the low `width` bits of `value`, least significant first.
pub fn push_le(out: &mut Bits, value: usize, width: usize)
    requires
        old(out)@.len() + width <= MAX_BITS,
    ensures
        final(out)@ == old(out)@ + le_bits(value as nat, width as nat),
{
    let mut rest: usize = value;
    let mut i: usize = 0;
    assert(old(out)@ + Seq::<bool>::empty() == old(out)@);
    while i < width
        invariant
            i <= width,
            old(out)@.len() + width <= MAX_BITS,
            out@.len() == old(out)@.len() + i,
            old(out)@ + le_bits(value as nat, width as nat) == out@ + le_bits(
                rest as nat,
                (width - i) as nat,
            ),
        decreases width - i,
    {
        let ghost before = out@;
        let bit = rest % 2 == 1;
        out.push(bit);
        proof {
            let tail = le_bits((rest / 2) as nat, (width - i - 1) as nat);
            assert(le_bits(rest as nat, (width - i) as nat) == seq![bit] + tail);
            assert(before + (seq![bit] + tail) == before.push(bit) + tail);
        }
        rest = rest / 2;
        i += 1;
    }
    assert(out@ + Seq::<bool>::empty() == out@);
}

/// Reads the number that `bits[start..start + width]` spells, least significant
/// bit first.
pub fn read_le(bits: &Bits, start: usize, width: usize) -> (value: usize)
    requires
        width <= 16,
        start + width <= bits@.len(),
    ensures
        value == le_value(bits@.subrange(start as int, start + width)),
        value < pow2(width as nat),
{
    let total = bits.len();
    let mut value: usize = 0;
    let mut i: usize = width;
    proof {
        lemma2_to64();
    }
    while i > 0
        invariant
            i <= width <= 16,
            start + width <= bits@.len() == total,
            value == le_value(bits@.subrange(start + i, start + width)),
            value < pow2((width - i) as nat),
            pow2(16) == 0x10000,
        decreases i,
    {
        i -= 1;
        proof {
            let now = bits@.subrange(start + i, start + width);
            let was = bits@.subrange(start + i + 1, start + width);
            assert(now.drop_first() == was);
            assert(now[0] == bits@[start + i]);
            lemma_pow2_unfold((width - i) as nat);
            lemma_pow2_grows((width - i) as nat, 16);
        }
        let bit: usize = if bits.bit(start + i) { 1 } else { 0 };
        value = bit + 2 * value;
    }
    value
}

/// `pow2` does not shrink as its exponent grows.
pub proof fn lemma_pow2_grows(small: nat, large: nat)
    requires
        small <= large,
    ensures
        pow2(small) <= pow2(large),
    decreases large - small,
{
    if small < large {
        lemma_pow2_grows(small, (large - 1) as nat);
        lemma_pow2_unfold(large);
    }
}

/// One step of the checksum register: CRC-8 with polynomial `x^8 + x^2 + x + 1`,
/// fed one bit.
pub open spec fn crc_step(crc: u8, bit: bool) -> u8 {
    let shifted: u8 = ((crc % 128) * 2) as u8;
    if (crc >= 128) != bit {
        shifted ^ 0x07
    } else {
        shifted
    }
}

/// The checksum of a bit string: the register after every bit was fed, from zero.
pub open spec fn crc8(bits: Seq<bool>) -> u8
    decreases bits.len(),
{
    if bits.len() == 0 {
        0
    } else {
        crc_step(crc8(bits.drop_last()), bits.last())
    }
}

/// Feeds one bit to the checksum register.
pub fn crc_feed(crc: u8, bit: bool) -> (next: u8)
    ensures
        next == crc_step(crc, bit),
{
    let shifted: u8 = (crc % 128) * 2;
    if (crc >= 128) != bit {
        shifted ^ 0x07
    } else {
        shifted
    }
}

/// The checksum of `bits[..end]`.
pub fn checksum(bits: &Bits, end: usize) -> (crc: u8)
    requires
        end <= bits@.len(),
    ensures
        crc == crc8(bits@.subrange(0, end as int)),
{
    let mut crc: u8 = 0;
    let mut i: usize = 0;
    while i < end
        invariant
            i <= end <= bits@.len(),
            crc == crc8(bits@.subrange(0, i as int)),
        decreases end - i,
    {
        proof {
            let next = bits@.subrange(0, i + 1);
            assert(next.drop_last() == bits@.subrange(0, i as int));
            assert(next.last() == bits@[i as int]);
        }
        crc = crc_feed(crc, bits.bit(i));
        i += 1;
    }
    crc
}

} // verus!
