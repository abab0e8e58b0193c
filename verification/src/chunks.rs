//! Cutting a bit string into pieces of a fixed size.

use crate::bits::{Bits, MAX_BITS};
use vstd::prelude::*;

verus! {

/// Where piece `index` begins in a string of `len` bits cut into pieces of `size`.
pub open spec fn chunk_start(len: nat, size: nat, index: nat) -> nat {
    if index * size < len {
        index * size
    } else {
        len
    }
}

/// Piece `index` of `bits` cut into pieces of `size`: all pieces are full but
/// the last, and pieces past the end are empty.
pub open spec fn chunk(bits: Seq<bool>, size: nat, index: nat) -> Seq<bool> {
    bits.subrange(
        chunk_start(bits.len(), size, index) as int,
        chunk_start(bits.len(), size, index + 1) as int,
    )
}

/// The number of pieces of `size` that hold `len` bits: `len / size`, rounded up.
pub open spec fn chunk_count(len: nat, size: nat) -> nat {
    ((len + size - 1) / (size as int)) as nat
}

/// The first `count` pieces, joined.
pub open spec fn join_chunks(bits: Seq<bool>, size: nat, count: nat) -> Seq<bool>
    decreases count,
{
    if count == 0 {
        Seq::<bool>::empty()
    } else {
        join_chunks(bits, size, (count - 1) as nat) + chunk(bits, size, (count - 1) as nat)
    }
}

/// The first `count` pieces, joined, are the bits in front of piece `count`.
pub proof fn lemma_join_chunks(bits: Seq<bool>, size: nat, count: nat)
    requires
        size > 0,
    ensures
        join_chunks(bits, size, count) == bits.subrange(
            0,
            chunk_start(bits.len(), size, count) as int,
        ),
    decreases count,
{
    if count > 0 {
        let before = (count - 1) as nat;
        lemma_join_chunks(bits, size, before);
        assert(before * size <= count * size) by (nonlinear_arith)
            requires
                before <= count,
        ;
        assert(join_chunks(bits, size, count) =~= bits.subrange(
            0,
            chunk_start(bits.len(), size, count) as int,
        ));
    } else {
        assert(0 * size == 0) by (nonlinear_arith);
        assert(join_chunks(bits, size, count) =~= bits.subrange(
            0,
            chunk_start(bits.len(), size, count) as int,
        ));
    }
}

/// All the pieces, joined, are the bit string.
pub proof fn lemma_join_all_chunks(bits: Seq<bool>, size: nat, count: nat)
    requires
        size > 0,
        count * size >= bits.len(),
    ensures
        join_chunks(bits, size, count) == bits,
{
    lemma_join_chunks(bits, size, count);
    assert(bits.subrange(0, bits.len() as int) =~= bits);
}

/// Every piece holds at most `size` bits; a piece that lies wholly inside the
/// string holds exactly `size`.
pub proof fn lemma_chunk_len(bits: Seq<bool>, size: nat, index: nat)
    requires
        size > 0,
    ensures
        chunk(bits, size, index).len() <= size,
        (index + 1) * size <= bits.len() ==> chunk(bits, size, index).len() == size,
        index * size < bits.len() ==> chunk(bits, size, index).len() > 0,
        index * size >= bits.len() ==> chunk(bits, size, index).len() == 0,
{
    assert((index + 1) * size == index * size + size) by (nonlinear_arith);
}

/// A copy of piece `index` of `bits` cut into pieces of `size`.
pub fn take_chunk(bits: &Bits, size: usize, index: usize) -> (piece: Bits)
    requires
        0 < size <= MAX_BITS,
        index * size <= bits@.len(),
    ensures
        piece@ == chunk(bits@, size as nat, index as nat),
        piece@.len() <= size,
{
    let len = bits.len();
    proof {
        lemma_chunk_len(bits@, size as nat, index as nat);
        assert((index + 1) * size == index * size + size) by (nonlinear_arith);
    }
    let start = index * size;
    let end = if len - start > size {
        start + size
    } else {
        len
    };
    bits.slice(start, end)
}

} // verus!
