//! Bit strings, held in a `bitvec` vector.

use bitvec::order::Lsb0;
use bitvec::vec::BitVec;
use vstd::prelude::*;

verus! {

/// The longest bit string that one `Bits` value is asked to hold. `bitvec` itself
/// allows `usize::MAX >> 3` bits; this bound is below that on every target.
pub const MAX_BITS: usize = 0x1FFF_FFFF;

/// A growable string of bits, backed by `bitvec::vec::BitVec<usize, Lsb0>`.
///
/// The vector is opaque to the verifier; its contents are spoken of through
/// [`bit_contents`], which is also the view `@` of a `Bits`.
#[verifier::external_body]
#[derive(Debug, PartialEq, Eq)]
pub struct Bits {
    inner: BitVec<usize, Lsb0>,
}

/// The bits that a `Bits` holds, first to last.
pub uninterp spec fn bit_contents(bits: &Bits) -> Seq<bool>;

impl View for Bits {
    type V = Seq<bool>;

    open spec fn view(&self) -> Seq<bool> {
        bit_contents(self)
    }
}

/// The view of a bit string that may be absent.
pub open spec fn bits_view(bits: Option<Bits>) -> Option<Seq<bool>> {
    match bits {
        Some(b) => Some(b@),
        None => None,
    }
}

impl Bits {
    /// An empty bit string.
    ///
    /// Trusted: `BitVec::new` returns a vector without bits.
    #[verifier::external_body]
    pub(crate) fn empty() -> (out: Bits)
        ensures
            bit_contents(&out) == Seq::<bool>::empty(),
    {
        Bits { inner: BitVec::new() }
    }

    /// The number of bits held.
    ///
    /// Trusted: `BitSlice::len` is the count of live bits.
    #[verifier::external_body]
    pub(crate) fn count(&self) -> (n: usize)
        ensures
            n == bit_contents(self).len(),
    {
        self.inner.len()
    }

    /// The bit at `index`.
    ///
    /// Trusted: indexing a `BitSlice` by `usize` gives the bit at that position;
    /// it panics only when the index is out of bounds, which `requires` excludes.
    #[verifier::external_body]
    pub(crate) fn bit(&self, index: usize) -> (b: bool)
        requires
            index < bit_contents(self).len(),
        ensures
            b == bit_contents(self)[index as int],
    {
        self.inner[index]
    }

    /// Appends one bit.
    ///
    /// Trusted: `BitVec::push` appends the bit and leaves the others alone; it
    /// panics only past `bitvec`'s maximum length, which `requires` excludes.
    #[verifier::external_body]
    pub(crate) fn append(&mut self, value: bool)
        requires
            bit_contents(old(self)).len() < MAX_BITS,
        ensures
            bit_contents(final(self)) == bit_contents(old(self)).push(value),
    {
        self.inner.push(value)
    }

    /// A copy of the vector.
    ///
    /// Trusted: `BitVec::clone` gives a vector with the same bits in the same order.
    #[verifier::external_body]
    pub(crate) fn duplicate(&self) -> (out: Bits)
        ensures
            bit_contents(&out) == bit_contents(self),
    {
        Bits { inner: self.inner.clone() }
    }

    /// An empty bit string.
    pub fn new() -> (out: Bits)
        ensures
            out@ == Seq::<bool>::empty(),
    {
        Bits::empty()
    }

    /// The number of bits held.
    pub fn len(&self) -> (n: usize)
        ensures
            n == self@.len(),
    {
        self.count()
    }

    /// Whether no bit is held.
    pub fn is_empty(&self) -> (e: bool)
        ensures
            e == (self@.len() == 0),
    {
        self.count() == 0
    }

    /// The bit at `index`, or `None` past the end.
    pub fn get(&self, index: usize) -> (b: Option<bool>)
        ensures
            b == (if index < self@.len() {
                Some(self@[index as int])
            } else {
                None
            }),
    {
        if index < self.count() {
            Some(self.bit(index))
        } else {
            None
        }
    }

    /// Appends one bit.
    pub fn push(&mut self, value: bool)
        requires
            old(self)@.len() < MAX_BITS,
        ensures
            final(self)@ == old(self)@.push(value),
    {
        self.append(value)
    }

    /// Appends the bits `other[start..end]`.
    pub fn extend_from_range(&mut self, other: &Bits, start: usize, end: usize)
        requires
            start <= end <= other@.len(),
            old(self)@.len() + (end - start) <= MAX_BITS,
        ensures
            final(self)@ == old(self)@ + other@.subrange(start as int, end as int),
    {
        let mut i: usize = start;
        while i < end
            invariant
                start <= i <= end <= other@.len(),
                old(self)@.len() + (end - start) <= MAX_BITS,
                self@ == old(self)@ + other@.subrange(start as int, i as int),
            decreases end - i,
        {
            self.append(other.bit(i));
            i += 1;
        }
    }

    /// Appends all the bits of `other`.
    pub fn extend_from_bits(&mut self, other: &Bits)
        requires
            old(self)@.len() + other@.len() <= MAX_BITS,
        ensures
            final(self)@ == old(self)@ + other@,
    {
        let n = other.count();
        self.extend_from_range(other, 0, n);
        assert(other@.subrange(0, n as int) == other@);
    }

    /// A copy of the bits `self[start..end]`.
    pub fn slice(&self, start: usize, end: usize) -> (out: Bits)
        requires
            start <= end <= self@.len(),
            end - start <= MAX_BITS,
        ensures
            out@ == self@.subrange(start as int, end as int),
    {
        let mut out = Bits::empty();
        out.extend_from_range(self, start, end);
        out
    }

    /// A copy of the whole bit string.
    pub fn to_owned(&self) -> (out: Bits)
        ensures
            out@ == self@,
    {
        self.duplicate()
    }

    /// The bit string that holds the given booleans in order.
    pub fn from_bools(bools: &Vec<bool>) -> (out: Bits)
        requires
            bools@.len() <= MAX_BITS,
        ensures
            out@ == bools@,
    {
        let mut out = Bits::empty();
        let mut i: usize = 0;
        while i < bools.len()
            invariant
                i <= bools@.len() <= MAX_BITS,
                out@ == bools@.subrange(0, i as int),
            decreases bools@.len() - i,
        {
            out.append(bools[i]);
            i += 1;
        }
        assert(bools@.subrange(0, i as int) == bools@);
        out
    }

    /// The bits as booleans, in order.
    pub fn to_bools(&self) -> (out: Vec<bool>)
        ensures
            out@ == self@,
    {
        let n = self.count();
        let mut out: Vec<bool> = Vec::new();
        let mut i: usize = 0;
        while i < n
            invariant
                i <= n == self@.len(),
                out@ == self@.subrange(0, i as int),
            decreases n - i,
        {
            out.push(self.bit(i));
            i += 1;
        }
        assert(self@.subrange(0, n as int) == self@);
        out
    }

    /// Whether two bit strings hold the same bits.
    pub fn same(&self, other: &Bits) -> (eq: bool)
        ensures
            eq == (self@ == other@),
    {
        let n = self.count();
        if n != other.count() {
            return false;
        }
        let mut i: usize = 0;
        while i < n
            invariant
                i <= n == self@.len() == other@.len(),
                forall|j: int| 0 <= j < i ==> self@[j] == other@[j],
            decreases n - i,
        {
            if self.bit(i) != other.bit(i) {
                return false;
            }
            i += 1;
        }
        assert(self@ =~= other@);
        true
    }
}

impl Clone for Bits {
    fn clone(&self) -> (out: Bits)
        ensures
            out@ == self@,
    {
        self.duplicate()
    }
}

} // verus!
