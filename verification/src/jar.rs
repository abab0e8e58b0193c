//! The receive side's memory of recent sequence numbers: a bounded ring that
//! forgets the oldest entry when a new one arrives at capacity.

use ringbuffer::AllocRingBuffer;
use ringbuffer::RingBuffer;
use vstd::prelude::*;

verus! {

/// `ringbuffer::AllocRingBuffer`, opaque; what it holds is spoken of through
/// [`ring_contents`] and [`ring_capacity`].
#[verifier::external_type_specification]
#[verifier::external_body]
#[verifier::reject_recursive_types(T)]
pub struct ExAllocRingBuffer<T>(AllocRingBuffer<T>);

/// The numbers that a ring holds, oldest first.
pub uninterp spec fn ring_contents(ring: &AllocRingBuffer<usize>) -> Seq<usize>;

/// The capacity that a ring was made with.
pub uninterp spec fn ring_capacity(ring: &AllocRingBuffer<usize>) -> nat;

/// The largest capacity that a jar is made with.
pub const JAR_CAPACITY_LIMIT: usize = 65536;

/// What a ring of capacity `capacity` holds after `value` is pushed.
pub open spec fn spec_push(contents: Seq<usize>, capacity: nat, value: usize) -> Seq<usize> {
    if contents.len() >= capacity {
        contents.drop_first().push(value)
    } else {
        contents.push(value)
    }
}

/// What a jar holds after `value` is observed: unchanged if it is known, else
/// with `value` pushed.
pub open spec fn spec_observe(contents: Seq<usize>, capacity: nat, value: usize) -> Seq<usize> {
    if contents.contains(value) {
        contents
    } else {
        spec_push(contents, capacity, value)
    }
}

/// An empty ring.
///
/// Trusted: `AllocRingBuffer::new` makes a buffer without items that keeps at
/// most `capacity` of them. It panics on a capacity of zero, and where the
/// allocation's size cannot be laid out; `requires` keeps clear of both.
#[verifier::external_body]
pub(crate) fn ring_new(capacity: usize) -> (ring: AllocRingBuffer<usize>)
    requires
        0 < capacity <= JAR_CAPACITY_LIMIT,
    ensures
        ring_contents(&ring) == Seq::<usize>::empty(),
        ring_capacity(&ring) == capacity,
{
    AllocRingBuffer::new(capacity)
}

/// Whether the ring holds `value`.
///
/// Trusted: `RingBuffer::contains` compares `value` with every item held.
#[verifier::external_body]
pub(crate) fn ring_contains(ring: &AllocRingBuffer<usize>, value: usize) -> (found: bool)
    ensures
        found == ring_contents(ring).contains(value),
{
    ring.contains(&value)
}

/// Pushes `value`, dropping the oldest item if the ring is full.
///
/// Trusted: `RingBuffer::push` on an `AllocRingBuffer` appends the item; when
/// the buffer already holds `capacity` items it first drops the one that was
/// pushed longest ago. The capacity stays. (The buffer counts its pushes in a
/// `usize`; that counter is taken never to wrap.)
#[verifier::external_body]
pub(crate) fn ring_push(ring: &mut AllocRingBuffer<usize>, value: usize)
    ensures
        ring_capacity(final(ring)) == ring_capacity(old(ring)),
        ring_contents(final(ring)) == spec_push(
            ring_contents(old(ring)),
            ring_capacity(old(ring)),
            value,
        ),
{
    ring.push(value)
}

/// The sequence numbers seen lately.
pub struct Jar {
    ring: AllocRingBuffer<usize>,
}

impl View for Jar {
    type V = Seq<usize>;

    closed spec fn view(&self) -> Seq<usize> {
        ring_contents(&self.ring)
    }
}

impl Jar {
    /// How many numbers the jar remembers at most.
    pub closed spec fn capacity(&self) -> nat {
        ring_capacity(&self.ring)
    }

    /// The jar holds at most `capacity` numbers, and `capacity` is not zero.
    pub open spec fn wf(&self) -> bool {
        &&& 0 < self.capacity()
        &&& self@.len() <= self.capacity()
    }

    /// An empty jar.
    pub fn new(capacity: usize) -> (jar: Jar)
        requires
            0 < capacity <= JAR_CAPACITY_LIMIT,
        ensures
            jar.wf(),
            jar@ == Seq::<usize>::empty(),
            jar.capacity() == capacity,
    {
        Jar { ring: ring_new(capacity) }
    }

    /// Whether `seq` is remembered.
    pub fn contains(&self, seq: usize) -> (found: bool)
        ensures
            found == self@.contains(seq),
    {
        ring_contains(&self.ring, seq)
    }

    /// Remembers `seq`, forgetting the oldest number if the jar is full.
    pub fn push(&mut self, seq: usize)
        requires
            old(self).wf(),
        ensures
            final(self).wf(),
            final(self).capacity() == old(self).capacity(),
            final(self)@ == spec_push(old(self)@, old(self).capacity(), seq),
    {
        ring_push(&mut self.ring, seq)
    }

    /// Looks `seq` up and remembers it if it is new. Returns whether it was new.
    pub fn observe(&mut self, seq: usize) -> (fresh: bool)
        requires
            old(self).wf(),
        ensures
            final(self).wf(),
            final(self).capacity() == old(self).capacity(),
            fresh == !old(self)@.contains(seq),
            final(self)@ == spec_observe(old(self)@, old(self).capacity(), seq),
            final(self)@.contains(seq),
    {
        if self.contains(seq) {
            false
        } else {
            self.push(seq);
            assert(self@.last() == seq);
            true
        }
    }
}

} // verus!
