//! A single block of arena storage: one contiguous region with a fixed
//! element capacity, owned exclusively by the arena and released as a
//! unit when the arena is dropped.

use vstd::prelude::*;

verus! {

/// One block of arena storage. Its capacity is fixed when the block is
/// acquired; elements are written front to back, and a written element
/// is never removed, moved or overwritten.
pub struct Chunk<T> {
    data: Vec<T>,
    capacity: usize,
}

impl<T> View for Chunk<T> {
    type V = Seq<T>;

    closed spec fn view(&self) -> Seq<T> {
        self.data@
    }
}

impl<T> Chunk<T> {
    /// Element capacity of the block, fixed at construction.
    pub closed spec fn spec_capacity(self) -> nat {
        self.capacity as nat
    }

    /// The written prefix never exceeds the fixed capacity.
    pub open spec fn wf(self) -> bool {
        self@.len() <= self.spec_capacity()
    }

    /// Acquires storage for exactly `capacity` elements, none written yet.
    pub fn new(capacity: usize) -> (c: Chunk<T>)
        ensures
            c.wf(),
            c@.len() == 0,
            c.spec_capacity() == capacity,
    {
        Chunk { data: Vec::with_capacity(capacity), capacity }
    }

    /// Element capacity of the block's storage region.
    pub fn len(&self) -> (n: usize)
        ensures
            n == self.spec_capacity(),
    {
        self.capacity
    }

    /// How many elements have been written into the block so far.
    pub fn used(&self) -> (n: usize)
        ensures
            n == self@.len(),
    {
        self.data.len()
    }

    /// Writes one more element directly after the written prefix.
    pub fn push_value(&mut self, value: T)
        requires
            old(self).wf(),
            old(self)@.len() < old(self).spec_capacity(),
        ensures
            final(self).wf(),
            final(self)@ == old(self)@.push(value),
            final(self).spec_capacity() == old(self).spec_capacity(),
    {
        self.data.push(value);
    }

    /// Reads the element at position `i` of the written prefix.
    pub fn get(&self, i: usize) -> (r: &T)
        requires
            i < self@.len(),
        ensures
            *r == self@[i as int],
    {
        &self.data[i]
    }
}

/// `post` carries everything `pre` held: the same capacity and every
/// written element unchanged, with possibly more written after them.
pub open spec fn chunk_extended<T>(pre: Chunk<T>, post: Chunk<T>) -> bool {
    &&& post.spec_capacity() == pre.spec_capacity()
    &&& pre@.len() <= post@.len()
    &&& forall|j: int| 0 <= j < pre@.len() ==> post@[j] == pre@[j]
}

} // verus!
