//! The arena itself: bump-cursor allocation out of an ordered list of
//! blocks, with geometric growth capped at large-page granularity.

use vstd::prelude::*;

use crate::chunk::Chunk;
use crate::chunk::chunk_extended;
use vstd::slice::slice_index_get;
use vstd::string::StringSliceAdditionalSpecFns;

verus! {

/// Byte budget that sizes the first block.
pub const PAGE: usize = 4096;

/// Byte budget that caps the doubling of later blocks.
pub const HUGE_PAGE: usize = 2 * 1024 * 1024;

/// A bump arena for elements of type `T`. Values are written into the
/// most recently acquired block; when its window runs out, a new block
/// is acquired under the growth policy and the unused tail of the old
/// window is abandoned for good.
pub struct DroplessArena<T> {
    chunks: Vec<Chunk<T>>,
}

/// Names the slot that a single allocation wrote: element `index` of
/// block `chunk`, in acquisition order.
#[derive(Clone, Copy, Debug, PartialEq, Eq, Structural)]
pub struct Handle {
    pub chunk: usize,
    pub index: usize,
}

/// Names the run of `len` consecutive slots that a bulk allocation
/// wrote, starting at element `index` of block `chunk`.
#[derive(Clone, Copy, Debug, PartialEq, Eq, Structural)]
pub struct SliceHandle {
    pub chunk: usize,
    pub index: usize,
    pub len: usize,
}

/// Position `(c1, i1)` is at or before `(c2, i2)` in the arena's write
/// order: block order first, slot order within a block second.
pub open spec fn pos_le(c1: int, i1: int, c2: int, i2: int) -> bool {
    c1 < c2 || (c1 == c2 && i1 <= i2)
}

/// The element ranges named by two slice handles share no slot. Blocks
/// occupy separate storage regions and slots within a block do not
/// overlap, so disjoint slot ranges occupy disjoint bytes as well.
pub open spec fn ranges_disjoint(a: SliceHandle, b: SliceHandle) -> bool {
    ||| a.len == 0
    ||| b.len == 0
    ||| a.chunk != b.chunk
    ||| a.index + a.len <= b.index
    ||| b.index + b.len <= a.index
}

/// The one-slot range written by a single-element allocation.
pub open spec fn handle_range(h: Handle) -> SliceHandle {
    SliceHandle { chunk: h.chunk, index: h.index, len: 1 }
}

impl<T> DroplessArena<T> {
    /// The owned blocks, in acquisition order.
    pub closed spec fn chunks_seq(self) -> Seq<Chunk<T>> {
        self.chunks@
    }

    /// How many blocks have been acquired so far.
    pub open spec fn chunk_count_spec(self) -> nat {
        self.chunks_seq().len()
    }

    /// Every block is well formed, and the element type has a nonzero
    /// size, so that counting elements is the same as counting bytes.
    pub open spec fn wf(self) -> bool {
        &&& vstd::layout::size_of::<T>() >= 1
        &&& forall|i: int|
            0 <= i < self.chunks_seq().len() ==> (#[trigger] self.chunks_seq()[i]).wf()
    }

    /// Free slots left in the current bump window.
    pub open spec fn free_spec(self) -> nat {
        if self.chunk_count_spec() == 0 {
            0
        } else {
            (self.chunks_seq().last().spec_capacity() - self.chunks_seq().last()@.len()) as nat
        }
    }

    /// Block part of the next slot to be written (`-1` while no block
    /// exists yet).
    pub open spec fn frontier_chunk(self) -> int {
        self.chunk_count_spec() as int - 1
    }

    /// Slot part of the next slot to be written.
    pub open spec fn frontier_index(self) -> int {
        if self.chunk_count_spec() == 0 {
            0
        } else {
            self.chunks_seq().last()@.len() as int
        }
    }

    /// `post` is the same arena later in its life: every block `self`
    /// holds is still there, with its size and every written element
    /// unchanged; later states only write further or add blocks.
    pub open spec fn extends_to(self, post: Self) -> bool {
        &&& self.chunk_count_spec() <= post.chunk_count_spec()
        &&& forall|i: int|
            0 <= i < self.chunk_count_spec()
                ==> #[trigger] chunk_extended(self.chunks_seq()[i], post.chunks_seq()[i])
    }

    /// `h` names a slot that has been written.
    pub open spec fn valid_handle(self, h: Handle) -> bool {
        &&& h.chunk < self.chunk_count_spec()
        &&& h.index < self.chunks_seq()[h.chunk as int]@.len()
    }

    /// The value stored in the slot `h` names.
    pub open spec fn value_at(self, h: Handle) -> T {
        self.chunks_seq()[h.chunk as int]@[h.index as int]
    }

    /// `h` names a run of slots that have all been written.
    pub open spec fn valid_slice(self, h: SliceHandle) -> bool {
        h.len > 0 ==> {
            &&& h.chunk < self.chunk_count_spec()
            &&& h.index + h.len <= self.chunks_seq()[h.chunk as int]@.len()
        }
    }

    /// The run of values stored in the range `h` names.
    pub open spec fn slice_at(self, h: SliceHandle) -> Seq<T> {
        if h.len == 0 {
            Seq::<T>::empty()
        } else {
            self.chunks_seq()[h.chunk as int]@.subrange(h.index as int, h.index + h.len)
        }
    }

    /// The range `h` starts at or past `self`'s frontier and ends at or
    /// before `post`'s: what holds of every range written between the
    /// two states, and what makes ranges of successive allocations
    /// disjoint.
    pub open spec fn issued_to(self, post: Self, h: SliceHandle) -> bool {
        h.len > 0 ==> {
            &&& pos_le(self.frontier_chunk(), self.frontier_index(), h.chunk as int, h.index as int)
            &&& pos_le(h.chunk as int, h.index + h.len, post.frontier_chunk(), post.frontier_index())
        }
    }

    /// Baseline element count for the next block: a page's worth for
    /// the first block, then double the previous block's count, with
    /// the pre-doubling count capped at half a huge page's worth.
    pub open spec fn spec_baseline(self) -> nat {
        let size = vstd::layout::size_of::<T>();
        if self.chunk_count_spec() == 0 {
            (PAGE as nat) / size
        } else {
            let prev = self.chunks_seq().last().spec_capacity();
            let half = (HUGE_PAGE as nat) / size / 2;
            (if prev < half {
                prev
            } else {
                half
            }) * 2
        }
    }

    /// Element count of the block that growth acquires for a request of
    /// `additional` elements: the baseline, or the request when larger,
    /// and never less than one element, so growth always makes progress.
    pub open spec fn spec_grown_capacity(self, additional: nat) -> nat {
        let chosen = if additional > self.spec_baseline() {
            additional
        } else {
            self.spec_baseline()
        };
        if chosen == 0 {
            1 as nat
        } else {
            chosen
        }
    }

    /// Creates an empty arena: no blocks, an empty window.
    ///
    /// The element type must have a nonzero size: a bump cursor cannot
    /// tell any number of zero-size elements apart, so such arenas are
    /// ruled out up front.
    pub fn new() -> (arena: DroplessArena<T>)
        requires
            vstd::layout::size_of::<T>() >= 1,
        ensures
            arena.wf(),
            arena.chunk_count_spec() == 0,
    {
        DroplessArena { chunks: Vec::new() }
    }

    /// Whether the current window holds at least `additional` free
    /// slots, that is, `additional * size_of::<T>()` free bytes.
    ///
    /// The requested byte count must fit a `usize`: its overflow is a
    /// fatal error in this design, so such requests are ruled out up
    /// front.
    pub fn can_allocate(&self, additional: usize) -> (r: bool)
        requires
            self.wf(),
            (additional as nat) * vstd::layout::size_of::<T>() <= usize::MAX as nat,
        ensures
            r == (additional <= self.free_spec()),
    {
        let n = self.chunks.len();
        if n == 0 {
            additional == 0
        } else {
            let c = &self.chunks[n - 1];
            proof {
                assert(self.chunks_seq()[n - 1].wf());
            }
            additional <= c.len() - c.used()
        }
    }

    /// Acquires one new block, sized by the growth policy for a request
    /// of `additional` elements, and points the window at it. Whatever
    /// was left of the previous window is abandoned for good; the blocks
    /// already acquired, and everything written into them, stay put.
    pub fn reserve(&mut self, additional: usize)
        requires
            old(self).wf(),
        ensures
            final(self).wf(),
            old(self).extends_to(*final(self)),
            final(self).chunk_count_spec() == old(self).chunk_count_spec() + 1,
            forall|i: int|
                0 <= i < old(self).chunk_count_spec()
                    ==> final(self).chunks_seq()[i] == old(self).chunks_seq()[i],
            final(self).chunks_seq().last()@.len() == 0,
            final(self).chunks_seq().last().spec_capacity() == old(self).spec_grown_capacity(
                additional as nat,
            ),
            final(self).free_spec() == old(self).spec_grown_capacity(additional as nat),
    {
        let size: usize = core::mem::size_of::<T>();
        let n = self.chunks.len();
        let baseline: usize = if n == 0 {
            PAGE / size
        } else {
            let prev = self.chunks[n - 1].len();
            let half: usize = HUGE_PAGE / size / 2;
            proof {
                vstd::arithmetic::div_mod::lemma_div_is_ordered_by_denominator(
                    HUGE_PAGE as int,
                    1,
                    vstd::layout::size_of::<T>() as int,
                );
            }
            let low: usize = if prev < half {
                prev
            } else {
                half
            };
            low * 2
        };
        let chosen: usize = if additional > baseline {
            additional
        } else {
            baseline
        };
        let capacity: usize = if chosen == 0 {
            1
        } else {
            chosen
        };
        let c = Chunk::new(capacity);
        self.chunks.push(c);
        proof {
            assert forall|i: int| 0 <= i < self.chunks_seq().len() implies (
            #[trigger] self.chunks_seq()[i]).wf() by {
                if i < self.chunks_seq().len() - 1 {
                    assert(old(self).chunks_seq()[i].wf());
                }
            }
        }
    }

    /// Makes the window able to hold `additional` more elements. When it
    /// already can, the arena is left untouched; otherwise exactly one
    /// block is acquired under the growth policy, which always produces
    /// at least the requested room.
    pub fn ensure_capacity(&mut self, additional: usize)
        requires
            old(self).wf(),
            (additional as nat) * vstd::layout::size_of::<T>() <= usize::MAX as nat,
        ensures
            final(self).wf(),
            old(self).extends_to(*final(self)),
            additional <= final(self).free_spec(),
            additional <= old(self).free_spec() ==> *final(self) == *old(self),
            forall|i: int|
                0 <= i < old(self).chunk_count_spec() ==> final(self).chunks_seq()[i] == old(
                    self,
                ).chunks_seq()[i],
            old(self).free_spec() < additional ==> {
                &&& final(self).chunk_count_spec() == old(self).chunk_count_spec() + 1
                &&& final(self).chunks_seq().last()@.len() == 0
                &&& final(self).chunks_seq().last().spec_capacity() == old(
                    self,
                ).spec_grown_capacity(additional as nat)
            },
    {
        if !self.can_allocate(additional) {
            self.reserve(additional);
        }
    }

    /// Allocates one element: writes `value` into the next free slot and
    /// returns a handle naming that slot. When the window is empty the
    /// arena first grows for exactly one element; otherwise the window
    /// has room by the invariant kept after every prior allocation. The
    /// slot keeps `value` untouched through all later allocations.
    pub fn alloc_value(&mut self, value: T) -> (h: Handle)
        requires
            old(self).wf(),
        ensures
            final(self).wf(),
            old(self).extends_to(*final(self)),
            final(self).valid_handle(h),
            final(self).value_at(h) == value,
            old(self).issued_to(*final(self), handle_range(h)),
            h.chunk as int == final(self).frontier_chunk(),
            h.index + 1 == final(self).frontier_index(),
            forall|i: int|
                0 <= i < final(self).chunk_count_spec() - 1 ==> final(self).chunks_seq()[i]
                    == old(self).chunks_seq()[i],
            old(self).free_spec() > 0 ==> {
                &&& final(self).chunk_count_spec() == old(self).chunk_count_spec()
                &&& h.chunk as int == old(self).frontier_chunk()
                &&& h.index as int == old(self).frontier_index()
                &&& final(self).free_spec() + 1 == old(self).free_spec()
            },
            old(self).free_spec() == 0 ==> {
                &&& final(self).chunk_count_spec() == old(self).chunk_count_spec() + 1
                &&& final(self).chunks_seq().last().spec_capacity() == old(
                    self,
                ).spec_grown_capacity(1)
                &&& h.index == 0
                &&& final(self).free_spec() + 1 == old(self).spec_grown_capacity(1)
            },
    {
        let n = self.chunks.len();
        let grow = if n == 0 {
            true
        } else {
            let c = &self.chunks[n - 1];
            proof {
                assert(self.chunks_seq()[n - 1].wf());
            }
            c.used() == c.len()
        };
        if grow {
            self.reserve(1);
        }
        let mut c = self.chunks.pop().unwrap();
        let index = c.used();
        c.push_value(value);
        self.chunks.push(c);
        proof {
            assert forall|i: int| 0 <= i < self.chunks_seq().len() implies (
            #[trigger] self.chunks_seq()[i]).wf() by {
                if i < self.chunks_seq().len() - 1 {
                    assert(old(self).chunks_seq()[i].wf());
                }
            }
        }
        Handle { chunk: self.chunks.len() - 1, index }
    }
}

impl<T: Copy> DroplessArena<T> {
    /// Allocates `src.len()` consecutive slots and copies `src` into
    /// them, in order. An empty `src` leaves the arena untouched and
    /// returns an empty range; otherwise the arena first makes room for
    /// the whole run, growing at most once. The run keeps its contents
    /// untouched through all later allocations.
    #[verifier::loop_isolation(false)]
    pub fn alloc_slice_copy(&mut self, src: &[T]) -> (h: SliceHandle)
        requires
            old(self).wf(),
            src@.len() * vstd::layout::size_of::<T>() <= usize::MAX as nat,
        ensures
            final(self).wf(),
            old(self).extends_to(*final(self)),
            h.len == src@.len(),
            final(self).valid_slice(h),
            final(self).slice_at(h) == src@,
            old(self).issued_to(*final(self), h),
            forall|i: int|
                0 <= i < final(self).chunk_count_spec() - 1 ==> final(self).chunks_seq()[i]
                    == old(self).chunks_seq()[i],
            src@.len() == 0 ==> *final(self) == *old(self),
            src@.len() > 0 ==> {
                &&& h.chunk as int == final(self).frontier_chunk()
                &&& h.index + h.len == final(self).frontier_index()
                &&& (src@.len() <= old(self).free_spec() ==> {
                    &&& final(self).chunk_count_spec() == old(self).chunk_count_spec()
                    &&& h.chunk as int == old(self).frontier_chunk()
                    &&& h.index as int == old(self).frontier_index()
                    &&& final(self).free_spec() + src@.len() == old(self).free_spec()
                })
                &&& (old(self).free_spec() < src@.len() ==> {
                    &&& final(self).chunk_count_spec() == old(self).chunk_count_spec() + 1
                    &&& final(self).chunks_seq().last().spec_capacity() == old(
                        self,
                    ).spec_grown_capacity(src@.len())
                    &&& h.index == 0
                    &&& final(self).free_spec() + src@.len() == old(self).spec_grown_capacity(
                        src@.len(),
                    )
                })
            },
    {
        let len = src.len();
        if len == 0 {
            return SliceHandle { chunk: 0, index: 0, len: 0 };
        }
        self.ensure_capacity(len);
        let ghost mid = *self;
        let mut c = self.chunks.pop().unwrap();
        let ghost c0 = c;
        proof {
            assert(mid.chunks_seq().last() == c0);
            assert(c0@.len() + len <= c0.spec_capacity());
        }
        let index = c.used();
        let mut i: usize = 0;
        while i < len
            invariant
                i <= len,
                c.spec_capacity() == c0.spec_capacity(),
                c@ == c0@ + src@.subrange(0, i as int),
            decreases len - i,
        {
            let v = *slice_index_get(src, i);
            proof {
                assert(c0@ + src@.subrange(0, i + 1) =~= (c0@ + src@.subrange(
                    0,
                    i as int,
                )).push(src@[i as int]));
            }
            c.push_value(v);
            i = i + 1;
        }
        self.chunks.push(c);
        proof {
            assert(c@ =~= c0@ + src@);
            assert forall|j: int| 0 <= j < self.chunks_seq().len() implies (
            #[trigger] self.chunks_seq()[j]).wf() by {
                if j < self.chunks_seq().len() - 1 {
                    assert(mid.chunks_seq()[j].wf());
                }
            }
            assert(mid.extends_to(*self));
            lemma_extends_trans(*old(self), mid, *self);
            lemma_frontier_monotone(*old(self), mid);
            assert(self.chunks_seq().last()@.subrange(index as int, index + len) =~= src@);
        }
        SliceHandle { chunk: self.chunks.len() - 1, index, len }
    }
}

impl<T: Clone> DroplessArena<T> {
    /// Allocates `src.len()` consecutive slots and writes a clone of
    /// each element of `src` into them, in source order. An empty `src`
    /// leaves the arena untouched and returns an empty range; otherwise
    /// the arena first makes room for the whole run, growing at most
    /// once. Each written value stands in the clone relation to its
    /// source element — all that any `Clone` implementation promises.
    #[verifier::loop_isolation(false)]
    pub fn alloc_slice_clone(&mut self, src: &[T]) -> (h: SliceHandle)
        requires
            old(self).wf(),
            src@.len() * vstd::layout::size_of::<T>() <= usize::MAX as nat,
        ensures
            final(self).wf(),
            old(self).extends_to(*final(self)),
            h.len == src@.len(),
            final(self).valid_slice(h),
            forall|j: int|
                0 <= j < src@.len() ==> vstd::pervasive::cloned::<T>(
                    src@[j],
                    #[trigger] final(self).slice_at(h)[j],
                ),
            old(self).issued_to(*final(self), h),
            forall|i: int|
                0 <= i < final(self).chunk_count_spec() - 1 ==> final(self).chunks_seq()[i]
                    == old(self).chunks_seq()[i],
            src@.len() == 0 ==> *final(self) == *old(self),
            src@.len() > 0 ==> {
                &&& h.chunk as int == final(self).frontier_chunk()
                &&& h.index + h.len == final(self).frontier_index()
                &&& (src@.len() <= old(self).free_spec() ==> {
                    &&& final(self).chunk_count_spec() == old(self).chunk_count_spec()
                    &&& h.chunk as int == old(self).frontier_chunk()
                    &&& h.index as int == old(self).frontier_index()
                    &&& final(self).free_spec() + src@.len() == old(self).free_spec()
                })
                &&& (old(self).free_spec() < src@.len() ==> {
                    &&& final(self).chunk_count_spec() == old(self).chunk_count_spec() + 1
                    &&& final(self).chunks_seq().last().spec_capacity() == old(
                        self,
                    ).spec_grown_capacity(src@.len())
                    &&& h.index == 0
                    &&& final(self).free_spec() + src@.len() == old(self).spec_grown_capacity(
                        src@.len(),
                    )
                })
            },
    {
        let len = src.len();
        if len == 0 {
            return SliceHandle { chunk: 0, index: 0, len: 0 };
        }
        self.ensure_capacity(len);
        let ghost mid = *self;
        let mut c = self.chunks.pop().unwrap();
        let ghost c0 = c;
        proof {
            assert(mid.chunks_seq().last() == c0);
            assert(c0@.len() + len <= c0.spec_capacity());
        }
        let index = c.used();
        let mut i: usize = 0;
        while i < len
            invariant
                i <= len,
                c.spec_capacity() == c0.spec_capacity(),
                c@.len() == c0@.len() + i,
                forall|j: int| 0 <= j < c0@.len() ==> #[trigger] c@[j] == c0@[j],
                forall|j: int|
                    0 <= j < i ==> vstd::pervasive::cloned::<T>(
                        src@[j],
                        #[trigger] c@[c0@.len() + j],
                    ),
            decreases len - i,
        {
            let v = slice_index_get(src, i).clone();
            c.push_value(v);
            i = i + 1;
        }
        self.chunks.push(c);
        proof {
            assert forall|j: int| 0 <= j < self.chunks_seq().len() implies (
            #[trigger] self.chunks_seq()[j]).wf() by {
                if j < self.chunks_seq().len() - 1 {
                    assert(mid.chunks_seq()[j].wf());
                }
            }
            assert(mid.extends_to(*self));
            lemma_extends_trans(*old(self), mid, *self);
            lemma_frontier_monotone(*old(self), mid);
        }
        let h = SliceHandle { chunk: self.chunks.len() - 1, index, len };
        proof {
            assert forall|j: int| 0 <= j < src@.len() implies vstd::pervasive::cloned::<T>(
                src@[j],
                #[trigger] self.slice_at(h)[j],
            ) by {
                assert(self.slice_at(h)[j] == self.chunks_seq().last()@[index + j]);
            }
        }
        h
    }
}

impl DroplessArena<u8> {
    /// Allocates a copy of `src`'s UTF-8 bytes through the bit-copy
    /// bulk path and returns the range holding them: the stored run
    /// equals `src`'s byte encoding, byte for byte.
    pub fn alloc_str(&mut self, src: &str) -> (h: SliceHandle)
        requires
            old(self).wf(),
        ensures
            final(self).wf(),
            old(self).extends_to(*final(self)),
            h.len == src.spec_bytes().len(),
            final(self).valid_slice(h),
            final(self).slice_at(h) == src.spec_bytes(),
            old(self).issued_to(*final(self), h),
            forall|i: int|
                0 <= i < final(self).chunk_count_spec() - 1 ==> final(self).chunks_seq()[i]
                    == old(self).chunks_seq()[i],
            src.spec_bytes().len() == 0 ==> *final(self) == *old(self),
            src.spec_bytes().len() > 0 ==> {
                &&& h.chunk as int == final(self).frontier_chunk()
                &&& h.index + h.len == final(self).frontier_index()
                &&& (src.spec_bytes().len() <= old(self).free_spec() ==> {
                    &&& final(self).chunk_count_spec() == old(self).chunk_count_spec()
                    &&& h.chunk as int == old(self).frontier_chunk()
                    &&& h.index as int == old(self).frontier_index()
                    &&& final(self).free_spec() + src.spec_bytes().len() == old(self).free_spec()
                })
                &&& (old(self).free_spec() < src.spec_bytes().len() ==> {
                    &&& final(self).chunk_count_spec() == old(self).chunk_count_spec() + 1
                    &&& final(self).chunks_seq().last().spec_capacity() == old(
                        self,
                    ).spec_grown_capacity(src.spec_bytes().len())
                    &&& h.index == 0
                    &&& final(self).free_spec() + src.spec_bytes().len() == old(
                        self,
                    ).spec_grown_capacity(src.spec_bytes().len())
                })
            },
    {
        let bytes = src.as_bytes();
        let n = bytes.len();
        proof {
            broadcast use vstd::layout::layout_of_primitives;

            assert(bytes@.len() == n);
            assert(bytes@.len() * vstd::layout::size_of::<u8>() <= usize::MAX as nat);
        }
        self.alloc_slice_copy(bytes)
    }
}

impl<T> DroplessArena<T> {
    /// Reads the value in the slot a single-allocation handle names.
    pub fn get(&self, h: &Handle) -> (r: &T)
        requires
            self.wf(),
            self.valid_handle(*h),
        ensures
            *r == self.value_at(*h),
    {
        let c = &self.chunks[h.chunk];
        c.get(h.index)
    }

    /// Reads element `i` of the run a bulk-allocation handle names.
    pub fn slice_elem(&self, h: &SliceHandle, i: usize) -> (r: &T)
        requires
            self.wf(),
            self.valid_slice(*h),
            i < h.len,
        ensures
            *r == self.slice_at(*h)[i as int],
    {
        let c = &self.chunks[h.chunk];
        let written = c.used();
        proof {
            assert(h.index + i < written);
        }
        c.get(h.index + i)
    }

    /// How many blocks the arena has acquired so far.
    pub fn chunk_count(&self) -> (n: usize)
        ensures
            n == self.chunk_count_spec(),
    {
        self.chunks.len()
    }

    /// Element capacity of block `i`, in acquisition order.
    pub fn chunk_capacity(&self, i: usize) -> (n: usize)
        requires
            i < self.chunk_count_spec(),
        ensures
            n == self.chunks_seq()[i as int].spec_capacity(),
    {
        self.chunks[i].len()
    }

    /// How many elements have been written into block `i` so far.
    pub fn chunk_used(&self, i: usize) -> (n: usize)
        requires
            i < self.chunk_count_spec(),
        ensures
            n == self.chunks_seq()[i as int]@.len(),
    {
        self.chunks[i].used()
    }
}

impl<T: Copy> DroplessArena<T> {
    /// Copies the run a bulk-allocation handle names out into a fresh
    /// vector, in order.
    #[verifier::loop_isolation(false)]
    pub fn copy_to_vec(&self, h: &SliceHandle) -> (out: Vec<T>)
        requires
            self.wf(),
            self.valid_slice(*h),
        ensures
            out@ == self.slice_at(*h),
    {
        let mut out: Vec<T> = Vec::new();
        let mut i: usize = 0;
        while i < h.len
            invariant
                i <= h.len,
                out@.len() == i,
                forall|j: int| 0 <= j < i ==> out@[j] == self.slice_at(*h)[j],
            decreases h.len - i,
        {
            let v = *self.slice_elem(h, i);
            out.push(v);
            i = i + 1;
        }
        proof {
            assert(out@ =~= self.slice_at(*h));
        }
        out
    }
}

impl<T> Default for DroplessArena<T> {
    /// An empty arena, exactly as `new` builds it.
    fn default() -> (arena: DroplessArena<T>)
        ensures
            arena.chunk_count_spec() == 0,
            vstd::layout::size_of::<T>() >= 1 ==> arena.wf(),
    {
        DroplessArena { chunks: Vec::new() }
    }
}

/// Law: extension composes. An arena later in its life than `b`, which
/// is itself later than `a`, is later than `a`.
pub proof fn lemma_extends_trans<T>(
    a: DroplessArena<T>,
    b: DroplessArena<T>,
    c: DroplessArena<T>,
)
    requires
        a.extends_to(b),
        b.extends_to(c),
    ensures
        a.extends_to(c),
{
    assert forall|i: int| 0 <= i < a.chunk_count_spec() implies #[trigger] chunk_extended(
        a.chunks_seq()[i],
        c.chunks_seq()[i],
    ) by {
        assert(chunk_extended(a.chunks_seq()[i], b.chunks_seq()[i]));
        assert(chunk_extended(b.chunks_seq()[i], c.chunks_seq()[i]));
    }
}

/// Law: the write frontier only ever moves forward.
pub proof fn lemma_frontier_monotone<T>(a: DroplessArena<T>, b: DroplessArena<T>)
    requires
        a.extends_to(b),
    ensures
        pos_le(a.frontier_chunk(), a.frontier_index(), b.frontier_chunk(), b.frontier_index()),
{
    if a.chunk_count_spec() > 0 && a.chunk_count_spec() == b.chunk_count_spec() {
        let last = a.chunk_count_spec() as int - 1;
        assert(chunk_extended(a.chunks_seq()[last], b.chunks_seq()[last]));
    }
}

/// Law: a value already written is untouched by anything that extends
/// the arena — its handle stays valid and reads the same value after
/// arbitrarily many later allocations and growths.
pub proof fn lemma_value_stable<T>(a: DroplessArena<T>, b: DroplessArena<T>, h: Handle)
    requires
        a.extends_to(b),
        a.valid_handle(h),
    ensures
        b.valid_handle(h),
        b.value_at(h) == a.value_at(h),
{
    assert(chunk_extended(a.chunks_seq()[h.chunk as int], b.chunks_seq()[h.chunk as int]));
}

/// Law: a whole written range is untouched by anything that extends the
/// arena — its handle stays valid and reads the same run of values.
pub proof fn lemma_slice_stable<T>(a: DroplessArena<T>, b: DroplessArena<T>, h: SliceHandle)
    requires
        a.extends_to(b),
        a.valid_slice(h),
    ensures
        b.valid_slice(h),
        b.slice_at(h) == a.slice_at(h),
{
    if h.len > 0 {
        assert(chunk_extended(a.chunks_seq()[h.chunk as int], b.chunks_seq()[h.chunk as int]));
        assert(b.slice_at(h) =~= a.slice_at(h));
    }
}

/// Law: the ranges issued by any two allocations, one after the other,
/// are disjoint — whatever allocations happened in between.
pub proof fn lemma_issued_ranges_disjoint<T>(
    a0: DroplessArena<T>,
    a1: DroplessArena<T>,
    b0: DroplessArena<T>,
    b1: DroplessArena<T>,
    h1: SliceHandle,
    h2: SliceHandle,
)
    requires
        a0.issued_to(a1, h1),
        a1.extends_to(b0),
        b0.issued_to(b1, h2),
    ensures
        ranges_disjoint(h1, h2),
{
    if h1.len > 0 && h2.len > 0 {
        lemma_frontier_monotone(a1, b0);
    }
}

/// Law: growth is deterministic. The capacity of the next block is a
/// function of the request, the element size, and the current shape of
/// the arena alone: two arenas that agree on block count and on the
/// last block's capacity grow by exactly the same amount.
pub proof fn lemma_growth_deterministic<T>(
    a: DroplessArena<T>,
    b: DroplessArena<T>,
    additional: nat,
)
    requires
        a.chunk_count_spec() == b.chunk_count_spec(),
        a.chunk_count_spec() > 0 ==> a.chunks_seq().last().spec_capacity()
            == b.chunks_seq().last().spec_capacity(),
    ensures
        a.spec_grown_capacity(additional) == b.spec_grown_capacity(additional),
{
}

} // verus!
