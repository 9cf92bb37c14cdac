//! Inline-first vectors of the debug allocator, kept in `smallvec::SmallVec`.
//!
//! Each list holds its `SmallVec` in a private field; what the list holds is
//! named by an uninterpreted function, and the wrappers below state what each
//! `SmallVec` method does to it.

use crate::alloc_handler::dbg::Allocation;
use smallvec::SmallVec;
use vstd::prelude::*;

verus! {

/// Below this length a push never reaches the `capacity overflow` panic of
/// `SmallVec::reserve_one_unchecked`: the grown capacity, a power of two of at
/// most `usize::MAX / 128`, times an item of at most 64 bytes stays below
/// `isize::MAX`.
pub const SMALL_VEC_PUSH_LIMIT: usize = usize::MAX / 256;

/// The free gaps of one block, each a start address and a length (a
/// `SmallVec<[(usize, usize); 2]>`).
#[verifier::external_body]
pub struct GapList {
    items: SmallVec<[(usize, usize); 2]>,
}

/// What a gap list holds, front to back.
pub uninterp spec fn gap_items(g: GapList) -> Seq<(usize, usize)>;

impl View for GapList {
    type V = Seq<(usize, usize)>;

    open spec fn view(&self) -> Seq<(usize, usize)> {
        gap_items(*self)
    }
}

impl GapList {
    /// `SmallVec::new`: an empty list.
    #[verifier::external_body]
    pub(crate) fn new() -> (r: GapList)
        ensures
            gap_items(r) == Seq::<(usize, usize)>::empty(),
    {
        GapList { items: SmallVec::new() }
    }

    /// `SmallVec::push`: appends `x` at the back and keeps the rest.
    #[verifier::external_body]
    pub(crate) fn push(&mut self, x: (usize, usize))
        requires
            gap_items(*old(self)).len() < SMALL_VEC_PUSH_LIMIT,
        ensures
            gap_items(*final(self)) == gap_items(*old(self)).push(x),
    {
        self.items.push(x)
    }

    /// `SmallVec::len`: the number of items.
    #[verifier::external_body]
    pub(crate) fn len(&self) -> (r: usize)
        ensures
            r == gap_items(*self).len(),
    {
        self.items.len()
    }

    /// `SmallVec` indexing (through `Index<usize>`): the item at `i`.
    #[verifier::external_body]
    pub(crate) fn get(&self, i: usize) -> (r: (usize, usize))
        requires
            i < gap_items(*self).len(),
        ensures
            r == gap_items(*self)[i as int],
    {
        self.items[i]
    }

    /// `SmallVec` assignment (through `IndexMut<usize>`): replaces the item
    /// at `i` and keeps the rest.
    #[verifier::external_body]
    pub(crate) fn set(&mut self, i: usize, x: (usize, usize))
        requires
            i < gap_items(*old(self)).len(),
        ensures
            gap_items(*final(self)) == gap_items(*old(self)).update(i as int, x),
    {
        self.items[i] = x;
    }
}

/// The active allocations of the debug allocator (a `SmallVec<[Allocation; 5]>`).
#[verifier::external_body]
pub struct AllocationList {
    items: SmallVec<[Allocation; 5]>,
}

/// What an allocation list holds, oldest first.
pub uninterp spec fn allocation_items(l: AllocationList) -> Seq<Allocation>;

impl View for AllocationList {
    type V = Seq<Allocation>;

    open spec fn view(&self) -> Seq<Allocation> {
        allocation_items(*self)
    }
}

impl AllocationList {
    /// `SmallVec::new`: an empty list.
    #[verifier::external_body]
    pub(crate) fn new() -> (r: AllocationList)
        ensures
            allocation_items(r) == Seq::<Allocation>::empty(),
    {
        AllocationList { items: SmallVec::new() }
    }

    /// `SmallVec::push`: appends `a` at the back and keeps the rest.
    #[verifier::external_body]
    pub(crate) fn push(&mut self, a: Allocation)
        requires
            allocation_items(*old(self)).len() < SMALL_VEC_PUSH_LIMIT,
        ensures
            allocation_items(*final(self)) == allocation_items(*old(self)).push(a),
    {
        self.items.push(a)
    }

    /// `SmallVec::len`: the number of items.
    #[verifier::external_body]
    pub(crate) fn len(&self) -> (r: usize)
        ensures
            r == allocation_items(*self).len(),
    {
        self.items.len()
    }

    /// `SmallVec` indexing (through `Index<usize>`): a copy of the item at `i`.
    #[verifier::external_body]
    pub(crate) fn get(&self, i: usize) -> (r: Allocation)
        requires
            i < allocation_items(*self).len(),
        ensures
            r == allocation_items(*self)[i as int],
    {
        self.items[i]
    }
}

} // verus!
