//! The interface shared by the allocation strategies.

use vstd::prelude::*;
use crate::layout::Layout;

verus! {

/// An allocation strategy over a region of addresses. Addresses are plain
/// `usize` values; `0` stands for the null pointer.
pub trait AllocatorStrategy {
    /// The strategy's internal invariant.
    spec fn wf(&self) -> bool;

    /// `addr` may be handed back for `layout`: what the allocator needs of a
    /// block obtained from it for the same layout.
    spec fn accepts(&self, addr: usize, layout: Layout) -> bool;

    /// Allocates memory for `layout`; returns `0` on failure.
    fn allocate(&mut self, layout: Layout) -> (addr: usize)
        requires
            old(self).wf(),
        ensures
            final(self).wf(),
    ;

    /// Returns the block at `addr`, previously obtained for `layout`.
    fn dealloc(&mut self, addr: usize, layout: Layout)
        requires
            old(self).wf(),
            old(self).accepts(addr, layout),
        ensures
            final(self).wf(),
    ;
}

} // verus!
