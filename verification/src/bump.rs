//! Bump allocator: a cursor that only moves forward, except that the most
//! recently allocated block can be handed back.

use vstd::prelude::*;
use crate::layout::{
    align_up,
    align_up_spec,
    is_power_of_two,
    lemma_round_up_aligned,
    lemma_round_up_facts,
    round_up,
    Layout,
};

verus! {

/// Smallest region mapped for a bump allocator (one MiB).
pub const MEM_EXTEND_SIZE: usize = 1048576;

/// The number of bytes to map for a bump allocator of `capacity` bytes: the
/// capacity, and at least one MiB.
pub fn mapped_size(capacity: usize) -> (r: usize)
    ensures
        r == if capacity >= MEM_EXTEND_SIZE { capacity } else { MEM_EXTEND_SIZE },
        r >= capacity,
{
    if capacity >= MEM_EXTEND_SIZE {
        capacity
    } else {
        MEM_EXTEND_SIZE
    }
}

/// `x + y` wrapped around the address space, as `usize::wrapping_add`
/// computes it.
pub open spec fn wrap_add(x: usize, y: usize) -> usize {
    if x + y > usize::MAX {
        (x + y - (usize::MAX + 1)) as usize
    } else {
        (x + y) as usize
    }
}

/// The abstract state of a [`BumpAllocator`].
pub struct BumpView {
    pub start: usize,
    pub curr: usize,
    pub capacity: usize,
}

impl BumpView {
    /// The state after `allocate`, and the address it returns: the cursor
    /// rounded up to `align`, after which the cursor points past the block
    /// (wrapping as the machine's addition does). `0` for an empty request,
    /// or when the rounding overflows.
    pub open spec fn alloc_spec(self, size: usize, align: usize) -> (BumpView, usize) {
        if size == 0 {
            (self, 0)
        } else {
            match align_up_spec(self.curr, align) {
                None => (self, 0),
                Some(a) => (BumpView { curr: wrap_add(a, size), ..self }, a),
            }
        }
    }

    /// The state after `dealloc`: the block that ends at the cursor (the
    /// top of the stack) is given back; any other block stays in use.
    pub open spec fn dealloc_spec(self, addr: usize, size: usize) -> BumpView {
        if wrap_add(addr, size) == self.curr {
            BumpView { curr: addr, ..self }
        } else {
            self
        }
    }
}

/// Sequential allocator over one region.
pub struct BumpAllocator {
    start: usize,
    curr: usize,
    capacity: usize,
}

impl View for BumpAllocator {
    type V = BumpView;

    closed spec fn view(&self) -> BumpView {
        BumpView { start: self.start, curr: self.curr, capacity: self.capacity }
    }
}

impl BumpAllocator {
    /// Creates a bump allocator that accepts requests of up to `capacity`
    /// bytes over the region that `mapping` starts at; `None` when the
    /// mapping failed.
    pub fn new(capacity: usize, mapping: Option<usize>) -> (r: Option<Self>)
        ensures
            r is Some <==> mapping is Some,
            r matches Some(a) ==> a@ == (BumpView {
                start: mapping->0,
                curr: mapping->0,
                capacity,
            }),
    {
        match mapping {
            None => None,
            Some(start) => Some(BumpAllocator { start, curr: start, capacity }),
        }
    }

    /// The largest request the allocator accepts.
    pub fn capacity(&self) -> (r: usize)
        ensures
            r == self@.capacity,
    {
        self.capacity
    }

    /// The next address to hand out.
    pub fn cursor(&self) -> (r: usize)
        ensures
            r == self@.curr,
    {
        self.curr
    }

    /// Hands out the next address aligned as `layout` asks and moves the
    /// cursor past the block; an empty request, or one whose alignment
    /// overflows the address space, gets `0`. A request larger than the
    /// capacity is a caller error.
    pub fn allocate(&mut self, layout: Layout) -> (r: usize)
        requires
            layout.spec_size() <= old(self)@.capacity,
        ensures
            (final(self)@, r) == old(self)@.alloc_spec(layout.spec_size(), layout.spec_align()),
            r != 0 ==> r % layout.spec_align() == 0 && old(self)@.curr <= r,
    {
        let size = layout.size();
        let align = layout.align();
        if size == 0 {
            return 0;
        }
        let aligned = match align_up(self.curr, align) {
            Some(a) => a,
            None => return 0,
        };
        self.curr = aligned.wrapping_add(size);
        aligned
    }

    /// Gives back the most recently allocated block; other blocks are kept.
    pub fn dealloc(&mut self, addr: usize, layout: Layout)
        ensures
            final(self)@ == old(self)@.dealloc_spec(addr, layout.spec_size()),
    {
        let size = layout.size();
        if addr.wrapping_add(size) == self.curr {
            self.curr = addr;
        }
    }
}

/// Giving back the block just allocated makes the next request for the
/// same layout get the same address, in the same state.
pub proof fn lemma_freed_top_block_is_reused(v: BumpView, size: usize, align: usize)
    requires
        is_power_of_two(align),
        size != 0,
        v.alloc_spec(size, align).1 != 0,
    ensures
        ({
            let (w, r) = v.alloc_spec(size, align);
            w.dealloc_spec(r, size).alloc_spec(size, align) == (w, r)
        }),
{
    let (w, r) = v.alloc_spec(size, align);
    lemma_round_up_facts(v.curr as int, align as int);
    lemma_round_up_aligned(r, align);
}

/// Only the top of the stack can be given back: after two allocations that
/// do not wrap around the address space, freeing the first leaves the
/// allocator's state unchanged.
pub proof fn lemma_dealloc_below_top_is_ignored(
    v: BumpView,
    size1: usize,
    align1: usize,
    size2: usize,
    align2: usize,
)
    requires
        is_power_of_two(align1),
        is_power_of_two(align2),
        size1 != 0,
        size2 != 0,
        v.alloc_spec(size1, align1).1 != 0,
        v.alloc_spec(size1, align1).1 + size1 <= usize::MAX,
        v.alloc_spec(size1, align1).0.alloc_spec(size2, align2).1 != 0,
        v.alloc_spec(size1, align1).0.alloc_spec(size2, align2).1 + size2 <= usize::MAX,
    ensures
        ({
            let (w, r1) = v.alloc_spec(size1, align1);
            let (x, r2) = w.alloc_spec(size2, align2);
            x.dealloc_spec(r1, size1) == x
        }),
{
    let (w, r1) = v.alloc_spec(size1, align1);
    lemma_round_up_facts(w.curr as int, align2 as int);
}

/// When the cursor is aligned already, giving back the block just allocated
/// restores the allocator's state.
pub proof fn lemma_dealloc_undoes_alloc(v: BumpView, size: usize, align: usize)
    requires
        is_power_of_two(align),
        size != 0,
        v.curr % align == 0,
    ensures
        ({
            let (w, r) = v.alloc_spec(size, align);
            r == v.curr && w.dealloc_spec(r, size) == v
        }),
{
    lemma_round_up_aligned(v.curr, align);
}

/// Each block starts at the first address at or after the end of the
/// previous one that its alignment admits, and is aligned.
pub proof fn lemma_allocations_adjacent(
    v: BumpView,
    size1: usize,
    align1: usize,
    size2: usize,
    align2: usize,
)
    requires
        is_power_of_two(align1),
        is_power_of_two(align2),
        size1 != 0,
        size2 != 0,
    ensures
        ({
            let (w, r1) = v.alloc_spec(size1, align1);
            let (_, r2) = w.alloc_spec(size2, align2);
            &&& r1 != 0 ==> r1 % align1 == 0 && v.curr <= r1 < v.curr + align1
            &&& r1 != 0 && r2 != 0 ==> r2 % align2 == 0 && r2 == round_up(
                wrap_add(r1, size1) as int,
                align2 as int,
            )
            &&& r1 != 0 && r2 != 0 && r1 + size1 <= usize::MAX ==> r1 + size1 <= r2 < r1 + size1
                + align2
        }),
{
    let (w, r1) = v.alloc_spec(size1, align1);
    lemma_round_up_facts(v.curr as int, align1 as int);
    lemma_round_up_facts(w.curr as int, align2 as int);
}

} // verus!
