//! Explicit free-list allocator with best-, worst- and first-fit selection.

use vstd::prelude::*;
use crate::layout::{lemma_round_up_aligned, align_up, align_up_spec, is_power_of_two, lemma_round_up_facts, round_up, Layout};
use crate::strategy::AllocatorStrategy;

verus! {

/// Smallest region mapped for an allocator (one MiB).
pub const MEM_EXTEND_SIZE: usize = 1048576;

/// Defines how a suitable freed block is selected.
#[derive(Clone, Copy, Debug, PartialEq, Eq, Structural)]
pub enum FreeListPolicy {
    /// Selects the smallest suitable block.
    BestFit,
    /// Selects the largest suitable block.
    WorstFit,
    /// Selects the first suitable block in free-list order.
    FirstFit,
}

/// A freed range of `size` bytes starting at address `ptr`.
#[derive(Clone, Copy, Debug, PartialEq, Eq, Structural)]
pub struct FreeBlock {
    pub ptr: usize,
    pub size: usize,
}

/// The abstract state of a [`FreeListAllocator`].
pub struct FreeListView {
    pub start: usize,
    pub curr: usize,
    pub capacity: usize,
    pub policy: FreeListPolicy,
    pub blocks: Seq<FreeBlock>,
}

/// Scanning `b` for a request of `size` bytes aligned to `align` overflows
/// `usize` arithmetic.
pub open spec fn block_overflows(b: FreeBlock, size: usize, align: usize) -> bool {
    b.ptr + align - 1 > usize::MAX || round_up(b.ptr as int, align as int) - b.ptr + size
        > usize::MAX
}

/// `b` can hold `size` bytes starting at an `align`-aligned address.
pub open spec fn block_fits(b: FreeBlock, size: usize, align: usize) -> bool {
    !block_overflows(b, size, align) && round_up(b.ptr as int, align as int) - b.ptr + size
        <= b.size
}

/// `i` is the first block that fits.
pub open spec fn is_first_fit(blocks: Seq<FreeBlock>, size: usize, align: usize, i: int) -> bool {
    &&& 0 <= i < blocks.len()
    &&& block_fits(blocks[i], size, align)
    &&& forall|j: int| 0 <= j < i ==> !block_fits(#[trigger] blocks[j], size, align)
}

/// `i` is the first of the smallest blocks that fit.
pub open spec fn is_best_fit(blocks: Seq<FreeBlock>, size: usize, align: usize, i: int) -> bool {
    &&& 0 <= i < blocks.len()
    &&& block_fits(blocks[i], size, align)
    &&& forall|j: int|
        0 <= j < blocks.len() && block_fits(#[trigger] blocks[j], size, align) ==> blocks[i].size
            <= blocks[j].size
    &&& forall|j: int|
        0 <= j < i && block_fits(#[trigger] blocks[j], size, align) ==> blocks[i].size
            < blocks[j].size
}

/// `i` is the first of the largest blocks that fit.
pub open spec fn is_worst_fit(blocks: Seq<FreeBlock>, size: usize, align: usize, i: int) -> bool {
    &&& 0 <= i < blocks.len()
    &&& block_fits(blocks[i], size, align)
    &&& forall|j: int|
        0 <= j < blocks.len() && block_fits(#[trigger] blocks[j], size, align) ==> blocks[i].size
            >= blocks[j].size
    &&& forall|j: int|
        0 <= j < i && block_fits(#[trigger] blocks[j], size, align) ==> blocks[i].size
            > blocks[j].size
}

/// `i` is the block that `policy` selects.
pub open spec fn is_chosen(
    blocks: Seq<FreeBlock>,
    size: usize,
    align: usize,
    policy: FreeListPolicy,
    i: int,
) -> bool {
    match policy {
        FreeListPolicy::BestFit => is_best_fit(blocks, size, align, i),
        FreeListPolicy::WorstFit => is_worst_fit(blocks, size, align, i),
        FreeListPolicy::FirstFit => is_first_fit(blocks, size, align, i),
    }
}

/// The scan meets a block whose arithmetic overflows. First-fit stops at the
/// first block that fits; the other policies look at every block.
pub open spec fn scan_overflows(
    blocks: Seq<FreeBlock>,
    size: usize,
    align: usize,
    policy: FreeListPolicy,
) -> bool {
    match policy {
        FreeListPolicy::FirstFit => exists|j: int|
            0 <= j < blocks.len() && block_overflows(#[trigger] blocks[j], size, align) && forall|
                k: int,
            | 0 <= k < j ==> !block_fits(#[trigger] blocks[k], size, align),
        _ => exists|j: int| 0 <= j < blocks.len() && block_overflows(#[trigger] blocks[j], size, align),
    }
}

/// The index of the free block that serves the request, if any.
pub open spec fn selection(
    blocks: Seq<FreeBlock>,
    size: usize,
    align: usize,
    policy: FreeListPolicy,
) -> Option<int> {
    if scan_overflows(blocks, size, align, policy) {
        None
    } else if exists|i: int| is_chosen(blocks, size, align, policy, i) {
        Some(choose|i: int| is_chosen(blocks, size, align, policy, i))
    } else {
        None
    }
}

/// What stays free of block `b` once `size` bytes at the first
/// `align`-aligned address in it are handed out: the padding before them and
/// the remainder after them, each when non-empty.
pub open spec fn carve(b: FreeBlock, size: usize, align: usize) -> Seq<FreeBlock> {
    let aligned = round_up(b.ptr as int, align as int);
    let padding = aligned - b.ptr;
    let remaining = b.size - padding - size;
    (if padding != 0 {
        seq![FreeBlock { ptr: b.ptr, size: padding as usize }]
    } else {
        Seq::empty()
    }) + (if remaining != 0 {
        seq![FreeBlock { ptr: (aligned + size) as usize, size: remaining as usize }]
    } else {
        Seq::empty()
    })
}

/// `blocks` with entry `i` removed by moving the last entry into its place.
pub open spec fn swap_removed(blocks: Seq<FreeBlock>, i: int) -> Seq<FreeBlock> {
    blocks.update(i, blocks.last()).drop_last()
}

/// Every block lies within the address space.
pub open spec fn blocks_wf(blocks: Seq<FreeBlock>) -> bool {
    forall|i: int| 0 <= i < blocks.len() ==> #[trigger] blocks[i].ptr + blocks[i].size <= usize::MAX
}

/// Total number of free bytes in `blocks`.
pub open spec fn total_free(blocks: Seq<FreeBlock>) -> int
    decreases blocks.len(),
{
    if blocks.len() == 0 {
        0
    } else {
        total_free(blocks.drop_last()) + blocks.last().size
    }
}

/// Reserving `size` bytes aligned to `align` past the cursor: the address
/// and the new cursor, or `None` when the region is exhausted or the
/// arithmetic overflows.
pub open spec fn fresh_spec(start: usize, curr: usize, capacity: usize, size: usize, align: usize) -> Option<(usize, usize)> {
    if start + capacity > usize::MAX {
        None
    } else {
        match align_up_spec(curr, align) {
            None => None,
            Some(a) => if a + size <= start + capacity {
                Some((a, (a + size) as usize))
            } else {
                None
            },
        }
    }
}

impl FreeListView {
    /// The allocator's invariant: the cursor lies within the region and every
    /// free block within the address space.
    pub open spec fn wf(self) -> bool {
        &&& self.start <= self.curr
        &&& self.start + self.capacity <= usize::MAX ==> self.curr <= self.start + self.capacity
        &&& blocks_wf(self.blocks)
    }

    /// The state after serving a request from the free list, and the address.
    pub open spec fn search_spec(self, size: usize, align: usize) -> (FreeListView, Option<usize>) {
        match selection(self.blocks, size, align, self.policy) {
            None => (self, None),
            Some(i) => (
                FreeListView {
                    blocks: swap_removed(self.blocks, i) + carve(self.blocks[i], size, align),
                    ..self
                },
                Some(round_up(self.blocks[i].ptr as int, align as int) as usize),
            ),
        }
    }

    /// The state after a fresh reservation past the cursor, and the address
    /// (`0` on failure).
    pub open spec fn fresh_alloc_spec(self, size: usize, align: usize) -> (FreeListView, usize) {
        match fresh_spec(self.start, self.curr, self.capacity, size, align) {
            None => (self, 0),
            Some((a, next)) => (FreeListView { curr: next, ..self }, a),
        }
    }

    /// The state after `alloc`, and the address it returns (`0` on failure).
    pub open spec fn alloc_spec(self, size: usize, align: usize) -> (FreeListView, usize) {
        if size == 0 {
            (self, 0)
        } else {
            let (s, r) = self.search_spec(size, align);
            match r {
                Some(a) => (s, a),
                None => self.fresh_alloc_spec(size, align),
            }
        }
    }

    /// The state after `dealloc`.
    pub open spec fn dealloc_spec(self, addr: usize, size: usize) -> FreeListView {
        if addr != 0 && size != 0 {
            FreeListView { blocks: self.blocks.push(FreeBlock { ptr: addr, size }), ..self }
        } else {
            self
        }
    }
}

/// Allocator that reuses freed blocks and otherwise bumps a cursor through
/// its region.
pub struct FreeListAllocator {
    start: usize,
    curr: usize,
    capacity: usize,
    policy: FreeListPolicy,
    free_list: Vec<FreeBlock>,
}

impl View for FreeListAllocator {
    type V = FreeListView;

    closed spec fn view(&self) -> FreeListView {
        FreeListView {
            start: self.start,
            curr: self.curr,
            capacity: self.capacity,
            policy: self.policy,
            blocks: self.free_list@,
        }
    }
}

/// The number of bytes to map for an allocator of `capacity` usable bytes: at
/// least one MiB, so that a zero-capacity allocator can still be built.
pub fn mapped_size(capacity: usize) -> (r: usize)
    ensures
        r == if capacity >= MEM_EXTEND_SIZE { capacity } else { MEM_EXTEND_SIZE },
{
    if capacity >= MEM_EXTEND_SIZE {
        capacity
    } else {
        MEM_EXTEND_SIZE
    }
}

proof fn lemma_chosen_unique(
    blocks: Seq<FreeBlock>,
    size: usize,
    align: usize,
    policy: FreeListPolicy,
    i: int,
    k: int,
)
    requires
        is_chosen(blocks, size, align, policy, i),
        is_chosen(blocks, size, align, policy, k),
    ensures
        i == k,
{
    if i < k {
        assert(block_fits(blocks[i], size, align));
    } else if k < i {
        assert(block_fits(blocks[k], size, align));
    }
}

/// Extending the scanned prefix by one block keeps the selection invariant.
proof fn lemma_scan_step(
    blocks: Seq<FreeBlock>,
    size: usize,
    align: usize,
    policy: FreeListPolicy,
    n: int,
    si: int,
    take_new: bool,
)
    requires
        0 <= si < n < blocks.len(),
        is_chosen(blocks.subrange(0, n), size, align, policy, si),
        policy != FreeListPolicy::FirstFit,
        take_new ==> block_fits(blocks[n], size, align),
        block_fits(blocks[n], size, align) ==> (take_new <==> (match policy {
            FreeListPolicy::BestFit => blocks[n].size < blocks[si].size,
            _ => blocks[n].size > blocks[si].size,
        })),
    ensures
        is_chosen(blocks.subrange(0, n + 1), size, align, policy, if take_new { n } else { si }),
{
    let p = blocks.subrange(0, n);
    let q = blocks.subrange(0, n + 1);
    assert forall|j: int| 0 <= j < n implies #[trigger] q[j] == p[j] by {}
    assert(q[n] == blocks[n]);
    if take_new {
        if policy == FreeListPolicy::BestFit {
            assert forall|j: int| 0 <= j < q.len() && block_fits(#[trigger] q[j], size, align)
                implies q[n].size <= q[j].size by {
                if j < n {
                    assert(block_fits(p[j], size, align));
                }
            }
            assert forall|j: int| 0 <= j < n && block_fits(#[trigger] q[j], size, align)
                implies q[n].size < q[j].size by {
                assert(block_fits(p[j], size, align));
            }
        } else {
            assert forall|j: int| 0 <= j < q.len() && block_fits(#[trigger] q[j], size, align)
                implies q[n].size >= q[j].size by {
                if j < n {
                    assert(block_fits(p[j], size, align));
                }
            }
            assert forall|j: int| 0 <= j < n && block_fits(#[trigger] q[j], size, align)
                implies q[n].size > q[j].size by {
                assert(block_fits(p[j], size, align));
            }
        }
    } else {
        if policy == FreeListPolicy::BestFit {
            assert forall|j: int| 0 <= j < q.len() && block_fits(#[trigger] q[j], size, align)
                implies q[si].size <= q[j].size by {
                if j < n {
                    assert(block_fits(p[j], size, align));
                }
            }
            assert forall|j: int| 0 <= j < si && block_fits(#[trigger] q[j], size, align)
                implies q[si].size < q[j].size by {
                assert(block_fits(p[j], size, align));
            }
        } else {
            assert forall|j: int| 0 <= j < q.len() && block_fits(#[trigger] q[j], size, align)
                implies q[si].size >= q[j].size by {
                if j < n {
                    assert(block_fits(p[j], size, align));
                }
            }
            assert forall|j: int| 0 <= j < si && block_fits(#[trigger] q[j], size, align)
                implies q[si].size > q[j].size by {
                assert(block_fits(p[j], size, align));
            }
        }
    }
}

/// The first block that fits is the first-fit choice of every longer prefix.
proof fn lemma_first_fit_prefix(blocks: Seq<FreeBlock>, size: usize, align: usize, n: int, i: int)
    requires
        0 <= i < n <= blocks.len(),
        is_first_fit(blocks.subrange(0, n), size, align, i),
    ensures
        is_first_fit(blocks, size, align, i),
{
    let p = blocks.subrange(0, n);
    assert forall|j: int| 0 <= j < i implies !block_fits(#[trigger] blocks[j], size, align) by {
        assert(p[j] == blocks[j]);
    }
    assert(p[i] == blocks[i]);
}

impl FreeListAllocator {
    /// Creates a best-fit allocator with `capacity` usable bytes over the
    /// region that `mapping` starts at; `None` when the mapping failed.
    pub fn new(capacity: usize, mapping: Option<usize>) -> (r: Option<Self>)
        ensures
            r is Some <==> mapping is Some,
            r matches Some(a) ==> a@ == (FreeListView {
                start: mapping->0,
                curr: mapping->0,
                capacity,
                policy: FreeListPolicy::BestFit,
                blocks: Seq::empty(),
            }),
            r matches Some(a) ==> a@.wf(),
    {
        Self::with_policy(capacity, FreeListPolicy::BestFit, mapping)
    }

    /// Creates an allocator using the supplied free-list selection policy.
    pub fn with_policy(capacity: usize, policy: FreeListPolicy, mapping: Option<usize>) -> (r:
        Option<Self>)
        ensures
            r is Some <==> mapping is Some,
            r matches Some(a) ==> a@ == (FreeListView {
                start: mapping->0,
                curr: mapping->0,
                capacity,
                policy,
                blocks: Seq::empty(),
            }),
            r matches Some(a) ==> a@.wf(),
    {
        match mapping {
            None => None,
            Some(start) => Some(
                FreeListAllocator { start, curr: start, capacity, policy, free_list: Vec::new() },
            ),
        }
    }

    /// The free blocks, in free-list order.
    pub fn free_blocks(&self) -> (r: Vec<FreeBlock>)
        ensures
            r@ == self@.blocks,
    {
        self.free_list.clone()
    }

    /// The next unreserved address of the region.
    pub fn cursor(&self) -> (r: usize)
        ensures
            r == self@.curr,
    {
        self.curr
    }

    /// Finds, removes, and splits a suitable free block according to the
    /// policy; returns the aligned address handed out.
    fn search_free_list(&mut self, layout: Layout) -> (r: Option<usize>)
        requires
            old(self)@.wf(),
        ensures
            (final(self)@, r) == old(self)@.search_spec(layout.spec_size(), layout.spec_align()),
    {
        let size = layout.size();
        let alignment = layout.align();
        let n = self.free_list.len();
        let ghost blocks = self.free_list@;
        let first_fit = match self.policy {
            FreeListPolicy::FirstFit => true,
            _ => false,
        };
        let mut selected: Option<(usize, usize, usize)> = None;
        let mut index: usize = 0;
        while index < n && !(first_fit && selected.is_some())
            invariant
                n == blocks.len(),
                blocks == self.free_list@,
                self@ == old(self)@,
                self@.wf(),
                size == layout.spec_size(),
                alignment == layout.spec_align(),
                is_power_of_two(alignment),
                first_fit <==> self.policy == FreeListPolicy::FirstFit,
                index <= n,
                forall|j: int| 0 <= j < index ==> !block_overflows(#[trigger] blocks[j], size, alignment),
                selected is None ==> forall|j: int|
                    0 <= j < index ==> !block_fits(#[trigger] blocks[j], size, alignment),
                selected matches Some((si, sa, sp)) ==> {
                    &&& si < index
                    &&& sa == round_up(blocks[si as int].ptr as int, alignment as int)
                    &&& sp == sa - blocks[si as int].ptr
                    &&& is_chosen(blocks.subrange(0, index as int), size, alignment, self.policy, si as int)
                },
            decreases n - index,
        {
            let block = self.free_list[index];
            let aligned = match align_up(block.ptr, alignment) {
                Some(a) => a,
                None => {
                    proof {
                        assert(block_overflows(blocks[index as int], size, alignment));
                    }
                    return None;
                },
            };
            proof {
                lemma_round_up_facts(block.ptr as int, alignment as int);
            }
            let padding = aligned - block.ptr;
            let required = match padding.checked_add(size) {
                Some(v) => v,
                None => {
                    proof {
                        assert(block_overflows(blocks[index as int], size, alignment));
                    }
                    return None;
                },
            };
            let ghost prev = selected;
            proof {
                assert(blocks[index as int] == block);
                assert(!block_overflows(block, size, alignment));
                assert(block_fits(block, size, alignment) <==> required <= block.size);
            }
            if required <= block.size {
                selected = match selected {
                    None => Some((index, aligned, padding)),
                    Some((si, sa, sp)) => {
                        let selected_size = self.free_list[si].size;
                        let choose_current = match self.policy {
                            FreeListPolicy::BestFit => block.size < selected_size,
                            FreeListPolicy::WorstFit => block.size > selected_size,
                            FreeListPolicy::FirstFit => block.size < selected_size,
                        };
                        if choose_current {
                            Some((index, aligned, padding))
                        } else {
                            Some((si, sa, sp))
                        }
                    },
                };
            }
            proof {
                let p = blocks.subrange(0, index as int);
                let q = blocks.subrange(0, index + 1);
                assert forall|j: int| 0 <= j < index implies #[trigger] q[j] == p[j] by {}
                assert(q[index as int] == blocks[index as int]);
                match prev {
                    None => {
                        if required <= block.size {
                            assert forall|j: int| 0 <= j < index implies !block_fits(#[trigger] q[j], size, alignment) by {
                                assert(!block_fits(blocks[j], size, alignment));
                            }
                            assert(is_chosen(q, size, alignment, self.policy, index as int));
                        }
                    },
                    Some((si, sa, sp)) => {
                        assert(!first_fit);
                        lemma_scan_step(
                            blocks,
                            size,
                            alignment,
                            self.policy,
                            index as int,
                            si as int,
                            selected != prev,
                        );
                    },
                }
            }
            index = index + 1;
        }
        proof {
            if selected is None {
                assert(index == n);
                assert(!scan_overflows(blocks, size, alignment, self.policy));
                assert forall|i: int| !is_chosen(blocks, size, alignment, self.policy, i) by {
                    if 0 <= i < n {
                        assert(!block_fits(blocks[i], size, alignment));
                    }
                }
            }
        }
        match selected {
            None => None,
            Some((si, aligned, padding)) => {
                proof {
                    if first_fit {
                        lemma_first_fit_prefix(blocks, size, alignment, index as int, si as int);
                        assert(!scan_overflows(blocks, size, alignment, self.policy)) by {
                            assert forall|j: int| 0 <= j < n && block_overflows(#[trigger] blocks[j], size, alignment)
                                implies !(forall|k: int| 0 <= k < j ==> !block_fits(#[trigger] blocks[k], size, alignment)) by {
                                assert(j >= index);
                                assert(block_fits(blocks[si as int], size, alignment));
                            }
                        }
                    } else {
                        assert(index == n);
                        assert(blocks.subrange(0, n as int) =~= blocks);
                        assert(!scan_overflows(blocks, size, alignment, self.policy));
                    }
                    assert(is_chosen(blocks, size, alignment, self.policy, si as int));
                    let c = choose|i: int| is_chosen(blocks, size, alignment, self.policy, i);
                    lemma_chosen_unique(blocks, size, alignment, self.policy, c, si as int);
                    assert(selection(blocks, size, alignment, self.policy) == Some(si as int));
                }
                let ghost b = blocks[si as int];
                let ghost base = swap_removed(blocks, si as int);
                let block = self.free_list.swap_remove(si);
                if padding != 0 {
                    self.free_list.push(FreeBlock { ptr: block.ptr, size: padding });
                }
                let consumed = padding + size;
                let remaining = block.size - consumed;
                if remaining != 0 {
                    self.free_list.push(FreeBlock { ptr: aligned + size, size: remaining });
                }
                proof {
                    assert(self.free_list@ =~= base + carve(b, size, alignment));
                }
                Some(aligned)
            },
        }
    }
}


impl FreeListAllocator {
    /// Reserves fresh space past the cursor, respecting alignment and the
    /// allocator's capacity; returns `0` when the region is exhausted.
    fn allocate_fresh(&mut self, layout: Layout) -> (r: usize)
        requires
            old(self)@.wf(),
        ensures
            (final(self)@, r) == old(self)@.fresh_alloc_spec(layout.spec_size(), layout.spec_align()),
    {
        let size = layout.size();
        let region_end = match self.start.checked_add(self.capacity) {
            Some(end) => end,
            None => return 0,
        };
        let current = self.curr;
        let aligned = match align_up(current, layout.align()) {
            Some(value) => value,
            None => return 0,
        };
        let next = match aligned.checked_add(size) {
            Some(value) => {
                if value <= region_end {
                    value
                } else {
                    return 0;
                }
            },
            None => return 0,
        };
        self.curr = next;
        aligned
    }
}

proof fn lemma_total_free_concat(s: Seq<FreeBlock>, t: Seq<FreeBlock>)
    ensures
        total_free(s + t) == total_free(s) + total_free(t),
    decreases t.len(),
{
    if t.len() > 0 {
        lemma_total_free_concat(s, t.drop_last());
        assert((s + t).drop_last() =~= s + t.drop_last());
    } else {
        assert(s + t =~= s);
    }
}

proof fn lemma_total_free_update(s: Seq<FreeBlock>, i: int, b: FreeBlock)
    requires
        0 <= i < s.len(),
    ensures
        total_free(s.update(i, b)) == total_free(s) - s[i].size + b.size,
    decreases s.len(),
{
    let u = s.update(i, b);
    if i == s.len() - 1 {
        assert(u.drop_last() =~= s.drop_last());
    } else {
        lemma_total_free_update(s.drop_last(), i, b);
        assert(u.drop_last() =~= s.drop_last().update(i, b));
    }
}

/// Removing block `i` by swapping in the last one frees `blocks[i].size`
/// bytes fewer.
proof fn lemma_total_free_swap_removed(s: Seq<FreeBlock>, i: int)
    requires
        0 <= i < s.len(),
    ensures
        total_free(swap_removed(s, i)) == total_free(s) - s[i].size,
{
    lemma_total_free_update(s, i, s.last());
    let u = s.update(i, s.last());
    assert(u.last() == s.last());
}

/// The chosen block holds the handed-out range, and the address is aligned.
pub proof fn lemma_selection_fits(v: FreeListView, size: usize, align: usize)
    requires
        is_power_of_two(align),
        selection(v.blocks, size, align, v.policy) is Some,
    ensures
        ({
            let i = selection(v.blocks, size, align, v.policy)->0;
            let b = v.blocks[i];
            let a = round_up(b.ptr as int, align as int);
            &&& 0 <= i < v.blocks.len()
            &&& block_fits(b, size, align)
            &&& a % align as int == 0
            &&& b.ptr <= a
            &&& a + size <= b.ptr + b.size
        }),
{
    let i = selection(v.blocks, size, align, v.policy)->0;
    assert(is_chosen(v.blocks, size, align, v.policy, i));
    lemma_round_up_facts(v.blocks[i].ptr as int, align as int);
}

/// Serving a request from the free list keeps the allocator's invariant.
pub proof fn lemma_search_preserves_wf(v: FreeListView, size: usize, align: usize)
    requires
        v.wf(),
        is_power_of_two(align),
    ensures
        v.search_spec(size, align).0.wf(),
{
    if let Some(i) = selection(v.blocks, size, align, v.policy) {
        lemma_selection_fits(v, size, align);
        let b = v.blocks[i];
        let base = swap_removed(v.blocks, i);
        let c = carve(b, size, align);
        let nb = base + c;
        assert forall|k: int| 0 <= k < nb.len() implies #[trigger] nb[k].ptr + nb[k].size
            <= usize::MAX by {
            if k < base.len() {
                if k == i {
                    assert(base[k] == v.blocks.last());
                    assert(v.blocks[v.blocks.len() - 1].ptr + v.blocks[v.blocks.len() - 1].size <= usize::MAX);
                } else {
                    assert(base[k] == v.blocks[k]);
                }
            } else {
                assert(v.blocks[i].ptr + v.blocks[i].size <= usize::MAX);
            }
        }
    }
}

/// Serving a request of `size` bytes from the free list takes exactly `size`
/// bytes out of it: the padding and the remainder of the chosen block stay
/// free.
pub proof fn lemma_search_conserves_free_bytes(v: FreeListView, size: usize, align: usize)
    requires
        v.wf(),
        is_power_of_two(align),
        selection(v.blocks, size, align, v.policy) is Some,
    ensures
        total_free(v.search_spec(size, align).0.blocks) + size == total_free(v.blocks),
{
    lemma_selection_fits(v, size, align);
    let i = selection(v.blocks, size, align, v.policy)->0;
    let b = v.blocks[i];
    lemma_total_free_swap_removed(v.blocks, i);
    lemma_total_free_concat(swap_removed(v.blocks, i), carve(b, size, align));
    let c = carve(b, size, align);
    let aligned = round_up(b.ptr as int, align as int);
    let padding = aligned - b.ptr;
    let remaining = b.size - padding - size;
    let p1: Seq<FreeBlock> = if padding != 0 {
        seq![FreeBlock { ptr: b.ptr, size: padding as usize }]
    } else {
        Seq::empty()
    };
    let p2: Seq<FreeBlock> = if remaining != 0 {
        seq![FreeBlock { ptr: (aligned + size) as usize, size: remaining as usize }]
    } else {
        Seq::empty()
    };
    assert(c == p1 + p2);
    lemma_total_free_concat(p1, p2);
    assert(total_free(Seq::<FreeBlock>::empty()) == 0);
    if p1.len() > 0 {
        assert(p1.drop_last() =~= Seq::<FreeBlock>::empty());
    }
    if p2.len() > 0 {
        assert(p2.drop_last() =~= Seq::<FreeBlock>::empty());
    }
    assert(total_free(c) == b.size - size);
}

/// A block freed into an empty free list is what the next request for the
/// same layout gets back, and the free list is empty again afterwards.
pub proof fn lemma_freed_block_is_reused(v: FreeListView, addr: usize, size: usize, align: usize)
    requires
        v.wf(),
        v.blocks.len() == 0,
        is_power_of_two(align),
        addr != 0,
        size != 0,
        addr % align == 0,
        addr + size <= usize::MAX,
    ensures
        v.dealloc_spec(addr, size).alloc_spec(size, align) == (v, addr),
{
    let d = v.dealloc_spec(addr, size);
    let b = FreeBlock { ptr: addr, size };
    assert(d.blocks =~= seq![b]);
    lemma_round_up_aligned(addr, align);
    assert(block_fits(b, size, align));
    assert(is_chosen(d.blocks, size, align, d.policy, 0));
    assert(!scan_overflows(d.blocks, size, align, d.policy));
    let c = choose|i: int| is_chosen(d.blocks, size, align, d.policy, i);
    lemma_chosen_unique(d.blocks, size, align, d.policy, c, 0);
    assert(carve(b, size, align) =~= Seq::<FreeBlock>::empty());
    assert(swap_removed(d.blocks, 0) =~= Seq::<FreeBlock>::empty());
    assert(d.search_spec(size, align).0.blocks =~= v.blocks);
}

/// Fresh space is handed out in order: a block reserved past the cursor lies
/// within the region, and the next fresh block starts at or after its end.
pub proof fn lemma_fresh_blocks_disjoint(
    v: FreeListView,
    size1: usize,
    align1: usize,
    size2: usize,
    align2: usize,
)
    requires
        v.wf(),
        is_power_of_two(align1),
        is_power_of_two(align2),
    ensures
        ({
            let (w, r1) = v.fresh_alloc_spec(size1, align1);
            let (x, r2) = w.fresh_alloc_spec(size2, align2);
            &&& w.wf()
            &&& r1 != 0 ==> v.curr <= r1 && r1 + size1 == w.curr <= v.start + v.capacity
            &&& r1 != 0 && r2 != 0 ==> r1 + size1 <= r2
        }),
{
    lemma_round_up_facts(v.curr as int, align1 as int);
    let (w, r1) = v.fresh_alloc_spec(size1, align1);
    lemma_round_up_facts(w.curr as int, align2 as int);
}

/// Every non-null address that `alloc_spec` hands out is aligned and names
/// memory the allocator owned: either a range inside a free block, which
/// leaves the free list, or fresh space past the cursor, within the region.
pub proof fn lemma_alloc_placement(v: FreeListView, size: usize, align: usize)
    requires
        v.wf(),
        is_power_of_two(align),
    ensures
        ({
            let (w, r) = v.alloc_spec(size, align);
            &&& w.wf()
            &&& r != 0 ==> r % align == 0
            &&& r != 0 ==> (exists|i: int|
                0 <= i < v.blocks.len() && v.blocks[i].ptr <= r && r + size <= v.blocks[i].ptr
                    + v.blocks[i].size) || (w.blocks == v.blocks && v.curr <= r && r + size
                == w.curr <= v.start + v.capacity)
        }),
{
    let (w, r) = v.alloc_spec(size, align);
    if size != 0 {
        lemma_search_preserves_wf(v, size, align);
        if selection(v.blocks, size, align, v.policy) is Some {
            lemma_selection_fits(v, size, align);
            let i = selection(v.blocks, size, align, v.policy)->0;
            lemma_round_up_facts(v.blocks[i].ptr as int, align as int);
        } else {
            lemma_fresh_blocks_disjoint(v, size, align, size, align);
            lemma_round_up_facts(v.curr as int, align as int);
        }
    }
}

impl AllocatorStrategy for FreeListAllocator {
    open spec fn wf(&self) -> bool {
        self@.wf()
    }

    open spec fn accepts(&self, addr: usize, layout: Layout) -> bool {
        addr + layout.spec_size() <= usize::MAX
    }

    /// Serves the request from the free list when a block fits, else from
    /// fresh space; returns `0` for an empty request or when neither can.
    fn allocate(&mut self, layout: Layout) -> (r: usize)
        ensures
            (final(self)@, r) == old(self)@.alloc_spec(layout.spec_size(), layout.spec_align()),
            r != 0 ==> r % layout.spec_align() == 0,
    {
        let align = layout.align();
        if layout.size() == 0 {
            return 0;
        }
        proof {
            lemma_search_preserves_wf(self@, layout.spec_size(), align);
        }
        match self.search_free_list(layout) {
            Some(a) => {
                proof {
                    lemma_selection_fits(old(self)@, layout.spec_size(), align);
                }
                a
            },
            None => {
                proof {
                    lemma_round_up_facts(old(self)@.curr as int, align as int);
                }
                let r = self.allocate_fresh(layout);
                r
            },
        }
    }

    /// Returns a non-empty block at a non-null address to the free list.
    fn dealloc(&mut self, addr: usize, layout: Layout)
        ensures
            final(self)@ == old(self)@.dealloc_spec(addr, layout.spec_size()),
    {
        if addr != 0 && layout.size() != 0 {
            self.free_list.push(FreeBlock { ptr: addr, size: layout.size() });
        }
    }
}

} // verus!
