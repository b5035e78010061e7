//! Size-class allocator: every request is rounded up to a fixed class and
//! served from that class's LIFO free list, or else from fresh space.

use vstd::prelude::*;
use crate::layout::{
    align_up,
    align_up_spec,
    is_power_of_two,
    lemma_multiple_of_multiple,
    lemma_power_of_two_divides,
    lemma_round_up_facts,
    Layout,
};
use crate::strategy::AllocatorStrategy;

verus! {

/// Fixed small-object size classes (in bytes), each a power of two up to 1 KiB.
pub const SIZE_CLASSES: [usize; 11] = [1, 2, 4, 8, 16, 32, 64, 128, 256, 512, 1024];

/// Number of size classes.
pub const NUM_CLASSES: usize = 11;

/// Smallest region mapped for an allocator (two MiB).
pub const MEM_EXTEND_SIZE: usize = 2097152;

/// The byte size of class `i`.
pub open spec fn class_size(i: int) -> usize {
    SIZE_CLASSES@[i]
}

/// Class `i` holds `size` bytes aligned to `align`.
pub open spec fn class_fits(i: int, size: usize, align: usize) -> bool {
    0 <= i < NUM_CLASSES && size <= class_size(i) && align <= class_size(i)
}

/// `i` is the smallest class that holds `size` bytes aligned to `align`.
pub open spec fn is_smallest_class(i: int, size: usize, align: usize) -> bool {
    class_fits(i, size, align) && forall|j: int| 0 <= j < i ==> !class_fits(j, size, align)
}

/// The index and size of the smallest class for a request, or `None` when
/// the request exceeds the largest class.
pub open spec fn class_for_spec(size: usize, align: usize) -> Option<(usize, usize)> {
    if exists|i: int| class_fits(i, size, align) {
        let i = choose|i: int| is_smallest_class(i, size, align);
        Some((i as usize, class_size(i)))
    } else {
        None
    }
}

proof fn lemma_classes_are_powers_of_two()
    ensures
        forall|i: int| 0 <= i < NUM_CLASSES ==> #[trigger] is_power_of_two(class_size(i)),
        forall|i: int, j: int|
            0 <= i < j < NUM_CLASSES ==> #[trigger] class_size(i) < #[trigger] class_size(j),
{
    assert(SIZE_CLASSES@ == seq![1usize, 2, 4, 8, 16, 32, 64, 128, 256, 512, 1024]);
    assert(is_power_of_two(1usize)) by (bit_vector);
    assert(is_power_of_two(2usize)) by (bit_vector);
    assert(is_power_of_two(4usize)) by (bit_vector);
    assert(is_power_of_two(8usize)) by (bit_vector);
    assert(is_power_of_two(16usize)) by (bit_vector);
    assert(is_power_of_two(32usize)) by (bit_vector);
    assert(is_power_of_two(64usize)) by (bit_vector);
    assert(is_power_of_two(128usize)) by (bit_vector);
    assert(is_power_of_two(256usize)) by (bit_vector);
    assert(is_power_of_two(512usize)) by (bit_vector);
    assert(is_power_of_two(1024usize)) by (bit_vector);
}

/// Some class fits exactly when the request is at most the largest class.
proof fn lemma_class_exists(size: usize, align: usize)
    ensures
        (exists|i: int| class_fits(i, size, align)) <==> (size <= 1024 && align <= 1024),
        size <= 1024 && align <= 1024 ==> class_fits(10, size, align),
{
    assert(SIZE_CLASSES@ == seq![1usize, 2, 4, 8, 16, 32, 64, 128, 256, 512, 1024]);
    assert(class_size(10) == 1024);
    if size <= 1024 && align <= 1024 {
        assert(class_fits(10, size, align));
    }
    if exists|i: int| class_fits(i, size, align) {
        let i = choose|i: int| class_fits(i, size, align);
        lemma_classes_are_powers_of_two();
        if i < 10 {
            assert(class_size(i) < class_size(10));
        }
    }
}

/// The size of the class that serves a request, or `0` when none does.
pub open spec fn class_bytes(size: usize, align: usize) -> usize {
    match class_for_spec(size, align) {
        Some((_, cs)) => cs,
        None => 0,
    }
}

proof fn lemma_smallest_from(n: int, size: usize, align: usize)
    requires
        0 <= n <= NUM_CLASSES,
        forall|j: int| 0 <= j < n ==> !class_fits(j, size, align),
        exists|i: int| class_fits(i, size, align),
    ensures
        exists|i: int| is_smallest_class(i, size, align),
    decreases NUM_CLASSES - n,
{
    if n == NUM_CLASSES {
        let i = choose|i: int| class_fits(i, size, align);
        assert(!class_fits(i, size, align));
    } else if class_fits(n, size, align) {
        assert(is_smallest_class(n, size, align));
    } else {
        lemma_smallest_from(n + 1, size, align);
    }
}

/// What `class_for_spec` gives: a class exactly when the request fits the
/// largest one, and then the smallest class that holds it.
pub proof fn lemma_class_for_spec(size: usize, align: usize)
    ensures
        class_for_spec(size, align) is Some <==> size <= 1024 && align <= 1024,
        class_for_spec(size, align) matches Some((c, cs)) ==> {
            &&& is_smallest_class(c as int, size, align)
            &&& cs == class_size(c as int)
            &&& is_power_of_two(cs)
            &&& c < NUM_CLASSES
        },
{
    lemma_class_exists(size, align);
    lemma_classes_are_powers_of_two();
    if size <= 1024 && align <= 1024 {
        lemma_smallest_from(0, size, align);
    }
}

/// The abstract state of a [`SizedTcMallocAllocator`].
pub struct SizedView {
    pub start: usize,
    pub curr: usize,
    pub capacity: usize,
    pub lists: Seq<Seq<usize>>,
}

/// Reserving `class_size` bytes past the cursor, aligned to the larger of the
/// class size and `align`: the address and the new cursor.
pub open spec fn sized_fresh_spec(
    start: usize,
    curr: usize,
    capacity: usize,
    class_size: usize,
    align: usize,
) -> Option<(usize, usize)> {
    let alignment = if class_size >= align { class_size } else { align };
    if start + capacity > usize::MAX {
        None
    } else {
        match align_up_spec(curr, alignment) {
            None => None,
            Some(a) => if a + class_size <= start + capacity {
                Some((a, (a + class_size) as usize))
            } else {
                None
            },
        }
    }
}

impl SizedView {
    /// One free list per class; each holds non-null addresses aligned to its
    /// class size; the cursor lies within the region.
    pub open spec fn wf(self) -> bool {
        &&& self.lists.len() == NUM_CLASSES
        &&& forall|c: int, k: int|
            0 <= c < NUM_CLASSES && 0 <= k < self.lists[c].len() ==> #[trigger] self.lists[c][k]
                != 0 && self.lists[c][k] % class_size(c) == 0
        &&& self.start <= self.curr
        &&& self.start + self.capacity <= usize::MAX ==> self.curr <= self.start + self.capacity
    }

    /// Popping the most recently freed block of class `c`.
    pub open spec fn pop_spec(self, c: int) -> (SizedView, Option<usize>) {
        if self.lists[c].len() > 0 {
            (
                SizedView { lists: self.lists.update(c, self.lists[c].drop_last()), ..self },
                Some(self.lists[c].last()),
            )
        } else {
            (self, None)
        }
    }

    /// The state after a fresh reservation, and the address (`0` on failure).
    pub open spec fn fresh_alloc_spec(self, class_size: usize, align: usize) -> (SizedView, usize) {
        match sized_fresh_spec(self.start, self.curr, self.capacity, class_size, align) {
            None => (self, 0),
            Some((a, next)) => (SizedView { curr: next, ..self }, a),
        }
    }

    /// The state after `allocate`, and the address it returns (`0` on failure).
    pub open spec fn alloc_spec(self, size: usize, align: usize) -> (SizedView, usize) {
        if size == 0 {
            (self, 0)
        } else {
            match class_for_spec(size, align) {
                None => (self, 0),
                Some((c, cs)) => {
                    let (s, r) = self.pop_spec(c as int);
                    match r {
                        Some(p) => (s, p),
                        None => self.fresh_alloc_spec(cs, align),
                    }
                },
            }
        }
    }

    /// The state after `dealloc`.
    pub open spec fn dealloc_spec(self, addr: usize, size: usize, align: usize) -> SizedView {
        if addr != 0 && size != 0 {
            match class_for_spec(size, align) {
                Some((c, _)) => SizedView {
                    lists: self.lists.update(c as int, self.lists[c as int].push(addr)),
                    ..self
                },
                None => self,
            }
        } else {
            self
        }
    }
}

/// Allocator that routes requests into per-class free lists.
pub struct SizedTcMallocAllocator {
    start: usize,
    curr: usize,
    capacity: usize,
    free_lists: Vec<Vec<usize>>,
}

impl View for SizedTcMallocAllocator {
    type V = SizedView;

    closed spec fn view(&self) -> SizedView {
        SizedView {
            start: self.start,
            curr: self.curr,
            capacity: self.capacity,
            lists: self.free_lists@.map_values(|l: Vec<usize>| l@),
        }
    }
}

/// The number of bytes to map for an allocator of `capacity` usable bytes: at
/// least two MiB.
pub fn mapped_size(capacity: usize) -> (r: usize)
    ensures
        r == if capacity >= MEM_EXTEND_SIZE { capacity } else { MEM_EXTEND_SIZE },
{
    if capacity >= MEM_EXTEND_SIZE {
        capacity
    } else {
        MEM_EXTEND_SIZE
    }
}

impl SizedTcMallocAllocator {
    /// Creates a sized-class allocator with `capacity` usable bytes over the
    /// region that `mapping` starts at; `None` when the mapping failed.
    pub fn new(capacity: usize, mapping: Option<usize>) -> (r: Option<Self>)
        ensures
            r is Some <==> mapping is Some,
            r matches Some(a) ==> a@ == (SizedView {
                start: mapping->0,
                curr: mapping->0,
                capacity,
                lists: Seq::new(NUM_CLASSES as nat, |i: int| Seq::<usize>::empty()),
            }),
            r matches Some(a) ==> a@.wf(),
    {
        match mapping {
            None => None,
            Some(start) => {
                let mut free_lists: Vec<Vec<usize>> = Vec::new();
                let mut i: usize = 0;
                while i < NUM_CLASSES
                    invariant
                        i <= NUM_CLASSES,
                        free_lists@.len() == i,
                        forall|k: int| 0 <= k < i ==> (#[trigger] free_lists@[k])@ == Seq::<usize>::empty(),
                    decreases NUM_CLASSES - i,
                {
                    free_lists.push(Vec::new());
                    i = i + 1;
                }
                let a = SizedTcMallocAllocator { start, curr: start, capacity, free_lists };
                assert(a@.lists =~= Seq::new(NUM_CLASSES as nat, |i: int| Seq::<usize>::empty()));
                Some(a)
            },
        }
    }

    /// The free list of class `c`, most recently freed block last.
    pub fn free_list(&self, c: usize) -> (r: Vec<usize>)
        requires
            self@.wf(),
            c < NUM_CLASSES,
        ensures
            r@ == self@.lists[c as int],
    {
        self.free_lists[c].clone()
    }

    /// The next unreserved address of the region.
    pub fn cursor(&self) -> (r: usize)
        ensures
            r == self@.curr,
    {
        self.curr
    }

    /// Maps a layout to the smallest size class that fits its size and
    /// alignment: `(class_index, class_size)`, or `None` above 1024 bytes.
    pub fn class_for_layout(layout: Layout) -> (r: Option<(usize, usize)>)
        ensures
            r == class_for_spec(layout.spec_size(), layout.spec_align()),
            r is Some <==> layout.spec_size() <= 1024 && layout.spec_align() <= 1024,
            r matches Some((c, cs)) ==> is_smallest_class(c as int, layout.spec_size(), layout.spec_align())
                && cs == class_size(c as int),
    {
        let size = layout.size();
        let align = layout.align();
        proof {
            lemma_class_exists(size, align);
        }
        let mut i: usize = 0;
        while i < NUM_CLASSES
            invariant
                i <= NUM_CLASSES,
                size == layout.spec_size(),
                align == layout.spec_align(),
                forall|j: int| 0 <= j < i ==> !class_fits(j, size, align),
            decreases NUM_CLASSES - i,
        {
            let cs = SIZE_CLASSES[i];
            if cs >= size && cs >= align {
                proof {
                    lemma_class_exists(size, align);
                    assert(class_size(i as int) == cs);
                    assert(class_fits(i as int, size, align));
                    assert(is_smallest_class(i as int, size, align));
                    let c = choose|k: int| is_smallest_class(k, size, align);
                    if c < i {
                    } else if c > i {
                        assert(!class_fits(i as int, size, align));
                    }
                }
                return Some((i, cs));
            }
            i = i + 1;
        }
        None
    }

    /// Pops a reused block from the free list for `class_index`, if any.
    fn pop_free(&mut self, class_index: usize) -> (r: Option<usize>)
        requires
            old(self)@.wf(),
            class_index < NUM_CLASSES,
        ensures
            (final(self)@, r) == old(self)@.pop_spec(class_index as int),
    {
        let r = self.free_lists[class_index].pop();
        proof {
            assert(self@.lists =~= old(self)@.pop_spec(class_index as int).0.lists);
        }
        r
    }

    /// Reserves a fresh object of `class_size` bytes from the region.
    fn allocate_fresh(&mut self, class_size: usize, align: usize) -> (r: usize)
        requires
            old(self)@.wf(),
            is_power_of_two(class_size),
            is_power_of_two(align),
        ensures
            (final(self)@, r) == old(self)@.fresh_alloc_spec(class_size, align),
    {
        let alignment = if class_size >= align {
            class_size
        } else {
            align
        };
        let region_end = match self.start.checked_add(self.capacity) {
            Some(end) => end,
            None => return 0,
        };
        let current = self.curr;
        let aligned = match align_up(current, alignment) {
            Some(value) => value,
            None => return 0,
        };
        let next = match aligned.checked_add(class_size) {
            Some(value) => {
                if value <= region_end {
                    value
                } else {
                    return 0;
                }
            },
            None => return 0,
        };
        self.curr = next;
        aligned
    }

    /// Pushes `ptr` onto the free list for the class derived from `layout`.
    fn push_free(&mut self, ptr: usize, layout: Layout)
        requires
            old(self)@.wf(),
        ensures
            final(self)@ == (match class_for_spec(layout.spec_size(), layout.spec_align()) {
                Some((c, _)) => SizedView {
                    lists: old(self)@.lists.update(c as int, old(self)@.lists[c as int].push(ptr)),
                    ..old(self)@
                },
                None => old(self)@,
            }),
    {
        if let Some((class_index, _)) = Self::class_for_layout(layout) {
            self.free_lists[class_index].push(ptr);
            proof {
                assert(self@.lists =~= old(self)@.lists.update(
                    class_index as int,
                    old(self)@.lists[class_index as int].push(ptr),
                ));
            }
        }
    }
}

/// Every address that `alloc_spec` hands out is aligned as the request asks.
proof fn lemma_alloc_aligned(v: SizedView, size: usize, align: usize)
    requires
        v.wf(),
        is_power_of_two(align),
    ensures
        v.alloc_spec(size, align).1 != 0 ==> v.alloc_spec(size, align).1 % align == 0,
        v.alloc_spec(size, align).1 != 0 ==> class_for_spec(size, align) is Some
            && v.alloc_spec(size, align).1 % class_bytes(size, align) == 0,
        v.alloc_spec(size, align).0.wf(),
{
    if size != 0 {
        if let Some((ci, cs)) = class_for_spec(size, align) {
            lemma_class_for_spec(size, align);
            let c = ci as int;
            lemma_power_of_two_divides(align, class_size(c));
            let (s, r) = v.pop_spec(c);
            match r {
                Some(p) => {
                    assert(v.lists[c][v.lists[c].len() - 1] % class_size(c) == 0);
                    lemma_multiple_of_multiple(p as int, class_size(c) as int, align as int);
                    assert forall|d: int, k: int|
                        0 <= d < NUM_CLASSES && 0 <= k < s.lists[d].len() implies #[trigger] s.lists[d][k]
                            != 0 && s.lists[d][k] % class_size(d) == 0 by {
                        assert(s.lists[d][k] == v.lists[d][k]);
                    }
                },
                None => {
                    let alignment = if cs >= align { cs } else { align };
                    lemma_round_up_facts(v.curr as int, alignment as int);
                    if cs >= align {
                        lemma_multiple_of_multiple(
                            round_up_at(v.curr, alignment),
                            alignment as int,
                            align as int,
                        );
                    } else {
                        lemma_power_of_two_divides(cs, align);
                        lemma_multiple_of_multiple(
                            round_up_at(v.curr, alignment),
                            alignment as int,
                            cs as int,
                        );
                    }
                },
            }
        }
    }
}

/// `align_up`'s rounding at `addr`, as an integer.
pub open spec fn round_up_at(addr: usize, alignment: usize) -> int {
    crate::layout::round_up(addr as int, alignment as int)
}

/// A block handed back to the allocator is what the next request for the
/// same layout gets, and that request restores the allocator's state.
pub proof fn lemma_freed_block_is_reused(v: SizedView, addr: usize, size: usize, align: usize)
    requires
        v.wf(),
        addr != 0,
        size != 0,
        class_for_spec(size, align) is Some,
    ensures
        v.dealloc_spec(addr, size, align).alloc_spec(size, align) == (v, addr),
{
    let (ci, _cs) = class_for_spec(size, align)->0;
    let c = ci as int;
    let d = v.dealloc_spec(addr, size, align);
    lemma_class_for_spec(size, align);
    assert(d.lists[c] == v.lists[c].push(addr));
    assert(d.lists[c].drop_last() =~= v.lists[c]);
    assert(d.lists.update(c, d.lists[c].drop_last()) =~= v.lists);
}

/// Fresh space is handed out in order: a block reserved past the cursor
/// lies within the region, and the next fresh block starts at or after its
/// end.
pub proof fn lemma_fresh_blocks_disjoint(
    v: SizedView,
    class1: usize,
    align1: usize,
    class2: usize,
    align2: usize,
)
    requires
        v.wf(),
        is_power_of_two(class1),
        is_power_of_two(align1),
        is_power_of_two(class2),
        is_power_of_two(align2),
    ensures
        ({
            let (w, r1) = v.fresh_alloc_spec(class1, align1);
            let (x, r2) = w.fresh_alloc_spec(class2, align2);
            &&& r1 != 0 ==> v.curr <= r1 && r1 + class1 == w.curr <= v.start + v.capacity
            &&& r1 != 0 && r2 != 0 ==> r1 + class1 <= r2
        }),
{
    let m1 = if class1 >= align1 { class1 } else { align1 };
    lemma_round_up_facts(v.curr as int, m1 as int);
    let (w, r1) = v.fresh_alloc_spec(class1, align1);
    let m2 = if class2 >= align2 { class2 } else { align2 };
    lemma_round_up_facts(w.curr as int, m2 as int);
}

/// Every non-null address that `alloc_spec` hands out is aligned as the
/// request asks and is either the most recently freed block of the request's
/// class, or fresh space past the cursor that covers the whole class size.
pub proof fn lemma_alloc_placement(v: SizedView, size: usize, align: usize)
    requires
        v.wf(),
        is_power_of_two(align),
    ensures
        ({
            let (w, r) = v.alloc_spec(size, align);
            &&& w.wf()
            &&& r != 0 ==> r % align == 0
            &&& r != 0 ==> class_for_spec(size, align) is Some
            &&& r != 0 ==> r % class_bytes(size, align) == 0
            &&& r != 0 ==> ({
                let (c, cs) = class_for_spec(size, align)->0;
                ||| (v.lists[c as int].len() > 0 && r == v.lists[c as int].last())
                ||| (v.curr <= r && r + cs == w.curr <= v.start + v.capacity)
            })
        }),
{
    lemma_alloc_aligned(v, size, align);
    if size != 0 {
        lemma_class_for_spec(size, align);
        if let Some((c, cs)) = class_for_spec(size, align) {
            if v.lists[c as int].len() == 0 {
                lemma_fresh_blocks_disjoint(v, cs, align, cs, align);
            }
        }
    }
}

impl AllocatorStrategy for SizedTcMallocAllocator {
    open spec fn wf(&self) -> bool {
        self@.wf()
    }

    open spec fn accepts(&self, addr: usize, layout: Layout) -> bool {
        class_for_spec(layout.spec_size(), layout.spec_align()) matches Some((c, cs)) ==> addr % cs
            == 0
    }

    /// Serves the request from its class's free list, else from fresh space;
    /// returns `0` for an empty request, one above the largest class, or when
    /// the region is exhausted.
    fn allocate(&mut self, layout: Layout) -> (r: usize)
        ensures
            (final(self)@, r) == old(self)@.alloc_spec(layout.spec_size(), layout.spec_align()),
            r != 0 ==> r % layout.spec_align() == 0,
            r != 0 ==> final(self).accepts(r, layout),
    {
        let align = layout.align();
        proof {
            lemma_alloc_aligned(self@, layout.spec_size(), align);
        }
        if layout.size() == 0 {
            return 0;
        }
        let (class_index, class_size) = match Self::class_for_layout(layout) {
            Some(c) => c,
            None => return 0,
        };
        match self.pop_free(class_index) {
            Some(p) => p,
            None => {
                proof {
                    lemma_classes_are_powers_of_two();
                }
                self.allocate_fresh(class_size, align)
            },
        }
    }

    /// Pushes a non-empty block at a non-null address onto its class's free
    /// list; a block above the largest class is dropped.
    fn dealloc(&mut self, addr: usize, layout: Layout)
        ensures
            final(self)@ == old(self)@.dealloc_spec(addr, layout.spec_size(), layout.spec_align()),
    {
        if addr != 0 && layout.size() != 0 {
            self.push_free(addr, layout);
            proof {
                lemma_class_for_spec(layout.spec_size(), layout.spec_align());
                if let Some((c, cs)) = class_for_spec(layout.spec_size(), layout.spec_align()) {
                    let v = old(self)@;
                    let w = self@;
                    assert forall|d: int, k: int|
                        0 <= d < NUM_CLASSES && 0 <= k < w.lists[d].len() implies #[trigger] w.lists[d][k]
                            != 0 && w.lists[d][k] % class_size(d) == 0 by {
                        if d == c as int {
                            assert(w.lists[d] == v.lists[d].push(addr));
                            if k < v.lists[d].len() {
                                assert(w.lists[d][k] == v.lists[d][k]);
                            }
                        } else {
                            assert(w.lists[d] == v.lists[d]);
                        }
                    }
                }
            }
        }
    }
}

} // verus!
