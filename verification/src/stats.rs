//! Size-class statistics kept by the global allocator wrapper.

use vstd::prelude::*;

verus! {

/// Size classes for small allocations, approximately logarithmically spaced.
pub const SIZE_CLASSES: [usize; 16] = [
    8,
    16,
    24,
    32,
    48,
    64,
    96,
    128,
    192,
    256,
    384,
    512,
    768,
    1024,
    1536,
    2048,
];

/// Number of small size classes.
pub const NUM_CLASSES: usize = 16;

/// Class `i` holds `size` bytes and no smaller class does.
pub open spec fn is_class_of(i: int, size: usize) -> bool {
    &&& 0 <= i < NUM_CLASSES
    &&& size <= SIZE_CLASSES@[i]
    &&& forall|j: int| 0 <= j < i ==> SIZE_CLASSES@[j] < size
}

/// The index of the smallest class that holds `size` bytes (class 0 for an
/// empty request), or `None` above the largest class.
pub open spec fn class_index_spec(size: usize) -> Option<usize> {
    if size == 0 {
        Some(0)
    } else if exists|i: int| is_class_of(i, size) {
        Some((choose|i: int| is_class_of(i, size)) as usize)
    } else {
        None
    }
}

proof fn lemma_classes_sorted()
    ensures
        forall|i: int, j: int| 0 <= i < j < NUM_CLASSES ==> SIZE_CLASSES@[i] < SIZE_CLASSES@[j],
        SIZE_CLASSES@[NUM_CLASSES - 1] == 2048,
{
    assert(SIZE_CLASSES@ == seq![
        8usize,
        16,
        24,
        32,
        48,
        64,
        96,
        128,
        192,
        256,
        384,
        512,
        768,
        1024,
        1536,
        2048,
    ]);
}

/// Returns the class index for `size`, or `None` when the size is larger
/// than the largest class.
pub fn class_index(size: usize) -> (r: Option<usize>)
    ensures
        r == class_index_spec(size),
        r is None <==> size > 2048,
        size != 0 ==> (r matches Some(i) ==> is_class_of(i as int, size)),
{
    proof {
        lemma_classes_sorted();
    }
    if size == 0 {
        return Some(0);
    }
    let mut i: usize = 0;
    while i < NUM_CLASSES
        invariant
            i <= NUM_CLASSES,
            size != 0,
            forall|j: int| 0 <= j < i ==> SIZE_CLASSES@[j] < size,
            forall|a: int, b: int| 0 <= a < b < NUM_CLASSES ==> SIZE_CLASSES@[a] < SIZE_CLASSES@[b],
            SIZE_CLASSES@[NUM_CLASSES - 1] == 2048,
        decreases NUM_CLASSES - i,
    {
        if size <= SIZE_CLASSES[i] {
            proof {
                assert(is_class_of(i as int, size));
                let c = choose|k: int| is_class_of(k, size);
                if c < i {
                    assert(SIZE_CLASSES@[c] < size);
                } else if c > i {
                    assert(SIZE_CLASSES@[i as int] < size);
                }
            }
            return Some(i);
        }
        i = i + 1;
    }
    proof {
        assert forall|k: int| !is_class_of(k, size) by {
            if 0 <= k < NUM_CLASSES {
                assert(SIZE_CLASSES@[k] < size);
            }
        }
        assert(SIZE_CLASSES@[15] < size);
    }
    None
}

/// A copy of the allocation statistics.
#[derive(Debug, Clone, Copy, PartialEq, Eq)]
pub struct StatsSnapshot {
    pub allocs: [u64; 16],
    pub deallocs: [u64; 16],
    pub large_allocs: u64,
    pub large_deallocs: u64,
    pub bytes_allocated: u64,
    pub bytes_deallocated: u64,
}

/// `x + y` wrapped to 64 bits, as `u64::wrapping_add` computes it.
pub open spec fn wrap_add64(x: u64, y: u64) -> u64 {
    if x + y > u64::MAX {
        (x + y - (u64::MAX + 1)) as u64
    } else {
        (x + y) as u64
    }
}

/// The statistics as mathematical values.
pub struct StatsView {
    pub allocs: Seq<u64>,
    pub deallocs: Seq<u64>,
    pub large_allocs: u64,
    pub large_deallocs: u64,
    pub bytes_allocated: u64,
    pub bytes_deallocated: u64,
}

impl View for StatsSnapshot {
    type V = StatsView;

    open spec fn view(&self) -> StatsView {
        StatsView {
            allocs: self.allocs@,
            deallocs: self.deallocs@,
            large_allocs: self.large_allocs,
            large_deallocs: self.large_deallocs,
            bytes_allocated: self.bytes_allocated,
            bytes_deallocated: self.bytes_deallocated,
        }
    }
}

impl StatsView {
    /// All counters at zero.
    pub open spec fn zero() -> StatsView {
        StatsView {
            allocs: Seq::new(NUM_CLASSES as nat, |i: int| 0u64),
            deallocs: Seq::new(NUM_CLASSES as nat, |i: int| 0u64),
            large_allocs: 0,
            large_deallocs: 0,
            bytes_allocated: 0,
            bytes_deallocated: 0,
        }
    }

    /// The statistics after one allocation of `size` bytes: the byte total
    /// grows by `size` and the request's class count (or the large count) by
    /// one, each wrapping at 64 bits.
    pub open spec fn record_alloc_spec(self, size: usize) -> StatsView {
        let bytes = wrap_add64(self.bytes_allocated, size as u64);
        match class_index_spec(size) {
            Some(i) => StatsView {
                allocs: self.allocs.update(i as int, wrap_add64(self.allocs[i as int], 1)),
                bytes_allocated: bytes,
                ..self
            },
            None => StatsView {
                large_allocs: wrap_add64(self.large_allocs, 1),
                bytes_allocated: bytes,
                ..self
            },
        }
    }

    /// The statistics after one deallocation of `size` bytes.
    pub open spec fn record_dealloc_spec(self, size: usize) -> StatsView {
        let bytes = wrap_add64(self.bytes_deallocated, size as u64);
        match class_index_spec(size) {
            Some(i) => StatsView {
                deallocs: self.deallocs.update(i as int, wrap_add64(self.deallocs[i as int], 1)),
                bytes_deallocated: bytes,
                ..self
            },
            None => StatsView {
                large_deallocs: wrap_add64(self.large_deallocs, 1),
                bytes_deallocated: bytes,
                ..self
            },
        }
    }
}

/// Allocation counters, one per size class plus a bucket for large requests.
pub struct Counters {
    stats: StatsSnapshot,
}

impl View for Counters {
    type V = StatsView;

    closed spec fn view(&self) -> StatsView {
        self.stats@
    }
}

impl Counters {
    /// All counters at zero.
    pub fn new() -> (r: Counters)
        ensures
            r@ == StatsView::zero(),
    {
        let r = Counters {
            stats: StatsSnapshot {
                allocs: [0u64; 16],
                deallocs: [0u64; 16],
                large_allocs: 0,
                large_deallocs: 0,
                bytes_allocated: 0,
                bytes_deallocated: 0,
            },
        };
        assert(r@.allocs =~= StatsView::zero().allocs);
        assert(r@.deallocs =~= StatsView::zero().deallocs);
        r
    }

    /// A copy of the counters.
    pub fn snapshot(&self) -> (r: StatsSnapshot)
        ensures
            r@ == self@,
    {
        self.stats
    }

    /// Counts an allocation of `size` bytes.
    pub fn record_alloc(&mut self, size: usize)
        ensures
            final(self)@ == old(self)@.record_alloc_spec(size),
    {
        self.stats.bytes_allocated = self.stats.bytes_allocated.wrapping_add(size as u64);
        match class_index(size) {
            Some(index) => {
                let v = self.stats.allocs[index].wrapping_add(1);
                self.stats.allocs[index] = v;
            },
            None => {
                self.stats.large_allocs = self.stats.large_allocs.wrapping_add(1);
            },
        }
        assert(self@.allocs =~= old(self)@.record_alloc_spec(size).allocs);
    }

    /// Counts a deallocation of `size` bytes.
    pub fn record_dealloc(&mut self, size: usize)
        ensures
            final(self)@ == old(self)@.record_dealloc_spec(size),
    {
        self.stats.bytes_deallocated = self.stats.bytes_deallocated.wrapping_add(size as u64);
        match class_index(size) {
            Some(index) => {
                let v = self.stats.deallocs[index].wrapping_add(1);
                self.stats.deallocs[index] = v;
            },
            None => {
                self.stats.large_deallocs = self.stats.large_deallocs.wrapping_add(1);
            },
        }
        assert(self@.deallocs =~= old(self)@.record_dealloc_spec(size).deallocs);
    }
}

/// The allocator wrapper's bookkeeping: statistics per size class. The
/// requests themselves are served by the system allocator.
pub struct Halloc {
    counters: Counters,
}

impl View for Halloc {
    type V = StatsView;

    closed spec fn view(&self) -> StatsView {
        self.counters@
    }
}

impl Halloc {
    /// A wrapper with all counters at zero.
    pub fn new() -> (r: Halloc)
        ensures
            r@ == StatsView::zero(),
    {
        Halloc { counters: Counters::new() }
    }

    /// A snapshot of the statistics.
    pub fn stats(&self) -> (r: StatsSnapshot)
        ensures
            r@ == self@,
    {
        self.counters.snapshot()
    }

    /// Records an allocation of `size` bytes, as `alloc` does before it
    /// forwards the request.
    pub fn record_alloc(&mut self, size: usize)
        ensures
            final(self)@ == old(self)@.record_alloc_spec(size),
    {
        self.counters.record_alloc(size);
    }

    /// Records a deallocation of `size` bytes, as `dealloc` does before it
    /// forwards the request.
    pub fn record_dealloc(&mut self, size: usize)
        ensures
            final(self)@ == old(self)@.record_dealloc_spec(size),
    {
        self.counters.record_dealloc(size);
    }
}

/// `size` falls into class `i`: it fits there and not in the class below.
pub open spec fn falls_into(size: usize, i: int) -> bool {
    size <= SIZE_CLASSES@[i] && (i == 0 || SIZE_CLASSES@[i - 1] < size)
}

proof fn lemma_class_from(n: int, size: usize)
    requires
        0 <= n < NUM_CLASSES,
        0 < size <= 2048,
        forall|j: int| 0 <= j < n ==> SIZE_CLASSES@[j] < size,
    ensures
        exists|i: int| is_class_of(i, size),
    decreases NUM_CLASSES - n,
{
    lemma_classes_sorted();
    if size <= SIZE_CLASSES@[n] {
        assert(is_class_of(n, size));
    } else {
        lemma_class_from(n + 1, size);
    }
}

/// A request up to 2048 bytes falls into exactly one class, the one that
/// `class_index` names; a larger one into none.
pub proof fn lemma_class_index_unique(size: usize)
    ensures
        class_index_spec(size) is None <==> size > 2048,
        size > 2048 ==> forall|i: int| 0 <= i < NUM_CLASSES ==> !falls_into(size, i),
        class_index_spec(size) matches Some(k) ==> 0 <= k < NUM_CLASSES && forall|i: int|
            0 <= i < NUM_CLASSES ==> (falls_into(size, i) <==> i == k),
{
    lemma_classes_sorted();
    if size == 0 {
        assert(falls_into(0, 0));
    } else if size <= 2048 {
        lemma_class_from(0, size);
        let k = choose|i: int| is_class_of(i, size);
        assert forall|i: int| 0 <= i < NUM_CLASSES implies (falls_into(size, i) <==> i == k) by {
            if falls_into(size, i) && i != k {
                if i < k {
                    assert(SIZE_CLASSES@[i] < size);
                } else {
                    assert(SIZE_CLASSES@[k] <= SIZE_CLASSES@[i - 1]);
                }
            }
        }
    } else {
        assert forall|i: int| 0 <= i < NUM_CLASSES implies !falls_into(size, i) by {
            assert(SIZE_CLASSES@[i] <= 2048);
        }
        if exists|i: int| is_class_of(i, size) {
            let k = choose|i: int| is_class_of(i, size);
            assert(SIZE_CLASSES@[k] <= 2048);
        }
    }
}

/// One deallocation of `size` bytes adds `size` to the freed-byte total and
/// one to exactly one deallocation counter: that of the class `size` falls
/// into, or the large-request counter above 2048 bytes. Nothing that counts
/// allocations changes.
pub proof fn lemma_record_dealloc_counts(v: StatsView, size: usize)
    requires
        v.allocs.len() == NUM_CLASSES,
        v.deallocs.len() == NUM_CLASSES,
    ensures
        ({
            let w = v.record_dealloc_spec(size);
            &&& w.allocs == v.allocs
            &&& w.large_allocs == v.large_allocs
            &&& w.bytes_allocated == v.bytes_allocated
            &&& w.bytes_deallocated == (v.bytes_deallocated + size) % 0x1_0000_0000_0000_0000
            &&& w.deallocs.len() == NUM_CLASSES
            &&& w.large_deallocs == if size > 2048 {
                (v.large_deallocs + 1) % 0x1_0000_0000_0000_0000
            } else {
                v.large_deallocs as int
            }
            &&& forall|i: int|
                0 <= i < NUM_CLASSES ==> w.deallocs[i] == if falls_into(size, i) {
                    (v.deallocs[i] + 1) % 0x1_0000_0000_0000_0000
                } else {
                    v.deallocs[i] as int
                }
        }),
{
    lemma_class_index_unique(size);
}

/// One allocation of `size` bytes adds `size` to the allocated-byte total
/// and one to exactly one allocation counter: that of the class `size` falls
/// into, or the large-request counter above 2048 bytes. Nothing that counts
/// deallocations changes.
pub proof fn lemma_record_alloc_counts(v: StatsView, size: usize)
    requires
        v.allocs.len() == NUM_CLASSES,
        v.deallocs.len() == NUM_CLASSES,
    ensures
        ({
            let w = v.record_alloc_spec(size);
            &&& w.deallocs == v.deallocs
            &&& w.large_deallocs == v.large_deallocs
            &&& w.bytes_deallocated == v.bytes_deallocated
            &&& w.bytes_allocated == (v.bytes_allocated + size) % 0x1_0000_0000_0000_0000
            &&& w.allocs.len() == NUM_CLASSES
            &&& w.large_allocs == if size > 2048 {
                (v.large_allocs + 1) % 0x1_0000_0000_0000_0000
            } else {
                v.large_allocs as int
            }
            &&& forall|i: int|
                0 <= i < NUM_CLASSES ==> w.allocs[i] == if falls_into(size, i) {
                    (v.allocs[i] + 1) % 0x1_0000_0000_0000_0000
                } else {
                    v.allocs[i] as int
                }
        }),
{
    lemma_class_index_unique(size);
}

} // verus!
