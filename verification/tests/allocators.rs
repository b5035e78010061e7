use halloc::bump::BumpAllocator;
use halloc::free_list::{FreeBlock, FreeListAllocator, FreeListPolicy, MEM_EXTEND_SIZE};
use halloc::layout::Layout;
use halloc::sized_tcmalloc::{self, SizedTcMallocAllocator};
use halloc::strategy::AllocatorStrategy;

/// Start address of the region the tests hand to the allocators.
const BASE: usize = 0x1000_0000;

fn free_list_allocation_succeeds(size: usize) {
    let mut allocator =
        FreeListAllocator::new(size, Some(BASE)).expect("allocator should initialize");
    let layout = Layout::from_size_align(size, 8).unwrap();
    let ptr = allocator.allocate(layout);
    assert!(ptr != 0);
    assert_eq!(ptr % layout.align(), 0);
    allocator.dealloc(ptr, layout);
}

fn sized_allocation_succeeds(size: usize) {
    let mut allocator =
        SizedTcMallocAllocator::new(size * 4, Some(BASE)).expect("allocator should initialize");
    let layout = Layout::from_size_align(size, size.min(8).max(1)).unwrap();
    let ptr = allocator.allocate(layout);
    assert!(ptr != 0, "allocation of {size} bytes should succeed");
    assert_eq!(ptr % layout.align(), 0);
    allocator.dealloc(ptr, layout);
}

/// Allocates with every strategy and checks the address.
fn every_strategy_allocates(size: usize, align: usize) {
    let layout = Layout::from_size_align(size, align).unwrap();
    let mut free_list = FreeListAllocator::new(size + align, Some(BASE + 1)).unwrap();
    let p = free_list.allocate(layout);
    assert!(p != 0);
    assert_eq!(p % align, 0);
    assert!(p >= BASE + 1 && p + size <= BASE + 1 + size + align);
    let mut bump = BumpAllocator::new(size, Some(BASE)).unwrap();
    assert_eq!(bump.allocate(layout), BASE);
    if size <= 1024 && align <= 1024 {
        let mut sized = SizedTcMallocAllocator::new(4096, Some(BASE)).unwrap();
        let q = sized.allocate(layout);
        assert!(q != 0);
        assert_eq!(q % align, 0);
    }
}

#[test]
fn alloc1byte() {
    every_strategy_allocates(1, 1);
}

#[test]
fn alloc8bytes() {
    every_strategy_allocates(8, 8);
}

#[test]
fn alloc16bytes() {
    every_strategy_allocates(16, 8);
}

#[test]
fn alloc1mb() {
    every_strategy_allocates(1 << 20, 16);
}

#[test]
fn alignmentchecks() {
    for shift in 0..12 {
        let align = 1usize << shift;
        let layout = Layout::from_size_align(3, align).unwrap();
        let mut free_list = FreeListAllocator::new(1 << 16, Some(BASE + 3)).unwrap();
        let mut sized = SizedTcMallocAllocator::new(1 << 16, Some(BASE + 3)).unwrap();
        for _ in 0..4 {
            let p = free_list.allocate(layout);
            assert!(p != 0);
            assert_eq!(p % align, 0);
            let q = sized.allocate(layout);
            if align <= 1024 {
                assert!(q != 0);
                assert_eq!(q % align, 0);
            } else {
                assert_eq!(q, 0);
            }
        }
    }
}

#[test]
fn doublefree() {
    // Freeing the same block twice puts it on the free list twice; both
    // copies are handed out again.
    let layout = Layout::from_size_align(16, 8).unwrap();
    let mut sized = SizedTcMallocAllocator::new(4096, Some(BASE)).unwrap();
    let p = sized.allocate(layout);
    sized.dealloc(p, layout);
    sized.dealloc(p, layout);
    assert_eq!(sized.allocate(layout), p);
    assert_eq!(sized.allocate(layout), p);
    assert_ne!(sized.allocate(layout), p);

    let mut free_list = FreeListAllocator::new(4096, Some(BASE)).unwrap();
    let q = free_list.allocate(layout);
    free_list.dealloc(q, layout);
    free_list.dealloc(q, layout);
    assert_eq!(free_list.free_blocks().len(), 2);
    assert_eq!(free_list.allocate(layout), q);
    assert_eq!(free_list.allocate(layout), q);
    assert!(free_list.free_blocks().is_empty());
}

#[test]
fn stresstest() {
    let layout = Layout::from_size_align(24, 8).unwrap();
    let mut free_list = FreeListAllocator::new(24 * 1000, Some(BASE)).unwrap();
    let mut ptrs = Vec::new();
    for _ in 0..1000 {
        let p = free_list.allocate(layout);
        assert!(p != 0);
        ptrs.push(p);
    }
    // The region is exhausted.
    assert_eq!(free_list.allocate(layout), 0);
    for w in ptrs.windows(2) {
        assert_eq!(w[0] + 24, w[1]);
    }
    for &p in &ptrs {
        free_list.dealloc(p, layout);
    }
    for _ in 0..1000 {
        assert!(free_list.allocate(layout) != 0);
    }
    assert!(free_list.free_blocks().is_empty());
}

#[test]
fn randomalloc_free() {
    // A deterministic pseudo-random sequence of requests and frees.
    let mut seed: u64 = 0x2545_f491_4f6c_dd1d;
    let mut next = || {
        seed ^= seed << 13;
        seed ^= seed >> 7;
        seed ^= seed << 17;
        seed
    };
    let mut sized = SizedTcMallocAllocator::new(1 << 20, Some(BASE)).unwrap();
    let mut live: Vec<(usize, Layout)> = Vec::new();
    for _ in 0..2000 {
        if next() % 3 == 0 && !live.is_empty() {
            let idx = (next() as usize) % live.len();
            let (p, l) = live.swap_remove(idx);
            sized.dealloc(p, l);
        } else {
            let size = 1 + (next() as usize) % 1024;
            let align = 1usize << ((next() as usize) % 4);
            let l = Layout::from_size_align(size, align).unwrap();
            let p = sized.allocate(l);
            assert!(p != 0);
            assert_eq!(p % align, 0);
            // No live block overlaps the new one.
            for &(q, ql) in &live {
                let qc = SizedTcMallocAllocator::class_for_layout(ql).unwrap().1;
                let pc = SizedTcMallocAllocator::class_for_layout(l).unwrap().1;
                assert!(p + pc <= q || q + qc <= p);
            }
            live.push((p, l));
        }
    }
}

#[test]
fn free_list_alloc_1_byte() {
    free_list_allocation_succeeds(1);
}

#[test]
fn free_list_alloc_8_bytes() {
    free_list_allocation_succeeds(8);
}

#[test]
fn free_list_alloc_16_bytes() {
    free_list_allocation_succeeds(16);
}

#[test]
fn alloc_1_mib() {
    free_list_allocation_succeeds(MEM_EXTEND_SIZE);
}

#[test]
fn sized_tcmalloc_alloc_1_byte() {
    sized_allocation_succeeds(1);
}

#[test]
fn alloc_2_bytes() {
    sized_allocation_succeeds(2);
}

#[test]
fn alloc_4_bytes() {
    sized_allocation_succeeds(4);
}

#[test]
fn sized_tcmalloc_alloc_8_bytes() {
    sized_allocation_succeeds(8);
}

#[test]
fn sized_tcmalloc_alloc_16_bytes() {
    sized_allocation_succeeds(16);
}

#[test]
fn alloc_32_bytes() {
    sized_allocation_succeeds(32);
}

#[test]
fn alloc_64_bytes() {
    sized_allocation_succeeds(64);
}

#[test]
fn alloc_128_bytes() {
    sized_allocation_succeeds(128);
}

#[test]
fn alloc_256_bytes() {
    sized_allocation_succeeds(256);
}

#[test]
fn alloc_512_bytes() {
    sized_allocation_succeeds(512);
}

#[test]
fn alloc_1024_bytes() {
    sized_allocation_succeeds(1024);
}

#[test]
fn alloc_rounds_up_to_next_class() {
    let mut allocator =
        SizedTcMallocAllocator::new(4096, Some(BASE)).expect("allocator should initialize");
    // 3 bytes rounds up to the 4-byte class.
    let layout = Layout::from_size_align(3, 4).unwrap();
    let ptr = allocator.allocate(layout);
    assert!(ptr != 0);
    assert_eq!(ptr % 4, 0);
    allocator.dealloc(ptr, layout);
    assert_eq!(allocator.free_list(2), vec![ptr]);
    assert_eq!(allocator.cursor(), BASE + 4);
}

#[test]
fn dealloc_returns_block_to_free_list() {
    let mut allocator =
        SizedTcMallocAllocator::new(4096, Some(BASE)).expect("allocator should initialize");
    let layout = Layout::from_size_align(16, 8).unwrap();
    let first = allocator.allocate(layout);
    assert!(first != 0);
    allocator.dealloc(first, layout);
    let second = allocator.allocate(layout);
    assert_eq!(first, second, "freed block should be reused from its size class");
}

#[test]
fn alloc_larger_than_max_class_fails() {
    let mut allocator = SizedTcMallocAllocator::new(sized_tcmalloc::MEM_EXTEND_SIZE, Some(BASE))
        .expect("allocator should initialize");
    let layout = Layout::from_size_align(1025, 8).unwrap();
    let ptr = allocator.allocate(layout);
    assert!(ptr == 0, "requests above 1024 bytes are not handled by sized classes");
}

#[test]
fn sized_fresh_space_runs_out() {
    let mut allocator = SizedTcMallocAllocator::new(64, Some(BASE)).unwrap();
    let layout = Layout::from_size_align(30, 2).unwrap();
    assert_eq!(allocator.allocate(layout), BASE);
    assert_eq!(allocator.allocate(layout), BASE + 32);
    assert_eq!(allocator.allocate(layout), 0);
    assert_eq!(allocator.allocate(Layout::from_size_align(0, 1).unwrap()), 0);
}

#[test]
fn sized_region_overflow_fails() {
    let mut allocator = SizedTcMallocAllocator::new(usize::MAX, Some(BASE)).unwrap();
    assert_eq!(allocator.allocate(Layout::from_size_align(8, 8).unwrap()), 0);
    assert!(SizedTcMallocAllocator::new(16, None).is_none());
    assert_eq!(sized_tcmalloc::mapped_size(16), sized_tcmalloc::MEM_EXTEND_SIZE);
    assert_eq!(sized_tcmalloc::mapped_size(1 << 30), 1 << 30);
}

#[test]
fn understand_ptr_arithmetic() {
    let mut allocator = BumpAllocator::new(1024, Some(BASE)).unwrap();
    let layout1 = Layout::from_size_align(16, 8).unwrap();
    let layout2 = Layout::from_size_align(32, 8).unwrap();
    let ptr1 = allocator.allocate(layout1);
    let ptr2 = allocator.allocate(layout2);
    // ptr2 is exactly 16 bytes ahead of ptr1
    assert_eq!(ptr1 + 16, ptr2);
}

#[test]
fn bump_aligns_each_block() {
    let mut allocator = BumpAllocator::new(1024, Some(BASE)).unwrap();
    let p = allocator.allocate(Layout::from_size_align(1, 1).unwrap());
    assert_eq!(p, BASE);
    let q = allocator.allocate(Layout::from_size_align(8, 8).unwrap());
    assert_eq!(q, BASE + 8);
    assert_eq!(allocator.cursor(), BASE + 16);
    let r = allocator.allocate(Layout::from_size_align(4, 64).unwrap());
    assert_eq!(r, BASE + 64);
    // The padding is not given back: the top block goes, the cursor lands
    // on its aligned start, and the same request gets it again.
    allocator.dealloc(r, Layout::from_size_align(4, 64).unwrap());
    assert_eq!(allocator.cursor(), BASE + 64);
    assert_eq!(allocator.allocate(Layout::from_size_align(4, 64).unwrap()), BASE + 64);
    // Rounding past the end of the address space gives null.
    let mut high = BumpAllocator::new(16, Some(usize::MAX - 2)).unwrap();
    assert_eq!(high.allocate(Layout::from_size_align(8, 8).unwrap()), 0);
    assert_eq!(high.cursor(), usize::MAX - 2);
    assert_eq!(halloc::bump::mapped_size(16), halloc::bump::MEM_EXTEND_SIZE);
    assert_eq!(halloc::bump::mapped_size(1 << 21), 1 << 21);
}

#[test]
fn bump_top_of_stack_dealloc() {
    let mut allocator = BumpAllocator::new(1024, Some(BASE)).unwrap();
    let l16 = Layout::from_size_align(16, 8).unwrap();
    let l32 = Layout::from_size_align(32, 8).unwrap();
    let p1 = allocator.allocate(l16);
    let p2 = allocator.allocate(l32);
    // Not the top block: nothing changes.
    allocator.dealloc(p1, l16);
    assert_eq!(allocator.cursor(), BASE + 48);
    // The top block is given back and handed out again.
    allocator.dealloc(p2, l32);
    assert_eq!(allocator.cursor(), BASE + 16);
    assert_eq!(allocator.allocate(l32), p2);
    assert_eq!(allocator.allocate(Layout::from_size_align(0, 1).unwrap()), 0);
    assert!(BumpAllocator::new(8, None).is_none());
}

#[test]
fn free_list_splits_block_with_padding() {
    let mut a = FreeListAllocator::new(4096, Some(BASE)).unwrap();
    let l = Layout::from_size_align(100, 4).unwrap();
    let p = a.allocate(l);
    assert_eq!(p, BASE);
    a.dealloc(BASE + 4, Layout::from_size_align(96, 4).unwrap());
    // 16 bytes aligned to 16 from the block at BASE + 4: 12 bytes of
    // padding stay free, then the 68-byte remainder.
    let q = a.allocate(Layout::from_size_align(16, 16).unwrap());
    assert_eq!(q, BASE + 16);
    assert_eq!(
        a.free_blocks(),
        vec![FreeBlock { ptr: BASE + 4, size: 12 }, FreeBlock { ptr: BASE + 32, size: 68 }]
    );
}

fn policy_allocator(policy: FreeListPolicy) -> FreeListAllocator {
    let mut a = FreeListAllocator::with_policy(1 << 16, policy, Some(BASE)).unwrap();
    // Free blocks of 64, 16, 256 and 32 bytes, in that order.
    for (addr, size) in [(BASE, 64), (BASE + 1024, 16), (BASE + 2048, 256), (BASE + 4096, 32)] {
        a.dealloc(addr, Layout::from_size_align(size, 1).unwrap());
    }
    a
}

#[test]
fn best_fit_takes_smallest_block() {
    let mut a = policy_allocator(FreeListPolicy::BestFit);
    assert_eq!(a.allocate(Layout::from_size_align(20, 1).unwrap()), BASE + 4096);
}

#[test]
fn worst_fit_takes_largest_block() {
    let mut a = policy_allocator(FreeListPolicy::WorstFit);
    assert_eq!(a.allocate(Layout::from_size_align(20, 1).unwrap()), BASE + 2048);
}

#[test]
fn first_fit_takes_first_block() {
    let mut a = policy_allocator(FreeListPolicy::FirstFit);
    assert_eq!(a.allocate(Layout::from_size_align(20, 1).unwrap()), BASE);
    // The chosen block was swapped out for the last one, and its remainder
    // went to the end of the list.
    assert_eq!(a.allocate(Layout::from_size_align(20, 1).unwrap()), BASE + 4096);
    assert_eq!(a.allocate(Layout::from_size_align(20, 1).unwrap()), BASE + 20);
}

#[test]
fn free_list_falls_back_to_fresh_space() {
    let mut a = policy_allocator(FreeListPolicy::BestFit);
    assert_eq!(a.cursor(), BASE);
    assert_eq!(a.allocate(Layout::from_size_align(300, 8).unwrap()), BASE);
    assert_eq!(a.cursor(), BASE + 300);
    assert_eq!(a.free_blocks().len(), 4);
}

#[test]
fn free_list_overflowing_block_stops_search() {
    // A block near the top of the address space makes the rounding
    // overflow; the search gives up and fresh space serves the request.
    let mut a = FreeListAllocator::new(4096, Some(BASE)).unwrap();
    a.dealloc(usize::MAX - 3, Layout::from_size_align(2, 1).unwrap());
    a.dealloc(BASE + 1024, Layout::from_size_align(64, 1).unwrap());
    assert_eq!(a.allocate(Layout::from_size_align(8, 8).unwrap()), BASE);
    assert_eq!(a.free_blocks().len(), 2);
}

#[test]
fn free_list_ignores_null_and_empty_frees() {
    let mut a = FreeListAllocator::new(4096, Some(BASE)).unwrap();
    a.dealloc(0, Layout::from_size_align(8, 8).unwrap());
    a.dealloc(BASE, Layout::from_size_align(0, 8).unwrap());
    assert!(a.free_blocks().is_empty());
    assert_eq!(a.allocate(Layout::from_size_align(0, 8).unwrap()), 0);
    assert!(FreeListAllocator::new(8, None).is_none());
    assert_eq!(halloc::free_list::mapped_size(0), MEM_EXTEND_SIZE);
}
