use halloc::layout::{align_up, Layout};
use halloc::sized_tcmalloc::SizedTcMallocAllocator;
use halloc::stats::{class_index, Halloc, NUM_CLASSES};

#[test]
fn class_index_matches_bounds() {
    assert_eq!(class_index(1), Some(0));
    assert_eq!(class_index(8), Some(0));
    assert_eq!(class_index(9), Some(1));
    assert_eq!(class_index(64), Some(5));
    assert_eq!(class_index(2048), Some(NUM_CLASSES - 1));
    assert_eq!(class_index(2049), None);
}

#[test]
fn class_index_of_empty_request_is_first_class() {
    assert_eq!(class_index(0), Some(0));
    assert_eq!(class_index(1025), Some(14));
    assert_eq!(class_index(usize::MAX), None);
}

#[test]
fn class_for_layout_maps_correctly() {
    assert_eq!(
        SizedTcMallocAllocator::class_for_layout(Layout::from_size_align(1, 1).unwrap()),
        Some((0, 1))
    );
    assert_eq!(
        SizedTcMallocAllocator::class_for_layout(Layout::from_size_align(3, 4).unwrap()),
        Some((2, 4))
    );
    assert_eq!(
        SizedTcMallocAllocator::class_for_layout(Layout::from_size_align(100, 64).unwrap()),
        Some((7, 128))
    );
    assert_eq!(
        SizedTcMallocAllocator::class_for_layout(Layout::from_size_align(1025, 8).unwrap()),
        None
    );
}

#[test]
fn class_for_layout_takes_alignment_into_account() {
    assert_eq!(
        SizedTcMallocAllocator::class_for_layout(Layout::from_size_align(1, 512).unwrap()),
        Some((9, 512))
    );
    assert_eq!(
        SizedTcMallocAllocator::class_for_layout(Layout::from_size_align(8, 2048).unwrap()),
        None
    );
}

#[test]
fn align_up_matches_sized_tcmalloc() {
    assert_eq!(align_up(0, 64), Some(0));
    assert_eq!(align_up(1, 64), Some(64));
    assert_eq!(align_up(64, 64), Some(64));
    assert_eq!(align_up(65, 64), Some(128));
}

#[test]
fn align_up_overflow_is_none() {
    assert_eq!(align_up(usize::MAX, 2), None);
    assert_eq!(align_up(usize::MAX - 7, 8), Some(usize::MAX - 7));
    assert_eq!(align_up(usize::MAX - 8, 8), Some(usize::MAX - 7));
    assert_eq!(align_up(usize::MAX - 6, 8), None);
    assert_eq!(align_up(13, 1), Some(13));
}

#[test]
fn layout_rejects_invalid_alignment_and_size() {
    assert!(Layout::from_size_align(8, 0).is_none());
    assert!(Layout::from_size_align(8, 3).is_none());
    assert!(Layout::from_size_align(isize::MAX as usize, 1).is_some());
    assert!(Layout::from_size_align(isize::MAX as usize, 2).is_none());
    let l = Layout::from_size_align(48, 16).unwrap();
    assert_eq!(l.size(), 48);
    assert_eq!(l.align(), 16);
}

#[test]
fn stats_tracking() {
    let mut allocator = Halloc::new();
    for (size, _align) in [(48usize, 8usize), (160, 16)] {
        allocator.record_alloc(size);
        allocator.record_dealloc(size);
    }
    let stats = allocator.stats();
    assert_eq!(stats.allocs[4], 1);
    assert_eq!(stats.deallocs[4], 1);
    assert_eq!(stats.allocs[8], 1);
    assert_eq!(stats.deallocs[8], 1);
    assert_eq!(stats.large_allocs, 0);
    assert_eq!(stats.bytes_allocated, 208);
    assert_eq!(stats.bytes_deallocated, 208);
}

#[test]
fn stats_count_large_requests_separately() {
    let mut allocator = Halloc::new();
    allocator.record_alloc(4096);
    allocator.record_alloc(0);
    let stats = allocator.stats();
    assert_eq!(stats.large_allocs, 1);
    assert_eq!(stats.allocs[0], 1);
    assert_eq!(stats.allocs.iter().sum::<u64>(), 1);
    assert_eq!(stats.bytes_allocated, 4096);
    assert_eq!(stats.large_deallocs, 0);
}

#[test]
fn stats_wrap_at_64_bits() {
    let mut allocator = Halloc::new();
    allocator.record_alloc(usize::MAX);
    allocator.record_alloc(2);
    assert_eq!(allocator.stats().bytes_allocated, (usize::MAX as u64).wrapping_add(2));
}
