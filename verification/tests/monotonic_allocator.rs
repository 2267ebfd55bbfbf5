use raztos_util::allocators::monotonic_allocator::MonotonicAllocator;

const SIZE_4K: usize = 0x1000;

/// The address of a heap that is aligned to 4K.
const ALIGNED_HEAP: usize = 0x7000_0000;

#[test]
fn unaligned_backing_memory_fails_initialization() {
    let allocator = MonotonicAllocator::new(ALIGNED_HEAP + 1, SIZE_4K);
    assert!(allocator.is_none());
}

#[test]
fn aligned_backing_memory_succeeds() {
    let allocator = MonotonicAllocator::new(ALIGNED_HEAP, SIZE_4K);
    assert!(allocator.is_some());
}

#[test]
fn zero_sized_allocation_fails() {
    let allocator = MonotonicAllocator::new(ALIGNED_HEAP, SIZE_4K);
    let mut allocator = allocator.unwrap();

    let starting_free_index = allocator.get_free_index();

    let alloc_result = allocator.alloc_memory(0, 2);
    assert!(alloc_result.is_none());
    assert_eq!(allocator.get_free_index(), starting_free_index);

    let global_alloc_result = allocator.alloc_memory(0, 2);
    assert_eq!(global_alloc_result, None);
    assert_eq!(allocator.get_free_index(), starting_free_index);
}

#[test]
fn oversized_allocation_returns_null() {
    let allocator = MonotonicAllocator::new(ALIGNED_HEAP, SIZE_4K);
    let mut allocator = allocator.unwrap();

    let size = SIZE_4K * 2;

    let starting_free_index = allocator.get_free_index();

    let alloc_result = allocator.alloc_memory(size, size);
    assert!(alloc_result.is_none());
    assert_eq!(allocator.get_free_index(), starting_free_index);

    let global_alloc_result = allocator.alloc_memory(size, size);
    assert_eq!(global_alloc_result, None);
    assert_eq!(allocator.get_free_index(), starting_free_index);
}

#[test]
fn valid_allocation_progresses_allocator() {
    let allocator = MonotonicAllocator::new(ALIGNED_HEAP, SIZE_4K);
    let mut allocator = allocator.unwrap();

    let starting_free_index = allocator.get_free_index();

    let alloc_result = allocator.alloc_memory(16, 16);
    assert!(alloc_result.is_some());
    assert!(allocator.get_free_index() > starting_free_index);

    let starting_free_index = allocator.get_free_index();

    let global_alloc_result = allocator.alloc_memory(16, 16);
    assert_ne!(global_alloc_result, None);
    assert!(allocator.get_free_index() > starting_free_index);
}

#[test]
fn allocations_are_unique() {
    let allocator = MonotonicAllocator::new(ALIGNED_HEAP, SIZE_4K);
    let mut allocator = allocator.unwrap();

    let alloc_result = allocator.alloc_memory(16, 16).unwrap();
    let alloc_result2 = allocator.alloc_memory(16, 16).unwrap();
    assert_ne!(alloc_result, alloc_result2);

    let global_alloc_result = allocator.alloc_memory(16, 16);
    let global_alloc_result2 = allocator.alloc_memory(16, 16);

    assert_ne!(global_alloc_result, global_alloc_result2);
}

#[test]
fn free_does_nothing() {
    let allocator = MonotonicAllocator::new(ALIGNED_HEAP, SIZE_4K);
    let mut allocator = allocator.unwrap();

    let alloc_result = allocator.alloc_memory(16, 16).unwrap();
    let current_free_index = allocator.get_free_index();
    allocator.dealloc(alloc_result, 16, 16);
    assert_eq!(allocator.get_free_index(), current_free_index);

    let global_alloc_result = allocator.alloc_memory(16, 16).unwrap();
    let current_free_index = allocator.get_free_index();
    allocator.dealloc(global_alloc_result, 16, 16);
    assert_eq!(allocator.get_free_index(), current_free_index);
}

//
// Further Tests
//

#[test]
fn allocation_offsets_are_exact() {
    let mut allocator = MonotonicAllocator::new(ALIGNED_HEAP, SIZE_4K).unwrap();
    assert_eq!(allocator.free_space(), SIZE_4K);

    assert_eq!(allocator.alloc_memory(3, 1), Some(0));
    assert_eq!(allocator.get_free_index(), 3);

    assert_eq!(allocator.alloc_memory(8, 8), Some(8));
    assert_eq!(allocator.get_free_index(), 16);

    assert_eq!(allocator.alloc_memory(1, 16), Some(16));
    assert_eq!(allocator.get_free_index(), 17);

    assert_eq!(allocator.alloc_memory(100, 64), Some(64));
    assert_eq!(allocator.get_free_index(), 164);
    assert_eq!(allocator.free_space(), SIZE_4K - 164);

    assert_eq!(allocator.alloc_memory(SIZE_4K - 256, 256), Some(256));
    assert_eq!(allocator.get_free_index(), SIZE_4K);
    assert_eq!(allocator.free_space(), 0);

    assert_eq!(allocator.alloc_memory(1, 1), None);
    assert_eq!(allocator.get_free_index(), SIZE_4K);
}

#[test]
fn alignment_that_is_no_power_of_two_is_refused() {
    let mut allocator = MonotonicAllocator::new(ALIGNED_HEAP, SIZE_4K).unwrap();

    assert_eq!(allocator.alloc_memory(16, 0), None);
    assert_eq!(allocator.alloc_memory(16, 3), None);
    assert_eq!(allocator.alloc_memory(16, 24), None);
    assert_eq!(allocator.alloc_memory(16, usize::MAX), None);
    assert_eq!(allocator.get_free_index(), 0);
}

#[test]
fn alignment_past_the_heap_is_refused() {
    let mut allocator = MonotonicAllocator::new(ALIGNED_HEAP, SIZE_4K).unwrap();

    assert_eq!(allocator.alloc_memory(16, 16), Some(0));
    assert_eq!(allocator.alloc_memory(16, SIZE_4K * 2), None);
    assert_eq!(allocator.alloc_memory(16, 1 << (usize::BITS - 1)), None);
    assert_eq!(allocator.alloc_memory(SIZE_4K, 1), None);
    assert_eq!(allocator.get_free_index(), 16);
    assert_eq!(allocator.alloc_memory(SIZE_4K - 16, 1), Some(16));
}

#[test]
fn heap_alignment_is_the_size_rounded_up() {
    assert!(MonotonicAllocator::new(0x2000, 0x1001).is_some());
    assert!(MonotonicAllocator::new(0x1000, 0x1001).is_none());
    assert!(MonotonicAllocator::new(0x1000, 0x0FFF).is_some());
    assert!(MonotonicAllocator::new(0x0800, 0x0FFF).is_none());
    assert!(MonotonicAllocator::new(0x0003, 1).is_some());
    assert!(MonotonicAllocator::new(0x0003, 2).is_none());
    assert!(MonotonicAllocator::new(0x0003, 0).is_some());
    assert!(MonotonicAllocator::new(0, usize::MAX).is_none());
    assert!(MonotonicAllocator::new(0, isize::MAX as usize).is_some());
    assert!(MonotonicAllocator::new(0, isize::MAX as usize + 1).is_none());
}
