use bootcore::layout::Layout;
use bootcore::range_list_allocator::MemoryBlock;
use bootcore::region::MemoryRegions;

#[test]
fn add_single_region() {
    let mut allocator = MemoryBlock::init();
    let region = MemoryRegions::from_parts(0x1000, 0x100);
    assert_eq!(allocator.add_region(&region), Ok(()));
    assert_eq!(allocator.region_size(), 1);
    assert_eq!(allocator.region(0), region);
}

#[test]
fn add_two_separate_regions() {
    let mut allocator = MemoryBlock::init();
    let region1 = MemoryRegions::from_parts(0x1000, 0x100);
    let region2 = MemoryRegions::from_parts(0x2000, 0x100);
    assert_eq!(allocator.add_region(&region1), Ok(()));
    assert_eq!(allocator.add_region(&region2), Ok(()));
    assert_eq!(allocator.region_size(), 2);
    assert_eq!(allocator.region(0), region1);
    assert_eq!(allocator.region(1), region2);
}

#[test]
fn add_adjacent_regions_merge() {
    let mut allocator = MemoryBlock::init();
    let region1 = MemoryRegions::from_parts(0x1000, 0x100);
    let region2 = MemoryRegions::from_parts(0x1100, 0x100);
    assert_eq!(allocator.add_region(&region1), Ok(()));
    assert_eq!(allocator.add_region(&region2), Ok(()));

    assert_eq!(allocator.region_size(), 1);
    let expected_region = MemoryRegions::from_parts(0x1000, 0x200);
    assert_eq!(allocator.region(0), expected_region);
}

#[test]
fn add_overlapping_regions_merge() {
    let mut allocator = MemoryBlock::init();
    let region1 = MemoryRegions::from_parts(0x1000, 0x200);
    let region2 = MemoryRegions::from_parts(0x1100, 0x200);
    assert_eq!(allocator.add_region(&region1), Ok(()));
    assert_eq!(allocator.add_region(&region2), Ok(()));

    assert_eq!(allocator.region_size(), 1);
    let expected_region = MemoryRegions::from_parts(0x1000, 0x300);
    assert_eq!(allocator.region(0), expected_region);
}

#[test]
fn add_region_that_spans_two_existing_regions() {
    let mut allocator = MemoryBlock::init();
    let region1 = MemoryRegions::from_parts(0x1000, 0x100);
    let region3 = MemoryRegions::from_parts(0x2000, 0x100);
    assert_eq!(allocator.add_region(&region1), Ok(()));
    assert_eq!(allocator.add_region(&region3), Ok(()));
    assert_eq!(allocator.region_size(), 2);

    // Add a region that connects region1 and region3
    let region2 = MemoryRegions::from_parts(0x1000, 0x1100);
    assert_eq!(allocator.add_region(&region2), Ok(()));

    assert_eq!(allocator.region_size(), 1);
    let expected_region = MemoryRegions::from_parts(0x1000, 0x1100);
    assert_eq!(allocator.region(0), expected_region);
}

#[test]
fn add_reserved_region() {
    let mut allocator = MemoryBlock::init();
    let region = MemoryRegions::from_parts(0x1000, 0x100);
    assert_eq!(allocator.add_reserved_region(&region), Ok(()));
    assert_eq!(allocator.reserved_region_size(), 1);
    assert_eq!(allocator.reserved_region(0), region);
}

#[test]
fn add_region_that_is_contained_in_existing_region() {
    let mut allocator = MemoryBlock::init();
    let outer_region = MemoryRegions::from_parts(0x1000, 0x1000);
    assert_eq!(allocator.add_region(&outer_region), Ok(()));
    assert_eq!(allocator.region_size(), 1);

    let inner_region = MemoryRegions::from_parts(0x1100, 0x100);
    assert_eq!(allocator.add_region(&inner_region), Ok(()));

    // The size should not change, and the region should remain the same
    assert_eq!(allocator.region_size(), 1);
    assert_eq!(allocator.region(0), outer_region);
}

#[test]
fn check_regions_no_reserved() {
    let mut allocator = MemoryBlock::init();
    allocator
        .add_region(&MemoryRegions::from_parts(0x1000, 0x1000))
        .unwrap();
    assert_eq!(allocator.check_regions(), Ok(()));
    assert_eq!(allocator.region_size(), 1);
    assert!(allocator.is_finalized());
}

#[test]
fn check_regions_perfect_match() {
    let mut allocator = MemoryBlock::init();
    allocator
        .add_region(&MemoryRegions::from_parts(0x1000, 0x1000))
        .unwrap();
    allocator
        .add_reserved_region(&MemoryRegions::from_parts(0x1000, 0x1000))
        .unwrap();

    assert_eq!(allocator.check_regions(), Ok(()));
    assert_eq!(allocator.region_size(), 0);
    assert!(allocator.is_finalized());
}

#[test]
fn check_regions_starts_at_same_address() {
    let mut allocator = MemoryBlock::init();
    allocator
        .add_region(&MemoryRegions::from_parts(0x1000, 0x1000))
        .unwrap();
    allocator
        .add_reserved_region(&MemoryRegions::from_parts(0x1000, 0x100))
        .unwrap();

    assert_eq!(allocator.check_regions(), Ok(()));
    assert_eq!(allocator.region_size(), 1);
    assert_eq!(
        allocator.region(0),
        MemoryRegions::from_parts(0x1100, 0xF00)
    );
    assert!(allocator.is_finalized());
}

#[test]
fn check_regions_ends_at_same_address() {
    let mut allocator = MemoryBlock::init();
    allocator
        .add_region(&MemoryRegions::from_parts(0x1000, 0x1000))
        .unwrap();
    allocator
        .add_reserved_region(&MemoryRegions::from_parts(0x1F00, 0x100))
        .unwrap();

    assert_eq!(allocator.check_regions(), Ok(()));
    assert_eq!(allocator.region_size(), 1);
    assert_eq!(
        allocator.region(0),
        MemoryRegions::from_parts(0x1000, 0xF00)
    );
    assert!(allocator.is_finalized());
}

#[test]
fn check_regions_split() {
    let mut allocator = MemoryBlock::init();
    allocator
        .add_region(&MemoryRegions::from_parts(0x1000, 0x1000))
        .unwrap();
    allocator
        .add_reserved_region(&MemoryRegions::from_parts(0x1100, 0x100))
        .unwrap();

    assert_eq!(allocator.check_regions(), Ok(()));
    assert_eq!(allocator.region_size(), 2);
    assert_eq!(
        allocator.region(0),
        MemoryRegions::from_parts(0x1000, 0x100)
    );
    assert_eq!(
        allocator.region(1),
        MemoryRegions::from_parts(0x1200, 0xE00)
    );
    assert!(allocator.is_finalized());
}

#[test]
fn check_regions_multiple_reserved() {
    let mut allocator = MemoryBlock::init();
    allocator
        .add_region(&MemoryRegions::from_parts(0x1000, 0x1000))
        .unwrap();
    allocator
        .add_region(&MemoryRegions::from_parts(0x3000, 0x1000))
        .unwrap();
    allocator
        .add_reserved_region(&MemoryRegions::from_parts(0x1100, 0x100))
        .unwrap();
    allocator
        .add_reserved_region(&MemoryRegions::from_parts(0x3200, 0x100))
        .unwrap();

    assert_eq!(allocator.check_regions(), Ok(()));
    assert_eq!(allocator.region_size(), 4);
    assert_eq!(
        allocator.region(0),
        MemoryRegions::from_parts(0x1000, 0x100)
    );
    assert_eq!(
        allocator.region(1),
        MemoryRegions::from_parts(0x1200, 0xE00)
    );
    assert_eq!(
        allocator.region(2),
        MemoryRegions::from_parts(0x3000, 0x200)
    );
    assert_eq!(
        allocator.region(3),
        MemoryRegions::from_parts(0x3300, 0xD00)
    );
}

#[test]
fn check_regions_error_outside() {
    let mut allocator = MemoryBlock::init();
    allocator
        .add_region(&MemoryRegions::from_parts(0x1000, 0x1000))
        .unwrap();
    allocator
        .add_reserved_region(&MemoryRegions::from_parts(0x2000, 0x100))
        .unwrap();
    assert_eq!(
        allocator.check_regions().map_err(|e| e.message()),
        Err("invalid reserved region: located outside of all available regions")
    );
}

#[test]
fn check_regions_error_not_contained() {
    let mut allocator = MemoryBlock::init();
    allocator
        .add_region(&MemoryRegions::from_parts(0x1000, 0x100))
        .unwrap();
    allocator
        .add_reserved_region(&MemoryRegions::from_parts(0x1000, 0x200))
        .unwrap();
    assert_eq!(
        allocator.check_regions().map_err(|e| e.message()),
        Err("the memory region is smaller than the reserved region")
    );
}

#[test]
fn check_regions_multiple_reserved_in_one_region() {
    let mut allocator = MemoryBlock::init();
    allocator
        .add_region(&MemoryRegions::from_parts(0x1000, 0x1000))
        .unwrap();
    allocator
        .add_reserved_region(&MemoryRegions::from_parts(0x1100, 0x100))
        .unwrap();
    allocator
        .add_reserved_region(&MemoryRegions::from_parts(0x1300, 0x100))
        .unwrap();

    assert_eq!(allocator.check_regions(), Ok(()));
    assert_eq!(allocator.region_size(), 3);
    assert_eq!(
        allocator.region(0),
        MemoryRegions::from_parts(0x1000, 0x100)
    );
    assert_eq!(
        allocator.region(1),
        MemoryRegions::from_parts(0x1200, 0x100)
    );
    assert_eq!(
        allocator.region(2),
        MemoryRegions::from_parts(0x1400, 0xC00)
    );
}

#[test]
fn test_allocate_region_before_check_regions() {
    let mut allocator = MemoryBlock::init();
    allocator
        .add_region(&MemoryRegions::from_parts(0x1000, 0x1000))
        .unwrap();
    let layout = Layout::from_size_align(0x100, 0x10).unwrap();
    assert_eq!(allocator.allocate_region(layout), None);
}

#[test]
fn test_allocate_region_simple() {
    let mut allocator = MemoryBlock::init();
    allocator
        .add_region(&MemoryRegions::from_parts(0x1000, 0x1000))
        .unwrap();
    allocator.check_regions().unwrap();

    let layout = Layout::from_size_align(0x100, 0x10).unwrap();
    let ptr = allocator.allocate_region(layout);
    assert_eq!(ptr, Some(0x1000));
    assert_eq!(allocator.region_size(), 1);
    assert_eq!(
        allocator.region(0),
        MemoryRegions::from_parts(0x1100, 0xF00)
    );
}

#[test]
fn test_allocate_region_no_sufficient_space() {
    let mut allocator = MemoryBlock::init();
    allocator
        .add_region(&MemoryRegions::from_parts(0x1000, 0x100))
        .unwrap();
    allocator.check_regions().unwrap();

    let layout = Layout::from_size_align(0x200, 0x10).unwrap();
    assert_eq!(allocator.allocate_region(layout), None);
}

#[test]
fn test_allocate_region_respects_reserved_region() {
    let mut allocator = MemoryBlock::init();
    allocator
        .add_region(&MemoryRegions::from_parts(0x1000, 0x1000))
        .unwrap();
    allocator
        .add_reserved_region(&MemoryRegions::from_parts(0x1000, 0x100))
        .unwrap();
    allocator.check_regions().unwrap();

    let layout = Layout::from_size_align(0x100, 0x10).unwrap();
    let ptr = allocator.allocate_region(layout);
    assert_eq!(ptr, Some(0x1100));
    assert_eq!(allocator.region_size(), 1);
    assert_eq!(
        allocator.region(0),
        MemoryRegions::from_parts(0x1200, 0xE00)
    );
}

#[test]
fn test_allocate_region_with_alignment() {
    let mut allocator = MemoryBlock::init();
    allocator
        .add_region(&MemoryRegions::from_parts(0x1001, 0x1000))
        .unwrap();
    allocator.check_regions().unwrap();

    let layout = Layout::from_size_align(0x100, 0x100).unwrap();
    let ptr = allocator.allocate_region(layout);
    assert_eq!(ptr, Some(0x1100));

    // Check that the region is split correctly
    assert_eq!(allocator.region_size(), 2);
    assert_eq!(
        allocator.region(0),
        MemoryRegions::from_parts(0x1001, 0xFF)
    );
    assert_eq!(
        allocator.region(1),
        MemoryRegions::from_parts(0x1200, 0xE01)
    );
}

#[test]
fn test_overflow_wrapping() {
    let heap: usize = 0x4000_0000;
    let mut allocator = MemoryBlock::init();
    // Add a large region with an unaligned address.
    allocator
        .add_region(&MemoryRegions::from_parts(heap, 0x200000))
        .unwrap();
    allocator.check_regions().unwrap();

    let initial_region_capacity = allocator.region_capacity();
    let initial_reserved_capacity = allocator.reserved_region_capacity();
    assert_eq!(initial_region_capacity, 128);

    // We need to increase region_size. Each allocation with a specific alignment
    // on an unaligned region will split it, increasing region_size by 1.
    // The overflow_wrapping is triggered when region_size + 10 > region_capacity.
    // So we need to reach region_size = 119 to trigger it on the next allocation.
    // Initial region_size is 1. We need 118 splits.
    for _ in 0..119 {
        let layout = Layout::from_size_align(0x10, 0x1000).unwrap();
        assert!(allocator.allocate_region(layout).is_some());
        // Each allocation creates a split, increasing region_size.
    }
    // After 118 allocations, region_size should be 119.
    assert_eq!(allocator.region_size(), 119);
    assert_eq!(allocator.region_capacity(), initial_region_capacity);
    // This allocation should trigger overflow_wrapping.
    let layout = Layout::from_size_align(0x10, 0x1000).unwrap();
    assert!(allocator.allocate_region(layout).is_some());
    // Verify that the capacities have been doubled.
    assert_eq!(allocator.region_capacity(), initial_region_capacity * 2);
    assert_eq!(
        allocator.reserved_region_capacity(),
        initial_reserved_capacity * 2
    );

    // region_size should be 120 now.
    assert_eq!(allocator.region_size(), 120);

    // Verify that we can still allocate after wrapping.
    let layout = Layout::from_size_align(0x10, 0x1000).unwrap();
    assert!(allocator.allocate_region(layout).is_some());
    assert_eq!(allocator.region_size(), 121);
}

#[test]
fn test_deallocate_region_simple_roundtrip() {
    let mut allocator = MemoryBlock::init();
    allocator
        .add_region(&MemoryRegions::from_parts(0x1000, 0x1000))
        .unwrap();
    allocator.check_regions().unwrap();

    let layout = Layout::from_size_align(0x100, 0x10).unwrap();
    let ptr = allocator.allocate_region(layout).expect("alloc failed");
    assert_eq!(ptr, 0x1000);
    // After alloc: regions becomes [0x1100, 0xF00]
    assert_eq!(allocator.region_size(), 1);
    assert_eq!(
        allocator.region(0),
        MemoryRegions::from_parts(0x1100, 0xF00)
    );

    // Deallocate and expect full region restored
    allocator.deallocate_region(ptr, layout);
    assert_eq!(allocator.region_size(), 1);
    assert_eq!(
        allocator.region(0),
        MemoryRegions::from_parts(0x1000, 0x1000)
    );
}

#[test]
fn test_deallocate_region_adjacent_allocations_merge_back() {
    let mut allocator = MemoryBlock::init();
    allocator
        .add_region(&MemoryRegions::from_parts(0x1000, 0x1000))
        .unwrap();
    allocator.check_regions().unwrap();

    let l = Layout::from_size_align(0x100, 0x100).unwrap();
    let first = allocator.allocate_region(l).unwrap(); // 0x1000..0x1100
    let second = allocator.allocate_region(l).unwrap(); // 0x1100..0x1200
    assert_eq!(first, 0x1000);
    assert_eq!(second, 0x1100);

    // Now free regions should begin at 0x1200..0x2000 (single region)
    assert_eq!(allocator.region_size(), 1);
    assert_eq!(
        allocator.region(0),
        MemoryRegions::from_parts(0x1200, 0xE00)
    );

    // Deallocate first block; should create a separate free region at 0x1000..0x1100
    allocator.deallocate_region(first, l);
    assert_eq!(allocator.region_size(), 2);
    assert_eq!(
        allocator.region(0),
        MemoryRegions::from_parts(0x1000, 0x100)
    );
    assert_eq!(
        allocator.region(1),
        MemoryRegions::from_parts(0x1200, 0xE00)
    );

    // Deallocate second block; free regions should merge into a single 0x1000..0x2000
    allocator.deallocate_region(second, l);
    assert_eq!(allocator.region_size(), 1);
    assert_eq!(
        allocator.region(0),
        MemoryRegions::from_parts(0x1000, 0x1000)
    );
}

#[test]
fn test_deallocate_region_middle_split_reserved() {
    let mut allocator = MemoryBlock::init();
    allocator
        .add_region(&MemoryRegions::from_parts(0x1000, 0x1000))
        .unwrap();
    allocator.check_regions().unwrap();

    // Allocate three adjacent blocks so reserved merges into one
    let l = Layout::from_size_align(0x100, 0x100).unwrap();
    let first = allocator.allocate_region(l).unwrap(); // 0x1000..0x1100
    let second = allocator.allocate_region(l).unwrap(); // 0x1100..0x1200
    let third = allocator.allocate_region(l).unwrap(); // 0x1200..0x1300
    assert_eq!((first, second, third), (0x1000, 0x1100, 0x1200));

    // Free list: [0x1300, 0xD00]
    assert_eq!(allocator.region_size(), 1);
    assert_eq!(
        allocator.region(0),
        MemoryRegions::from_parts(0x1300, 0xD00)
    );

    // Dealloc middle block; reserved should split, free list gains 0x1100..0x1200 as a new region
    allocator.deallocate_region(second, l);
    assert_eq!(allocator.region_size(), 2);
    assert_eq!(
        allocator.region(0),
        MemoryRegions::from_parts(0x1100, 0x100)
    );
    assert_eq!(
        allocator.region(1),
        MemoryRegions::from_parts(0x1300, 0xD00)
    );

    // Dealloc ends; after both, the free list should merge fully back
    allocator.deallocate_region(first, l);
    allocator.deallocate_region(third, l);
    assert_eq!(allocator.region_size(), 1);
    assert_eq!(
        allocator.region(0),
        MemoryRegions::from_parts(0x1000, 0x1000)
    );
}

