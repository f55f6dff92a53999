use bootcore::error::AllocError;
use bootcore::layout::Layout;
use bootcore::range_list_allocator::MemoryBlock;
use bootcore::region::MemoryRegions;

fn finalized(address: usize, size: usize) -> MemoryBlock {
    let mut block = MemoryBlock::init();
    block
        .add_region(&MemoryRegions::from_parts(address, size))
        .unwrap();
    block.check_regions().unwrap();
    block
}

fn total(block: &MemoryBlock) -> usize {
    let mut sum = 0;
    for i in 0..block.region_size() {
        sum += block.region(i).size;
    }
    for i in 0..block.reserved_region_size() {
        sum += block.reserved_region(i).size;
    }
    sum
}

fn sorted(block: &MemoryBlock) -> bool {
    for i in 1..block.region_size() {
        if block.region(i - 1).address + block.region(i - 1).size > block.region(i).address {
            return false;
        }
    }
    for i in 1..block.reserved_region_size() {
        if block.reserved_region(i - 1).address + block.reserved_region(i - 1).size
            > block.reserved_region(i).address
        {
            return false;
        }
    }
    true
}

#[test]
fn simple_partition_leaves_reserved_empty() {
    let mut block = MemoryBlock::init();
    block
        .add_region(&MemoryRegions::from_parts(0x1000, 0x1000))
        .unwrap();
    block
        .add_reserved_region(&MemoryRegions::from_parts(0x1100, 0x100))
        .unwrap();
    assert_eq!(block.check_regions(), Ok(()));
    assert_eq!(block.region_size(), 2);
    assert_eq!(block.region(0), MemoryRegions::from_parts(0x1000, 0x100));
    assert_eq!(block.region(1), MemoryRegions::from_parts(0x1200, 0xE00));
    assert_eq!(block.reserved_region_size(), 0);
    assert!(block.is_finalized());
    // finalising again changes nothing
    assert_eq!(block.check_regions(), Ok(()));
    assert_eq!(block.region_size(), 2);
}

#[test]
fn perfect_match_leaves_nothing_available() {
    let mut block = MemoryBlock::init();
    block
        .add_region(&MemoryRegions::from_parts(0x1000, 0x1000))
        .unwrap();
    block
        .add_reserved_region(&MemoryRegions::from_parts(0x1000, 0x1000))
        .unwrap();
    assert_eq!(block.check_regions(), Ok(()));
    assert_eq!(block.region_size(), 0);
    assert_eq!(block.reserved_region_size(), 0);
    let layout = Layout::from_size_align(1, 1).unwrap();
    assert_eq!(block.allocate_region(layout), None);
}

#[test]
fn allocations_are_recorded_as_reserved() {
    let mut block = finalized(0x1000, 0x1000);
    let l = Layout::from_size_align(0x100, 0x100).unwrap();
    assert_eq!(block.allocate_region(l), Some(0x1000));
    assert_eq!(block.allocate_region(l), Some(0x1100));
    assert_eq!(block.allocate_region(l), Some(0x1200));
    assert_eq!(block.reserved_region_size(), 1);
    assert_eq!(block.reserved_region(0), MemoryRegions::from_parts(0x1000, 0x300));

    block.deallocate_region(0x1100, l);
    assert_eq!(block.reserved_region_size(), 2);
    assert_eq!(block.reserved_region(0), MemoryRegions::from_parts(0x1000, 0x100));
    assert_eq!(block.reserved_region(1), MemoryRegions::from_parts(0x1200, 0x100));
    assert_eq!(block.region_size(), 2);
    assert_eq!(block.region(0), MemoryRegions::from_parts(0x1100, 0x100));
    assert_eq!(block.region(1), MemoryRegions::from_parts(0x1300, 0xD00));
}

#[test]
fn bytes_are_conserved() {
    let mut block = MemoryBlock::init();
    block
        .add_region(&MemoryRegions::from_parts(0x1000, 0x1000))
        .unwrap();
    block
        .add_region(&MemoryRegions::from_parts(0x8000, 0x4000))
        .unwrap();
    block
        .add_reserved_region(&MemoryRegions::from_parts(0x8100, 0x200))
        .unwrap();
    block.check_regions().unwrap();
    let universe = total(&block);
    assert_eq!(universe, 0x1000 + 0x4000 - 0x200);

    let small = Layout::from_size_align(0x80, 0x40).unwrap();
    let big = Layout::from_size_align(0x1800, 0x1000).unwrap();
    let a = block.allocate_region(small).unwrap();
    assert_eq!(total(&block), universe);
    let b = block.allocate_region(big).unwrap();
    assert_eq!(total(&block), universe);
    assert_eq!((a, b), (0x1000, 0x9000));
    let mut reserved = 0;
    for i in 0..block.reserved_region_size() {
        reserved += block.reserved_region(i).size;
    }
    assert_eq!(reserved, 0x80 + 0x1800);
    assert!(sorted(&block));

    block.deallocate_region(a, small);
    assert_eq!(total(&block), universe);
    block.deallocate_region(b, big);
    assert_eq!(total(&block), universe);
    assert_eq!(block.reserved_region_size(), 0);
    assert!(sorted(&block));
}

#[test]
fn round_trip_restores_the_lists() {
    let mut block = MemoryBlock::init();
    block
        .add_region(&MemoryRegions::from_parts(0x1001, 0x1000))
        .unwrap();
    block
        .add_region(&MemoryRegions::from_parts(0x4000, 0x1000))
        .unwrap();
    block.check_regions().unwrap();
    let layout = Layout::from_size_align(0x100, 0x100).unwrap();
    let first = block.allocate_region(layout).unwrap();
    assert_eq!(first, 0x1100);
    assert_eq!(block.region_size(), 3);
    block.deallocate_region(first, layout);
    assert_eq!(block.region_size(), 2);
    assert_eq!(block.region(0), MemoryRegions::from_parts(0x1001, 0x1000));
    assert_eq!(block.region(1), MemoryRegions::from_parts(0x4000, 0x1000));
    assert_eq!(block.reserved_region_size(), 0);
    // the same request is answered as before
    assert_eq!(block.allocate_region(layout), Some(first));
}

#[test]
fn addresses_are_aligned() {
    let mut block = finalized(0x1234, 0x10000);
    for shift in 0..12 {
        let align = 1usize << shift;
        let layout = Layout::from_size_align(3, align).unwrap();
        let address = block.allocate_region(layout).unwrap();
        assert_eq!(address % align, 0);
    }
    assert!(sorted(&block));
}

#[test]
fn ingestion_after_finalize_is_refused() {
    let mut block = finalized(0x1000, 0x1000);
    assert_eq!(
        block.add_region(&MemoryRegions::from_parts(0x4000, 0x100)),
        Err(AllocError::AlreadyFinalized)
    );
    assert_eq!(
        block.add_reserved_region(&MemoryRegions::from_parts(0x1000, 0x100)),
        Err(AllocError::AlreadyFinalized)
    );
    assert_eq!(
        block.add_reserved_region_dynamic(0x100, None, None),
        Err(AllocError::AlreadyFinalized)
    );
    assert_eq!(block.region_size(), 1);
    assert_eq!(block.reserved_region_size(), 0);
}

#[test]
fn full_list_refuses_another_region() {
    let mut block = MemoryBlock::init();
    for i in 0..128 {
        assert_eq!(
            block.add_region(&MemoryRegions::from_parts(0x1000 * (i + 1), 0x100)),
            Ok(())
        );
    }
    assert_eq!(block.region_size(), 128);
    assert_eq!(
        block.add_region(&MemoryRegions::from_parts(0x100_0000, 0x100)),
        Err(AllocError::CapacityExceeded)
    );
    // also a region that would only grow another one
    assert_eq!(
        block.add_region(&MemoryRegions::from_parts(0x1100, 0x100)),
        Err(AllocError::CapacityExceeded)
    );
    assert_eq!(block.region_size(), 128);
    // too many regions to finalise
    assert_eq!(block.check_regions(), Err(AllocError::CapacityExceeded));
    assert!(!block.is_finalized());
}

#[test]
fn finalize_reports_each_failure() {
    let mut outside = MemoryBlock::init();
    outside
        .add_region(&MemoryRegions::from_parts(0x1000, 0x1000))
        .unwrap();
    outside
        .add_reserved_region(&MemoryRegions::from_parts(0x3000, 0x100))
        .unwrap();
    assert_eq!(
        outside.check_regions(),
        Err(AllocError::ReservedOutsideAvailable)
    );
    assert!(!outside.is_finalized());
    assert_eq!(outside.reserved_region_size(), 1);

    let mut crossing = MemoryBlock::init();
    crossing
        .add_region(&MemoryRegions::from_parts(0x1000, 0x1000))
        .unwrap();
    crossing
        .add_reserved_region(&MemoryRegions::from_parts(0x1100, 0x100))
        .unwrap();
    crossing
        .add_reserved_region(&MemoryRegions::from_parts(0x1F00, 0x200))
        .unwrap();
    assert_eq!(
        crossing.check_regions(),
        Err(AllocError::ReservedLargerThanAvailable)
    );
    // the first reserved region has been taken out already
    assert_eq!(crossing.region_size(), 2);
    assert_eq!(crossing.region(0), MemoryRegions::from_parts(0x1000, 0x100));
    assert_eq!(crossing.region(1), MemoryRegions::from_parts(0x1200, 0xE00));

    let mut before = MemoryBlock::init();
    before
        .add_region(&MemoryRegions::from_parts(0x1000, 0x1000))
        .unwrap();
    before
        .add_reserved_region(&MemoryRegions::from_parts(0x800, 0x100))
        .unwrap();
    assert_eq!(
        before.check_regions(),
        Err(AllocError::ReservedLargerThanAvailable)
    );
}

#[test]
fn error_messages() {
    assert_eq!(AllocError::NotInitialized.message(), "allocator not initialized");
    assert_eq!(AllocError::AlreadyFinalized.message(), "allocator already finalized");
    assert_eq!(AllocError::NotAllocatable.message(), "allocator not finalized");
    assert_eq!(AllocError::CapacityExceeded.message(), "region size overflow");
    assert_eq!(
        AllocError::ReservedOutsideAvailable.message(),
        "invalid reserved region: located outside of all available regions"
    );
    assert_eq!(
        AllocError::ReservedLargerThanAvailable.message(),
        "the memory region is smaller than the reserved region"
    );
    assert_eq!(AllocError::OutOfMemory.message(), "out of memory");
}

#[test]
fn add_region_grows_region_at_same_address() {
    let mut block = MemoryBlock::init();
    block
        .add_region(&MemoryRegions::from_parts(0x1000, 0x100))
        .unwrap();
    block
        .add_region(&MemoryRegions::from_parts(0x2000, 0x100))
        .unwrap();
    // grows in place
    block
        .add_region(&MemoryRegions::from_parts(0x1000, 0x800))
        .unwrap();
    assert_eq!(block.region_size(), 2);
    assert_eq!(block.region(0), MemoryRegions::from_parts(0x1000, 0x800));
    // a region before the first one that touches it
    block
        .add_region(&MemoryRegions::from_parts(0x800, 0x800))
        .unwrap();
    assert_eq!(block.region_size(), 2);
    assert_eq!(block.region(0), MemoryRegions::from_parts(0x800, 0x1000));
    // a region between the two that touches both
    block
        .add_region(&MemoryRegions::from_parts(0x1800, 0x800))
        .unwrap();
    assert_eq!(block.region_size(), 1);
    assert_eq!(block.region(0), MemoryRegions::from_parts(0x800, 0x1900));
}

#[test]
fn dynamic_reservation_takes_lowest_free_address() {
    let mut block = MemoryBlock::init();
    block
        .add_region(&MemoryRegions::from_parts(0x1000, 0x1000))
        .unwrap();
    block
        .add_reserved_region(&MemoryRegions::from_parts(0x1000, 0x100))
        .unwrap();
    // default alignment: the size rounded up to a power of two
    assert_eq!(
        block.add_reserved_region_dynamic(0xC0, None, None),
        Ok(Some(0x1100))
    );
    assert_eq!(block.reserved_region_size(), 1);
    assert_eq!(block.reserved_region(0), MemoryRegions::from_parts(0x1000, 0x1C0));
    // held to a range
    assert_eq!(
        block.add_reserved_region_dynamic(0x100, Some(0x10), Some((0x1800, 0x400))),
        Ok(Some(0x1800))
    );
    assert_eq!(block.reserved_region_size(), 2);
    // the range has room for nothing more of that size and alignment
    assert_eq!(
        block.add_reserved_region_dynamic(0x400, Some(0x400), Some((0x1800, 0x400))),
        Ok(None)
    );
    // larger than anything available
    assert_eq!(block.add_reserved_region_dynamic(0x2000, None, None), Ok(None));
    // an alignment that no machine word holds
    assert_eq!(
        block.add_reserved_region_dynamic(usize::MAX, None, None),
        Ok(None)
    );
    assert_eq!(block.reserved_region_size(), 2);
    // an alignment of 0 counts as none
    assert_eq!(
        block.add_reserved_region_dynamic(0x40, Some(0), None),
        Ok(Some(0x11C0))
    );
    assert_eq!(block.reserved_region(0), MemoryRegions::from_parts(0x1000, 0x200));
    assert_eq!(block.check_regions(), Ok(()));
    assert_eq!(block.region_size(), 2);
    assert_eq!(block.region(0), MemoryRegions::from_parts(0x1200, 0x600));
    assert_eq!(block.region(1), MemoryRegions::from_parts(0x1900, 0x700));
}

#[test]
fn dynamic_reservation_skips_reserved_regions() {
    let mut block = MemoryBlock::init();
    block
        .add_region(&MemoryRegions::from_parts(0x1000, 0x400))
        .unwrap();
    block
        .add_region(&MemoryRegions::from_parts(0x4000, 0x1000))
        .unwrap();
    block
        .add_reserved_region(&MemoryRegions::from_parts(0x1080, 0x80))
        .unwrap();
    block
        .add_reserved_region(&MemoryRegions::from_parts(0x1200, 0x180))
        .unwrap();
    // 0x1000 and 0x1200 clash with reserved regions, 0x1100 is free for 0x100 bytes
    assert_eq!(
        block.add_reserved_region_dynamic(0x100, Some(0x100), None),
        Ok(Some(0x1100))
    );
    // nothing of 0x200 bytes is left in the first region
    assert_eq!(
        block.add_reserved_region_dynamic(0x200, Some(0x80), None),
        Ok(Some(0x4000))
    );
}

#[test]
fn dynamic_reservation_needs_a_free_slot() {
    let mut block = MemoryBlock::init();
    block
        .add_region(&MemoryRegions::from_parts(0x10_0000, 0x10_0000))
        .unwrap();
    for i in 0..128 {
        block
            .add_reserved_region(&MemoryRegions::from_parts(0x10_0000 + 0x1000 * i, 0x100))
            .unwrap();
    }
    assert_eq!(
        block.add_reserved_region_dynamic(0x100, None, None),
        Err(AllocError::CapacityExceeded)
    );
}

#[test]
fn trim_returns_reserved_ranges_with_budget() {
    let mut block = finalized(0x1000, 0xF000);
    let layout = Layout::from_size_align(0x100, 0x100).unwrap();
    assert_eq!(block.allocate_region(layout), Some(0x1000));
    let ranges = block.trim(0x1000);
    assert_eq!(ranges, vec![(0x1000, 0x100), (0x2000, 0x1000)]);

    // the budget joins a range that it touches
    let mut other = finalized(0x1000, 0xF000);
    let page = Layout::from_size_align(0x1000, 0x1000).unwrap();
    assert_eq!(other.allocate_region(page), Some(0x1000));
    assert_eq!(other.trim(0x800), vec![(0x1000, 0x1800)]);

    // no room for the budget: the ranges are returned as they are
    let mut small = finalized(0x1000, 0x1000);
    assert_eq!(small.allocate_region(layout), Some(0x1000));
    assert_eq!(small.trim(0x10000), vec![(0x1000, 0x100)]);

    // before the lists are finalised nothing is carved
    let mut open = MemoryBlock::init();
    open.add_region(&MemoryRegions::from_parts(0x1000, 0x1000))
        .unwrap();
    open.add_reserved_region(&MemoryRegions::from_parts(0x1100, 0x100))
        .unwrap();
    assert_eq!(open.trim(0x100), vec![(0x1100, 0x100)]);
}

#[test]
fn migration_doubles_both_capacities() {
    let mut block = finalized(0x4000_0000, 0x20_0000);
    let layout = Layout::from_size_align(0x10, 0x1000).unwrap();
    assert_eq!(block.store_address(), None);
    for _ in 0..119 {
        assert!(block.is_serviceable());
        assert!(block.allocate_region(layout).is_some());
    }
    assert_eq!(block.region_size(), 119);
    assert_eq!(block.region_capacity(), 128);
    assert_eq!(block.reserved_region_capacity(), 128);
    let universe = total(&block);
    assert!(block.is_serviceable());
    let next = block.allocate_region(layout).unwrap();
    assert_eq!(block.region_capacity(), 256);
    assert_eq!(block.reserved_region_capacity(), 256);
    // the store of 8192 bytes lies behind the last block, the block behind the store
    let store = block.store_address().unwrap();
    assert_eq!(store, 0x4000_0000 + 119 * 0x1000);
    assert_eq!(next, store + 0x2000);
    assert_eq!(total(&block), universe);
    assert!(sorted(&block));
    // the store is reserved like any block
    let mut found = false;
    for i in 0..block.reserved_region_size() {
        let r = block.reserved_region(i);
        if r.address <= store && store + 0x2000 <= r.address + r.size {
            found = true;
        }
    }
    assert!(found);
    assert_eq!(block.allocate_region(layout), Some(next + 0x1000));
}

#[test]
fn migration_needs_room_for_the_store() {
    let mut block = MemoryBlock::init();
    // 119 regions of 0x10 bytes: none has room for a store of 8192 bytes
    for i in 0..119 {
        block
            .add_region(&MemoryRegions::from_parts(0x1000 * (i + 1), 0x10))
            .unwrap();
    }
    block.check_regions().unwrap();
    assert!(!block.is_serviceable());
    let mut roomy = finalized(0x1000, 0x1000);
    assert!(roomy.is_serviceable());
    let layout = Layout::from_size_align(0x10, 0x10).unwrap();
    assert_eq!(roomy.allocate_region(layout), Some(0x1000));
}

#[test]
fn deallocate_before_finalize_and_of_nothing() {
    let mut block = MemoryBlock::init();
    block
        .add_region(&MemoryRegions::from_parts(0x1000, 0x1000))
        .unwrap();
    let layout = Layout::from_size_align(0x100, 0x10).unwrap();
    block.deallocate_region(0x1000, layout);
    assert_eq!(block.region_size(), 1);
    assert_eq!(block.region(0), MemoryRegions::from_parts(0x1000, 0x1000));
    block.check_regions().unwrap();
    let empty = Layout::from_size_align(0, 0x10).unwrap();
    block.deallocate_region(0x1000, empty);
    assert_eq!(block.region_size(), 1);
    assert_eq!(block.reserved_region_size(), 0);
}

#[test]
fn release_of_first_and_last_part() {
    let mut block = finalized(0x1000, 0x1000);
    let l = Layout::from_size_align(0x300, 0x100).unwrap();
    assert_eq!(block.allocate_region(l), Some(0x1000));
    let part = Layout::from_size_align(0x100, 0x100).unwrap();
    block.deallocate_region(0x1000, part);
    assert_eq!(block.reserved_region_size(), 1);
    assert_eq!(block.reserved_region(0), MemoryRegions::from_parts(0x1100, 0x200));
    block.deallocate_region(0x1200, part);
    assert_eq!(block.reserved_region(0), MemoryRegions::from_parts(0x1100, 0x100));
    assert_eq!(block.region_size(), 2);
    assert_eq!(block.region(0), MemoryRegions::from_parts(0x1000, 0x100));
    assert_eq!(block.region(1), MemoryRegions::from_parts(0x1200, 0xE00));
}

#[test]
fn layout_rules() {
    assert!(Layout::from_size_align(0, 1).is_ok());
    assert!(Layout::from_size_align(8, 0).is_err());
    assert!(Layout::from_size_align(8, 3).is_err());
    assert!(Layout::from_size_align(isize::MAX as usize, 1).is_ok());
    assert!(Layout::from_size_align(isize::MAX as usize, 2).is_err());
    assert!(Layout::from_size_align(isize::MAX as usize + 1, 1).is_err());
    let l = Layout::from_size_align(24, 16).unwrap();
    assert_eq!((l.size(), l.align()), (24, 16));
    assert_eq!(bootcore::layout::next_power_of_two(0), Some(1));
    assert_eq!(bootcore::layout::next_power_of_two(17), Some(32));
    assert_eq!(bootcore::layout::next_power_of_two(32), Some(32));
    assert_eq!(bootcore::layout::next_power_of_two(usize::MAX), None);
    assert_eq!(bootcore::layout::next_multiple_of(0x1001, 0x100), Some(0x1100));
    assert_eq!(bootcore::layout::next_multiple_of(0x1100, 0x100), Some(0x1100));
    assert_eq!(bootcore::layout::next_multiple_of(usize::MAX, 2), None);
    assert!(bootcore::layout::is_power_of_two(4096));
    assert!(!bootcore::layout::is_power_of_two(0));
    assert!(!bootcore::layout::is_power_of_two(24));
}

#[test]
fn invariant_is_tested() {
    let mut block = MemoryBlock::init();
    assert!(block.is_well_formed());
    for address in [0x1000usize, 0x2000, 0x3000] {
        block
            .add_region(&MemoryRegions::from_parts(address, 0x100))
            .unwrap();
    }
    assert!(block.is_well_formed());
    // a region that runs over two regions behind it breaks the order
    block
        .add_region(&MemoryRegions::from_parts(0x1800, 0x3000))
        .unwrap();
    assert_eq!(block.region_size(), 3);
    assert_eq!(block.region(1), MemoryRegions::from_parts(0x1800, 0x3000));
    assert_eq!(block.region(2), MemoryRegions::from_parts(0x3000, 0x100));
    assert!(!block.is_well_formed());

    // an empty region is kept as it is
    let mut empty = MemoryBlock::init();
    empty
        .add_region(&MemoryRegions::from_parts(0x1000, 0))
        .unwrap();
    assert_eq!(empty.region_size(), 1);
    assert!(!empty.is_well_formed());

    let mut fine = finalized(0x1000, 0x1000);
    let layout = Layout::from_size_align(0x100, 0x10).unwrap();
    fine.allocate_region(layout).unwrap();
    assert!(fine.is_well_formed());
    assert!(bootcore::region::is_sorted_list(&vec![
        MemoryRegions::from_parts(0, 8),
        MemoryRegions::from_parts(8, 8)
    ]));
    assert!(!bootcore::region::is_sorted_list(&vec![
        MemoryRegions::from_parts(0, 9),
        MemoryRegions::from_parts(8, 8)
    ]));
    assert!(!bootcore::region::is_sorted_list(&vec![MemoryRegions::from_parts(
        usize::MAX,
        8
    )]));
    assert!(bootcore::region::are_lists_apart(
        &vec![MemoryRegions::from_parts(0, 8)],
        &vec![MemoryRegions::from_parts(8, 8)]
    ));
    assert!(!bootcore::region::are_lists_apart(
        &vec![MemoryRegions::from_parts(0, 9)],
        &vec![MemoryRegions::from_parts(8, 8)]
    ));
    assert_eq!(MemoryRegions::from_parts(0x10, 0x20).end(), 0x30);
    assert_eq!(
        bootcore::region::search_address(&vec![MemoryRegions::from_parts(8, 8)], 8),
        Ok(0)
    );
    assert_eq!(
        bootcore::region::search_address(&vec![MemoryRegions::from_parts(8, 8)], 9),
        Err(1)
    );
}

#[test]
fn range_list_names_the_reason() {
    let layout = Layout::from_size_align(0x800, 0x100).unwrap();
    let mut block = MemoryBlock::init();
    block
        .add_region(&MemoryRegions::from_parts(0x1000, 0x1000))
        .unwrap();
    assert_eq!(block.try_allocate_region(layout), Err(AllocError::NotAllocatable));
    block.check_regions().unwrap();
    assert_eq!(block.try_allocate_region(layout), Ok(0x1000));
    assert_eq!(block.try_allocate_region(layout), Ok(0x1800));
    assert_eq!(block.try_allocate_region(layout), Err(AllocError::OutOfMemory));
}

#[test]
fn finalize_runs_out_of_slots_at_a_split() {
    let mut block = MemoryBlock::init();
    for i in 0..120 {
        block
            .add_region(&MemoryRegions::from_parts(0x10000 * (i + 1), 0x1000))
            .unwrap();
    }
    for i in 0..9 {
        block
            .add_reserved_region(&MemoryRegions::from_parts(0x10000 * (i + 1) + 0x100, 0x100))
            .unwrap();
    }
    assert_eq!(block.check_regions(), Err(AllocError::CapacityExceeded));
    // eight regions have been split, the ninth is as it was
    assert_eq!(block.region_size(), 128);
    assert_eq!(block.region(15), MemoryRegions::from_parts(0x80200, 0xE00));
    assert_eq!(block.region(16), MemoryRegions::from_parts(0x90000, 0x1000));
    assert_eq!(block.reserved_region_size(), 9);
    assert!(!block.is_finalized());
    assert!(block.is_well_formed());
}
