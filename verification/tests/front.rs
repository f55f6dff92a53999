use bootcore::allocator::add_available_region;
use bootcore::allocator::add_reserved_region;
use bootcore::allocator::allocate_dynamic_reserved_region;
use bootcore::allocator::allocate_dynamic_reserved_region_in;
use bootcore::allocator::finalize;
use bootcore::allocator::init;
use bootcore::allocator::trim;
use bootcore::allocator::MemoryAllocator;
use bootcore::error::AllocError;
use bootcore::layout::Layout;

const MAX_BLOCK: usize = 4096;

fn ready() -> MemoryAllocator<MAX_BLOCK> {
    let mut front = MemoryAllocator::<MAX_BLOCK>::new();
    init(&mut front);
    add_available_region(&mut front, 0x10_0000, 0x10_0000).unwrap();
    add_reserved_region(&mut front, 0x10_0000, 0x1000).unwrap();
    finalize(&mut front).unwrap();
    front
}

#[test]
fn front_before_init() {
    let mut front = MemoryAllocator::<MAX_BLOCK>::new();
    assert_eq!(
        add_available_region(&mut front, 0x1000, 0x1000),
        Err(AllocError::NotInitialized)
    );
    assert_eq!(
        add_reserved_region(&mut front, 0x1000, 0x1000),
        Err(AllocError::NotInitialized)
    );
    assert_eq!(
        allocate_dynamic_reserved_region(&mut front, 0x1000, None, None),
        Err(AllocError::NotInitialized)
    );
    assert_eq!(finalize(&mut front), Err(AllocError::NotInitialized));
    let layout = Layout::from_size_align(64, 8).unwrap();
    assert_eq!(front.allocate(layout), None);
    let large = Layout::from_size_align(0x10000, 8).unwrap();
    assert_eq!(front.allocate(large), None);
    assert_eq!(front.alloc_for_buddy_allocator(), None);
    assert_eq!(trim(front, 0x1000), vec![]);
}

#[test]
fn front_init_is_idempotent() {
    let mut front = MemoryAllocator::<MAX_BLOCK>::new();
    init(&mut front);
    add_available_region(&mut front, 0x10_0000, 0x10_0000).unwrap();
    init(&mut front);
    front.init();
    assert_eq!(finalize(&mut front), Ok(()));
    assert_eq!(finalize(&mut front), Ok(()));
    assert_eq!(
        add_available_region(&mut front, 0x40_0000, 0x1000),
        Err(AllocError::AlreadyFinalized)
    );
    assert_eq!(
        add_reserved_region(&mut front, 0x10_0000, 0x1000),
        Err(AllocError::AlreadyFinalized)
    );
    let large = Layout::from_size_align(0x2000, 0x1000).unwrap();
    assert_eq!(front.allocate(large), Some(0x10_0000));
}

#[test]
fn front_before_finalize_hands_out_nothing() {
    let mut front = MemoryAllocator::<MAX_BLOCK>::new();
    init(&mut front);
    add_available_region(&mut front, 0x10_0000, 0x10_0000).unwrap();
    let small = Layout::from_size_align(64, 8).unwrap();
    let large = Layout::from_size_align(0x2000, 0x1000).unwrap();
    assert_eq!(front.allocate(small), None);
    assert_eq!(front.allocate(large), None);
}

#[test]
fn front_routes_by_size_and_alignment() {
    let mut front = ready();
    // small: the buddy allocator takes a fresh block from the range list
    let small = Layout::from_size_align(64, 8).unwrap();
    assert_eq!(front.allocate(small), Some(0x10_1000));
    assert_eq!(front.allocate(small), Some(0x10_1040));
    // the largest block of the buddy allocator
    let top = Layout::from_size_align(MAX_BLOCK, MAX_BLOCK).unwrap();
    assert_eq!(front.allocate(top), Some(0x10_2000));
    // one byte more goes to the range list
    let over = Layout::from_size_align(MAX_BLOCK + 1, 8).unwrap();
    assert_eq!(front.allocate(over), Some(0x10_3000));
    // a small block with a large alignment goes there too
    let wide = Layout::from_size_align(8, 0x2000).unwrap();
    assert_eq!(front.allocate(wide), Some(0x10_6000));
    // and the small blocks still come from the first block
    assert_eq!(front.allocate(small), Some(0x10_1080));

    front.deallocate(0x10_3000, over);
    assert_eq!(front.allocate(over), Some(0x10_3000));
    front.deallocate(0x10_1040, small);
    assert_eq!(front.allocate(small), Some(0x10_1040));
}

#[test]
fn front_runs_out_of_memory() {
    let mut front = MemoryAllocator::<MAX_BLOCK>::new();
    init(&mut front);
    add_available_region(&mut front, 0x10_0000, 0x1800).unwrap();
    finalize(&mut front).unwrap();
    let top = Layout::from_size_align(MAX_BLOCK, MAX_BLOCK).unwrap();
    assert_eq!(front.allocate(top), Some(0x10_0000));
    // 0x800 bytes are left in the range list: no block for the buddy allocator
    let small = Layout::from_size_align(64, 8).unwrap();
    assert_eq!(front.allocate(small), None);
    assert_eq!(front.alloc_for_buddy_allocator(), None);
    let large = Layout::from_size_align(0x2000, 8).unwrap();
    assert_eq!(front.allocate(large), None);
    front.deallocate(0x10_0000, top);
    assert_eq!(front.allocate(small), Some(0x10_0000));
}

#[test]
fn front_dynamic_reservation_and_trim() {
    let mut front = MemoryAllocator::<MAX_BLOCK>::new();
    init(&mut front);
    add_available_region(&mut front, 0x10_0000, 0x10_0000).unwrap();
    add_reserved_region(&mut front, 0x10_0000, 0x1000).unwrap();
    assert_eq!(
        allocate_dynamic_reserved_region(&mut front, 0x3000, Some(0x1000), Some((0x18_0000, 0x8000))),
        Ok(Some(0x18_0000))
    );
    assert_eq!(
        allocate_dynamic_reserved_region(&mut front, 0x3000, None, None),
        Ok(Some(0x10_4000))
    );
    assert_eq!(
        allocate_dynamic_reserved_region(&mut front, 0x20_0000, None, None),
        Ok(None)
    );
    finalize(&mut front).unwrap();
    let large = Layout::from_size_align(0x3000, 0x1000).unwrap();
    assert_eq!(front.allocate(large), Some(0x10_1000));
    assert_eq!(
        trim(front, 0x2000),
        vec![(0x10_1000, 0x3000), (0x10_7000, 0x2000)]
    );
}

#[test]
fn front_checks_itself() {
    let mut front = ready();
    assert!(front.is_well_formed());
    assert!(front.is_ready());
    let small = Layout::from_size_align(64, 8).unwrap();
    let a = front.allocate(small).unwrap();
    assert!(front.is_well_formed());
    assert!(front.can_take_back(a, small));
    // not aligned to the block, and beyond the address space
    assert!(!front.can_take_back(a + 8, small));
    assert!(!front.can_take_back(usize::MAX - 8, small));
    // large blocks go back to the range list
    let large = Layout::from_size_align(0x2000, 0x1000).unwrap();
    assert!(front.can_take_back(0x10_3000, large));
    front.deallocate(a, small);
    assert!(front.is_well_formed());
    // nothing is handed out any more
    assert!(!front.can_take_back(a, small));
    assert!(MemoryAllocator::<MAX_BLOCK>::new().is_well_formed());
    assert!(!MemoryAllocator::<24>::new().is_well_formed());
    assert!(!MemoryAllocator::<8>::new().is_well_formed());
}

#[test]
fn front_tries_the_ranges_in_order() {
    let mut front = MemoryAllocator::<MAX_BLOCK>::new();
    assert_eq!(
        allocate_dynamic_reserved_region_in(&mut front, 0x1000, None, &vec![(0, 0x1000)]),
        Err(AllocError::NotInitialized)
    );
    init(&mut front);
    add_available_region(&mut front, 0x10_0000, 0x10_0000).unwrap();
    // the first range lies outside the memory, the second has room
    assert_eq!(
        allocate_dynamic_reserved_region_in(
            &mut front,
            0x2000,
            Some(0x1000),
            &vec![(0x4000_0000, 0x10_0000), (0x18_0000, 0x8000), (0x10_0000, 0x8000)]
        ),
        Ok(Some(0x18_0000))
    );
    // no range has room
    assert_eq!(
        allocate_dynamic_reserved_region_in(
            &mut front,
            0x2000,
            None,
            &vec![(0x4000_0000, 0x10_0000), (0x18_0000, 0x2000)]
        ),
        Ok(None)
    );
    // without ranges the lowest address is taken
    assert_eq!(
        allocate_dynamic_reserved_region_in(&mut front, 0x2000, None, &vec![]),
        Ok(Some(0x10_0000))
    );
    finalize(&mut front).unwrap();
    assert_eq!(
        allocate_dynamic_reserved_region_in(&mut front, 0x2000, None, &vec![(0x10_0000, 0x10_0000)]),
        Err(AllocError::AlreadyFinalized)
    );
    assert!(front.is_well_formed());
}

#[test]
fn front_names_the_reason() {
    let small = Layout::from_size_align(64, 8).unwrap();
    let large = Layout::from_size_align(0x2000, 0x1000).unwrap();
    let mut front = MemoryAllocator::<MAX_BLOCK>::new();
    assert_eq!(front.try_allocate(small), Err(AllocError::NotInitialized));
    assert_eq!(front.try_allocate(large), Err(AllocError::NotInitialized));
    init(&mut front);
    add_available_region(&mut front, 0x10_0000, 0x3000).unwrap();
    assert_eq!(front.try_allocate(small), Err(AllocError::NotAllocatable));
    assert_eq!(front.try_allocate(large), Err(AllocError::NotAllocatable));
    finalize(&mut front).unwrap();
    assert_eq!(front.try_allocate(large), Ok(0x10_0000));
    assert_eq!(front.try_allocate(large), Err(AllocError::OutOfMemory));
    assert_eq!(front.try_allocate(small), Ok(0x10_2000));
    let top = Layout::from_size_align(MAX_BLOCK, MAX_BLOCK).unwrap();
    assert_eq!(front.try_allocate(top), Err(AllocError::OutOfMemory));
}
