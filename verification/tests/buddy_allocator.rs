use bootcore::buddy_allocator::BuddyAllocator;
use bootcore::buddy_allocator::HeapSource;
use bootcore::buddy_allocator::NoHeap;
use bootcore::buddy_allocator::MINIMUM_ALLOCATABLE_BYTES;
use bootcore::error::AllocError;
use bootcore::layout::Layout;
use std::cell::Cell;

const MAX_ALLOC: usize = 4096; // 4KB
const HEAP_SIZE: usize = MAX_ALLOC * 4; // 16KB
const HEAP_ADDR: usize = 0x4000_0000;

struct Recorder<'a> {
    called: &'a Cell<bool>,
}

impl<'a> HeapSource for Recorder<'a> {
    fn fetch(&self) -> Option<usize> {
        self.called.set(true);
        None
    }
}

struct OneBlock<'a> {
    left: &'a Cell<Option<usize>>,
}

impl<'a> HeapSource for OneBlock<'a> {
    fn fetch(&self) -> Option<usize> {
        self.left.take()
    }
}

#[test]
fn test_new() {
    let allocator = BuddyAllocator::<MAX_ALLOC, NoHeap>::new(None);
    for i in 0..BuddyAllocator::<MAX_ALLOC, NoHeap>::level_count() {
        assert!(allocator.free_list(i).is_none());
    }
    assert_eq!(allocator.total_size(), 0);
    assert_eq!(allocator.allocated(), 0);
}

#[test]
fn test_set_memory_detailed() {
    let heap_addr = HEAP_ADDR;

    let mut allocator = BuddyAllocator::<MAX_ALLOC, NoHeap>::new(None);
    allocator.set_memory(heap_addr, HEAP_SIZE);
    let top_level = BuddyAllocator::<MAX_ALLOC, NoHeap>::level_count() - 1;
    for i in 0..top_level {
        assert_eq!(allocator.free_list(i).size(), 0);
    }
    assert_eq!(allocator.free_list(top_level).size(), HEAP_SIZE / MAX_ALLOC);
    for i in 0..(HEAP_SIZE / MAX_ALLOC) {
        assert!(i < allocator.free_list(top_level).size(), "Node should exist");
        let node = allocator.free_list(top_level).get(i);
        assert_eq!(node, heap_addr + i * MAX_ALLOC);
    }
}

#[test]
fn test_alloc_dealloc_simple() {
    let heap_addr = HEAP_ADDR;

    let mut allocator = BuddyAllocator::<MAX_ALLOC, NoHeap>::new(None);
    allocator.set_memory(heap_addr, HEAP_SIZE);

    let layout = Layout::from_size_align(128, 8).unwrap();
    let ptr = allocator.allocate(layout).unwrap();

    assert!(ptr != 0);
    let level = BuddyAllocator::<MAX_ALLOC, NoHeap>::size2level_next_power(128).unwrap();
    assert_eq!(
        allocator.allocated(),
        BuddyAllocator::<MAX_ALLOC, NoHeap>::level2size(level)
    );

    allocator.dealloc(ptr, layout);
    assert_eq!(allocator.allocated(), 0);
}

#[test]
fn test_buddy_merge() {
    const SMALL_HEAP_SIZE: usize = 256;
    const MAX_SMALL_ALLOC: usize = 128;
    let heap_addr = HEAP_ADDR;

    let mut allocator = BuddyAllocator::<MAX_SMALL_ALLOC, NoHeap>::new(None);
    allocator.set_memory(heap_addr, SMALL_HEAP_SIZE);

    let layout1 = Layout::from_size_align(32, 32).unwrap();
    let ptr1 = allocator.allocate(layout1).unwrap();

    let layout2 = Layout::from_size_align(32, 32).unwrap();
    let ptr2 = allocator.allocate(layout2).unwrap();

    let layout3 = Layout::from_size_align(64, 64).unwrap();
    let ptr3 = allocator.allocate(layout3).unwrap();

    allocator.dealloc(ptr1, layout1);
    allocator.dealloc(ptr2, layout2);
    allocator.dealloc(ptr3, layout3);

    assert_eq!(allocator.allocated(), 0);
    let top_level = BuddyAllocator::<MAX_SMALL_ALLOC, NoHeap>::level_count() - 1;
    let count = allocator.free_list(top_level).size();
    assert_eq!(count, 2);
}

#[test]
fn test_buddy_merge_step_by_step() {
    const SMALL_HEAP_SIZE: usize = 256;
    const MAX_SMALL_ALLOC: usize = 128;
    let heap_start = HEAP_ADDR;

    let mut allocator = BuddyAllocator::<MAX_SMALL_ALLOC, NoHeap>::new(None);
    allocator.set_memory(heap_start, SMALL_HEAP_SIZE);

    let top_level = BuddyAllocator::<MAX_SMALL_ALLOC, NoHeap>::level_count() - 1;
    let level_64 = top_level - 1;
    let level_32 = top_level - 2;

    assert_eq!(allocator.free_list(top_level).size(), 2);

    let layout32 = Layout::from_size_align(32, 32).unwrap();
    let layout64 = Layout::from_size_align(64, 64).unwrap();

    let ptr1 = allocator.allocate(layout32).unwrap();
    let ptr2 = allocator.allocate(layout32).unwrap();
    let ptr3 = allocator.allocate(layout64).unwrap();

    assert_eq!(ptr1, heap_start);
    assert_eq!(ptr2, heap_start + 32);
    assert_eq!(ptr3, heap_start + 64);

    allocator.dealloc(ptr1, layout32);
    allocator.dealloc(ptr2, layout32);
    assert_eq!(
        allocator.free_list(level_64).size(),
        1,
        "After merging 2x32, a 64 block should exist"
    );

    allocator.dealloc(ptr3, layout64);

    assert_eq!(allocator.allocated(), 0);
    assert_eq!(allocator.free_list(level_32).size(), 0);
    assert_eq!(
        allocator.free_list(level_64).size(),
        0,
        "After final merge, level 64 should be empty"
    );
    assert_eq!(allocator.free_list(top_level).size(), 2);
}

#[test]
fn test_alloc_dealloc_split_and_merge() {
    let heap_addr = HEAP_ADDR;

    let mut allocator = BuddyAllocator::<MAX_ALLOC, NoHeap>::new(None);
    allocator.set_memory(heap_addr, MAX_ALLOC);

    let top_level = BuddyAllocator::<MAX_ALLOC, NoHeap>::level_count() - 1;
    let level_2048 = top_level - 1;
    let level_1024 = top_level - 2;
    let level_512 = top_level - 3;

    let layout = Layout::from_size_align(512, 8).unwrap();
    let ptr = allocator.allocate(layout).unwrap();

    assert_eq!(ptr, heap_addr);
    assert_eq!(allocator.allocated(), 512);
    assert_eq!(allocator.free_list(top_level).size(), 0);
    assert_eq!(allocator.free_list(level_2048).size(), 1);
    assert_eq!(allocator.free_list(level_1024).size(), 1);
    assert_eq!(allocator.free_list(level_512).size(), 1);

    allocator.dealloc(ptr, layout);

    assert_eq!(allocator.allocated(), 0);
    assert_eq!(allocator.free_list(level_512).size(), 0);
    assert_eq!(allocator.free_list(level_1024).size(), 0);
    assert_eq!(allocator.free_list(level_2048).size(), 0);
    assert_eq!(allocator.free_list(top_level).size(), 1);
    for i in 0..top_level {
        assert_eq!(allocator.free_list(i).size(), 0);
    }
}

#[test]
fn test_out_of_memory() {
    // Test the case where the external allocator is called but returns None.
    let external_heap_called = Cell::new(false);
    let heap_allocator = Recorder {
        called: &external_heap_called,
    };

    let mut allocator = BuddyAllocator::<MAX_ALLOC, Recorder>::new(Some(heap_allocator));

    // Set up the heap.
    let heap_addr = HEAP_ADDR;
    allocator.set_memory(heap_addr, MAX_ALLOC);

    // The first allocation should succeed.
    let layout = Layout::from_size_align(MAX_ALLOC, 8).unwrap();
    let ptr = allocator.allocate(layout);
    assert!(ptr.is_ok());
    assert!(!external_heap_called.get()); // Not called at this point.

    // The second allocation will fail because there is no memory and the external allocator will return None.
    let layout2 = Layout::from_size_align(8, 8).unwrap();
    let ptr2 = allocator.allocate(layout2);
    assert!(ptr2.is_err());
    assert!(external_heap_called.get()); // Verify that the external allocator was called.
}

#[test]
fn test_too_large_allocation() {
    let heap_addr = HEAP_ADDR;

    let mut allocator = BuddyAllocator::<MAX_ALLOC, NoHeap>::new(None);
    allocator.set_memory(heap_addr, HEAP_SIZE);

    let layout = Layout::from_size_align(MAX_ALLOC + 1, 8).unwrap();
    let result = allocator.allocate(layout);
    assert!(result.is_err());
}

#[test]
fn test_alloc_max_size() {
    let heap_addr = HEAP_ADDR;

    let mut allocator = BuddyAllocator::<MAX_ALLOC, NoHeap>::new(None);
    allocator.set_memory(heap_addr, HEAP_SIZE);

    let layout = Layout::from_size_align(MAX_ALLOC, MAX_ALLOC).unwrap();
    let ptr = allocator.allocate(layout).unwrap();
    assert!(ptr != 0);
    assert_eq!(allocator.allocated(), MAX_ALLOC);
    allocator.dealloc(ptr, layout);
    assert_eq!(allocator.allocated(), 0);
}

#[test]
fn test_alloc_zero_size() {
    let heap_addr = HEAP_ADDR;

    let mut allocator = BuddyAllocator::<MAX_ALLOC, NoHeap>::new(None);
    allocator.set_memory(heap_addr, HEAP_SIZE);

    let layout = Layout::from_size_align(0, 1).unwrap();
    let ptr = allocator.allocate(layout).unwrap();
    assert!(ptr != 0);
    assert_eq!(allocator.allocated(), MINIMUM_ALLOCATABLE_BYTES);
    allocator.dealloc(ptr, layout);
    assert_eq!(allocator.allocated(), 0);
}

#[test]
fn buddy_merge_from_address_zero() {
    // One top block of 128 bytes at address 0.
    let mut allocator = BuddyAllocator::<128, NoHeap>::new(None);
    allocator.set_memory(0, 128);
    let l32 = Layout::from_size_align(32, 32).unwrap();
    let l64 = Layout::from_size_align(64, 64).unwrap();
    let a = allocator.allocate(l32).unwrap();
    let b = allocator.allocate(l32).unwrap();
    let c = allocator.allocate(l64).unwrap();
    assert_eq!((a, b, c), (0, 32, 64));
    assert_eq!(allocator.allocated(), 128);

    allocator.dealloc(b, l32);
    allocator.dealloc(a, l32);
    // levels: 16, 32, 64, 128
    assert_eq!(allocator.free_list(1).size(), 0);
    assert_eq!(allocator.free_list(2).size(), 1);
    assert_eq!(allocator.free_list(2).get(0), 0);

    allocator.dealloc(c, l64);
    assert_eq!(allocator.free_list(2).size(), 0);
    assert_eq!(allocator.free_list(3).size(), 1);
    assert_eq!(allocator.free_list(3).get(0), 0);
    assert_eq!(allocator.allocated(), 0);
}

#[test]
fn buddy_levels_and_sizes() {
    assert_eq!(BuddyAllocator::<4096, NoHeap>::level_count(), 9);
    assert_eq!(BuddyAllocator::<128, NoHeap>::level_count(), 4);
    assert_eq!(BuddyAllocator::<16, NoHeap>::level_count(), 1);
    assert_eq!(BuddyAllocator::<4096, NoHeap>::level2size(0), 16);
    assert_eq!(BuddyAllocator::<4096, NoHeap>::level2size(5), 512);
    assert_eq!(BuddyAllocator::<4096, NoHeap>::size2level(512), 5);
    assert_eq!(BuddyAllocator::<4096, NoHeap>::size2level(16), 0);
    assert_eq!(BuddyAllocator::<4096, NoHeap>::size2level_next_power(17), Some(1));
    assert_eq!(BuddyAllocator::<4096, NoHeap>::size2level_next_power(0), Some(0));
    assert_eq!(
        BuddyAllocator::<4096, NoHeap>::size2level_next_power(usize::MAX),
        None
    );
}

#[test]
fn buddy_split_leaves_upper_halves() {
    let mut allocator = BuddyAllocator::<4096, NoHeap>::new(None);
    allocator.set_memory(0x10000, 4096);
    let layout = Layout::from_size_align(16, 16).unwrap();
    assert_eq!(allocator.allocate(layout), Ok(0x10000));
    // every level below the top holds the upper half of the block that was split
    for level in 0..8 {
        assert_eq!(allocator.free_list(level).size(), 1);
        assert_eq!(allocator.free_list(level).get(0), 0x10000 + (16 << level));
    }
    assert_eq!(allocator.free_list(8).size(), 0);
    // the next small request takes the buddy of the first
    assert_eq!(allocator.allocate(layout), Ok(0x10010));
    assert_eq!(allocator.allocated(), 32);
}

#[test]
fn buddy_alignment_is_kept() {
    let mut allocator = BuddyAllocator::<4096, NoHeap>::new(None);
    allocator.set_memory(0x10000, 8192);
    let small = Layout::from_size_align(16, 16).unwrap();
    let wide = Layout::from_size_align(24, 1024).unwrap();
    let first = allocator.allocate(small).unwrap();
    let second = allocator.allocate(wide).unwrap();
    assert_eq!(first % 16, 0);
    assert_eq!(second % 1024, 0);
    assert_eq!(second, 0x10400);
    // the block is counted with its alignment, and given back by its size
    assert_eq!(allocator.allocated(), 16 + 1024);
    allocator.dealloc(second, wide);
    assert_eq!(allocator.allocated(), 16 + 1024 - 32);
}

#[test]
fn buddy_refill_from_source() {
    let left = Cell::new(Some(0x20000usize));
    let mut allocator = BuddyAllocator::<4096, OneBlock>::new(Some(OneBlock { left: &left }));
    assert!(allocator.needs_refill(Layout::from_size_align(64, 8).unwrap()));
    let layout = Layout::from_size_align(64, 8).unwrap();
    assert_eq!(allocator.allocate(layout), Ok(0x20000));
    assert_eq!(allocator.total_size(), 4096);
    assert_eq!(allocator.allocated(), 64);
    assert!(!allocator.needs_refill(layout));
    // the source is empty now, and a block of the top size is not left
    let top = Layout::from_size_align(4096, 4096).unwrap();
    assert!(allocator.needs_refill(top));
    assert_eq!(allocator.allocate(top), Err(AllocError::OutOfMemory));
    assert_eq!(allocator.allocated(), 64);
}

#[test]
fn buddy_rejects_block_that_is_not_aligned() {
    let mut allocator = BuddyAllocator::<4096, NoHeap>::new(Some(NoHeap {}));
    let layout = Layout::from_size_align(64, 8).unwrap();
    assert_eq!(
        allocator.alloc_with_block(layout, Some(0x20010)),
        Err(AllocError::OutOfMemory)
    );
    assert_eq!(allocator.total_size(), 0);
    assert_eq!(allocator.alloc_with_block(layout, Some(0x20000)), Ok(0x20000));
    allocator.change_allocator(None);
    let top = Layout::from_size_align(4096, 4096).unwrap();
    assert_eq!(
        allocator.alloc_with_block(top, Some(0x30000)),
        Err(AllocError::OutOfMemory)
    );
}

#[test]
fn buddy_checks_itself() {
    let mut allocator = BuddyAllocator::<4096, NoHeap>::new(None);
    assert!(allocator.is_well_formed());
    assert!(!allocator.has_source());
    allocator.set_memory(0x10000, 8192);
    let layout = Layout::from_size_align(100, 4).unwrap();
    let a = allocator.allocate(layout).unwrap();
    let b = allocator.allocate(layout).unwrap();
    assert_eq!((a, b), (0x10000, 0x10080));
    assert!(allocator.is_well_formed());
    assert!(allocator.can_take_back(a, layout));
    assert!(!allocator.can_take_back(a + 64, layout));
    let too_large = Layout::from_size_align(8192, 4).unwrap();
    assert!(!allocator.can_take_back(a, too_large));
    allocator.dealloc(a, layout);
    assert!(allocator.is_well_formed());
    // the buddy of the first block is still handed out: no merge
    assert_eq!(allocator.free_list(3).size(), 1);
    assert_eq!(allocator.free_list(3).get(0), a);
    allocator.dealloc(b, layout);
    assert!(allocator.is_well_formed());
    assert_eq!(allocator.free_list(3).size(), 0);
    assert_eq!(allocator.free_list(8).size(), 2);
    assert!(!allocator.can_take_back(a, layout));
    assert!(!BuddyAllocator::<48, NoHeap>::new(None).is_well_formed());

    // giving a block back twice puts both of its halves on the list
    let mut twice = BuddyAllocator::<4096, NoHeap>::new(None);
    twice.set_memory(0x10000, 4096);
    let small = Layout::from_size_align(16, 16).unwrap();
    let first = twice.allocate(small).unwrap();
    let second = twice.allocate(small).unwrap();
    assert_eq!((first, second), (0x10000, 0x10010));
    twice.dealloc(second, small);
    assert!(twice.free_list(0).is_ascending());
    assert!(twice.is_well_formed());
}
