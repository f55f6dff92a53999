//! The range list: the record of the available and the reserved regions of
//! physical memory, from which large blocks are carved.
use vstd::prelude::*;
use crate::error::AllocError;
use crate::region::all_nonempty;
use crate::region::covered_by;
use crate::region::each_within;
use crate::layout::next_multiple_of;
use crate::layout::round_up;
use crate::layout::Layout;
use crate::search::first_where;
use crate::region::larger;
use crate::search::lemma_first_where;
use crate::region::lists_apart;
use crate::region::search_address;
use crate::region::lemma_lower_bound_splits;
use crate::region::lower_bound;
use crate::region::reaches_one_at_most;
use crate::region::sorted_disjoint;
use crate::region::span;
use crate::region::MemoryRegions;

verus! {

/// The number of regions that each list can hold at the start.
pub const INITIAL_CAPACITY: usize = 128;

/// The number of free slots below which the lists move to a larger store.
pub const HEADROOM: usize = 10;

/// The largest number of regions with which the lists can be finalised.
pub const SAFE_MAX: usize = 120;

/// The alignment of the store that the lists move to.
pub const PAGE_SIZE: usize = 4096;

/// The number of bytes that one region takes in the store.
pub const REGION_BYTES: usize = 16;

/// What a range list holds.
pub struct BlockState {
    /// The regions that may be handed out, in ascending order.
    pub available: Seq<MemoryRegions>,
    /// The regions that may not: before the lists are finalised those that
    /// were declared reserved, after it those that were handed out.
    pub reserved: Seq<MemoryRegions>,
    /// The number of regions that the store of `available` can hold.
    pub available_capacity: int,
    /// The number of regions that the store of `reserved` can hold.
    pub reserved_capacity: int,
    /// Whether the lists have been finalised.
    pub allocatable: bool,
    /// The address of the store that the lists moved to last, if they moved.
    pub store: Option<int>,
}

/// The range list.
pub struct MemoryBlock {
    regions: Vec<MemoryRegions>,
    reserved_regions: Vec<MemoryRegions>,
    region_capacity: usize,
    reserved_region_capacity: usize,
    allocatable: bool,
    store: Option<usize>,
}

impl View for MemoryBlock {
    type V = BlockState;

    closed spec fn view(&self) -> BlockState {
        BlockState {
            available: self.regions@,
            reserved: self.reserved_regions@,
            available_capacity: self.region_capacity as int,
            reserved_capacity: self.reserved_region_capacity as int,
            allocatable: self.allocatable,
            store: match self.store {
                Some(a) => Some(a as int),
                None => None,
            },
        }
    }
}

/// Which of the two lists an operation works on.
pub open spec fn list_of(v: BlockState, reserved: bool) -> Seq<MemoryRegions> {
    if reserved {
        v.reserved
    } else {
        v.available
    }
}

/// The capacity of one of the two lists.
pub open spec fn capacity_of(v: BlockState, reserved: bool) -> int {
    if reserved {
        v.reserved_capacity
    } else {
        v.available_capacity
    }
}

/// The state with one of the two lists replaced.
pub open spec fn with_list(v: BlockState, reserved: bool, s: Seq<MemoryRegions>) -> BlockState {
    if reserved {
        BlockState { reserved: s, ..v }
    } else {
        BlockState { available: s, ..v }
    }
}

/// The invariant of the range list: both lists are sorted and disjoint and
/// hold no empty region, neither is longer than its store, and once the
/// lists are finalised no available region shares an address with a
/// reserved one.
pub open spec fn state_wf(v: BlockState) -> bool {
    &&& sorted_disjoint(v.available)
    &&& sorted_disjoint(v.reserved)
    &&& all_nonempty(v.available)
    &&& all_nonempty(v.reserved)
    &&& v.available.len() <= v.available_capacity
    &&& v.reserved.len() <= v.reserved_capacity
    &&& INITIAL_CAPACITY <= v.available_capacity
    &&& INITIAL_CAPACITY <= v.reserved_capacity
    &&& v.allocatable ==> lists_apart(v.available, v.reserved)
}

impl MemoryBlock {
    /// The invariant of the range list.
    pub open spec fn wf(&self) -> bool {
        state_wf(self@)
    }

    /// What a new range list holds.
    pub open spec fn init_state() -> BlockState {
        BlockState {
            available: Seq::<MemoryRegions>::empty(),
            reserved: Seq::<MemoryRegions>::empty(),
            available_capacity: INITIAL_CAPACITY as int,
            reserved_capacity: INITIAL_CAPACITY as int,
            allocatable: false,
            store: None,
        }
    }

    /// An empty range list, not yet finalised, each list with room for 128 regions.
    pub fn init() -> (r: MemoryBlock)
        ensures
            r.wf(),
            r@ == Self::init_state(),
            r@.available == Seq::<MemoryRegions>::empty(),
            r@.reserved == Seq::<MemoryRegions>::empty(),
            r@.available_capacity == INITIAL_CAPACITY,
            r@.reserved_capacity == INITIAL_CAPACITY,
            !r@.allocatable,
            r@.store is None,
    {
        MemoryBlock {
            regions: Vec::new(),
            reserved_regions: Vec::new(),
            region_capacity: INITIAL_CAPACITY,
            reserved_region_capacity: INITIAL_CAPACITY,
            allocatable: false,
            store: None,
        }
    }

    /// Tests the invariant of the range list.
    pub fn is_well_formed(&self) -> (r: bool)
        ensures
            r == self.wf(),
    {
        if !crate::region::is_sorted_list(&self.regions) || !crate::region::is_sorted_list(
            &self.reserved_regions,
        ) {
            return false;
        }
        if self.regions.len() > self.region_capacity || self.reserved_regions.len()
            > self.reserved_region_capacity {
            return false;
        }
        if self.region_capacity < INITIAL_CAPACITY || self.reserved_region_capacity
            < INITIAL_CAPACITY {
            return false;
        }
        if self.allocatable {
            crate::region::are_lists_apart(&self.regions, &self.reserved_regions)
        } else {
            true
        }
    }

    /// Whether the lists have been finalised, so that memory can be handed out.
    pub fn is_finalized(&self) -> (r: bool)
        ensures
            r == self@.allocatable,
    {
        self.allocatable
    }

    /// Adds an available region. See [`MemoryBlock::add_region_internal`].
    pub fn add_region(&mut self, region: &MemoryRegions) -> (r: Result<(), AllocError>)
        requires
            old(self).wf(),
            region.fits(),
        ensures
            add_outcome(old(self)@, false, *region, final(self)@, r),
            region.size > 0 && reaches_one_at_most(old(self)@.available, *region)
                ==> final(self).wf(),
    {
        self.add_region_internal(false, region)
    }

    /// Adds a reserved region. See [`MemoryBlock::add_region_internal`].
    pub fn add_reserved_region(&mut self, region: &MemoryRegions) -> (r: Result<(), AllocError>)
        requires
            old(self).wf(),
            region.fits(),
        ensures
            add_outcome(old(self)@, true, *region, final(self)@, r),
            region.size > 0 && reaches_one_at_most(old(self)@.reserved, *region)
                ==> final(self).wf(),
    {
        self.add_region_internal(true, region)
    }

    /// Puts `region` into `list` at `insertion_point`, moving the regions behind it up by one.
    fn insert_region(
        list: &mut Vec<MemoryRegions>,
        insertion_point: usize,
        region: &MemoryRegions,
    )
        requires
            insertion_point <= old(list).len(),
        ensures
            final(list)@ == old(list)@.insert(insertion_point as int, *region),
    {
        list.insert(insertion_point, *region);
    }

    /// Fuses `region` with the neighbours that it touches at position `x` of
    /// `list`, or puts it in there where it touches none.
    fn add_and_merge_region(list: &mut Vec<MemoryRegions>, x: usize, region: &MemoryRegions)
        requires
            x <= old(list).len(),
            region.fits(),
            forall|i: int| 0 <= i < old(list).len() ==> (#[trigger] old(list)@[i]).fits(),
            x > 0 ==> old(list)@[x - 1].address <= region.address,
        ensures
            final(list)@ == merge_at(old(list)@, x as int, *region),
    {
        let mut pre_region_overlaps = false;
        let mut next_region_overlaps = false;
        if x > 0 {
            let pre_region = &list[x - 1];
            if region.address <= pre_region.end() {
                pre_region_overlaps = true;
            }
        }
        if x < list.len() {
            let next_region = &list[x];
            if region.end() >= next_region.address {
                next_region_overlaps = true;
            }
        }
        if pre_region_overlaps && next_region_overlaps {
            let next_region = list[x];
            let pre_region = list[x - 1];
            let new_end = larger_of(larger_of(pre_region.end(), region.end()), next_region.end());
            list[x - 1] = MemoryRegions {
                address: pre_region.address,
                size: new_end - pre_region.address,
            };
            list.remove(x);
        } else if pre_region_overlaps {
            let pre_region = list[x - 1];
            let new_end = larger_of(pre_region.end(), region.end());
            list[x - 1] = MemoryRegions {
                address: pre_region.address,
                size: new_end - pre_region.address,
            };
        } else if next_region_overlaps {
            let next_region = list[x];
            let new_end = larger_of(next_region.end(), region.end());
            list[x] = MemoryRegions { address: region.address, size: new_end - region.address };
        } else {
            MemoryBlock::insert_region(list, x, region);
        }
    }

    /// Adds `region` to the reserved list (`is_reserved`) or to the available
    /// one. Fails once the lists are finalised, and where the list is full.
    /// Otherwise the region is merged into the list.
    fn add_region_internal(&mut self, is_reserved: bool, region: &MemoryRegions) -> (r: Result<
        (),
        AllocError,
    >)
        requires
            old(self).wf(),
            region.fits(),
        ensures
            add_outcome(old(self)@, is_reserved, *region, final(self)@, r),
            region.size > 0 && reaches_one_at_most(list_of(old(self)@, is_reserved), *region)
                ==> final(self).wf(),
    {
        if self.allocatable {
            return Err(AllocError::AlreadyFinalized);
        }
        let capacity = if is_reserved {
            self.reserved_region_capacity
        } else {
            self.region_capacity
        };
        let list = if is_reserved {
            &mut self.reserved_regions
        } else {
            &mut self.regions
        };
        if list.len() >= capacity {
            return Err(AllocError::CapacityExceeded);
        }
        let ghost before = list@;
        proof {
            lemma_lower_bound_splits(before, region.address as int);
            if reaches_one_at_most(before, *region) {
                lemma_insert_merge_sorted(before, *region);
            }
            lemma_insert_merge_nonempty(before, *region);
        }
        match search_address(list, region.address) {
            Ok(x) => {
                let new_size = region.size;
                let old_size = list[x].size;
                if new_size > old_size {
                    if x + 1 < list.len() && region.address + new_size >= list[x + 1].address {
                        let next_region = list[x + 1];
                        let merged_end = larger_of(
                            region.address + new_size,
                            next_region.address + next_region.size,
                        );
                        list[x] = MemoryRegions {
                            address: region.address,
                            size: merged_end - region.address,
                        };
                        list.remove(x + 1);
                    } else {
                        list[x] = MemoryRegions { address: region.address, size: new_size };
                    }
                }
            },
            Err(x) => {
                MemoryBlock::add_and_merge_region(list, x, region);
            },
        }
        Ok(())
    }

    /// Finalises the lists: takes every reserved region out of the available
    /// region that contains it, in ascending order, then empties the reserved
    /// list and opens the range list for requests. Does nothing once that is
    /// done. Fails where a list holds more than 120 regions, where a reserved
    /// region lies outside every available one or crosses the end of the one
    /// it starts in, and where a split finds the available list full; the
    /// reserved regions before the failing one have then been taken out.
    pub fn check_regions(&mut self) -> (r: Result<(), AllocError>)
        requires
            old(self).wf(),
        ensures
            finalize_outcome(old(self)@, final(self)@, r),
            final(self).wf(),
    {
        if self.allocatable {
            return Ok(());
        }
        if self.regions.len() > SAFE_MAX || self.reserved_regions.len() > SAFE_MAX {
            return Err(AllocError::CapacityExceeded);
        }
        let ghost start = self.regions@;
        let ghost reserved = self.reserved_regions@;
        let ghost capacity = self.region_capacity as int;
        let count = self.reserved_regions.len();
        let mut region_idx: usize = 0;
        let mut n: usize = 0;
        proof {
            assert(reserved.take(0) =~= Seq::<MemoryRegions>::empty());
        }
        while n < count
            invariant
                n <= count,
                count == self.reserved_regions.len(),
                self.reserved_regions@ == reserved,
                start == old(self)@.available,
                reserved == old(self)@.reserved,
                capacity == old(self)@.available_capacity,
                !old(self)@.allocatable,
                old(self)@.available.len() <= SAFE_MAX,
                old(self)@.reserved.len() <= SAFE_MAX,
                self.region_capacity == capacity,
                self@.reserved_capacity == old(self)@.reserved_capacity,
                self@.store == old(self)@.store,
                INITIAL_CAPACITY <= capacity,
                INITIAL_CAPACITY <= self@.reserved_capacity,
                count <= self@.reserved_capacity,
                !self.allocatable,
                sorted_disjoint(reserved),
                all_nonempty(reserved),
                sorted_disjoint(self.regions@),
                all_nonempty(self.regions@),
                self.regions.len() <= capacity,
                subtract_all(start, reserved.take(n as int), capacity) == (
                    self.regions@,
                    None::<AllocError>,
                ),
                region_idx <= self.regions.len(),
                n < count ==> forall|i: int|
                    0 <= i < region_idx ==> (#[trigger] self.regions@[i]).end_spec()
                        <= reserved[n as int].address,
            decreases count - n,
        {
            let reserved_region = self.reserved_regions[n];
            let ghost current = self.regions@;
            proof {
                assert(reserved.take(n + 1).drop_last() =~= reserved.take(n as int));
                assert(reserved.take(n + 1).last() == reserved_region);
                assert(reserved_region.fits());
                if n + 1 < count {
                    assert(reserved[n as int].end_spec() <= reserved[n + 1].address
                        && reserved[n as int].address < reserved[n + 1].address);
                }
            }
            while region_idx < self.regions.len() && self.regions[region_idx].end()
                <= reserved_region.address
                invariant
                    region_idx <= self.regions.len(),
                    self.regions@ == current,
                    sorted_disjoint(current),
                    forall|i: int|
                        0 <= i < region_idx ==> (#[trigger] current[i]).end_spec()
                            <= reserved_region.address,
                decreases self.regions.len() - region_idx,
            {
                region_idx += 1;
            }
            proof {
                lemma_first_where(current, ends_behind(reserved_region.address as int), region_idx as int);
                if (region_idx as int) < current.len() {
                    lemma_subtract_one(current, reserved_region, capacity);
                }
            }
            if region_idx == self.regions.len() {
                proof {
                    lemma_subtract_stops(start, reserved, n + 1, capacity);
                }
                return Err(AllocError::ReservedOutsideAvailable);
            }
            let found = self.regions[region_idx];
            if reserved_region.address < found.address || reserved_region.end() > found.end() {
                proof {
                    lemma_subtract_stops(start, reserved, n + 1, capacity);
                }
                return Err(AllocError::ReservedLargerThanAvailable);
            }
            let starts_at_same_address = found.address == reserved_region.address;
            let ends_at_same_address = found.end() == reserved_region.end();
            if starts_at_same_address && ends_at_same_address {
                self.regions.remove(region_idx);
            } else if starts_at_same_address {
                self.regions[region_idx] = MemoryRegions {
                    address: reserved_region.end(),
                    size: found.size - reserved_region.size,
                };
            } else if ends_at_same_address {
                self.regions[region_idx] = MemoryRegions {
                    address: found.address,
                    size: found.size - reserved_region.size,
                };
            } else {
                if self.regions.len() >= self.region_capacity {
                    proof {
                        lemma_subtract_stops(start, reserved, n + 1, capacity);
                    }
                    return Err(AllocError::CapacityExceeded);
                }
                let new_region = MemoryRegions {
                    address: reserved_region.end(),
                    size: found.end() - reserved_region.end(),
                };
                self.regions[region_idx] = MemoryRegions {
                    address: found.address,
                    size: reserved_region.address - found.address,
                };
                self.regions.insert(region_idx + 1, new_region);
                region_idx += 1;
            }
            n += 1;
            proof {
                assert(self.regions@ == subtract_one(current, reserved_region, capacity).0);
                if n < count {
                    assert forall|i: int| 0 <= i < region_idx implies (
                    #[trigger] self.regions@[i]).end_spec() <= reserved[n as int].address by {
                        if i < region_idx - 1 || (starts_at_same_address || ends_at_same_address) {
                            assert(self.regions@[i] == current[i]);
                            assert(current[i].end_spec() <= reserved_region.address);
                        }
                    }
                }
            }
        }
        proof {
            assert(reserved.take(count as int) =~= reserved);
        }
        self.reserved_regions.clear();
        self.allocatable = true;
        Ok(())
    }

    /// The position of the first available region from which `size` bytes
    /// aligned to `alignment` can be taken, or the length of the list.
    fn find_fit(&self, size: usize, alignment: usize) -> (i: usize)
        requires
            self.wf(),
            alignment > 0,
        ensures
            i == first_fit(self@.available, size as int, alignment as int),
            i <= self@.available.len(),
    {
        let mut i: usize = 0;
        while i < self.regions.len()
            invariant
                i <= self.regions.len(),
                self.wf(),
                alignment > 0,
                forall|j: int|
                    0 <= j < i ==> !fits_request(size as int, alignment as int)(
                        #[trigger] self.regions@[j],
                    ),
            decreases self.regions.len() - i,
        {
            let region = self.regions[i];
            let end_addr = region.end();
            let found = match next_multiple_of(region.address, alignment) {
                Some(aligned) => aligned <= end_addr && size <= end_addr - aligned,
                None => false,
            };
            if found {
                proof {
                    lemma_first_where(
                        self.regions@,
                        fits_request(size as int, alignment as int),
                        i as int,
                    );
                }
                return i;
            }
            i += 1;
        }
        proof {
            lemma_first_where(self.regions@, fits_request(size as int, alignment as int), i as int);
        }
        i
    }

    /// Takes `size` bytes aligned to `alignment` from the first available
    /// region that has them, and records them as reserved.
    fn allocate_region_internal(&mut self, size: usize, alignment: usize) -> (r: Option<usize>)
        requires
            old(self).wf(),
            old(self)@.allocatable,
            alignment > 0,
            old(self)@.available.len() < old(self)@.available_capacity,
            old(self)@.reserved.len() < old(self)@.reserved_capacity,
        ensures
            final(self)@ == allocate_in(old(self)@, size as int, alignment as int).0,
            allocate_in(old(self)@, size as int, alignment as int).1 == match r {
                Some(a) => Some(a as int),
                None => None,
            },
            size > 0 ==> final(self).wf(),
            final(self)@.available.len() <= old(self)@.available.len() + 1,
            final(self)@.reserved.len() <= old(self)@.reserved.len() + 1,
            r matches Some(a) ==> a % alignment == 0,
    {
        let i = self.find_fit(size, alignment);
        if i == self.regions.len() {
            return None;
        }
        let region = self.regions[i];
        let address = region.address;
        let end_addr = region.end();
        proof {
            crate::search::lemma_first_where_is_first(
                self.regions@,
                fits_request(size as int, alignment as int),
            );
            crate::layout::lemma_round_up(address as int, alignment as int);
            lemma_allocate_in(self@, size as int, alignment as int);
        }
        let aligned = match next_multiple_of(address, alignment) {
            Some(a) => a,
            None => address,
        };
        let new_addr = aligned + size;
        if aligned > address {
            self.regions[i] = MemoryRegions { address, size: aligned - address };
            if new_addr != end_addr {
                self.regions.insert(
                    i + 1,
                    MemoryRegions { address: new_addr, size: end_addr - new_addr },
                );
            }
        } else if new_addr != end_addr {
            self.regions[i] = MemoryRegions { address: new_addr, size: end_addr - new_addr };
        } else {
            self.regions.remove(i);
        }
        self.add_reserved_alloc_record(aligned, size);
        Some(aligned)
    }

    /// Records the range of `size` bytes at `address` in the reserved list.
    fn add_reserved_alloc_record(&mut self, address: usize, size: usize)
        requires
            sorted_disjoint(old(self)@.reserved),
            address + size <= usize::MAX,
        ensures
            final(self)@ == (BlockState {
                reserved: absorb(old(self)@.reserved, span(address as int, address + size)),
                ..old(self)@
            }),
    {
        let insertion_point = match search_address(&self.reserved_regions, address) {
            Ok(x) => x,
            Err(x) => x,
        };
        proof {
            lemma_lower_bound_splits(self.reserved_regions@, address as int);
        }
        MemoryBlock::add_and_merge_region(
            &mut self.reserved_regions,
            insertion_point,
            &MemoryRegions { address, size },
        );
    }

    /// Returns the range of `size` bytes at `address` to the available list.
    fn add_free_region_merge(&mut self, address: usize, size: usize)
        requires
            sorted_disjoint(old(self)@.available),
            address + size <= usize::MAX,
        ensures
            final(self)@ == (BlockState {
                available: absorb(old(self)@.available, span(address as int, address + size)),
                ..old(self)@
            }),
    {
        let insertion_point = match search_address(&self.regions, address) {
            Ok(x) => x,
            Err(x) => x,
        };
        proof {
            lemma_lower_bound_splits(self.regions@, address as int);
        }
        MemoryBlock::add_and_merge_region(
            &mut self.regions,
            insertion_point,
            &MemoryRegions { address, size },
        );
    }

    /// Moves the lists to a store of twice their capacity, carved from the
    /// available regions and recorded as reserved like any other block.
    fn overflow_wrapping(&mut self)
        requires
            old(self).wf(),
            old(self)@.allocatable,
            can_move(old(self)@),
        ensures
            final(self)@ == moved(old(self)@),
            final(self).wf(),
            has_room(final(self)@),
    {
        let allocate_size = (self.region_capacity + self.reserved_region_capacity) * 2
            * REGION_BYTES;
        let new_region = self.allocate_region_internal(allocate_size, PAGE_SIZE);
        self.region_capacity = self.region_capacity * 2;
        self.reserved_region_capacity = self.reserved_region_capacity * 2;
        self.store = new_region;
    }

    /// Whether either list has fewer than ten free slots.
    fn short_of_slots(&self) -> (r: bool)
        requires
            self.wf(),
        ensures
            r == needs_room(self@),
    {
        self.region_capacity - self.regions.len() < HEADROOM || self.reserved_region_capacity
            - self.reserved_regions.len() < HEADROOM
    }

    /// Moves the lists to a larger store where either has fewer than ten free slots.
    fn ensure_overflow_headroom(&mut self)
        requires
            old(self).wf(),
            old(self)@.allocatable,
            serviceable(old(self)@),
        ensures
            final(self)@ == with_room(old(self)@),
            final(self).wf(),
            has_room(final(self)@),
    {
        if self.short_of_slots() {
            self.overflow_wrapping();
        }
    }

    /// Whether the next request can be served without the lists running out
    /// of slots: either both have ten free slots, or the available regions
    /// hold a page-aligned block for a store of twice the capacity.
    pub fn is_serviceable(&self) -> (r: bool)
        requires
            self.wf(),
        ensures
            r == serviceable(self@),
    {
        if self.short_of_slots() {
            if self.regions.len() >= self.region_capacity || self.reserved_regions.len()
                >= self.reserved_region_capacity {
                return false;
            }
            let limit: usize = usize::MAX / (2 * REGION_BYTES);
            if self.region_capacity > limit || self.reserved_region_capacity > limit
                - self.region_capacity {
                return false;
            }
            let bytes = (self.region_capacity + self.reserved_region_capacity) * 2 * REGION_BYTES;
            self.find_fit(bytes, PAGE_SIZE) < self.regions.len()
        } else {
            true
        }
    }

    /// Hands out a block of the size and alignment of `layout`, or `None`
    /// where the lists are not finalised or no available region has room for
    /// it. The lists first move to a larger store where they are short of
    /// slots.
    pub fn allocate_region(&mut self, layout: Layout) -> (r: Option<usize>)
        requires
            old(self).wf(),
            layout.wf(),
            old(self)@.allocatable ==> serviceable(old(self)@),
        ensures
            final(self)@ == request_in(old(self)@, layout.spec_size(), layout.spec_align()).0,
            request_in(old(self)@, layout.spec_size(), layout.spec_align()).1 == match r {
                Some(a) => Some(a as int),
                None => None,
            },
            layout.spec_size() > 0 ==> final(self).wf(),
            r matches Some(a) ==> a % layout.align_value() == 0,
            old(self)@.allocatable ==> has_room_for_one(final(self)@),
    {
        if !self.allocatable {
            return None;
        }
        proof {
            crate::layout::lemma_pow2_pos(layout.spec_align());
        }
        self.ensure_overflow_headroom();
        self.allocate_region_internal(layout.size(), layout.align())
    }

    /// As [`MemoryBlock::allocate_region`], with the reason where no block
    /// is handed out: `NotAllocatable` before the lists are finalised, and
    /// `OutOfMemory` where no available region has room.
    pub fn try_allocate_region(&mut self, layout: Layout) -> (r: Result<usize, AllocError>)
        requires
            old(self).wf(),
            layout.wf(),
            old(self)@.allocatable ==> serviceable(old(self)@),
        ensures
            final(self)@ == request_in(old(self)@, layout.spec_size(), layout.spec_align()).0,
            match r {
                Ok(a) => request_in(old(self)@, layout.spec_size(), layout.spec_align()).1 == Some(
                    a as int,
                ) && a % layout.align_value() == 0,
                Err(e) => request_in(old(self)@, layout.spec_size(), layout.spec_align()).1 is None
                    && e == (if old(self)@.allocatable {
                    AllocError::OutOfMemory
                } else {
                    AllocError::NotAllocatable
                }),
            },
            layout.spec_size() > 0 ==> final(self).wf(),
    {
        if !self.allocatable {
            return Err(AllocError::NotAllocatable);
        }
        match self.allocate_region(layout) {
            Some(a) => Ok(a),
            None => Err(AllocError::OutOfMemory),
        }
    }

    /// Takes the range of `size` bytes at `addr` out of the reserved list.
    fn remove_reserved_alloc_record(&mut self, addr: usize, size: usize)
        requires
            sorted_disjoint(old(self)@.reserved),
            addr + size <= usize::MAX,
        ensures
            final(self)@ == (BlockState {
                reserved: release(old(self)@.reserved, addr as int, size as int),
                ..old(self)@
            }),
    {
        if size == 0 {
            return ;
        }
        proof {
            lemma_lower_bound_splits(self.reserved_regions@, addr as int);
        }
        match search_address(&self.reserved_regions, addr) {
            Ok(i) => {
                let region = self.reserved_regions[i];
                if size < region.size {
                    self.reserved_regions[i] = MemoryRegions {
                        address: region.address + size,
                        size: region.size - size,
                    };
                } else {
                    self.reserved_regions.remove(i);
                }
            },
            Err(x) => {
                if x == 0 {
                    return ;
                }
                let i = x - 1;
                let region = self.reserved_regions[i];
                let region_end = region.end();
                let dealloc_end = addr + size;
                if addr >= region.address && dealloc_end <= region_end {
                    self.reserved_regions[i] = MemoryRegions {
                        address: region.address,
                        size: addr - region.address,
                    };
                    if dealloc_end != region_end {
                        self.reserved_regions.insert(
                            i + 1,
                            MemoryRegions {
                                address: dealloc_end,
                                size: region_end - dealloc_end,
                            },
                        );
                    }
                }
            },
        }
    }

    /// Takes back the block at `ptr` that was handed out for `layout`: its
    /// range leaves the reserved list and joins the available one. Does
    /// nothing before the lists are finalised, nor for a block of no bytes.
    /// The invariant is kept for a range that lies within a reserved region.
    pub fn deallocate_region(&mut self, ptr: usize, layout: Layout)
        requires
            old(self).wf(),
            ptr + layout.spec_size() <= usize::MAX,
            old(self)@.allocatable ==> serviceable(old(self)@),
        ensures
            final(self)@ == return_in(old(self)@, ptr as int, layout.spec_size()),
            covered_by(old(self)@.reserved, span(ptr as int, ptr + layout.spec_size()))
                ==> final(self).wf(),
    {
        if !self.allocatable {
            return ;
        }
        let addr = ptr;
        let size = layout.size();
        if size == 0 {
            return ;
        }
        self.ensure_overflow_headroom();
        proof {
            lemma_return_in(old(self)@, ptr as int, size as int);
        }
        self.remove_reserved_alloc_record(addr, size);
        self.add_free_region_merge(addr, size);
    }

    /// Ends the life of the range list at the hand-over to the next stage:
    /// carves one more block of `reserve_budget` bytes, aligned to a page, and
    /// returns every reserved range as a pair of address and size, in
    /// ascending order. Where the lists are not finalised, or no region has
    /// room for the block, the ranges are returned without it.
    pub fn trim(self, reserve_budget: usize) -> (r: Vec<(usize, usize)>)
        requires
            self.wf(),
            self@.allocatable ==> serviceable(self@),
        ensures
            r@.len() == request_in(self@, reserve_budget as int, PAGE_SIZE as int).0.reserved.len(),
            forall|i: int|
                0 <= i < r@.len() ==> (#[trigger] r@[i]) == (
                    request_in(self@, reserve_budget as int, PAGE_SIZE as int).0.reserved[i].address,
                    request_in(self@, reserve_budget as int, PAGE_SIZE as int).0.reserved[i].size,
                ),
    {
        let mut block = self;
        if block.allocatable {
            block.ensure_overflow_headroom();
            let _ = block.allocate_region_internal(reserve_budget, PAGE_SIZE);
        }
        let mut out: Vec<(usize, usize)> = Vec::new();
        let mut i: usize = 0;
        while i < block.reserved_regions.len()
            invariant
                i <= block.reserved_regions.len(),
                out@.len() == i,
                forall|j: int|
                    0 <= j < i ==> (#[trigger] out@[j]) == (
                        block.reserved_regions@[j].address,
                        block.reserved_regions@[j].size,
                    ),
            decreases block.reserved_regions.len() - i,
        {
            let region = block.reserved_regions[i];
            out.push((region.address, region.size));
            i += 1;
        }
        out
    }

    /// The number of available regions.
    pub fn region_size(&self) -> (r: usize)
        ensures
            r == self@.available.len(),
    {
        self.regions.len()
    }

    /// The number of reserved regions.
    pub fn reserved_region_size(&self) -> (r: usize)
        ensures
            r == self@.reserved.len(),
    {
        self.reserved_regions.len()
    }

    /// The number of regions that the store of the available list can hold.
    pub fn region_capacity(&self) -> (r: usize)
        ensures
            r == self@.available_capacity,
    {
        self.region_capacity
    }

    /// The number of regions that the store of the reserved list can hold.
    pub fn reserved_region_capacity(&self) -> (r: usize)
        ensures
            r == self@.reserved_capacity,
    {
        self.reserved_region_capacity
    }

    /// The available region at position `i`.
    pub fn region(&self, i: usize) -> (r: MemoryRegions)
        requires
            i < self@.available.len(),
        ensures
            r == self@.available[i as int],
    {
        self.regions[i]
    }

    /// The reserved region at position `i`.
    pub fn reserved_region(&self, i: usize) -> (r: MemoryRegions)
        requires
            i < self@.reserved.len(),
        ensures
            r == self@.reserved[i as int],
    {
        self.reserved_regions[i]
    }

    /// The address of the store that the lists moved to last, or `None`
    /// while they are where they started.
    pub fn store_address(&self) -> (r: Option<usize>)
        ensures
            self@.store == match r {
                Some(a) => Some(a as int),
                None => None,
            },
    {
        self.store
    }

    /// The position of a reserved region that is not apart from the `size`
    /// bytes at `address`, or the length of the reserved list where every
    /// region is.
    fn find_clash(&self, address: usize, size: usize) -> (j: usize)
        requires
            self.wf(),
            address + size <= usize::MAX,
        ensures
            j <= self@.reserved.len(),
            j < self@.reserved.len() ==> !span(address as int, address + size).apart(
                self@.reserved[j as int],
            ),
            j == self@.reserved.len() ==> forall|m: int|
                0 <= m < self@.reserved.len() ==> span(address as int, address + size).apart(
                    #[trigger] self@.reserved[m],
                ),
    {
        let mut j: usize = 0;
        while j < self.reserved_regions.len()
            invariant
                j <= self.reserved_regions.len(),
                self.wf(),
                address + size <= usize::MAX,
                forall|m: int|
                    0 <= m < j ==> span(address as int, address + size).apart(
                        #[trigger] self.reserved_regions@[m],
                    ),
            decreases self.reserved_regions.len() - j,
        {
            let q = self.reserved_regions[j];
            if !(address + size <= q.address || q.end() <= address) {
                return j;
            }
            j += 1;
        }
        j
    }

    /// Reserves `size` bytes while the regions are still being gathered, at
    /// the lowest address that is a multiple of the alignment, lies in an
    /// available region and in `alloc_range` (a first address and a length),
    /// and is apart from every reserved region. The alignment is `align`, or
    /// the least power of two that holds `size` where `align` is `None` or 0.
    /// The bytes join the reserved list. The answer is `Ok(None)` where there
    /// is no such address, or the alignment is no machine word.
    pub fn add_reserved_region_dynamic(
        &mut self,
        size: usize,
        align: Option<usize>,
        alloc_range: Option<(usize, usize)>,
    ) -> (r: Result<Option<usize>, AllocError>)
        requires
            old(self).wf(),
        ensures
            dynamic_outcome(old(self)@, size as int, align, alloc_range, final(self)@, r),
            size > 0 ==> final(self).wf(),
    {
        if self.allocatable {
            return Err(AllocError::AlreadyFinalized);
        }
        if self.reserved_regions.len() >= self.reserved_region_capacity {
            return Err(AllocError::CapacityExceeded);
        }
        let wanted = match align {
            Some(a) => if a > 0 {
                Some(a)
            } else {
                crate::layout::next_power_of_two(size)
            },
            None => crate::layout::next_power_of_two(size),
        };
        let alignment = match wanted {
            Some(a) => a,
            None => {
                return Ok(None);
            },
        };
        proof {
            crate::layout::lemma_next_pow2(size as int);
            crate::layout::lemma_pow2_pos(crate::layout::next_pow2(size as int));
        }
        let low = match alloc_range {
            Some(range) => range.0,
            None => 0,
        };
        let high = match alloc_range {
            Some(range) => if range.1 > usize::MAX - range.0 {
                usize::MAX
            } else {
                range.0 + range.1
            },
            None => usize::MAX,
        };
        let ghost al = alignment as int;
        let ghost lo = low as int;
        let ghost hi = dynamic_high(alloc_range);
        let ghost v = self@;
        let mut i: usize = 0;
        while i < self.regions.len()
            invariant
                i <= self.regions.len(),
                self.wf(),
                self@ == v,
                v == old(self)@,
                !v.allocatable,
                v.reserved.len() < v.reserved_capacity,
                al == alignment,
                al > 0,
                al == dynamic_align(size as int, align),
                lo == low,
                lo == dynamic_low(alloc_range),
                hi == dynamic_high(alloc_range),
                high <= hi,
                hi > usize::MAX ==> high == usize::MAX,
                hi <= usize::MAX ==> high == hi,
                forall|b: int, j: int|
                    0 <= j < i && span(b, b + size).within(#[trigger] v.available[j])
                        ==> !#[trigger] dynamic_fit(v, size as int, al, lo, hi, b),
            decreases self.regions.len() - i,
        {
            let region = self.regions[i];
            let region_end = region.end();
            let limit = if region_end < high {
                region_end
            } else {
                high
            };
            let from = if region.address > low {
                region.address
            } else {
                low
            };
            let mut candidate = crate::layout::next_multiple_of(from, alignment);
            proof {
                crate::layout::lemma_round_up(from as int, al);
                assert(region.fits());
                assert forall|b: int|
                    0 <= b && (candidate matches Some(c) ==> b < c) && span(b, b + size).within(
                        region,
                    ) implies !#[trigger] dynamic_fit(v, size as int, al, lo, hi, b) by {
                    if b >= from && b % al == 0 {
                        crate::layout::lemma_round_up_least(from as int, al, b);
                    }
                }
            }
            while candidate.is_some()
                invariant
                    i < self.regions.len(),
                    self.wf(),
                    self@ == v,
                    v == old(self)@,
                    !v.allocatable,
                    v.reserved.len() < v.reserved_capacity,
                    al == dynamic_align(size as int, align),
                    lo == dynamic_low(alloc_range),
                    hi == dynamic_high(alloc_range),
                    region.fits(),
                    forall|b: int, j: int|
                        0 <= j < i && span(b, b + size).within(#[trigger] v.available[j])
                            ==> !#[trigger] dynamic_fit(v, size as int, al, lo, hi, b),
                    region == v.available[i as int],
                    region_end == region.end_spec(),
                    limit <= region_end,
                    limit <= high,
                    limit == region_end || limit == high,
                    al == alignment,
                    al > 0,
                    high <= hi,
                    hi > usize::MAX ==> high == usize::MAX,
                    hi <= usize::MAX ==> high == hi,
                    lo == low,
                    candidate matches Some(c) ==> c >= region.address && c >= low && (c as int)
                        % al == 0,
                    forall|b: int|
                        0 <= b && (candidate matches Some(c) ==> b < c) && span(
                            b,
                            b + size,
                        ).within(region) ==> !#[trigger] dynamic_fit(v, size as int, al, lo, hi, b),
                decreases
                    (match candidate {
                        Some(c) => usize::MAX - c + 1,
                        None => 0,
                    }),
            {
                let c = match candidate {
                    Some(c) => c,
                    None => 0,
                };
                if c > limit || size > limit - c {
                    proof {
                        assert forall|b: int| 0 <= b && span(b, b + size).within(region) implies !(
                        #[trigger] dynamic_fit(v, size as int, al, lo, hi, b)) by {
                            if b >= c {
                                assert(b + size > limit);
                            }
                        }
                    }
                    candidate = None;
                } else {
                    let j = self.find_clash(c, size);
                    if j == self.reserved_regions.len() {
                        proof {
                            assert(span(c as int, c + size).within(v.available[i as int]));
                            assert(dynamic_fit(v, size as int, al, lo, hi, c as int));
                            assert forall|b: int| 0 <= b < c implies !#[trigger] dynamic_fit(
                                v,
                                size as int,
                                al,
                                lo,
                                hi,
                                b,
                            ) by {
                                if dynamic_fit(v, size as int, al, lo, hi, b) {
                                    let m = choose|m: int|
                                        0 <= m < v.available.len() && span(b, b + size).within(
                                            #[trigger] v.available[m],
                                        );
                                    if m > i {
                                        assert(v.available[i as int].end_spec()
                                            <= v.available[m].address);
                                    }
                                }
                            }
                            lemma_dynamic_wf(v, span(c as int, c + size));
                        }
                        let record = MemoryRegions { address: c, size };
                        let added = self.add_region_internal(true, &record);
                        return Ok(Some(c));
                    }
                    let q = self.reserved_regions[j];
                    let next = crate::layout::next_multiple_of(q.end(), alignment);
                    proof {
                        assert(q.fits() && q.size > 0);
                        crate::layout::lemma_round_up(q.end_spec(), al);
                        assert forall|b: int|
                            0 <= b && (next matches Some(n) ==> b < n) && span(b, b + size).within(
                                region,
                            ) implies !#[trigger] dynamic_fit(v, size as int, al, lo, hi, b) by {
                            if b >= c && b % al == 0 && b + size <= usize::MAX {
                                if b >= q.end_spec() {
                                    crate::layout::lemma_round_up_least(q.end_spec(), al, b);
                                }
                                assert(!span(b, b + size).apart(v.reserved[j as int]));
                            }
                        }
                    }
                    candidate = next;
                }
            }
            i += 1;
        }
        proof {
            assert forall|b: int| 0 <= b implies !#[trigger] dynamic_fit(
                v,
                size as int,
                al,
                lo,
                hi,
                b,
            ) by {
                if dynamic_fit(v, size as int, al, lo, hi, b) {
                    let m = choose|m: int|
                        0 <= m < v.available.len() && span(b, b + size).within(
                            #[trigger] v.available[m],
                        );
                    assert(false);
                }
            }
        }
        Ok(None)
    }
}

/// The greater of two numbers.
pub fn larger_of(a: usize, b: usize) -> (r: usize)
    ensures
        r == larger(a as int, b as int),
{
    if a >= b {
        a
    } else {
        b
    }
}

/// The test that a region ends behind `address`.
pub open spec fn ends_behind(address: int) -> spec_fn(MemoryRegions) -> bool {
    |q: MemoryRegions| q.end_spec() > address
}

/// The position of the first region that ends behind `address`.
pub open spec fn locate(s: Seq<MemoryRegions>, address: int) -> int {
    first_where(s, ends_behind(address))
}

/// The available list after the reserved region `p` has been taken out of
/// it, or the list as it was and the reason for which `p` cannot be taken
/// out. The region that `p` is taken from is the first that ends behind the
/// start of `p`: it is dropped where `p` is all of it, shortened where `p` is
/// one end of it, and split in two where `p` lies inside it.
pub open spec fn subtract_one(s: Seq<MemoryRegions>, p: MemoryRegions, capacity: int) -> (
    Seq<MemoryRegions>,
    Option<AllocError>,
) {
    let i = locate(s, p.address as int);
    if i == s.len() {
        (s, Some(AllocError::ReservedOutsideAvailable))
    } else if p.address < s[i].address || p.end_spec() > s[i].end_spec() {
        (s, Some(AllocError::ReservedLargerThanAvailable))
    } else if s[i].address == p.address && s[i].end_spec() == p.end_spec() {
        (s.remove(i), None)
    } else if s[i].address == p.address {
        (s.update(i, span(p.end_spec(), s[i].end_spec())), None)
    } else if s[i].end_spec() == p.end_spec() {
        (s.update(i, span(s[i].address as int, p.address as int)), None)
    } else if s.len() + 1 > capacity {
        (s, Some(AllocError::CapacityExceeded))
    } else {
        (
            s.update(i, span(s[i].address as int, p.address as int)).insert(
                i + 1,
                span(p.end_spec(), s[i].end_spec()),
            ),
            None,
        )
    }
}

/// The available list after the reserved regions `p` have been taken out of
/// it one by one, up to the first that cannot be, and the reason for that
/// one.
pub open spec fn subtract_all(s: Seq<MemoryRegions>, p: Seq<MemoryRegions>, capacity: int) -> (
    Seq<MemoryRegions>,
    Option<AllocError>,
)
    decreases p.len(),
{
    if p.len() == 0 {
        (s, None)
    } else {
        let before = subtract_all(s, p.drop_last(), capacity);
        if before.1 is Some {
            before
        } else {
            subtract_one(before.0, p.last(), capacity)
        }
    }
}

/// What finalising comes to. Finalised lists stay as they are. Lists with
/// more than 120 regions are refused. Otherwise the reserved regions are
/// taken out of the available list; where that fails the lists stay open for
/// more regions, and where it succeeds the reserved list is emptied and the
/// range list serves requests.
pub open spec fn finalize_outcome(pre: BlockState, post: BlockState, r: Result<(), AllocError>) -> bool {
    if pre.allocatable {
        r is Ok && post == pre
    } else if pre.available.len() > SAFE_MAX || pre.reserved.len() > SAFE_MAX {
        r == Err::<(), AllocError>(AllocError::CapacityExceeded) && post == pre
    } else {
        let done = subtract_all(pre.available, pre.reserved, pre.available_capacity);
        match done.1 {
            Some(e) => r == Err::<(), AllocError>(e) && post == (BlockState {
                available: done.0,
                ..pre
            }),
            None => r is Ok && post == (BlockState {
                available: done.0,
                reserved: Seq::<MemoryRegions>::empty(),
                allocatable: true,
                ..pre
            }),
        }
    }
}

/// Taking a reserved region out keeps the available list sorted, disjoint
/// and free of empty regions.
pub proof fn lemma_subtract_one(s: Seq<MemoryRegions>, p: MemoryRegions, capacity: int)
    requires
        sorted_disjoint(s),
        all_nonempty(s),
        p.fits(),
        locate(s, p.address as int) < s.len(),
    ensures
        sorted_disjoint(subtract_one(s, p, capacity).0),
        all_nonempty(subtract_one(s, p, capacity).0),
{
    crate::search::lemma_first_where_is_first(s, ends_behind(p.address as int));
    let i = locate(s, p.address as int);
    let out = subtract_one(s, p, capacity).0;
    assert(s[i].fits() && s[i].size > 0);
    if i > 0 {
        assert(s[i - 1].end_spec() <= s[i].address && s[i - 1].address < s[i].address);
    }
    if i + 1 < s.len() {
        assert(s[i].end_spec() <= s[i + 1].address && s[i].address < s[i + 1].address);
    }
    if p.address < s[i].address || p.end_spec() > s[i].end_spec() {
    } else if s[i].address == p.address && s[i].end_spec() == p.end_spec() {
        lemma_sorted_remove(s, i);
        assert forall|j: int| 0 <= j < out.len() implies (#[trigger] out[j]).size > 0 by {
            if j < i {
                assert(out[j] == s[j]);
            } else {
                assert(out[j] == s[j + 1]);
            }
        }
    } else if s[i].address == p.address {
        lemma_sorted_update(s, i, span(p.end_spec(), s[i].end_spec()));
        assert forall|j: int| 0 <= j < out.len() implies (#[trigger] out[j]).size > 0 by {
            if j != i {
                assert(out[j] == s[j]);
            }
        }
    } else if s[i].end_spec() == p.end_spec() {
        lemma_sorted_update(s, i, span(s[i].address as int, p.address as int));
        assert forall|j: int| 0 <= j < out.len() implies (#[trigger] out[j]).size > 0 by {
            if j != i {
                assert(out[j] == s[j]);
            }
        }
    } else if s.len() + 1 > capacity {
    } else {
        let head = span(s[i].address as int, p.address as int);
        let tail = span(p.end_spec(), s[i].end_spec());
        let u = s.update(i, head);
        lemma_sorted_update(s, i, head);
        assert(u[i] == head);
        if i + 1 < u.len() {
            assert(u[i + 1] == s[i + 1]);
        }
        lemma_sorted_insert(u, i + 1, tail);
        assert forall|j: int| 0 <= j < out.len() implies (#[trigger] out[j]).size > 0 by {
            if j < i {
                assert(out[j] == s[j]);
            } else if j > i + 1 {
                assert(out[j] == s[j - 1]);
            }
        }
    }
}

/// Once a reserved region cannot be taken out, the ones behind it change nothing.
pub proof fn lemma_subtract_stops(
    s: Seq<MemoryRegions>,
    p: Seq<MemoryRegions>,
    n: int,
    capacity: int,
)
    requires
        0 <= n <= p.len(),
        subtract_all(s, p.take(n), capacity).1 is Some,
    ensures
        subtract_all(s, p, capacity) == subtract_all(s, p.take(n), capacity),
    decreases p.len() - n,
{
    if n == p.len() {
        assert(p.take(n) =~= p);
    } else {
        assert(p.take(n + 1).drop_last() =~= p.take(n));
        lemma_subtract_stops(s, p, n + 1, capacity);
    }
}

/// The test that `size` bytes aligned to `align` can be taken from a region.
pub open spec fn fits_request(size: int, align: int) -> spec_fn(MemoryRegions) -> bool {
    |q: MemoryRegions| round_up(q.address as int, align) + size <= q.end_spec()
}

/// The position of the first region from which `size` bytes aligned to
/// `align` can be taken, or the length of the list.
pub open spec fn first_fit(s: Seq<MemoryRegions>, size: int, align: int) -> int {
    first_where(s, fits_request(size, align))
}

/// The list after `size` bytes aligned to `align` have been taken from the
/// region at `i`: what lies before them and what lies behind them stays.
pub open spec fn carve(s: Seq<MemoryRegions>, i: int, size: int, align: int) -> Seq<MemoryRegions> {
    let a = round_up(s[i].address as int, align);
    let head = span(s[i].address as int, a);
    let tail = span(a + size, s[i].end_spec());
    if a > s[i].address && a + size < s[i].end_spec() {
        s.update(i, head).insert(i + 1, tail)
    } else if a > s[i].address {
        s.update(i, head)
    } else if a + size < s[i].end_spec() {
        s.update(i, tail)
    } else {
        s.remove(i)
    }
}

/// The state after a request for `size` bytes aligned to `align`, and the
/// address that answers it: the bytes come from the first available region
/// that has them, at the lowest aligned address in it, and are recorded as
/// reserved. Where no region has them nothing changes.
pub open spec fn allocate_in(v: BlockState, size: int, align: int) -> (BlockState, Option<int>) {
    let i = first_fit(v.available, size, align);
    if i == v.available.len() {
        (v, None)
    } else {
        let a = round_up(v.available[i].address as int, align);
        (
            BlockState {
                available: carve(v.available, i, size, align),
                reserved: absorb(v.reserved, span(a, a + size)),
                ..v
            },
            Some(a),
        )
    }
}

/// Fusing a region with its neighbours makes the list longer by one region
/// at most, and leaves no empty region in it if there was none and the
/// region is not empty.
pub proof fn lemma_merge_at_shape(s: Seq<MemoryRegions>, k: int, x: MemoryRegions)
    requires
        0 <= k <= s.len(),
        forall|i: int| 0 <= i < s.len() ==> (#[trigger] s[i]).fits(),
        x.fits(),
    ensures
        merge_at(s, k, x).len() <= s.len() + 1,
        all_nonempty(s) && x.size > 0 ==> all_nonempty(merge_at(s, k, x)),
{
    let r = merge_at(s, k, x);
    if all_nonempty(s) && x.size > 0 {
        if k > 0 {
            assert(s[k - 1].fits() && s[k - 1].size > 0);
        }
        if k < s.len() {
            assert(s[k].fits() && s[k].size > 0);
        }
        assert forall|i: int| 0 <= i < r.len() implies (#[trigger] r[i]).size > 0 by {
            if i + 1 < s.len() {
                assert(s[i + 1].size > 0);
            }
            if i < s.len() {
                assert(s[i].size > 0);
            }
            if i > 0 {
                assert(s[i - 1].size > 0);
            }
        }
    }
}

/// Recording `x` in the list `s` keeps `s` apart from a list `a` of regions
/// that are not empty, as long as `a` was apart from `s` and from `x`.
pub proof fn lemma_absorb_apart(a: Seq<MemoryRegions>, s: Seq<MemoryRegions>, x: MemoryRegions)
    requires
        sorted_disjoint(s),
        all_nonempty(a),
        x.fits(),
        lists_apart(a, s),
        forall|j: int| 0 <= j < a.len() ==> (#[trigger] a[j]).apart(x),
    ensures
        lists_apart(a, absorb(s, x)),
{
    lemma_lower_bound_splits(s, x.address as int);
    let k = lower_bound(s, x.address as int);
    let r = absorb(s, x);
    let meets_before = k > 0 && x.address <= s[k - 1].end_spec();
    let meets_next = k < s.len() && x.end_spec() >= s[k].address;
    assert forall|j: int, m: int| 0 <= j < a.len() && 0 <= m < r.len() implies (
    #[trigger] a[j]).apart(#[trigger] r[m]) by {
        let q = a[j];
        assert(q.size > 0);
        assert(q.apart(x));
        if k > 0 {
            assert(q.apart(s[k - 1]));
            assert(s[k - 1].address < x.address);
            assert(s[k - 1].fits());
        }
        if k < s.len() {
            assert(q.apart(s[k]));
            assert(s[k].fits());
        }
        if meets_before && meets_next {
            if m < k - 1 {
                assert(r[m] == s[m]);
                assert(q.apart(s[m]));
            } else if m > k - 1 {
                assert(r[m] == s[m + 1]);
                assert(q.apart(s[m + 1]));
            }
        } else if meets_before {
            if m != k - 1 {
                assert(r[m] == s[m]);
                assert(q.apart(s[m]));
            }
        } else if meets_next {
            if m != k {
                assert(r[m] == s[m]);
                assert(q.apart(s[m]));
            }
        } else {
            if m < k {
                assert(r[m] == s[m]);
                assert(q.apart(s[m]));
            } else if m > k {
                assert(r[m] == s[m - 1]);
                assert(q.apart(s[m - 1]));
            }
        }
    }
}

/// Taking bytes from a region keeps the available list sorted and disjoint.
pub proof fn lemma_carve_sorted(s: Seq<MemoryRegions>, i: int, size: int, align: int)
    requires
        sorted_disjoint(s),
        0 <= i < s.len(),
        align > 0,
        size >= 0,
        round_up(s[i].address as int, align) + size <= s[i].end_spec(),
    ensures
        sorted_disjoint(carve(s, i, size, align)),
        carve(s, i, size, align).len() <= s.len() + 1,
{
    crate::layout::lemma_round_up(s[i].address as int, align);
    let a = round_up(s[i].address as int, align);
    let head = span(s[i].address as int, a);
    let tail = span(a + size, s[i].end_spec());
    assert(s[i].fits());
    if i > 0 {
        assert(s[i - 1].end_spec() <= s[i].address && s[i - 1].address < s[i].address);
    }
    if i + 1 < s.len() {
        assert(s[i].end_spec() <= s[i + 1].address && s[i].address < s[i + 1].address);
    }
    if a > s[i].address && a + size < s[i].end_spec() {
        let u = s.update(i, head);
        lemma_sorted_update(s, i, head);
        assert(u[i] == head);
        if i + 1 < u.len() {
            assert(u[i + 1] == s[i + 1]);
        }
        lemma_sorted_insert(u, i + 1, tail);
    } else if a > s[i].address {
        lemma_sorted_update(s, i, head);
    } else if a + size < s[i].end_spec() {
        lemma_sorted_update(s, i, tail);
    } else {
        lemma_sorted_remove(s, i);
    }
}

/// What is left after bytes have been taken from a region holds no empty
/// region, lies within the regions that were there, and is apart from the
/// bytes taken.
pub proof fn lemma_carve_parts(s: Seq<MemoryRegions>, i: int, size: int, align: int)
    requires
        sorted_disjoint(s),
        all_nonempty(s),
        0 <= i < s.len(),
        align > 0,
        size >= 0,
        round_up(s[i].address as int, align) + size <= s[i].end_spec(),
    ensures
        all_nonempty(carve(s, i, size, align)),
        each_within(carve(s, i, size, align), s),
        forall|j: int|
            0 <= j < carve(s, i, size, align).len() ==> (#[trigger] carve(
                s,
                i,
                size,
                align,
            )[j]).apart(
                span(
                    round_up(s[i].address as int, align),
                    round_up(s[i].address as int, align) + size,
                ),
            ),
{
    crate::layout::lemma_round_up(s[i].address as int, align);
    let a = round_up(s[i].address as int, align);
    let x = span(a, a + size);
    let head = span(s[i].address as int, a);
    let tail = span(a + size, s[i].end_spec());
    let out = carve(s, i, size, align);
    assert(s[i].fits() && s[i].size > 0);
    assert(x.within(s[i]));
    if a > s[i].address && a + size < s[i].end_spec() {
        assert forall|j: int| 0 <= j < out.len() implies (#[trigger] out[j]).size > 0 && out[j].apart(
            x,
        ) && (exists|m: int| 0 <= m < s.len() && out[j].within(#[trigger] s[m])) by {
            let src = if j <= i {
                j
            } else {
                j - 1
            };
            lemma_part(s, i, src, out[j], x);
        }
    } else if a > s[i].address || a + size < s[i].end_spec() {
        assert forall|j: int| 0 <= j < out.len() implies (#[trigger] out[j]).size > 0 && out[j].apart(
            x,
        ) && (exists|m: int| 0 <= m < s.len() && out[j].within(#[trigger] s[m])) by {
            lemma_part(s, i, j, out[j], x);
        }
    } else {
        assert forall|j: int| 0 <= j < out.len() implies (#[trigger] out[j]).size > 0 && out[j].apart(
            x,
        ) && (exists|m: int| 0 <= m < s.len() && out[j].within(#[trigger] s[m])) by {
            let src = if j < i {
                j
            } else {
                j + 1
            };
            lemma_part(s, i, src, out[j], x);
        }
    }
}

/// A region that is the one at `src`, or that lies within the one at `i`
/// beside `x`, is apart from `x` and lies within a region of the list.
proof fn lemma_part(s: Seq<MemoryRegions>, i: int, src: int, q: MemoryRegions, x: MemoryRegions)
    requires
        sorted_disjoint(s),
        all_nonempty(s),
        0 <= i < s.len(),
        0 <= src < s.len(),
        x.within(s[i]),
        src != i ==> q == s[src],
        src == i ==> q.within(s[i]) && q.apart(x) && q.size > 0,
    ensures
        q.size > 0,
        q.apart(x),
        exists|m: int| 0 <= m < s.len() && q.within(#[trigger] s[m]),
{
    assert(s[src].size > 0 && s[src].fits());
    assert(q.within(s[src]));
    if src < i {
        assert(s[src].end_spec() <= s[i].address);
    } else if src > i {
        assert(s[i].end_spec() <= s[src].address);
    }
}

/// A request keeps the invariant of the range list, provided that it asks
/// for at least one byte.
pub proof fn lemma_allocate_in(v: BlockState, size: int, align: int)
    requires
        state_wf(v),
        v.allocatable,
        align > 0,
        size >= 0,
        v.available.len() < v.available_capacity,
        v.reserved.len() < v.reserved_capacity,
    ensures
        size > 0 ==> state_wf(allocate_in(v, size, align).0),
        allocate_in(v, size, align).0.available.len() <= v.available.len() + 1,
        allocate_in(v, size, align).0.reserved.len() <= v.reserved.len() + 1,
        sorted_disjoint(allocate_in(v, size, align).0.available),
{
    crate::search::lemma_first_where_is_first(v.available, fits_request(size, align));
    let i = first_fit(v.available, size, align);
    if i < v.available.len() {
        let r = v.available[i];
        assert(r.fits());
        crate::layout::lemma_round_up(r.address as int, align);
        let a = round_up(r.address as int, align);
        let x = span(a, a + size);
        assert(x.within(r));
        lemma_carve_sorted(v.available, i, size, align);
        lemma_carve_parts(v.available, i, size, align);
        crate::region::lemma_apart_within(carve(v.available, i, size, align), v.available, v.reserved);
        let k = lower_bound(v.reserved, x.address as int);
        lemma_lower_bound_splits(v.reserved, x.address as int);
        lemma_merge_at_shape(v.reserved, k, x);
        if size > 0 {
            if k + 1 < v.reserved.len() {
                assert(v.reserved[k].address < v.reserved[k + 1].address);
                assert(r.apart(v.reserved[k + 1]));
                assert(v.reserved[k + 1].size > 0);
            }
            lemma_merge_at_sorted(v.reserved, k, x);
            lemma_absorb_apart(carve(v.available, i, size, align), v.reserved, x);
        }
    }
}

/// Either list has fewer than ten free slots.
pub open spec fn needs_room(v: BlockState) -> bool {
    v.available.len() + HEADROOM > v.available_capacity || v.reserved.len() + HEADROOM
        > v.reserved_capacity
}

/// Both lists have ten free slots.
pub open spec fn has_room(v: BlockState) -> bool {
    v.available.len() + HEADROOM <= v.available_capacity && v.reserved.len() + HEADROOM
        <= v.reserved_capacity
}

/// Both lists have a free slot.
pub open spec fn has_room_for_one(v: BlockState) -> bool {
    v.available.len() < v.available_capacity && v.reserved.len() < v.reserved_capacity
}

/// The number of bytes of a store for twice the capacity of both lists.
pub open spec fn store_bytes(v: BlockState) -> int {
    (v.available_capacity + v.reserved_capacity) * 2 * REGION_BYTES
}

/// The lists can move to a larger store: each has a free slot, the size of
/// the store is a machine word, and an available region has room for it.
pub open spec fn can_move(v: BlockState) -> bool {
    &&& has_room_for_one(v)
    &&& store_bytes(v) <= usize::MAX
    &&& first_fit(v.available, store_bytes(v), PAGE_SIZE as int) < v.available.len()
}

/// The next request can be served: the lists need no larger store, or can move to one.
pub open spec fn serviceable(v: BlockState) -> bool {
    needs_room(v) ==> can_move(v)
}

/// The state after the lists have moved: the store is carved like any
/// block, both capacities double, and the lists hold what they held.
pub open spec fn moved(v: BlockState) -> BlockState {
    let done = allocate_in(v, store_bytes(v), PAGE_SIZE as int);
    BlockState {
        available_capacity: 2 * v.available_capacity,
        reserved_capacity: 2 * v.reserved_capacity,
        store: done.1,
        ..done.0
    }
}

/// The state at the start of a request: the lists have moved if they had to.
pub open spec fn with_room(v: BlockState) -> BlockState {
    if needs_room(v) {
        moved(v)
    } else {
        v
    }
}

/// The state after a request for `size` bytes aligned to `align`, and its
/// answer. Before the lists are finalised the answer is `None` and nothing
/// changes.
pub open spec fn request_in(v: BlockState, size: int, align: int) -> (BlockState, Option<int>) {
    if !v.allocatable {
        (v, None)
    } else {
        allocate_in(with_room(v), size, align)
    }
}

/// The reserved list after the range of `size` bytes at `address` has left
/// it. A region that starts at `address` loses its first `size` bytes, or
/// goes where it has no more than that. Otherwise the region that starts
/// before `address` loses the range if it holds all of it, and falls in two
/// where the range lies inside it. A range of no bytes changes nothing.
pub open spec fn release(s: Seq<MemoryRegions>, address: int, size: int) -> Seq<MemoryRegions> {
    let k = lower_bound(s, address);
    if size == 0 {
        s
    } else if k < s.len() && s[k].address == address {
        if size < s[k].size {
            s.update(k, span(address + size, s[k].end_spec()))
        } else {
            s.remove(k)
        }
    } else if k == 0 {
        s
    } else if address + size == s[k - 1].end_spec() {
        s.update(k - 1, span(s[k - 1].address as int, address))
    } else if address + size < s[k - 1].end_spec() {
        s.update(k - 1, span(s[k - 1].address as int, address)).insert(
            k,
            span(address + size, s[k - 1].end_spec()),
        )
    } else {
        s
    }
}

/// The state after the block of `size` bytes at `address` has come back.
/// Before the lists are finalised, and for a block of no bytes, nothing
/// changes. Otherwise the lists move if they have to, the range leaves the
/// reserved list and joins the available one.
pub open spec fn return_in(v: BlockState, address: int, size: int) -> BlockState {
    if !v.allocatable || size == 0 {
        v
    } else {
        let w = with_room(v);
        BlockState {
            available: absorb(w.available, span(address, address + size)),
            reserved: release(w.reserved, address, size),
            ..w
        }
    }
}

/// Moving the lists keeps the invariant and leaves ten free slots in each.
pub proof fn lemma_moved(v: BlockState)
    requires
        state_wf(v),
        v.allocatable,
        can_move(v),
    ensures
        state_wf(moved(v)),
        has_room(moved(v)),
        moved(v).allocatable,
{
    lemma_allocate_in(v, store_bytes(v), PAGE_SIZE as int);
}

/// A region that the list covers is still covered after another region has
/// been recorded in the list.
pub proof fn lemma_absorb_covers(s: Seq<MemoryRegions>, y: MemoryRegions, x: MemoryRegions)
    requires
        sorted_disjoint(s),
        y.fits(),
        covered_by(s, x),
    ensures
        covered_by(absorb(s, y), x),
{
    lemma_lower_bound_splits(s, y.address as int);
    let k = lower_bound(s, y.address as int);
    let r = absorb(s, y);
    let i = choose|i: int| 0 <= i < s.len() && x.within(#[trigger] s[i]);
    let meets_before = k > 0 && y.address <= s[k - 1].end_spec();
    let meets_next = k < s.len() && y.end_spec() >= s[k].address;
    assert(s[i].fits());
    if k > 0 {
        assert(s[k - 1].fits());
    }
    if k < s.len() {
        assert(s[k].fits());
    }
    if meets_before && meets_next {
        let j = if i <= k - 1 {
            i
        } else {
            i - 1
        };
        assert(x.within(r[j]));
    } else if meets_before || meets_next {
        assert(x.within(r[i]));
    } else {
        let j = if i < k {
            i
        } else {
            i + 1
        };
        assert(r[j] == s[i]);
        assert(x.within(r[j]));
    }
}

/// The position of the region that covers `x` in a sorted list: the one that
/// starts where `x` starts, or else the last one that starts before `x`.
pub open spec fn cover_position(s: Seq<MemoryRegions>, x: MemoryRegions) -> int {
    let k = lower_bound(s, x.address as int);
    if k < s.len() && s[k].address == x.address {
        k
    } else {
        k - 1
    }
}

/// In a sorted list, a range that is not empty is covered by the region at
/// its cover position and by no other.
pub proof fn lemma_cover_position(s: Seq<MemoryRegions>, x: MemoryRegions)
    requires
        sorted_disjoint(s),
        x.size > 0,
        covered_by(s, x),
    ensures
        0 <= cover_position(s, x) < s.len(),
        x.within(s[cover_position(s, x)]),
{
    lemma_lower_bound_splits(s, x.address as int);
    let k = lower_bound(s, x.address as int);
    let c = choose|i: int| 0 <= i < s.len() && x.within(#[trigger] s[i]);
    let i = cover_position(s, x);
    assert(s[c].fits());
    if c < i {
        assert(s[c].end_spec() <= s[i].address);
    }
    if c > i {
        if i >= 0 {
            assert(s[i].address < s[c].address);
        }
        if k < s.len() && c > k {
            assert(s[k].address < s[c].address);
        }
    }
}

/// Taking a covered range out of the reserved list keeps the list sorted and disjoint.
pub proof fn lemma_release_sorted(s: Seq<MemoryRegions>, x: MemoryRegions)
    requires
        sorted_disjoint(s),
        x.size > 0,
        covered_by(s, x),
    ensures
        sorted_disjoint(release(s, x.address as int, x.size as int)),
        release(s, x.address as int, x.size as int).len() <= s.len() + 1,
{
    lemma_cover_position(s, x);
    let i = cover_position(s, x);
    assert(s[i].fits());
    if i > 0 {
        assert(s[i - 1].end_spec() <= s[i].address && s[i - 1].address < s[i].address);
    }
    if i + 1 < s.len() {
        assert(s[i].end_spec() <= s[i + 1].address && s[i].address < s[i + 1].address);
    }
    let head = span(s[i].address as int, x.address as int);
    let tail = span(x.end_spec(), s[i].end_spec());
    if s[i].address == x.address {
        if x.size < s[i].size {
            lemma_sorted_update(s, i, tail);
        } else {
            lemma_sorted_remove(s, i);
        }
    } else if x.end_spec() == s[i].end_spec() {
        lemma_sorted_update(s, i, head);
    } else {
        let u = s.update(i, head);
        lemma_sorted_update(s, i, head);
        assert(u[i] == head);
        if i + 1 < u.len() {
            assert(u[i + 1] == s[i + 1]);
        }
        lemma_sorted_insert(u, i + 1, tail);
    }
}

/// What is left of the reserved list after a covered range has been taken
/// out holds no empty region, lies within the regions that were there, and
/// is apart from the range.
pub proof fn lemma_release_parts(s: Seq<MemoryRegions>, x: MemoryRegions)
    requires
        sorted_disjoint(s),
        all_nonempty(s),
        x.size > 0,
        covered_by(s, x),
    ensures
        all_nonempty(release(s, x.address as int, x.size as int)),
        each_within(release(s, x.address as int, x.size as int), s),
        forall|j: int|
            0 <= j < release(s, x.address as int, x.size as int).len() ==> (#[trigger] release(
                s,
                x.address as int,
                x.size as int,
            )[j]).apart(x),
{
    lemma_cover_position(s, x);
    lemma_lower_bound_splits(s, x.address as int);
    let out = release(s, x.address as int, x.size as int);
    let i = cover_position(s, x);
    let k = lower_bound(s, x.address as int);
    assert(s[i].fits() && s[i].size > 0);
    if k > 0 {
        assert(s[k - 1].address < x.address);
    }
    if s[i].address == x.address {
        if x.size < s[i].size {
            assert forall|j: int| 0 <= j < out.len() implies (#[trigger] out[j]).size > 0
                && out[j].apart(x) && (exists|m: int|
                0 <= m < s.len() && out[j].within(#[trigger] s[m])) by {
                lemma_part(s, i, j, out[j], x);
            }
        } else {
            assert forall|j: int| 0 <= j < out.len() implies (#[trigger] out[j]).size > 0
                && out[j].apart(x) && (exists|m: int|
                0 <= m < s.len() && out[j].within(#[trigger] s[m])) by {
                let src = if j < i {
                    j
                } else {
                    j + 1
                };
                lemma_part(s, i, src, out[j], x);
            }
        }
    } else if x.end_spec() == s[i].end_spec() {
        assert forall|j: int| 0 <= j < out.len() implies (#[trigger] out[j]).size > 0
            && out[j].apart(x) && (exists|m: int|
            0 <= m < s.len() && out[j].within(#[trigger] s[m])) by {
            lemma_part(s, i, j, out[j], x);
        }
    } else {
        assert forall|j: int| 0 <= j < out.len() implies (#[trigger] out[j]).size > 0
            && out[j].apart(x) && (exists|m: int|
            0 <= m < s.len() && out[j].within(#[trigger] s[m])) by {
            let src = if j <= i {
                j
            } else {
                j - 1
            };
            lemma_part(s, i, src, out[j], x);
        }
    }
}

/// Taking back a block that lies within a reserved region keeps the
/// invariant of the range list.
pub proof fn lemma_return_in(v: BlockState, address: int, size: int)
    requires
        state_wf(v),
        v.allocatable,
        serviceable(v),
        size > 0,
        0 <= address,
        address + size <= usize::MAX,
    ensures
        covered_by(v.reserved, span(address, address + size)) ==> state_wf(
            return_in(v, address, size),
        ),
{
    let x = span(address, address + size);
    if covered_by(v.reserved, x) {
        let w = with_room(v);
        if needs_room(v) {
            lemma_moved(v);
            let i = first_fit(v.available, store_bytes(v), PAGE_SIZE as int);
            crate::search::lemma_first_where_is_first(
                v.available,
                fits_request(store_bytes(v), PAGE_SIZE as int),
            );
            assert(v.available[i].fits());
            crate::layout::lemma_round_up(v.available[i].address as int, PAGE_SIZE as int);
            let a = round_up(v.available[i].address as int, PAGE_SIZE as int);
            lemma_absorb_covers(v.reserved, span(a, a + store_bytes(v)), x);
        }
        assert(state_wf(w) && has_room(w) && covered_by(w.reserved, x));
        lemma_release_sorted(w.reserved, x);
        lemma_release_parts(w.reserved, x);
        let left = release(w.reserved, address, size);
        let k = lower_bound(w.available, address);
        lemma_lower_bound_splits(w.available, address);
        lemma_merge_at_shape(w.available, k, x);
        let y = choose|i: int| 0 <= i < w.reserved.len() && x.within(#[trigger] w.reserved[i]);
        if k + 1 < w.available.len() {
            assert(w.available[k].address < w.available[k + 1].address);
            assert(w.available[k + 1].apart(w.reserved[y]));
            assert(w.available[k + 1].size > 0);
        }
        lemma_merge_at_sorted(w.available, k, x);
        crate::region::lemma_apart_symmetric(w.available, w.reserved);
        crate::region::lemma_apart_within(left, w.reserved, w.available);
        lemma_absorb_apart(left, w.available, x);
        crate::region::lemma_apart_symmetric(left, absorb(w.available, x));
    }
}

/// The alignment of a reservation: `align`, or the least power of two that
/// holds `size` where `align` is `None` or 0.
pub open spec fn dynamic_align(size: int, align: Option<usize>) -> int {
    match align {
        Some(a) => if a > 0 {
            a as int
        } else {
            crate::layout::next_pow2(size)
        },
        None => crate::layout::next_pow2(size),
    }
}

/// The first address of the range that a reservation is held to.
pub open spec fn dynamic_low(range: Option<(usize, usize)>) -> int {
    match range {
        Some(r) => r.0 as int,
        None => 0,
    }
}

/// The first address behind the range that a reservation is held to.
pub open spec fn dynamic_high(range: Option<(usize, usize)>) -> int {
    match range {
        Some(r) => r.0 + r.1,
        None => usize::MAX as int,
    }
}

/// The `size` bytes at `a` can be reserved: `a` is a multiple of `align`,
/// the bytes lie between `low` and `high` and within an available region,
/// and are apart from every reserved region.
pub open spec fn dynamic_fit(v: BlockState, size: int, align: int, low: int, high: int, a: int) -> bool {
    &&& 0 <= a
    &&& a + size <= usize::MAX
    &&& a % align == 0
    &&& low <= a
    &&& a + size <= high
    &&& covered_by(v.available, span(a, a + size))
    &&& forall|j: int|
        0 <= j < v.reserved.len() ==> span(a, a + size).apart(#[trigger] v.reserved[j])
}

/// What a reservation comes to. It is refused once the lists are finalised
/// and where the reserved list is full. Otherwise the answer is the lowest
/// address at which the bytes can be reserved, and they join the reserved
/// list; or `None`, with nothing changed, where there is no such address or
/// the alignment is no machine word.
pub open spec fn dynamic_outcome(
    pre: BlockState,
    size: int,
    align: Option<usize>,
    range: Option<(usize, usize)>,
    post: BlockState,
    r: Result<Option<usize>, AllocError>,
) -> bool {
    let al = dynamic_align(size, align);
    let lo = dynamic_low(range);
    let hi = dynamic_high(range);
    if pre.allocatable {
        r == Err::<Option<usize>, AllocError>(AllocError::AlreadyFinalized) && post == pre
    } else if pre.reserved.len() >= pre.reserved_capacity {
        r == Err::<Option<usize>, AllocError>(AllocError::CapacityExceeded) && post == pre
    } else if al > usize::MAX {
        r == Ok::<Option<usize>, AllocError>(None) && post == pre
    } else {
        match r {
            Ok(Some(a)) => {
                &&& dynamic_fit(pre, size, al, lo, hi, a as int)
                &&& forall|b: int| 0 <= b < a ==> !#[trigger] dynamic_fit(pre, size, al, lo, hi, b)
                &&& post == BlockState {
                    reserved: insert_merge(pre.reserved, span(a as int, a + size)),
                    ..pre
                }
            },
            Ok(None) => {
                &&& forall|b: int| 0 <= b ==> !#[trigger] dynamic_fit(pre, size, al, lo, hi, b)
                &&& post == pre
            },
            Err(_) => false,
        }
    }
}

/// A reservation that is answered with `None` leaves the lists as they were.
pub proof fn lemma_nothing_reserved(
    pre: BlockState,
    size: int,
    align: Option<usize>,
    range: Option<(usize, usize)>,
    post: BlockState,
)
    requires
        dynamic_outcome(pre, size, align, range, post, Ok::<Option<usize>, AllocError>(None)),
    ensures
        post == pre,
{
}

/// A region that is apart from every region of a sorted list reaches none of them.
pub proof fn lemma_dynamic_wf(v: BlockState, x: MemoryRegions)
    requires
        state_wf(v),
        forall|j: int| 0 <= j < v.reserved.len() ==> x.apart(#[trigger] v.reserved[j]),
    ensures
        x.size > 0 ==> reaches_one_at_most(v.reserved, x),
{
    if x.size > 0 {
        assert forall|i: int, j: int|
            0 <= i < j < v.reserved.len() && x.address < (#[trigger] v.reserved[i]).address implies x.end_spec()
            <= (#[trigger] v.reserved[j]).address by {
            assert(x.apart(v.reserved[i]));
            assert(v.reserved[i].fits() && v.reserved[i].size > 0);
            assert(v.reserved[i].address < v.reserved[j].address);
        }
    }
}

/// What adding `x` to one of the two lists of `pre` comes to: it is refused
/// once the lists are finalised, and where the list is full; otherwise `x` is
/// merged into the list and nothing else changes.
pub open spec fn add_outcome(
    pre: BlockState,
    reserved: bool,
    x: MemoryRegions,
    post: BlockState,
    r: Result<(), AllocError>,
) -> bool {
    if pre.allocatable {
        r == Err::<(), AllocError>(AllocError::AlreadyFinalized) && post == pre
    } else if list_of(pre, reserved).len() + 1 > capacity_of(pre, reserved) {
        r == Err::<(), AllocError>(AllocError::CapacityExceeded) && post == pre
    } else {
        r is Ok && post == with_list(pre, reserved, insert_merge(list_of(pre, reserved), x))
    }
}

/// Adding a region that is not empty to a list without empty regions leaves
/// none in it, and makes the list longer by one region at most.
pub proof fn lemma_insert_merge_nonempty(s: Seq<MemoryRegions>, x: MemoryRegions)
    requires
        sorted_disjoint(s),
        x.fits(),
    ensures
        insert_merge(s, x).len() <= s.len() + 1,
        all_nonempty(s) && x.size > 0 ==> all_nonempty(insert_merge(s, x)),
{
    lemma_lower_bound_splits(s, x.address as int);
    let k = lower_bound(s, x.address as int);
    let r = insert_merge(s, x);
    if all_nonempty(s) && x.size > 0 {
        if k > 0 {
            assert(s[k - 1].fits() && s[k - 1].size > 0);
        }
        if k < s.len() {
            assert(s[k].fits() && s[k].size > 0);
        }
        if k + 1 < s.len() {
            assert(s[k + 1].fits() && s[k + 1].size > 0);
        }
        assert forall|i: int| 0 <= i < r.len() implies (#[trigger] r[i]).size > 0 by {
            if i + 1 < s.len() {
                assert(s[i + 1].size > 0);
            }
            if i < s.len() {
                assert(s[i].size > 0);
            }
            if i > 0 {
                assert(s[i - 1].size > 0);
            }
        }
    }
}

/// The list after `x` has met its neighbours at position `k`: `x` is fused
/// with the region before `k` and with the region at `k` as far as it touches
/// them, and put in at `k` where it touches neither.
pub open spec fn merge_at(s: Seq<MemoryRegions>, k: int, x: MemoryRegions) -> Seq<MemoryRegions>
    recommends
        0 <= k <= s.len(),
{
    let meets_before = k > 0 && x.address <= s[k - 1].end_spec();
    let meets_next = k < s.len() && x.end_spec() >= s[k].address;
    if meets_before && meets_next {
        s.update(
            k - 1,
            span(
                s[k - 1].address as int,
                larger(larger(s[k - 1].end_spec(), x.end_spec()), s[k].end_spec()),
            ),
        ).remove(k)
    } else if meets_before {
        s.update(k - 1, span(s[k - 1].address as int, larger(s[k - 1].end_spec(), x.end_spec())))
    } else if meets_next {
        s.update(k, span(x.address as int, larger(s[k].end_spec(), x.end_spec())))
    } else {
        s.insert(k, x)
    }
}

/// The list after `x` has been recorded in it: `x` meets its neighbours at
/// the position at which its address belongs.
pub open spec fn absorb(s: Seq<MemoryRegions>, x: MemoryRegions) -> Seq<MemoryRegions> {
    merge_at(s, lower_bound(s, x.address as int), x)
}

/// The list after the region `x` has been added to it. A region that starts
/// where `x` starts grows to the size of `x`, and takes in its successor where
/// it now touches it; otherwise `x` meets its neighbours.
pub open spec fn insert_merge(s: Seq<MemoryRegions>, x: MemoryRegions) -> Seq<MemoryRegions> {
    let k = lower_bound(s, x.address as int);
    if k < s.len() && s[k].address == x.address {
        if x.size <= s[k].size {
            s
        } else if k + 1 < s.len() && x.end_spec() >= s[k + 1].address {
            s.update(
                k,
                span(x.address as int, larger(x.end_spec(), s[k + 1].end_spec())),
            ).remove(k + 1)
        } else {
            s.update(k, x)
        }
    } else {
        merge_at(s, k, x)
    }
}

/// Adding a region that lies within a region of the list changes nothing,
/// as long as no two regions of the list touch.
pub proof fn lemma_insert_contained(s: Seq<MemoryRegions>, x: MemoryRegions)
    requires
        crate::region::separated(s),
        covered_by(s, x),
    ensures
        insert_merge(s, x) == s,
{
    lemma_lower_bound_splits(s, x.address as int);
    let k = lower_bound(s, x.address as int);
    let c = choose|i: int| 0 <= i < s.len() && x.within(#[trigger] s[i]);
    assert(s[c].fits());
    if k < s.len() && s[k].address == x.address {
        assert(c == k) by {
            if c < k {
                assert(s[c].end_spec() < s[k].address);
            }
            if c > k {
                assert(s[k].address < s[c].address);
            }
        }
    } else {
        assert(c == k - 1) by {
            if c >= k {
                assert(s[c].address >= x.address);
            }
            if c < k - 1 {
                assert(s[c].end_spec() < s[k - 1].address);
                assert(s[k - 1].address < x.address);
            }
        }
        if k < s.len() {
            assert(s[k - 1].end_spec() < s[k].address);
        }
        assert(merge_at(s, k, x) =~= s);
    }
}

/// A sorted list stays sorted when one region is taken out.
pub proof fn lemma_sorted_remove(s: Seq<MemoryRegions>, k: int)
    requires
        sorted_disjoint(s),
        0 <= k < s.len(),
    ensures
        sorted_disjoint(s.remove(k)),
{
    let r = s.remove(k);
    assert forall|i: int| 0 <= i < r.len() implies (#[trigger] r[i]).fits() by {
        if i < k {
            assert(r[i] == s[i]);
        } else {
            assert(r[i] == s[i + 1]);
        }
    }
    assert forall|i: int, j: int| 0 <= i < j < r.len() implies (#[trigger] r[i]).end_spec() <= (
    #[trigger] r[j]).address && r[i].address < r[j].address by {
        let si = if i < k {
            i
        } else {
            i + 1
        };
        let sj = if j < k {
            j
        } else {
            j + 1
        };
        assert(s[si].end_spec() <= s[sj].address && s[si].address < s[sj].address);
    }
}

/// A sorted list stays sorted when one region is replaced by a region that
/// lies between its two neighbours.
pub proof fn lemma_sorted_update(s: Seq<MemoryRegions>, k: int, r: MemoryRegions)
    requires
        sorted_disjoint(s),
        0 <= k < s.len(),
        r.fits(),
        k > 0 ==> s[k - 1].end_spec() <= r.address && s[k - 1].address < r.address,
        k + 1 < s.len() ==> r.end_spec() <= s[k + 1].address && r.address < s[k + 1].address,
    ensures
        sorted_disjoint(s.update(k, r)),
{
    let u = s.update(k, r);
    assert forall|i: int| 0 <= i < u.len() implies (#[trigger] u[i]).fits() by {
        if i != k {
            assert(u[i] == s[i]);
        }
    }
    assert forall|i: int, j: int| 0 <= i < j < u.len() implies (#[trigger] u[i]).end_spec() <= (
    #[trigger] u[j]).address && u[i].address < u[j].address by {
        assert(s[i].end_spec() <= s[j].address && s[i].address < s[j].address);
        if i == k {
            if j > k + 1 {
                assert(s[k + 1].address < s[j].address);
            }
        } else if j == k {
            if i < k - 1 {
                assert(s[i].end_spec() <= s[k - 1].address);
                assert(s[i].address < s[k - 1].address);
            }
        }
    }
}

/// A sorted list stays sorted when a region is put in between two neighbours
/// that it lies between.
pub proof fn lemma_sorted_insert(s: Seq<MemoryRegions>, k: int, r: MemoryRegions)
    requires
        sorted_disjoint(s),
        0 <= k <= s.len(),
        r.fits(),
        k > 0 ==> s[k - 1].end_spec() <= r.address && s[k - 1].address < r.address,
        k < s.len() ==> r.end_spec() <= s[k].address && r.address < s[k].address,
    ensures
        sorted_disjoint(s.insert(k, r)),
{
    let u = s.insert(k, r);
    assert forall|i: int| 0 <= i < u.len() implies (#[trigger] u[i]).fits() by {
        if i < k {
            assert(u[i] == s[i]);
        } else if i > k {
            assert(u[i] == s[i - 1]);
        }
    }
    assert forall|i: int, j: int| 0 <= i < j < u.len() implies (#[trigger] u[i]).end_spec() <= (
    #[trigger] u[j]).address && u[i].address < u[j].address by {
        let si = if i < k {
            i
        } else {
            i - 1
        };
        let sj = if j < k {
            j
        } else {
            j - 1
        };
        if i == k {
            if sj > k {
                assert(s[k].address < s[sj].address);
            }
        } else if j == k {
            if si < k - 1 {
                assert(s[si].end_spec() <= s[k - 1].address);
                assert(s[si].address < s[k - 1].address);
            }
        } else {
            assert(s[si].end_spec() <= s[sj].address && s[si].address < s[sj].address);
        }
    }
}

/// Fusing a region with its neighbours keeps the list sorted and disjoint,
/// as long as the region does not run past the start of the region behind
/// position `k`.
pub proof fn lemma_merge_at_sorted(s: Seq<MemoryRegions>, k: int, x: MemoryRegions)
    requires
        sorted_disjoint(s),
        x.fits(),
        k == lower_bound(s, x.address as int),
        k + 1 < s.len() ==> x.end_spec() <= s[k + 1].address,
    ensures
        sorted_disjoint(merge_at(s, k, x)),
{
    lemma_lower_bound_splits(s, x.address as int);
    let meets_before = k > 0 && x.address <= s[k - 1].end_spec();
    let meets_next = k < s.len() && x.end_spec() >= s[k].address;
    if k > 0 {
        assert(s[k - 1].fits());
        if k < s.len() {
            assert(s[k - 1].end_spec() <= s[k].address && s[k - 1].address < s[k].address);
        }
        if k > 1 {
            assert(s[k - 2].end_spec() <= s[k - 1].address && s[k - 2].address < s[k
                - 1].address);
        }
    }
    if k < s.len() {
        assert(s[k].fits());
        if k + 1 < s.len() {
            assert(s[k].end_spec() <= s[k + 1].address && s[k].address < s[k + 1].address);
        }
    }
    if meets_before && meets_next {
        let r = span(
            s[k - 1].address as int,
            larger(larger(s[k - 1].end_spec(), x.end_spec()), s[k].end_spec()),
        );
        let t = s.remove(k);
        lemma_sorted_remove(s, k);
        assert(t[k - 1] == s[k - 1]);
        if k > 1 {
            assert(t[k - 2] == s[k - 2]);
        }
        if k < t.len() {
            assert(t[k] == s[k + 1]);
            assert(s[k - 1].address < s[k + 1].address);
        }
        lemma_sorted_update(t, k - 1, r);
        assert(t.update(k - 1, r) =~= s.update(k - 1, r).remove(k));
    } else if meets_before {
        let r = span(s[k - 1].address as int, larger(s[k - 1].end_spec(), x.end_spec()));
        lemma_sorted_update(s, k - 1, r);
    } else if meets_next {
        let r = span(x.address as int, larger(s[k].end_spec(), x.end_spec()));
        lemma_sorted_update(s, k, r);
    } else {
        lemma_sorted_insert(s, k, x);
    }
}

/// Adding a region keeps the list sorted and disjoint, as long as at most one
/// region of the list starts strictly inside the added one.
pub proof fn lemma_insert_merge_sorted(s: Seq<MemoryRegions>, x: MemoryRegions)
    requires
        sorted_disjoint(s),
        x.fits(),
        reaches_one_at_most(s, x),
    ensures
        sorted_disjoint(insert_merge(s, x)),
{
    lemma_lower_bound_splits(s, x.address as int);
    let k = lower_bound(s, x.address as int);
    if k < s.len() && s[k].address == x.address {
        if k > 0 {
            assert(s[k - 1].end_spec() <= s[k].address && s[k - 1].address < s[k].address);
        }
        if k + 1 < s.len() {
            assert(s[k].end_spec() <= s[k + 1].address && s[k].address < s[k + 1].address);
            assert(s[k + 1].fits());
            if k + 2 < s.len() {
                assert(s[k + 1].end_spec() <= s[k + 2].address && s[k + 1].address < s[k
                    + 2].address);
                assert(x.end_spec() <= s[k + 2].address);
            }
        }
        if x.size <= s[k].size {
        } else if k + 1 < s.len() && x.end_spec() >= s[k + 1].address {
            let r = span(x.address as int, larger(x.end_spec(), s[k + 1].end_spec()));
            let t = s.remove(k + 1);
            lemma_sorted_remove(s, k + 1);
            assert(t[k] == s[k]);
            if k > 0 {
                assert(t[k - 1] == s[k - 1]);
            }
            if k + 1 < t.len() {
                assert(t[k + 1] == s[k + 2]);
                assert(s[k].address < s[k + 2].address);
            }
            lemma_sorted_update(t, k, r);
            assert(t.update(k, r) =~= s.update(k, r).remove(k + 1));
        } else {
            lemma_sorted_update(s, k, x);
        }
    } else {
        if k + 1 < s.len() {
            assert(x.address < s[k].address);
            assert(x.end_spec() <= s[k + 1].address);
        }
        lemma_merge_at_sorted(s, k, x);
    }
}

} // verus!
