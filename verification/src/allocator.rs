//! The front of the allocator: it sends each request to the buddy allocator
//! or to the range list, hands the buddy allocator fresh blocks from the
//! range list, and carries the lists from set-up to hand-over.
use vstd::prelude::*;
use crate::buddy_allocator::alloc_with;
use crate::buddy_allocator::buddy_wf;
use crate::buddy_allocator::merge_up;
use crate::buddy_allocator::released_size;
use crate::buddy_allocator::size_level;
use crate::buddy_allocator::wants_block;
use crate::buddy_allocator::BuddyAllocator;
use crate::buddy_allocator::BuddyState;
use crate::buddy_allocator::HeapSource;
use crate::buddy_allocator::MINIMUM_ALLOCATABLE_BYTES;
use crate::error::AllocError;
use crate::layout::is_pow2;
use crate::layout::Layout;
use crate::range_list_allocator::add_outcome;
use crate::range_list_allocator::dynamic_outcome;
use crate::range_list_allocator::finalize_outcome;
use crate::range_list_allocator::request_in;
use crate::range_list_allocator::return_in;
use crate::range_list_allocator::serviceable;
use crate::range_list_allocator::state_wf;
use crate::range_list_allocator::BlockState;
use crate::range_list_allocator::MemoryBlock;
use crate::range_list_allocator::PAGE_SIZE;
use crate::region::covered_by;
use crate::region::larger;
use crate::region::reaches_one_at_most;
use crate::region::span;
use crate::region::MemoryRegions;

verus! {

/// The source of the buddy allocator of the front. It stands for the range
/// list: the front itself takes the fresh block from the list and hands it
/// to the buddy allocator, so the source has nothing to fetch.
pub struct ListSource {}

impl HeapSource for ListSource {
    fn fetch(&self) -> (r: Option<usize>)
        ensures
            r is None,
    {
        None
    }
}

/// What the front holds: the range list and the buddy allocator, each once
/// the front is initialised.
pub struct FrontState {
    pub lists: Option<BlockState>,
    pub buddy: Option<BuddyState>,
}

/// An address as a machine word.
pub open spec fn as_word(a: Option<int>) -> Option<usize> {
    match a {
        Some(x) => Some(x as usize),
        None => None,
    }
}

/// A machine word as an address.
pub open spec fn as_address(a: Option<usize>) -> Option<int> {
    match a {
        Some(x) => Some(x as int),
        None => None,
    }
}

/// The answer of the buddy allocator as an address.
pub open spec fn answer(r: Result<usize, AllocError>) -> Option<int> {
    match r {
        Ok(x) => Some(x as int),
        Err(_) => None,
    }
}

/// The range list after the buddy allocator has asked for a fresh block of
/// `max` bytes aligned to `max`, and the address of that block.
pub open spec fn block_for_buddy(lists: Option<BlockState>, max: int) -> (
    Option<BlockState>,
    Option<int>,
) {
    match lists {
        Some(b) => if Layout::valid(max, max) {
            (Some(request_in(b, max, max).0), request_in(b, max, max).1)
        } else {
            (lists, None)
        },
        None => (lists, None),
    }
}

/// The state after a request and its answer. A request whose size or
/// alignment is above `max` goes to the range list. Every other goes to the
/// buddy allocator, which gets a fresh block from the range list first where
/// it has no free block for the request. A part that is not initialised
/// answers `None`.
pub open spec fn front_alloc(v: FrontState, max: int, size: int, align: int) -> (
    FrontState,
    Option<int>,
) {
    if larger(size, align) > max {
        match v.lists {
            Some(b) => (
                FrontState { lists: Some(request_in(b, size, align).0), ..v },
                request_in(b, size, align).1,
            ),
            None => (v, None),
        }
    } else {
        match v.buddy {
            Some(b) => if wants_block(b, max, size, align) {
                let got = block_for_buddy(v.lists, max);
                let done = alloc_with(b, max, size, align, as_word(got.1));
                (FrontState { lists: got.0, buddy: Some(done.0) }, answer(done.1))
            } else {
                let done = alloc_with(b, max, size, align, None);
                (FrontState { buddy: Some(done.0), ..v }, answer(done.1))
            },
            None => (v, None),
        }
    }
}

/// The state after the block of `size` bytes aligned to `align` at `ptr` has
/// come back: to the range list where the size or the alignment is above
/// `max`, and to the buddy allocator otherwise.
pub open spec fn front_dealloc(v: FrontState, max: int, ptr: usize, size: int, align: int) -> FrontState {
    if larger(size, align) > max {
        match v.lists {
            Some(b) => FrontState { lists: Some(return_in(b, ptr as int, size)), ..v },
            None => v,
        }
    } else {
        match v.buddy {
            Some(b) => FrontState {
                buddy: Some(
                    BuddyState {
                        free: merge_up(b.free, ptr, size_level(released_size(size)) as int),
                        allocated: b.allocated - released_size(size),
                        ..b
                    },
                ),
                ..v
            },
            None => v,
        }
    }
}

/// The invariant of the front: the parts that are there keep their own
/// invariants, a source is attached to the buddy allocator, and its two
/// counters leave room for one more block of `max` bytes.
pub open spec fn front_wf(v: FrontState, max: int) -> bool {
    &&& is_pow2(max)
    &&& max >= MINIMUM_ALLOCATABLE_BYTES
    &&& v.lists matches Some(b) ==> state_wf(b)
    &&& v.buddy matches Some(b) ==> buddy_wf(b, max) && b.has_source
}

/// The range list can serve the next request, and the counters of the buddy
/// allocator have room for one more block of `max` bytes.
pub open spec fn front_ready(v: FrontState, max: int) -> bool {
    &&& v.lists matches Some(b) ==> (b.allocatable ==> serviceable(b))
    &&& v.buddy matches Some(b) ==> b.allocated + max <= usize::MAX && b.total_size + max
        <= usize::MAX
}

/// A request whose size or alignment is above `max` is answered by the
/// range list alone: the buddy allocator stays as it is.
pub proof fn lemma_large_request_goes_to_lists(v: FrontState, max: int, size: int, align: int)
    requires
        larger(size, align) > max,
    ensures
        front_alloc(v, max, size, align).0.buddy == v.buddy,
        v.lists matches Some(b) ==> front_alloc(v, max, size, align).0.lists == Some(
            request_in(b, size, align).0,
        ) && front_alloc(v, max, size, align).1 == request_in(b, size, align).1,
        v.lists is None ==> front_alloc(v, max, size, align) == (v, None::<int>),
{
}

/// A request whose size and alignment are no larger than `max` leaves the
/// range list alone unless the buddy allocator has no free block for it.
pub proof fn lemma_small_request_goes_to_buddy(v: FrontState, max: int, size: int, align: int)
    requires
        larger(size, align) <= max,
        v.buddy matches Some(b) ==> !wants_block(b, max, size, align),
    ensures
        front_alloc(v, max, size, align).0.lists == v.lists,
        v.buddy matches Some(b) ==> front_alloc(v, max, size, align).0.buddy == Some(
            alloc_with(b, max, size, align, None).0,
        ) && front_alloc(v, max, size, align).1 == answer(alloc_with(b, max, size, align, None).1),
{
}

/// Why a request gets no block, where it gets none.
pub open spec fn refusal(v: FrontState, max: int, size: int, align: int) -> AllocError {
    let from_lists = match v.lists {
        Some(b) => if b.allocatable {
            AllocError::OutOfMemory
        } else {
            AllocError::NotAllocatable
        },
        None => AllocError::NotInitialized,
    };
    if larger(size, align) > max {
        from_lists
    } else {
        match v.buddy {
            Some(b) => if wants_block(b, max, size, align) {
                from_lists
            } else {
                AllocError::OutOfMemory
            },
            None => AllocError::NotInitialized,
        }
    }
}

/// The buddy allocator has no memory and has handed out none.
pub open spec fn holds_nothing(b: BuddyState) -> bool {
    &&& b.allocated == 0
    &&& b.total_size == 0
    &&& forall|l: int| 0 <= l < b.free.len() ==> (#[trigger] b.free[l]).len() == 0
}

/// The block of `size` bytes at `ptr` can go back to the buddy allocator:
/// it is aligned to the size of the block that is given back and ends within
/// the address space, and at least that many bytes are handed out.
pub open spec fn returnable(buddy: Option<BuddyState>, ptr: usize, size: int) -> bool {
    buddy matches Some(b) ==> (ptr as int) % released_size(size) == 0 && ptr + released_size(size)
        <= usize::MAX && b.allocated >= released_size(size)
}

/// The front of the allocator.
pub struct MemoryAllocator<const MAX_ALLOCATABLE_BYTES: usize> {
    range_list_allocator: Option<MemoryBlock>,
    buddy_allocator: Option<BuddyAllocator<MAX_ALLOCATABLE_BYTES, ListSource>>,
}

impl<const MAX_ALLOCATABLE_BYTES: usize> View for MemoryAllocator<MAX_ALLOCATABLE_BYTES> {
    type V = FrontState;

    closed spec fn view(&self) -> FrontState {
        FrontState {
            lists: match self.range_list_allocator {
                Some(b) => Some(b@),
                None => None,
            },
            buddy: match self.buddy_allocator {
                Some(b) => Some(b@),
                None => None,
            },
        }
    }
}

impl<const MAX_ALLOCATABLE_BYTES: usize> MemoryAllocator<MAX_ALLOCATABLE_BYTES> {
    /// The invariant of the front.
    pub open spec fn wf(&self) -> bool {
        front_wf(self@, MAX_ALLOCATABLE_BYTES as int)
    }

    /// The front before it is initialised: it holds neither part.
    pub fn new() -> (r: Self)
        requires
            is_pow2(MAX_ALLOCATABLE_BYTES as int),
            MAX_ALLOCATABLE_BYTES >= MINIMUM_ALLOCATABLE_BYTES,
        ensures
            r.wf(),
            r@.lists is None,
            r@.buddy is None,
    {
        Self { range_list_allocator: None, buddy_allocator: None }
    }

    /// Tests the invariant of the front.
    pub fn is_well_formed(&self) -> (r: bool)
        ensures
            r == self.wf(),
    {
        if !crate::layout::is_power_of_two(MAX_ALLOCATABLE_BYTES) || MAX_ALLOCATABLE_BYTES
            < MINIMUM_ALLOCATABLE_BYTES {
            return false;
        }
        let lists_fine = match &self.range_list_allocator {
            Some(block) => block.is_well_formed(),
            None => true,
        };
        let buddy_fine = match &self.buddy_allocator {
            Some(buddy) => buddy.is_well_formed() && buddy.has_source(),
            None => true,
        };
        lists_fine && buddy_fine
    }

    /// Tests whether the next request can be served: the range list has
    /// room for its records, and the counters of the buddy allocator for one
    /// more block.
    pub fn is_ready(&self) -> (r: bool)
        requires
            self.wf(),
        ensures
            r == front_ready(self@, MAX_ALLOCATABLE_BYTES as int),
    {
        let lists_ready = match &self.range_list_allocator {
            Some(block) => !block.is_finalized() || block.is_serviceable(),
            None => true,
        };
        let buddy_ready = match &self.buddy_allocator {
            Some(buddy) => buddy.allocated() <= usize::MAX - MAX_ALLOCATABLE_BYTES
                && buddy.total_size() <= usize::MAX - MAX_ALLOCATABLE_BYTES,
            None => true,
        };
        lists_ready && buddy_ready
    }

    /// Tests whether the block of `layout` at `ptr` can go back to the part
    /// that handed it out.
    pub fn can_take_back(&self, ptr: usize, layout: Layout) -> (r: bool)
        requires
            self.wf(),
            layout.wf(),
        ensures
            r == (ptr + layout.spec_size() <= usize::MAX && (larger(
                layout.spec_size(),
                layout.spec_align(),
            ) <= MAX_ALLOCATABLE_BYTES ==> returnable(self@.buddy, ptr, layout.spec_size()))),
    {
        if layout.size() > usize::MAX - ptr {
            return false;
        }
        if crate::range_list_allocator::larger_of(layout.size(), layout.align())
            > MAX_ALLOCATABLE_BYTES {
            return true;
        }
        proof {
            crate::buddy_allocator::lemma_released_within(
                layout.spec_size(),
                layout.spec_align(),
                MAX_ALLOCATABLE_BYTES as int,
            );
        }
        match &self.buddy_allocator {
            Some(buddy) => buddy.can_take_back(ptr, layout),
            None => true,
        }
    }

    /// Creates the range list and the buddy allocator, each unless it is there already.
    pub fn init(&mut self)
        requires
            old(self).wf(),
        ensures
            final(self).wf(),
            final(self)@.lists is Some,
            final(self)@.buddy is Some,
            old(self)@.lists is Some ==> final(self)@.lists == old(self)@.lists,
            old(self)@.buddy is Some ==> final(self)@.buddy == old(self)@.buddy,
            old(self)@.lists is None ==> final(self)@.lists == Some(MemoryBlock::init_state()),
            old(self)@.buddy is None ==> holds_nothing(final(self)@.buddy->0),
    {
        if self.range_list_allocator.is_none() {
            self.range_list_allocator = Some(MemoryBlock::init());
        }
        if self.buddy_allocator.is_none() {
            self.buddy_allocator = Some(
                BuddyAllocator::<MAX_ALLOCATABLE_BYTES, ListSource>::new(Some(ListSource {  })),
            );
        }
    }

    /// Takes a block of `MAX_ALLOCATABLE_BYTES` bytes, aligned to that
    /// size, from the range list for the buddy allocator.
    pub fn alloc_for_buddy_allocator(&mut self) -> (r: Option<usize>)
        requires
            old(self).wf(),
            old(self)@.lists matches Some(b) ==> (b.allocatable ==> serviceable(b)),
        ensures
            final(self).wf(),
            final(self)@.buddy == old(self)@.buddy,
            final(self)@.lists == block_for_buddy(old(self)@.lists, MAX_ALLOCATABLE_BYTES as int).0,
            as_address(r) == block_for_buddy(old(self)@.lists, MAX_ALLOCATABLE_BYTES as int).1,
    {
        match &mut self.range_list_allocator {
            Some(block) => {
                match Layout::from_size_align(MAX_ALLOCATABLE_BYTES, MAX_ALLOCATABLE_BYTES) {
                    Ok(layout) => block.allocate_region(layout),
                    Err(_) => None,
                }
            },
            None => None,
        }
    }

    /// Answers a request for `layout` with the address of a block, or with
    /// `None` where there is none.
    pub fn allocate(&mut self, layout: Layout) -> (r: Option<usize>)
        requires
            old(self).wf(),
            layout.wf(),
            front_ready(old(self)@, MAX_ALLOCATABLE_BYTES as int),
        ensures
            final(self)@ == front_alloc(
                old(self)@,
                MAX_ALLOCATABLE_BYTES as int,
                layout.spec_size(),
                layout.spec_align(),
            ).0,
            as_address(r) == front_alloc(
                old(self)@,
                MAX_ALLOCATABLE_BYTES as int,
                layout.spec_size(),
                layout.spec_align(),
            ).1,
            layout.spec_size() > 0 ==> final(self).wf(),
            r matches Some(a) ==> a % layout.align_value() == 0,
    {
        if crate::range_list_allocator::larger_of(layout.size(), layout.align())
            > MAX_ALLOCATABLE_BYTES {
            match &mut self.range_list_allocator {
                Some(block) => block.allocate_region(layout),
                None => None,
            }
        } else {
            let refill = match &self.buddy_allocator {
                Some(buddy) => buddy.needs_refill(layout),
                None => {
                    return None;
                },
            };
            let fresh = if refill {
                self.alloc_for_buddy_allocator()
            } else {
                None
            };
            match &mut self.buddy_allocator {
                Some(buddy) => match buddy.alloc_with_block(layout, fresh) {
                    Ok(a) => Some(a),
                    Err(_) => None,
                },
                None => None,
            }
        }
    }

    /// As [`MemoryAllocator::allocate`], with the reason where no block is
    /// handed out: `NotInitialized` where the part that the request goes to
    /// is not there, `NotAllocatable` where the request goes to the range
    /// list, or the buddy allocator needs a fresh block from it, and the
    /// lists are not finalised, and `OutOfMemory` otherwise.
    pub fn try_allocate(&mut self, layout: Layout) -> (r: Result<usize, AllocError>)
        requires
            old(self).wf(),
            layout.wf(),
            front_ready(old(self)@, MAX_ALLOCATABLE_BYTES as int),
        ensures
            final(self)@ == front_alloc(
                old(self)@,
                MAX_ALLOCATABLE_BYTES as int,
                layout.spec_size(),
                layout.spec_align(),
            ).0,
            match r {
                Ok(a) => front_alloc(
                    old(self)@,
                    MAX_ALLOCATABLE_BYTES as int,
                    layout.spec_size(),
                    layout.spec_align(),
                ).1 == Some(a as int) && a % layout.align_value() == 0,
                Err(e) => front_alloc(
                    old(self)@,
                    MAX_ALLOCATABLE_BYTES as int,
                    layout.spec_size(),
                    layout.spec_align(),
                ).1 is None && e == refusal(
                    old(self)@,
                    MAX_ALLOCATABLE_BYTES as int,
                    layout.spec_size(),
                    layout.spec_align(),
                ),
            },
            layout.spec_size() > 0 ==> final(self).wf(),
    {
        let large = crate::range_list_allocator::larger_of(layout.size(), layout.align())
            > MAX_ALLOCATABLE_BYTES;
        let reason = if large {
            match &self.range_list_allocator {
                Some(block) => if block.is_finalized() {
                    AllocError::OutOfMemory
                } else {
                    AllocError::NotAllocatable
                },
                None => AllocError::NotInitialized,
            }
        } else {
            match &self.buddy_allocator {
                Some(buddy) => if buddy.needs_refill(layout) {
                    match &self.range_list_allocator {
                        Some(block) => if block.is_finalized() {
                            AllocError::OutOfMemory
                        } else {
                            AllocError::NotAllocatable
                        },
                        None => AllocError::NotInitialized,
                    }
                } else {
                    AllocError::OutOfMemory
                },
                None => AllocError::NotInitialized,
            }
        };
        match self.allocate(layout) {
            Some(a) => Ok(a),
            None => Err(reason),
        }
    }

    /// Takes back the block at `ptr` that was handed out for `layout`.
    pub fn deallocate(&mut self, ptr: usize, layout: Layout)
        requires
            old(self).wf(),
            layout.wf(),
            front_ready(old(self)@, MAX_ALLOCATABLE_BYTES as int),
            ptr + layout.spec_size() <= usize::MAX,
            larger(layout.spec_size(), layout.spec_align()) <= MAX_ALLOCATABLE_BYTES
                ==> returnable(old(self)@.buddy, ptr, layout.spec_size()),
        ensures
            final(self)@ == front_dealloc(
                old(self)@,
                MAX_ALLOCATABLE_BYTES as int,
                ptr,
                layout.spec_size(),
                layout.spec_align(),
            ),
            larger(layout.spec_size(), layout.spec_align()) <= MAX_ALLOCATABLE_BYTES
                ==> final(self).wf(),
            (old(self)@.lists matches Some(b) ==> covered_by(
                b.reserved,
                span(ptr as int, ptr + layout.spec_size()),
            )) ==> final(self).wf(),
    {
        if crate::range_list_allocator::larger_of(layout.size(), layout.align())
            > MAX_ALLOCATABLE_BYTES {
            match &mut self.range_list_allocator {
                Some(block) => {
                    block.deallocate_region(ptr, layout);
                },
                None => {},
            }
        } else {
            proof {
                crate::buddy_allocator::lemma_released_within(
                    layout.spec_size(),
                    layout.spec_align(),
                    MAX_ALLOCATABLE_BYTES as int,
                );
            }
            match &mut self.buddy_allocator {
                Some(buddy) => {
                    buddy.dealloc(ptr, layout);
                },
                None => {},
            }
        }
    }
}

/// Initialises `allocator`. Safe to call more than once.
pub fn init<const MAX_ALLOCATABLE_BYTES: usize>(
    allocator: &mut MemoryAllocator<MAX_ALLOCATABLE_BYTES>,
)
    requires
        old(allocator).wf(),
    ensures
        final(allocator).wf(),
        final(allocator)@.lists is Some,
        final(allocator)@.buddy is Some,
        old(allocator)@.lists is Some ==> final(allocator)@.lists == old(allocator)@.lists,
        old(allocator)@.buddy is Some ==> final(allocator)@.buddy == old(allocator)@.buddy,
        old(allocator)@.lists is None ==> final(allocator)@.lists == Some(
            MemoryBlock::init_state(),
        ),
        old(allocator)@.buddy is None ==> holds_nothing(final(allocator)@.buddy->0),
{
    allocator.init();
}

/// What adding a region through the front comes to: `NotInitialized` before
/// the front is initialised, and what the range list makes of it afterwards.
pub open spec fn front_add(
    pre: FrontState,
    reserved: bool,
    x: MemoryRegions,
    post: FrontState,
    r: Result<(), AllocError>,
) -> bool {
    match pre.lists {
        Some(b) => post.buddy == pre.buddy && post.lists is Some && add_outcome(
            b,
            reserved,
            x,
            post.lists->0,
            r,
        ),
        None => r == Err::<(), AllocError>(AllocError::NotInitialized) && post == pre,
    }
}

/// Adds the available region of `size` bytes at `address`. Fails before
/// the front is initialised, once the lists are finalised, and where the
/// list is full.
pub fn add_available_region<const MAX_ALLOCATABLE_BYTES: usize>(
    allocator: &mut MemoryAllocator<MAX_ALLOCATABLE_BYTES>,
    address: usize,
    size: usize,
) -> (r: Result<(), AllocError>)
    requires
        old(allocator).wf(),
        address + size <= usize::MAX,
    ensures
        front_add(
            old(allocator)@,
            false,
            MemoryRegions { address, size },
            final(allocator)@,
            r,
        ),
        size > 0 && (old(allocator)@.lists matches Some(b) ==> reaches_one_at_most(
            b.available,
            MemoryRegions { address, size },
        )) ==> final(allocator).wf(),
{
    match &mut allocator.range_list_allocator {
        Some(block) => {
            if block.is_finalized() {
                return Err(AllocError::AlreadyFinalized);
            }
            block.add_region(&MemoryRegions::from_parts(address, size))
        },
        None => Err(AllocError::NotInitialized),
    }
}

/// Adds the reserved region of `size` bytes at `address`. Fails before the
/// front is initialised, once the lists are finalised, and where the list is
/// full.
pub fn add_reserved_region<const MAX_ALLOCATABLE_BYTES: usize>(
    allocator: &mut MemoryAllocator<MAX_ALLOCATABLE_BYTES>,
    address: usize,
    size: usize,
) -> (r: Result<(), AllocError>)
    requires
        old(allocator).wf(),
        address + size <= usize::MAX,
    ensures
        front_add(
            old(allocator)@,
            true,
            MemoryRegions { address, size },
            final(allocator)@,
            r,
        ),
        size > 0 && (old(allocator)@.lists matches Some(b) ==> reaches_one_at_most(
            b.reserved,
            MemoryRegions { address, size },
        )) ==> final(allocator).wf(),
{
    match &mut allocator.range_list_allocator {
        Some(block) => {
            if block.is_finalized() {
                return Err(AllocError::AlreadyFinalized);
            }
            block.add_reserved_region(&MemoryRegions::from_parts(address, size))
        },
        None => Err(AllocError::NotInitialized),
    }
}

/// Reserves `size` bytes at an address that the range list picks. See
/// [`MemoryBlock::add_reserved_region_dynamic`]. Fails before the front is
/// initialised.
pub fn allocate_dynamic_reserved_region<const MAX_ALLOCATABLE_BYTES: usize>(
    allocator: &mut MemoryAllocator<MAX_ALLOCATABLE_BYTES>,
    size: usize,
    align: Option<usize>,
    alloc_range: Option<(usize, usize)>,
) -> (r: Result<Option<usize>, AllocError>)
    requires
        old(allocator).wf(),
    ensures
        match old(allocator)@.lists {
            Some(b) => final(allocator)@.buddy == old(allocator)@.buddy && final(allocator)@.lists is Some && dynamic_outcome(
                b,
                size as int,
                align,
                alloc_range,
                final(allocator)@.lists->0,
                r,
            ),
            None => r == Err::<Option<usize>, AllocError>(AllocError::NotInitialized) && final(allocator)@ == old(allocator)@,
        },
        size > 0 ==> final(allocator).wf(),
{
    match &mut allocator.range_list_allocator {
        Some(block) => block.add_reserved_region_dynamic(size, align, alloc_range),
        None => Err(AllocError::NotInitialized),
    }
}

/// The first `n` of `ranges` have no room for the reservation, and the
/// reservation in the range behind them, if there is one, comes to `post` and
/// `r`, which is not `Ok(None)`; where there is none, nothing has changed
/// and `r` is `Ok(None)`.
pub open spec fn tried_ranges(
    pre: BlockState,
    size: int,
    align: Option<usize>,
    ranges: Seq<(usize, usize)>,
    n: int,
    post: BlockState,
    r: Result<Option<usize>, AllocError>,
) -> bool {
    &&& 0 <= n <= ranges.len()
    &&& forall|j: int|
        0 <= j < n ==> dynamic_outcome(
            pre,
            size,
            align,
            Some(#[trigger] ranges[j]),
            pre,
            Ok::<Option<usize>, AllocError>(None),
        )
    &&& if n < ranges.len() {
        dynamic_outcome(pre, size, align, Some(ranges[n]), post, r) && r != Ok::<
            Option<usize>,
            AllocError,
        >(None)
    } else {
        post == pre && r == Ok::<Option<usize>, AllocError>(None)
    }
}

/// Reserves `size` bytes in the first of `ranges` that has room for them,
/// trying the ranges in their order; without ranges, anywhere. See
/// [`MemoryBlock::add_reserved_region_dynamic`]. The answer is `Ok(None)`
/// where no range has room. Fails before the front is initialised, and
/// where the range list refuses the reservation.
pub fn allocate_dynamic_reserved_region_in<const MAX_ALLOCATABLE_BYTES: usize>(
    allocator: &mut MemoryAllocator<MAX_ALLOCATABLE_BYTES>,
    size: usize,
    align: Option<usize>,
    ranges: &Vec<(usize, usize)>,
) -> (r: Result<Option<usize>, AllocError>)
    requires
        old(allocator).wf(),
    ensures
        final(allocator)@.buddy == old(allocator)@.buddy,
        match old(allocator)@.lists {
            Some(b) => final(allocator)@.lists is Some && if ranges@.len() == 0 {
                dynamic_outcome(b, size as int, align, None, final(allocator)@.lists->0, r)
            } else {
                exists|n: int| #[trigger]
                    tried_ranges(b, size as int, align, ranges@, n, final(allocator)@.lists->0, r)
            },
            None => r == Err::<Option<usize>, AllocError>(AllocError::NotInitialized) && final(allocator)@
                == old(allocator)@,
        },
        size > 0 ==> final(allocator).wf(),
{
    if ranges.len() == 0 {
        return allocate_dynamic_reserved_region(allocator, size, align, None);
    }
    let ghost start = allocator@;
    let mut i: usize = 0;
    while i < ranges.len()
        invariant
            i <= ranges.len(),
            ranges@.len() > 0,
            allocator.wf(),
            allocator@ == start,
            start == old(allocator)@,
            i > 0 ==> start.lists is Some,
            start.lists matches Some(b) ==> forall|j: int|
                0 <= j < i ==> dynamic_outcome(
                    b,
                    size as int,
                    align,
                    Some(#[trigger] ranges@[j]),
                    b,
                    Ok::<Option<usize>, AllocError>(None),
                ),
        decreases ranges.len() - i,
    {
        let range = ranges[i];
        match allocate_dynamic_reserved_region(allocator, size, align, Some(range)) {
            Ok(None) => {
                proof {
                    if start.lists is Some {
                        let b = start.lists->0;
                        crate::range_list_allocator::lemma_nothing_reserved(
                            b,
                            size as int,
                            align,
                            Some(range),
                            allocator@.lists->0,
                        );
                        assert(allocator@ == start);
                    }
                }
            },
            other => {
                proof {
                    if start.lists is Some {
                        assert(tried_ranges(
                            start.lists->0,
                            size as int,
                            align,
                            ranges@,
                            i as int,
                            allocator@.lists->0,
                            other,
                        ));
                    }
                }
                return other;
            },
        }
        i += 1;
    }
    proof {
        if start.lists is Some {
            assert(tried_ranges(
                start.lists->0,
                size as int,
                align,
                ranges@,
                ranges@.len() as int,
                allocator@.lists->0,
                Ok::<Option<usize>, AllocError>(None),
            ));
        }
    }
    Ok(None)
}

/// Finalises the lists, so that requests can be served. Does nothing once
/// that is done. Fails before the front is initialised, and where the range
/// list cannot be finalised.
pub fn finalize<const MAX_ALLOCATABLE_BYTES: usize>(
    allocator: &mut MemoryAllocator<MAX_ALLOCATABLE_BYTES>,
) -> (r: Result<(), AllocError>)
    requires
        old(allocator).wf(),
    ensures
        match old(allocator)@.lists {
            Some(b) => final(allocator)@.buddy == old(allocator)@.buddy && final(allocator)@.lists is Some && finalize_outcome(b, final(allocator)@.lists->0, r),
            None => r == Err::<(), AllocError>(AllocError::NotInitialized) && final(allocator)@
                == old(allocator)@,
        },
        final(allocator).wf(),
{
    match &mut allocator.range_list_allocator {
        Some(block) => {
            if block.is_finalized() {
                return Ok(());
            }
            block.check_regions()
        },
        None => Err(AllocError::NotInitialized),
    }
}

/// Ends the life of `allocator` at the hand-over to the next stage, and
/// returns the reserved ranges with one more block of `reserve_budget` bytes.
/// See [`MemoryBlock::trim`]. The ranges are none before the front is
/// initialised.
pub fn trim<const MAX_ALLOCATABLE_BYTES: usize>(
    allocator: MemoryAllocator<MAX_ALLOCATABLE_BYTES>,
    reserve_budget: usize,
) -> (r: Vec<(usize, usize)>)
    requires
        allocator.wf(),
        allocator@.lists matches Some(b) ==> (b.allocatable ==> serviceable(b)),
    ensures
        r@ == handed_over(allocator@.lists, reserve_budget as int),
{
    match allocator.range_list_allocator {
        Some(block) => {
            let out = block.trim(reserve_budget);
            proof {
                assert(out@ =~= handed_over(allocator@.lists, reserve_budget as int));
            }
            out
        },
        None => {
            let out: Vec<(usize, usize)> = Vec::new();
            proof {
                assert(out@ =~= handed_over(allocator@.lists, reserve_budget as int));
            }
            out
        },
    }
}

/// The ranges that go to the next stage: the reserved list after one more
/// block of `budget` bytes, aligned to a page, has been carved.
pub open spec fn handed_over(lists: Option<BlockState>, budget: int) -> Seq<(usize, usize)> {
    match lists {
        Some(b) => {
            let left = request_in(b, budget, PAGE_SIZE as int).0.reserved;
            Seq::new(left.len(), |i: int| (left[i].address, left[i].size))
        },
        None => Seq::empty(),
    }
}

} // verus!
