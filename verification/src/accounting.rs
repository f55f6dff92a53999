//! What the range list and the buddy allocator keep count of: no byte is
//! lost or made between the two lists of the range list, and the counter of
//! the buddy allocator follows the blocks that are handed out.
use vstd::prelude::*;
use crate::buddy_allocator::alloc_with;
use crate::buddy_allocator::buddy_wf;
use crate::buddy_allocator::lemma_first_free_is;
use crate::buddy_allocator::lemma_size_level;
use crate::buddy_allocator::released_size;
use crate::buddy_allocator::required_size;
use crate::buddy_allocator::size_level;
use crate::buddy_allocator::BuddyState;
use crate::buddy_allocator::MINIMUM_ALLOCATABLE_BYTES;
use crate::layout::is_pow2;
use crate::layout::next_pow2;
use crate::layout::round_up;
use crate::range_list_allocator::allocate_in;
use crate::range_list_allocator::carve;
use crate::range_list_allocator::cover_position;
use crate::range_list_allocator::first_fit;
use crate::range_list_allocator::fits_request;
use crate::range_list_allocator::lemma_absorb_covers;
use crate::range_list_allocator::lemma_cover_position;
use crate::range_list_allocator::lemma_moved;
use crate::range_list_allocator::merge_at;
use crate::range_list_allocator::needs_room;
use crate::range_list_allocator::release;
use crate::range_list_allocator::request_in;
use crate::range_list_allocator::return_in;
use crate::range_list_allocator::serviceable;
use crate::range_list_allocator::state_wf;
use crate::range_list_allocator::store_bytes;
use crate::range_list_allocator::with_room;
use crate::range_list_allocator::BlockState;
use crate::range_list_allocator::PAGE_SIZE;
use crate::region::all_nonempty;
use crate::region::covered_by;
use crate::region::larger;
use crate::region::lemma_lower_bound_splits;
use crate::region::lemma_total_insert;
use crate::region::lemma_total_remove;
use crate::region::lemma_total_update;
use crate::region::lower_bound;
use crate::region::sorted_disjoint;
use crate::region::span;
use crate::region::total_size;
use crate::region::MemoryRegions;

verus! {

/// The number of bytes that the two lists hold together.
pub open spec fn bytes_held(v: BlockState) -> int {
    total_size(v.available) + total_size(v.reserved)
}

/// Recording a region that shares no address with its neighbours adds its
/// size to the total of the list.
pub proof fn lemma_total_merge_at(s: Seq<MemoryRegions>, k: int, x: MemoryRegions)
    requires
        sorted_disjoint(s),
        all_nonempty(s),
        x.fits(),
        k == lower_bound(s, x.address as int),
        k > 0 ==> x.apart(s[k - 1]),
        k < s.len() ==> x.apart(s[k]),
    ensures
        total_size(merge_at(s, k, x)) == total_size(s) + x.size,
{
    lemma_lower_bound_splits(s, x.address as int);
    let meets_before = k > 0 && x.address <= s[k - 1].end_spec();
    let meets_next = k < s.len() && x.end_spec() >= s[k].address;
    if k > 0 {
        assert(s[k - 1].fits() && s[k - 1].size > 0 && s[k - 1].address < x.address);
    }
    if k < s.len() {
        assert(s[k].fits() && s[k].size > 0 && s[k].address >= x.address);
    }
    if meets_before && meets_next {
        let hull = span(
            s[k - 1].address as int,
            larger(larger(s[k - 1].end_spec(), x.end_spec()), s[k].end_spec()),
        );
        let u = s.update(k - 1, hull);
        lemma_total_update(s, k - 1, hull);
        assert(u[k] == s[k]);
        lemma_total_remove(u, k);
    } else if meets_before {
        lemma_total_update(
            s,
            k - 1,
            span(s[k - 1].address as int, larger(s[k - 1].end_spec(), x.end_spec())),
        );
    } else if meets_next {
        lemma_total_update(s, k, span(x.address as int, larger(s[k].end_spec(), x.end_spec())));
    } else {
        lemma_total_insert(s, k, x);
    }
}

/// Taking bytes from a region takes their number from the total of the list.
pub proof fn lemma_total_carve(s: Seq<MemoryRegions>, i: int, size: int, align: int)
    requires
        sorted_disjoint(s),
        0 <= i < s.len(),
        align > 0,
        size >= 0,
        round_up(s[i].address as int, align) + size <= s[i].end_spec(),
    ensures
        total_size(carve(s, i, size, align)) == total_size(s) - size,
{
    crate::layout::lemma_round_up(s[i].address as int, align);
    let a = round_up(s[i].address as int, align);
    let head = span(s[i].address as int, a);
    let tail = span(a + size, s[i].end_spec());
    assert(s[i].fits());
    if a > s[i].address && a + size < s[i].end_spec() {
        let u = s.update(i, head);
        lemma_total_update(s, i, head);
        lemma_total_insert(u, i + 1, tail);
    } else if a > s[i].address {
        lemma_total_update(s, i, head);
    } else if a + size < s[i].end_spec() {
        lemma_total_update(s, i, tail);
    } else {
        lemma_total_remove(s, i);
    }
}

/// Taking a covered range out of a list takes its size from the total of the list.
pub proof fn lemma_total_release(s: Seq<MemoryRegions>, x: MemoryRegions)
    requires
        sorted_disjoint(s),
        x.size > 0,
        covered_by(s, x),
    ensures
        total_size(release(s, x.address as int, x.size as int)) == total_size(s) - x.size,
{
    lemma_cover_position(s, x);
    lemma_lower_bound_splits(s, x.address as int);
    let i = cover_position(s, x);
    let k = lower_bound(s, x.address as int);
    assert(s[i].fits());
    if k > 0 {
        assert(s[k - 1].address < x.address);
    }
    let head = span(s[i].address as int, x.address as int);
    let tail = span(x.end_spec(), s[i].end_spec());
    if s[i].address == x.address {
        if x.size < s[i].size {
            lemma_total_update(s, i, tail);
        } else {
            lemma_total_remove(s, i);
        }
    } else if x.end_spec() == s[i].end_spec() {
        lemma_total_update(s, i, head);
    } else {
        let u = s.update(i, head);
        lemma_total_update(s, i, head);
        lemma_total_insert(u, i + 1, tail);
    }
}

/// A block that is carved moves from the available list to the reserved
/// one: the reserved list grows by the size of the block, and the two lists
/// together hold what they held.
pub proof fn lemma_allocate_conserves(v: BlockState, size: int, align: int)
    requires
        state_wf(v),
        v.allocatable,
        align > 0,
        0 <= size,
    ensures
        bytes_held(allocate_in(v, size, align).0) == bytes_held(v),
        allocate_in(v, size, align).1 is Some ==> total_size(
            allocate_in(v, size, align).0.reserved,
        ) == total_size(v.reserved) + size,
        allocate_in(v, size, align).1 is None ==> allocate_in(v, size, align).0 == v,
{
    crate::search::lemma_first_where_is_first(v.available, fits_request(size, align));
    let i = first_fit(v.available, size, align);
    if i < v.available.len() {
        let r = v.available[i];
        assert(r.fits());
        crate::layout::lemma_round_up(r.address as int, align);
        let a = round_up(r.address as int, align);
        let x = span(a, a + size);
        assert(x.within(r));
        lemma_total_carve(v.available, i, size, align);
        let k = lower_bound(v.reserved, x.address as int);
        lemma_lower_bound_splits(v.reserved, x.address as int);
        if k > 0 {
            assert(r.apart(v.reserved[k - 1]));
        }
        if k < v.reserved.len() {
            assert(r.apart(v.reserved[k]));
        }
        lemma_total_merge_at(v.reserved, k, x);
    }
}

/// After a request the two lists together hold what they held before it,
/// whether or not the lists had to move to a larger store for it.
pub proof fn lemma_request_conserves(v: BlockState, size: int, align: int)
    requires
        state_wf(v),
        v.allocatable ==> serviceable(v),
        align > 0,
        0 <= size,
    ensures
        bytes_held(request_in(v, size, align).0) == bytes_held(v),
        request_in(v, size, align).1 is Some && !needs_room(v) ==> total_size(
            request_in(v, size, align).0.reserved,
        ) == total_size(v.reserved) + size,
        request_in(v, size, align).1 is Some && needs_room(v) ==> total_size(
            request_in(v, size, align).0.reserved,
        ) == total_size(v.reserved) + size + store_bytes(v),
{
    if v.allocatable {
        if needs_room(v) {
            lemma_moved(v);
            lemma_allocate_conserves(v, store_bytes(v), PAGE_SIZE as int);
            crate::search::lemma_first_where_is_first(
                v.available,
                fits_request(store_bytes(v), PAGE_SIZE as int),
            );
        }
        lemma_allocate_conserves(with_room(v), size, align);
    }
}

/// After a block that lies within a reserved region has come back, the two
/// lists together hold what they held before, and the reserved list has
/// shrunk by the size of the block, where the lists did not have to move.
pub proof fn lemma_return_conserves(v: BlockState, address: int, size: int)
    requires
        state_wf(v),
        v.allocatable ==> serviceable(v),
        0 <= address,
        0 <= size,
        address + size <= usize::MAX,
        covered_by(v.reserved, span(address, address + size)),
    ensures
        bytes_held(return_in(v, address, size)) == bytes_held(v),
        v.allocatable && !needs_room(v) ==> total_size(return_in(v, address, size).reserved)
            == total_size(v.reserved) - size,
{
    let x = span(address, address + size);
    if v.allocatable && size > 0 {
        let w = with_room(v);
        if needs_room(v) {
            lemma_moved(v);
            lemma_allocate_conserves(v, store_bytes(v), PAGE_SIZE as int);
            let i = first_fit(v.available, store_bytes(v), PAGE_SIZE as int);
            crate::search::lemma_first_where_is_first(
                v.available,
                fits_request(store_bytes(v), PAGE_SIZE as int),
            );
            assert(v.available[i].fits());
            crate::layout::lemma_round_up(v.available[i].address as int, PAGE_SIZE as int);
            let a = round_up(v.available[i].address as int, PAGE_SIZE as int);
            lemma_absorb_covers(v.reserved, span(a, a + store_bytes(v)), x);
        }
        lemma_total_release(w.reserved, x);
        let y = choose|i: int| 0 <= i < w.reserved.len() && x.within(#[trigger] w.reserved[i]);
        let k = lower_bound(w.available, address);
        lemma_lower_bound_splits(w.available, address);
        if k > 0 {
            assert(w.available[k - 1].apart(w.reserved[y]));
            assert(w.available[k - 1].size > 0);
        }
        if k < w.available.len() {
            assert(w.available[k].apart(w.reserved[y]));
            assert(w.available[k].size > 0);
        }
        lemma_total_merge_at(w.available, k, x);
    }
}

/// A request and the release of its block change the counter of the buddy
/// allocator by the same number, where the alignment of the request is no
/// larger than the block that holds its size.
pub proof fn lemma_counted_alike(size: int, align: int)
    requires
        0 <= size,
        is_pow2(align),
        align <= released_size(size),
    ensures
        required_size(size, align) == released_size(size),
{
    let plain = larger(size, MINIMUM_ALLOCATABLE_BYTES as int);
    let full = larger(larger(size, align), MINIMUM_ALLOCATABLE_BYTES as int);
    crate::layout::lemma_next_pow2(plain);
    crate::layout::lemma_next_pow2(full);
    crate::layout::lemma_next_pow2_least(full, next_pow2(plain));
    crate::layout::lemma_next_pow2_least(plain, next_pow2(full));
}

/// The counter of the buddy allocator grows by the size of the block of
/// each request that is served, and stays where a request fails.
pub proof fn lemma_counter_follows(
    v: BuddyState,
    max: int,
    size: int,
    align: int,
    fresh: Option<usize>,
)
    ensures
        alloc_with(v, max, size, align, fresh).1 is Ok ==> alloc_with(
            v,
            max,
            size,
            align,
            fresh,
        ).0.allocated == v.allocated + required_size(size, align),
        alloc_with(v, max, size, align, fresh).1 is Err ==> alloc_with(v, max, size, align, fresh).0
            == v,
{
}

/// A request for no bytes gets a block of the smallest size, and the
/// release of that block takes as much from the counter.
pub proof fn lemma_empty_request()
    ensures
        required_size(0, 1) == MINIMUM_ALLOCATABLE_BYTES,
        released_size(0) == MINIMUM_ALLOCATABLE_BYTES,
{
    crate::buddy_allocator::lemma_sixteen();
    crate::layout::lemma_next_pow2_of_pow2(16);
}

/// A request for a block of the largest size, aligned to that size, is
/// served with the first free block of the top level whenever there is one.
pub proof fn lemma_largest_request(v: BuddyState, max: int, fresh: Option<usize>)
    requires
        buddy_wf(v, max),
        v.free[v.free.len() - 1].len() > 0,
    ensures
        alloc_with(v, max, max, max, fresh).1 == Ok::<usize, crate::error::AllocError>(
            v.free[v.free.len() - 1][0],
        ),
        (v.free[v.free.len() - 1][0] as int) % max == 0,
{
    let top = v.free.len() - 1;
    crate::layout::lemma_next_pow2_of_pow2(max);
    lemma_size_level(max);
    assert(larger(larger(max, max), MINIMUM_ALLOCATABLE_BYTES as int) == max);
    assert(size_level(max) == top);
    lemma_first_free_is(v.free, top, top);
    assert(crate::buddy_allocator::blocks_fit(v.free[top], top as nat));
}

} // verus!
