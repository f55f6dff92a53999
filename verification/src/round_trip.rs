//! A block that is carved from the range list and handed back at once
//! leaves the range list as it was.
use vstd::prelude::*;
use crate::layout::round_up;
use crate::range_list_allocator::absorb;
use crate::range_list_allocator::allocate_in;
use crate::range_list_allocator::carve;
use crate::range_list_allocator::first_fit;
use crate::range_list_allocator::fits_request;
use crate::range_list_allocator::merge_at;
use crate::range_list_allocator::needs_room;
use crate::range_list_allocator::release;
use crate::range_list_allocator::return_in;
use crate::range_list_allocator::state_wf;
use crate::range_list_allocator::BlockState;
use crate::region::all_nonempty;
use crate::region::lemma_lower_bound;
use crate::region::lemma_lower_bound_splits;
use crate::region::lower_bound;
use crate::region::separated;
use crate::region::sorted_disjoint;
use crate::region::span;
use crate::region::MemoryRegions;

verus! {

/// Bytes that were taken from a region of a list in which no two regions
/// touch make the list what it was when they join it again.
#[verifier::rlimit(80)]
pub proof fn lemma_absorb_carve(s: Seq<MemoryRegions>, i: int, size: int, align: int)
    requires
        separated(s),
        0 <= i < s.len(),
        align > 0,
        size > 0,
        round_up(s[i].address as int, align) + size <= s[i].end_spec(),
    ensures
        absorb(
            carve(s, i, size, align),
            span(
                round_up(s[i].address as int, align),
                round_up(s[i].address as int, align) + size,
            ),
        ) == s,
{
    crate::layout::lemma_round_up(s[i].address as int, align);
    let r = s[i];
    let a = round_up(r.address as int, align);
    let x = span(a, a + size);
    let c = carve(s, i, size, align);
    assert(r.fits());
    if i > 0 {
        assert(s[i - 1].end_spec() < s[i].address);
    }
    if i + 1 < s.len() {
        assert(s[i].end_spec() < s[i + 1].address);
    }
    let k = if a > r.address {
        i + 1
    } else {
        i
    };
    assert forall|j: int| 0 <= j < k implies (#[trigger] c[j]).address < a by {
        if j < i {
            assert(c[j] == s[j]);
            assert(s[j].address < s[i].address);
        }
    }
    assert forall|j: int| k <= j < c.len() implies (#[trigger] c[j]).address >= a by {
        let src = if a > r.address && a + size < r.end_spec() {
            j - 1
        } else if !(a > r.address) && !(a + size < r.end_spec()) {
            j + 1
        } else {
            j
        };
        if src > i {
            assert(c[j] == s[src]);
            assert(s[i].end_spec() <= s[src].address);
        }
    }
    lemma_lower_bound(c, a, k);
    assert(merge_at(c, k, x) =~= s);
}

/// A region that joins a list with which it shares no address, and then
/// leaves it, leaves the list as it was.
#[verifier::rlimit(80)]
pub proof fn lemma_release_absorb(p: Seq<MemoryRegions>, x: MemoryRegions)
    requires
        sorted_disjoint(p),
        all_nonempty(p),
        x.fits(),
        x.size > 0,
        forall|j: int| 0 <= j < p.len() ==> x.apart(#[trigger] p[j]),
    ensures
        release(absorb(p, x), x.address as int, x.size as int) == p,
{
    lemma_lower_bound_splits(p, x.address as int);
    let k = lower_bound(p, x.address as int);
    let q = absorb(p, x);
    let meets_before = k > 0 && x.address <= p[k - 1].end_spec();
    let meets_next = k < p.len() && x.end_spec() >= p[k].address;
    if k > 0 {
        assert(x.apart(p[k - 1]) && p[k - 1].fits() && p[k - 1].size > 0 && p[k - 1].address
            < x.address);
    }
    if k < p.len() {
        assert(x.apart(p[k]) && p[k].fits() && p[k].size > 0 && p[k].address >= x.address);
    }
    if k + 1 < p.len() {
        assert(p[k].address < p[k + 1].address);
    }
    let lb = k;
    assert forall|j: int| 0 <= j < lb implies (#[trigger] q[j]).address < x.address by {
        if j < k - 1 || !meets_before {
            assert(q[j] == p[j]);
        }
    }
    assert forall|j: int| lb <= j < q.len() implies (#[trigger] q[j]).address >= x.address by {
        if meets_before && meets_next {
            assert(q[j] == p[j + 1]);
            assert(p[k].address < p[j + 1].address || j + 1 == k);
        } else if meets_before {
            assert(q[j] == p[j]);
        } else if meets_next {
            if j > k {
                assert(q[j] == p[j]);
            }
        } else {
            if j > k {
                assert(q[j] == p[j - 1]);
            }
        }
    }
    lemma_lower_bound(q, x.address as int, lb);
    assert(release(q, x.address as int, x.size as int) =~= p);
}

/// A request that is served without moving the lists, followed by the
/// release of its block, leaves the range list as it was, provided that no
/// two available regions touched. The next request is then answered as it
/// would have been before the two.
pub proof fn lemma_round_trip(v: BlockState, size: int, align: int)
    requires
        state_wf(v),
        v.allocatable,
        separated(v.available),
        align > 0,
        size > 0,
        allocate_in(v, size, align).1 is Some,
        !needs_room(allocate_in(v, size, align).0),
    ensures
        return_in(allocate_in(v, size, align).0, allocate_in(v, size, align).1->0, size) == v,
{
    crate::search::lemma_first_where_is_first(v.available, fits_request(size, align));
    let i = first_fit(v.available, size, align);
    let r = v.available[i];
    assert(r.fits());
    crate::layout::lemma_round_up(r.address as int, align);
    let a = round_up(r.address as int, align);
    let x = span(a, a + size);
    assert(x.within(r));
    assert forall|j: int| 0 <= j < v.reserved.len() implies x.apart(#[trigger] v.reserved[j]) by {
        assert(r.apart(v.reserved[j]));
    }
    lemma_absorb_carve(v.available, i, size, align);
    lemma_release_absorb(v.reserved, x);
}

} // verus!
