//! Physical memory regions and sorted lists of them.
use vstd::prelude::*;

verus! {

/// A half-open interval `[address, address + size)` of physical memory.
#[derive(Clone, Copy, PartialEq, Eq, PartialOrd, Ord, Debug, Structural)]
pub struct MemoryRegions {
    pub address: usize,
    pub size: usize,
}

impl MemoryRegions {
    /// The first address behind the region.
    pub open spec fn end_spec(self) -> int {
        self.address + self.size
    }

    /// The region does not run past the last address of the machine.
    pub open spec fn fits(self) -> bool {
        self.address + self.size <= usize::MAX
    }

    /// The two regions share no address, and neither starts strictly inside the other.
    pub open spec fn apart(self, other: MemoryRegions) -> bool {
        self.end_spec() <= other.address || other.end_spec() <= self.address
    }

    /// `self` lies within `outer`.
    pub open spec fn within(self, outer: MemoryRegions) -> bool {
        outer.address <= self.address && self.end_spec() <= outer.end_spec()
    }

    /// Builds a region from its first address and its length.
    pub fn from_parts(address: usize, size: usize) -> (r: Self)
        ensures
            r.address == address,
            r.size == size,
    {
        Self { address, size }
    }

    /// The first address behind the region.
    pub fn end(&self) -> (r: usize)
        requires
            self.fits(),
        ensures
            r == self.end_spec(),
    {
        self.address + self.size
    }
}

/// The region from `address` up to `end`.
pub open spec fn span(address: int, end: int) -> MemoryRegions {
    MemoryRegions { address: address as usize, size: (end - address) as usize }
}

/// The greater of two numbers.
pub open spec fn larger(a: int, b: int) -> int {
    if a >= b {
        a
    } else {
        b
    }
}

/// The list is in strictly ascending order of address, no region runs into
/// the next one, and every region fits in the address space.
pub open spec fn sorted_disjoint(s: Seq<MemoryRegions>) -> bool {
    &&& forall|i: int| 0 <= i < s.len() ==> (#[trigger] s[i]).fits()
    &&& forall|i: int, j: int|
        0 <= i < j < s.len() ==> (#[trigger] s[i]).end_spec() <= (#[trigger] s[j]).address
            && s[i].address < s[j].address
}

/// No region of the list is empty.
pub open spec fn all_nonempty(s: Seq<MemoryRegions>) -> bool {
    forall|i: int| 0 <= i < s.len() ==> (#[trigger] s[i]).size > 0
}

/// As `sorted_disjoint`, and no region touches the next one.
pub open spec fn separated(s: Seq<MemoryRegions>) -> bool {
    &&& sorted_disjoint(s)
    &&& forall|i: int, j: int|
        0 <= i < j < s.len() ==> (#[trigger] s[i]).end_spec() < (#[trigger] s[j]).address
}

/// No region of `a` shares an address with a region of `b`.
pub open spec fn lists_apart(a: Seq<MemoryRegions>, b: Seq<MemoryRegions>) -> bool {
    forall|i: int, j: int|
        0 <= i < a.len() && 0 <= j < b.len() ==> (#[trigger] a[i]).apart(#[trigger] b[j])
}

/// Every region of `b` lies within a region of `a`.
pub open spec fn each_within(b: Seq<MemoryRegions>, a: Seq<MemoryRegions>) -> bool {
    forall|j: int|
        0 <= j < b.len() ==> exists|i: int|
            0 <= i < a.len() && (#[trigger] b[j]).within(#[trigger] a[i])
}

/// Regions that lie within the regions of `a` are apart from every list
/// that `a` is apart from.
pub proof fn lemma_apart_within(b: Seq<MemoryRegions>, a: Seq<MemoryRegions>, p: Seq<MemoryRegions>)
    requires
        lists_apart(a, p),
        each_within(b, a),
    ensures
        lists_apart(b, p),
{
    assert forall|j: int, m: int| 0 <= j < b.len() && 0 <= m < p.len() implies (
    #[trigger] b[j]).apart(#[trigger] p[m]) by {
        let i = choose|i: int| 0 <= i < a.len() && (#[trigger] b[j]).within(#[trigger] a[i]);
        assert(a[i].apart(p[m]));
    }
}

/// If `a` is apart from `b`, then `b` is apart from `a`.
pub proof fn lemma_apart_symmetric(a: Seq<MemoryRegions>, b: Seq<MemoryRegions>)
    requires
        lists_apart(a, b),
    ensures
        lists_apart(b, a),
{
    assert forall|j: int, m: int| 0 <= j < b.len() && 0 <= m < a.len() implies (
    #[trigger] b[j]).apart(#[trigger] a[m]) by {
        assert(a[m].apart(b[j]));
    }
}

/// The sum of the sizes of the regions.
pub open spec fn total_size(s: Seq<MemoryRegions>) -> int
    decreases s.len(),
{
    if s.len() == 0 {
        0
    } else {
        total_size(s.drop_last()) + s.last().size
    }
}

/// The number of regions that start below `address`. In a sorted list this is
/// the position of the first region that starts at or above `address`.
pub open spec fn lower_bound(s: Seq<MemoryRegions>, address: int) -> int
    decreases s.len(),
{
    if s.len() == 0 {
        0
    } else {
        lower_bound(s.drop_last(), address) + if s.last().address < address {
            1int
        } else {
            0int
        }
    }
}

/// Some region of the list contains `x`.
pub open spec fn covered_by(s: Seq<MemoryRegions>, x: MemoryRegions) -> bool {
    exists|i: int| 0 <= i < s.len() && x.within(#[trigger] s[i])
}

/// At most one region of the list starts strictly between the two ends of `x`.
pub open spec fn reaches_one_at_most(s: Seq<MemoryRegions>, x: MemoryRegions) -> bool {
    forall|i: int, j: int|
        0 <= i < j < s.len() && x.address < (#[trigger] s[i]).address ==> x.end_spec() <= (
        #[trigger] s[j]).address
}

/// In a sorted list, the position that splits the regions below `address`
/// from the others is the lower bound.
pub proof fn lemma_lower_bound(s: Seq<MemoryRegions>, address: int, k: int)
    requires
        0 <= k <= s.len(),
        forall|i: int| 0 <= i < k ==> (#[trigger] s[i]).address < address,
        forall|i: int| k <= i < s.len() ==> (#[trigger] s[i]).address >= address,
    ensures
        lower_bound(s, address) == k,
    decreases s.len(),
{
    if s.len() == 0 {
    } else {
        let t = s.drop_last();
        if k == s.len() {
            assert(s[k - 1].address < address);
            lemma_lower_bound(t, address, k - 1);
        } else {
            assert(s[s.len() - 1].address >= address);
            lemma_lower_bound(t, address, k);
        }
    }
}

/// The lower bound lies within the list, the regions before it start below
/// `address` and, in a sorted list, the others do not.
pub proof fn lemma_lower_bound_splits(s: Seq<MemoryRegions>, address: int)
    requires
        sorted_disjoint(s),
    ensures
        0 <= lower_bound(s, address) <= s.len(),
        forall|i: int| 0 <= i < lower_bound(s, address) ==> (#[trigger] s[i]).address < address,
        forall|i: int|
            lower_bound(s, address) <= i < s.len() ==> (#[trigger] s[i]).address >= address,
    decreases s.len(),
{
    if s.len() == 0 {
    } else {
        let t = s.drop_last();
        assert(sorted_disjoint(t)) by {
            assert forall|i: int, j: int| 0 <= i < j < t.len() implies (#[trigger] t[i]).end_spec()
                <= (#[trigger] t[j]).address && t[i].address < t[j].address by {
                assert(t[i] == s[i] && t[j] == s[j]);
            }
            assert forall|i: int| 0 <= i < t.len() implies (#[trigger] t[i]).fits() by {
                assert(t[i] == s[i]);
            }
        }
        lemma_lower_bound_splits(t, address);
        let k = lower_bound(t, address);
        assert forall|i: int| 0 <= i < lower_bound(s, address) implies (#[trigger] s[i]).address
            < address by {
            if i < t.len() {
                assert(t[i] == s[i]);
                if i >= k {
                    assert(s.last().address < address);
                    assert(s[i].address < s[s.len() - 1].address);
                }
            }
        }
        assert forall|i: int| lower_bound(s, address) <= i < s.len() implies (
        #[trigger] s[i]).address >= address by {
            if i < t.len() {
                assert(t[i] == s[i]);
            }
        }
    }
}

/// The total size after one region is replaced.
pub proof fn lemma_total_update(s: Seq<MemoryRegions>, k: int, r: MemoryRegions)
    requires
        0 <= k < s.len(),
    ensures
        total_size(s.update(k, r)) == total_size(s) - s[k].size + r.size,
    decreases s.len(),
{
    let u = s.update(k, r);
    if k == s.len() - 1 {
        assert(u.drop_last() =~= s.drop_last());
    } else {
        assert(u.drop_last() =~= s.drop_last().update(k, r));
        lemma_total_update(s.drop_last(), k, r);
    }
}

/// The total size after one region is put in.
pub proof fn lemma_total_insert(s: Seq<MemoryRegions>, k: int, r: MemoryRegions)
    requires
        0 <= k <= s.len(),
    ensures
        total_size(s.insert(k, r)) == total_size(s) + r.size,
    decreases s.len(),
{
    let u = s.insert(k, r);
    if k == s.len() {
        assert(u.drop_last() =~= s);
    } else {
        assert(u.drop_last() =~= s.drop_last().insert(k, r));
        lemma_total_insert(s.drop_last(), k, r);
    }
}

/// The total size after one region is taken out.
pub proof fn lemma_total_remove(s: Seq<MemoryRegions>, k: int)
    requires
        0 <= k < s.len(),
    ensures
        total_size(s.remove(k)) == total_size(s) - s[k].size,
    decreases s.len(),
{
    let u = s.remove(k);
    if k == s.len() - 1 {
        assert(u =~= s.drop_last());
    } else {
        assert(u.drop_last() =~= s.drop_last().remove(k));
        lemma_total_remove(s.drop_last(), k);
    }
}

/// Every region of the list fits, is not empty, and ends at or before the
/// start of the next one.
pub open spec fn chained(s: Seq<MemoryRegions>) -> bool {
    &&& forall|i: int| 0 <= i < s.len() ==> (#[trigger] s[i]).fits() && s[i].size > 0
    &&& forall|i: int|
        0 <= i < s.len() - 1 ==> (#[trigger] s[i]).end_spec() <= s[i + 1].address
}

/// A list of regions that are not empty is sorted and disjoint if each
/// region ends at or before the start of the next one.
pub proof fn lemma_chained(s: Seq<MemoryRegions>)
    requires
        chained(s),
    ensures
        sorted_disjoint(s),
        all_nonempty(s),
{
    assert forall|i: int, j: int| 0 <= i < j < s.len() implies (#[trigger] s[i]).end_spec() <= (
    #[trigger] s[j]).address && s[i].address < s[j].address by {
        lemma_chained_reach(s, i, j);
    }
}

/// In a chained list every region ends at or before the start of each later one.
pub proof fn lemma_chained_reach(s: Seq<MemoryRegions>, i: int, j: int)
    requires
        chained(s),
        0 <= i < j < s.len(),
    ensures
        s[i].end_spec() <= s[j].address,
        s[i].address < s[j].address,
    decreases j - i,
{
    assert(s[i].fits() && s[i].size > 0);
    if j == i + 1 {
    } else {
        lemma_chained_reach(s, i, j - 1);
        assert(s[j - 1].fits() && s[j - 1].size > 0);
        assert(s[j - 1].end_spec() <= s[j - 1 + 1].address);
    }
}

/// Tests whether a list is sorted, disjoint and free of empty regions.
pub fn is_sorted_list(list: &Vec<MemoryRegions>) -> (r: bool)
    ensures
        r == (sorted_disjoint(list@) && all_nonempty(list@)),
{
    let mut i: usize = 0;
    while i < list.len()
        invariant
            i <= list.len(),
            forall|k: int| 0 <= k < i ==> (#[trigger] list@[k]).fits() && list@[k].size > 0,
            forall|k: int|
                0 <= k < i - 1 ==> (#[trigger] list@[k]).end_spec() <= list@[k + 1].address,
        decreases list.len() - i,
    {
        let r = list[i];
        if r.size == 0 || r.address > usize::MAX - r.size {
            proof {
                assert(!(list@[i as int].fits() && list@[i as int].size > 0));
            }
            return false;
        }
        if i > 0 {
            let before = list[i - 1];
            if before.address + before.size > r.address {
                proof {
                    assert(!(list@[i - 1].end_spec() <= list@[i as int].address));
                }
                return false;
            }
        }
        i += 1;
    }
    proof {
        lemma_chained(list@);
    }
    true
}

/// Tests whether no region of `a` shares an address with a region of `b`.
pub fn are_lists_apart(a: &Vec<MemoryRegions>, b: &Vec<MemoryRegions>) -> (r: bool)
    requires
        sorted_disjoint(a@),
        sorted_disjoint(b@),
    ensures
        r == lists_apart(a@, b@),
{
    let mut i: usize = 0;
    while i < a.len()
        invariant
            i <= a.len(),
            sorted_disjoint(a@),
            sorted_disjoint(b@),
            forall|k: int, m: int|
                0 <= k < i && 0 <= m < b.len() ==> (#[trigger] a@[k]).apart(#[trigger] b@[m]),
        decreases a.len() - i,
    {
        let x = a[i];
        let mut j: usize = 0;
        while j < b.len()
            invariant
                j <= b.len(),
                i < a.len(),
                x == a@[i as int],
                sorted_disjoint(a@),
                sorted_disjoint(b@),
                forall|m: int| 0 <= m < j ==> x.apart(#[trigger] b@[m]),
            decreases b.len() - j,
        {
            let y = b[j];
            proof {
                assert(x.fits() && y.fits());
            }
            if !(x.end() <= y.address || y.end() <= x.address) {
                proof {
                    assert(!a@[i as int].apart(b@[j as int]));
                }
                return false;
            }
            j += 1;
        }
        i += 1;
    }
    true
}

/// Looks for the region that starts at `address`: `Ok` with its position, or
/// `Err` with the position at which such a region would be put in.
pub fn search_address(list: &Vec<MemoryRegions>, address: usize) -> (r: Result<usize, usize>)
    requires
        sorted_disjoint(list@),
    ensures
        match r {
            Ok(i) => i < list.len() && list[i as int].address == address && i == lower_bound(
                list@,
                address as int,
            ),
            Err(i) => i <= list.len() && i == lower_bound(list@, address as int) && (i
                < list.len() ==> list[i as int].address > address),
        },
{
    let mut lo: usize = 0;
    let mut hi: usize = list.len();
    while lo < hi
        invariant
            0 <= lo <= hi <= list.len(),
            sorted_disjoint(list@),
            forall|i: int| 0 <= i < lo ==> (#[trigger] list@[i]).address < address,
            forall|i: int| hi <= i < list.len() ==> (#[trigger] list@[i]).address > address,
        decreases hi - lo,
    {
        let mid: usize = lo + (hi - lo) / 2;
        let a: usize = list[mid].address;
        if a == address {
            proof {
                assert forall|i: int| 0 <= i < mid implies (#[trigger] list@[i]).address
                    < address by {
                    assert(list@[i].address < list@[mid as int].address);
                }
                assert forall|i: int| mid <= i < list.len() implies (#[trigger] list@[i]).address
                    >= address by {
                    if i > mid {
                        assert(list@[mid as int].address < list@[i].address);
                    }
                }
                lemma_lower_bound(list@, address as int, mid as int);
            }
            return Ok(mid);
        } else if a < address {
            proof {
                assert forall|i: int| 0 <= i < mid + 1 implies (#[trigger] list@[i]).address
                    < address by {
                    if i < mid {
                        assert(list@[i].address < list@[mid as int].address);
                    }
                }
            }
            lo = mid + 1;
        } else {
            proof {
                assert forall|i: int| mid <= i < list.len() implies (#[trigger] list@[i]).address
                    > address by {
                    if i > mid {
                        assert(list@[mid as int].address < list@[i].address);
                    }
                }
            }
            hi = mid;
        }
    }
    proof {
        lemma_lower_bound(list@, address as int, lo as int);
    }
    Err(lo)
}

} // verus!
