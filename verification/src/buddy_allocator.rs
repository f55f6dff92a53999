//! The buddy allocator: blocks whose sizes are powers of two, from 16 bytes
//! up to `MAX_ALLOCATABLE_BYTES`, with one list of free blocks for each size.
use vstd::prelude::*;
use crate::error::AllocError;
use crate::intrusive_linked_list::ascending;
use crate::intrusive_linked_list::lemma_with_sorted_ascending;
use crate::intrusive_linked_list::lemma_without;
use crate::intrusive_linked_list::with_sorted;
use crate::intrusive_linked_list::without;
use crate::intrusive_linked_list::IntrusiveLinkedList;
use crate::layout::is_pow2;
use crate::layout::lemma_pow2_double;
use crate::layout::next_pow2;
use crate::layout::Layout;
use crate::region::larger;

verus! {

/// The size of the smallest block.
pub const MINIMUM_ALLOCATABLE_BYTES: usize = 16;

/// The size of the blocks of level `l`: 16 bytes at level 0, and twice the
/// size at each level above.
pub open spec fn level_size(l: nat) -> int
    decreases l,
{
    if l == 0 {
        16
    } else {
        2 * level_size((l - 1) as nat)
    }
}

/// The level of the blocks of `size` bytes, `size` being a power of two.
pub open spec fn size_level(size: int) -> nat
    decreases size,
{
    if size <= 16 {
        0
    } else {
        1 + size_level(size / 2)
    }
}

/// The number of levels of an allocator whose largest block has `max` bytes.
pub open spec fn levels(max: int) -> nat {
    size_level(max) + 1
}

/// The buddy of the block at `ptr` on level `l`: the other half of the
/// block of twice the size that holds it.
pub open spec fn buddy_of(ptr: int, l: nat) -> int {
    if ptr % (2 * level_size(l)) == 0 {
        ptr + level_size(l)
    } else {
        ptr - level_size(l)
    }
}

/// The size of the block that answers a request.
pub open spec fn required_size(size: int, align: int) -> int {
    next_pow2(larger(larger(size, align), MINIMUM_ALLOCATABLE_BYTES as int))
}

/// The size of the block that a release of `size` bytes gives back.
pub open spec fn released_size(size: int) -> int {
    next_pow2(larger(size, MINIMUM_ALLOCATABLE_BYTES as int))
}

/// The block that a release gives back is no larger than `max`, where
/// neither the size nor the alignment of the layout is.
pub proof fn lemma_released_within(size: int, align: int, max: int)
    requires
        is_pow2(max),
        max >= MINIMUM_ALLOCATABLE_BYTES,
        larger(size, align) <= max,
    ensures
        released_size(size) <= max,
        required_size(size, align) <= max,
{
    let a = larger(size, MINIMUM_ALLOCATABLE_BYTES as int);
    let b = larger(larger(size, align), MINIMUM_ALLOCATABLE_BYTES as int);
    crate::layout::lemma_next_pow2_least(a, max);
    crate::layout::lemma_next_pow2_least(b, max);
}

/// The size of a level is a power of two, and at least 16.
pub proof fn lemma_level_size(l: nat)
    ensures
        is_pow2(level_size(l)),
        level_size(l) >= 16,
        level_size(l + 1) == 2 * level_size(l),
    decreases l,
{
    if l == 0 {
        lemma_sixteen();
    } else {
        lemma_level_size((l - 1) as nat);
        lemma_pow2_double(level_size((l - 1) as nat));
    }
}

/// The sizes of the levels grow with the level.
pub proof fn lemma_level_size_grows(a: nat, b: nat)
    requires
        a <= b,
    ensures
        level_size(a) <= level_size(b),
        level_size(b) % level_size(a) == 0,
    decreases b,
{
    lemma_level_size(a);
    if a == b {
    } else {
        lemma_level_size_grows(a, (b - 1) as nat);
        lemma_level_size((b - 1) as nat);
        lemma_level_size(b);
        crate::layout::lemma_pow2_divides(level_size(a), level_size(b));
    }
}

/// A power of two of at least 16 bytes is the size of its level.
pub proof fn lemma_size_level(size: int)
    requires
        is_pow2(size),
        size >= 16,
    ensures
        level_size(size_level(size)) == size,
    decreases size,
{
    if size == 16 {
    } else {
        assert(size > 16);
        assert(is_pow2(size / 2));
        assert(size / 2 >= 16) by {
            if size / 2 < 16 {
                assert(size < 32);
                lemma_sixteen();
                crate::layout::lemma_pow2_divides(16, size);
            }
        }
        lemma_size_level(size / 2);
    }
}

/// The level of a size grows with the size.
pub proof fn lemma_size_level_grows(a: int, b: int)
    requires
        a <= b,
    ensures
        size_level(a) <= size_level(b),
    decreases b,
{
    if b <= 16 {
    } else if a <= 16 {
    } else {
        lemma_size_level_grows(a / 2, b / 2);
    }
}

/// The level of the size of a level is that level.
pub proof fn lemma_level_of_level_size(l: nat)
    ensures
        size_level(level_size(l)) == l,
    decreases l,
{
    if l == 0 {
    } else {
        lemma_level_size((l - 1) as nat);
        lemma_level_of_level_size((l - 1) as nat);
        assert(level_size(l) / 2 == level_size((l - 1) as nat));
    }
}

/// What hands the allocator a fresh block of `MAX_ALLOCATABLE_BYTES` bytes,
/// aligned to that size, when it has run out of blocks.
pub trait HeapSource {
    /// The address of a fresh block, or `None` where there is none left.
    fn fetch(&self) -> Option<usize>;
}

/// The source that never has a block.
pub struct NoHeap {}

impl HeapSource for NoHeap {
    fn fetch(&self) -> (r: Option<usize>)
        ensures
            r is None,
    {
        None
    }
}

/// What a buddy allocator holds.
pub struct BuddyState {
    /// For each level the addresses of its free blocks, as the list holds them.
    pub free: Seq<Seq<usize>>,
    /// The number of bytes that the allocator was given.
    pub total_size: int,
    /// The sum of the sizes of the blocks that are handed out.
    pub allocated: int,
    /// Whether a source of fresh blocks is attached.
    pub has_source: bool,
}

/// Every block of the list is aligned to the size of level `l` and ends
/// within the address space.
pub open spec fn blocks_fit(s: Seq<usize>, l: nat) -> bool {
    forall|i: int|
        0 <= i < s.len() ==> ((#[trigger] s[i]) as int) % level_size(l) == 0 && s[i]
            + level_size(l) <= usize::MAX
}

/// No two blocks of the list are buddies on level `l`.
pub open spec fn no_buddies(s: Seq<usize>, l: nat) -> bool {
    forall|i: int, j: int|
        0 <= i < s.len() && 0 <= j < s.len() ==> (#[trigger] s[i]) != buddy_of(
            (#[trigger] s[j]) as int,
            l,
        )
}

/// The invariant of the buddy allocator with blocks of up to `max` bytes:
/// there is a list for each level, every free block is aligned to its size,
/// and below the top level each list is in ascending order and holds no two
/// buddies.
pub open spec fn buddy_wf(v: BuddyState, max: int) -> bool {
    &&& is_pow2(max)
    &&& max >= MINIMUM_ALLOCATABLE_BYTES
    &&& v.free.len() == levels(max)
    &&& forall|l: int| 0 <= l < v.free.len() ==> blocks_fit(#[trigger] v.free[l], l as nat)
    &&& forall|l: int|
        0 <= l < v.free.len() - 1 ==> ascending(#[trigger] v.free[l]) && no_buddies(
            v.free[l],
            l as nat,
        )
}

/// The first level from `from` upwards that has a free block, or the number of levels.
pub open spec fn first_free(free: Seq<Seq<usize>>, from: int) -> int
    decreases free.len() - from,
{
    if from < 0 || from >= free.len() {
        free.len() as int
    } else if free[from].len() > 0 {
        from
    } else {
        first_free(free, from + 1)
    }
}

/// The lists after the first free block of level `found` has been split
/// down to `level`: the block leaves its list, and each level from `level`
/// up to `found` gets the upper half of the block of the level above.
pub open spec fn split_from(free: Seq<Seq<usize>>, level: int, found: int) -> Seq<Seq<usize>> {
    let block = free[found][0];
    Seq::new(
        free.len(),
        |l: int|
            if l == found {
                free[l].remove(0)
            } else if level <= l < found {
                seq![(block + level_size(l as nat)) as usize]
            } else {
                free[l]
            },
    )
}

/// The addresses of `count` blocks of `max` bytes in a row, the first at `ptr`.
pub open spec fn top_blocks(ptr: usize, count: int, max: int) -> Seq<usize> {
    Seq::new(count as nat, |i: int| (ptr + i * max) as usize)
}

/// A fresh block can join the top level: it is aligned to `max` and ends
/// within the address space.
pub open spec fn top_block(b: usize, max: int) -> bool {
    (b as int) % max == 0 && b + max <= usize::MAX
}

/// The state after a request and its answer, `fresh` being what the source
/// handed over. The block has the least power of two of bytes that holds
/// `size`, `align` and 16. It comes from the lowest level that has a free
/// block of at least that size, split down as far as needed. Where no level
/// has one, `fresh` joins the top level and is split, provided that a source
/// is attached and `fresh` is a block of the top level. Otherwise, and for a
/// request above `max` bytes, the answer is `OutOfMemory` and nothing changes.
pub open spec fn alloc_with(
    v: BuddyState,
    max: int,
    size: int,
    align: int,
    fresh: Option<usize>,
) -> (BuddyState, Result<usize, AllocError>) {
    let req = required_size(size, align);
    let level = size_level(req) as int;
    let found = first_free(v.free, level);
    let top = v.free.len() - 1;
    if req > max {
        (v, Err(AllocError::OutOfMemory))
    } else if found < v.free.len() {
        (
            BuddyState {
                free: split_from(v.free, level, found),
                allocated: v.allocated + req,
                ..v
            },
            Ok(v.free[found][0]),
        )
    } else if v.has_source && fresh is Some && top_block(fresh->0, max) {
        (
            BuddyState {
                free: split_from(v.free.update(top, v.free[top].push(fresh->0)), level, top),
                allocated: v.allocated + req,
                total_size: v.total_size + max,
                ..v
            },
            Ok(fresh->0),
        )
    } else {
        (v, Err(AllocError::OutOfMemory))
    }
}

/// A request cannot be served from the free blocks: it is no larger than
/// `max`, and no level from its own upwards has a free block.
pub open spec fn wants_block(v: BuddyState, max: int, size: int, align: int) -> bool {
    required_size(size, align) <= max && first_free(
        v.free,
        size_level(required_size(size, align)) as int,
    ) >= v.free.len()
}

/// The lists after the block at `ptr` has come back to `level`. Below the
/// top level the block is fused with its buddy where that is free, and the
/// block of twice the size comes back to the level above; otherwise it joins
/// its list in order. On the top level it goes to the back of the list.
pub open spec fn merge_up(free: Seq<Seq<usize>>, ptr: usize, level: int) -> Seq<Seq<usize>>
    decreases free.len() - level,
{
    let buddy = buddy_of(ptr as int, level as nat) as usize;
    if level < 0 || level >= free.len() {
        free
    } else if level + 1 >= free.len() {
        free.update(level, free[level].push(ptr))
    } else if free[level].contains(buddy) {
        merge_up(
            free.update(level, without(free[level], buddy)),
            if ptr <= buddy {
                ptr
            } else {
                buddy
            },
            level + 1,
        )
    } else {
        free.update(level, with_sorted(free[level], ptr))
    }
}

/// The first level with a free block lies at or above the level from which
/// the search starts, has a free block unless it is the number of levels,
/// and no level between the two has one.
pub proof fn lemma_first_free(free: Seq<Seq<usize>>, from: int)
    requires
        0 <= from <= free.len(),
    ensures
        from <= first_free(free, from) <= free.len(),
        first_free(free, from) < free.len() ==> free[first_free(free, from)].len() > 0,
        forall|l: int| from <= l < first_free(free, from) ==> (#[trigger] free[l]).len() == 0,
    decreases free.len() - from,
{
    if from < free.len() && free[from].len() == 0 {
        lemma_first_free(free, from + 1);
    }
}

/// A level up to which no level has a free block, and which has one unless
/// it is the number of levels, is the first with a free block.
pub proof fn lemma_first_free_is(free: Seq<Seq<usize>>, from: int, k: int)
    requires
        0 <= from <= k <= free.len(),
        forall|l: int| from <= l < k ==> (#[trigger] free[l]).len() == 0,
        k < free.len() ==> free[k].len() > 0,
    ensures
        first_free(free, from) == k,
    decreases k - from,
{
    if from < k {
        assert(free[from].len() == 0);
        lemma_first_free_is(free, from + 1, k);
    }
}

/// A multiple of a multiple of `d` is a multiple of `d`.
pub proof fn lemma_multiple(a: int, m: int, d: int)
    requires
        a >= 0,
        m > 0,
        d > 0,
        a % m == 0,
        m % d == 0,
    ensures
        a % d == 0,
        (a + d) % d == 0,
{
    vstd::arithmetic::div_mod::lemma_fundamental_div_mod(a, m);
    vstd::arithmetic::div_mod::lemma_fundamental_div_mod(m, d);
    let q = a / m;
    let k = m / d;
    assert(a == (q * k) * d) by (nonlinear_arith)
        requires
            a == m * q,
            m == d * k,
    ;
    vstd::arithmetic::div_mod::lemma_mod_multiples_basic(q * k, d);
    assert(a + d == (q * k + 1) * d) by (nonlinear_arith)
        requires
            a == (q * k) * d,
    ;
    vstd::arithmetic::div_mod::lemma_mod_multiples_basic(q * k + 1, d);
}

/// A multiple of `s` leaves 0 or `s` when divided by `2 * s`.
pub proof fn lemma_half(a: int, s: int)
    requires
        a >= 0,
        s > 0,
        a % s == 0,
    ensures
        a % (2 * s) == 0 || a % (2 * s) == s,
        a % (2 * s) == s ==> a >= s && (a - s) % (2 * s) == 0,
        a % (2 * s) == 0 ==> (a + s) % (2 * s) == s,
{
    vstd::arithmetic::div_mod::lemma_fundamental_div_mod(a, s);
    let q = a / s;
    let h = q / 2;
    assert(a == s * q);
    assert(q >= 0) by (nonlinear_arith)
        requires
            a == s * q,
            a >= 0,
            s > 0,
    ;
    if q % 2 == 0 {
        assert(a == h * (2 * s) + 0) by (nonlinear_arith)
            requires
                a == s * q,
                q == 2 * h,
        ;
        vstd::arithmetic::div_mod::lemma_fundamental_div_mod_converse(a, 2 * s, h, 0);
        assert(a + s == h * (2 * s) + s) by (nonlinear_arith)
            requires
                a == h * (2 * s) + 0,
        ;
        vstd::arithmetic::div_mod::lemma_fundamental_div_mod_converse(a + s, 2 * s, h, s);
    } else {
        assert(a == h * (2 * s) + s) by (nonlinear_arith)
            requires
                a == s * q,
                q == 2 * h + 1,
        ;
        vstd::arithmetic::div_mod::lemma_fundamental_div_mod_converse(a, 2 * s, h, s);
        assert(a - s == h * (2 * s) + 0) by (nonlinear_arith)
            requires
                a == h * (2 * s) + s,
        ;
        assert(h >= 0);
        assert(a - s >= 0) by (nonlinear_arith)
            requires
                a - s == h * (2 * s) + 0,
                h >= 0,
                s > 0,
        ;
        vstd::arithmetic::div_mod::lemma_fundamental_div_mod_converse(a - s, 2 * s, h, 0);
    }
}

/// The buddy of a block of level `l` is a block of level `l`, and the block
/// is the buddy of its buddy. The lower of the two is a block of the level
/// above.
pub proof fn lemma_buddy(ptr: int, l: nat)
    requires
        ptr >= 0,
        ptr % level_size(l) == 0,
    ensures
        buddy_of(ptr, l) >= 0,
        buddy_of(ptr, l) % level_size(l) == 0,
        buddy_of(ptr, l) != ptr,
        buddy_of(buddy_of(ptr, l), l) == ptr,
        ptr < buddy_of(ptr, l) ==> ptr % level_size(l + 1) == 0 && buddy_of(ptr, l) == ptr
            + level_size(l),
        buddy_of(ptr, l) < ptr ==> buddy_of(ptr, l) % level_size(l + 1) == 0 && ptr == buddy_of(
            ptr,
            l,
        ) + level_size(l),
{
    lemma_level_size(l);
    let s = level_size(l);
    lemma_half(ptr, s);
    vstd::arithmetic::div_mod::lemma_mod_multiples_basic(2, s);
    if ptr % (2 * s) == 0 {
        lemma_multiple(ptr, 2 * s, s);
    } else {
        lemma_multiple(ptr - s, 2 * s, s);
        lemma_half(ptr - s, s);
    }
}

/// Splitting the first free block of a level down to a lower level, all
/// levels in between being empty, keeps the invariant.
pub proof fn lemma_split_wf(v: BuddyState, max: int, level: int, found: int)
    requires
        buddy_wf(v, max),
        0 <= level <= found < v.free.len(),
        v.free[found].len() > 0,
        forall|l: int| level <= l < found ==> (#[trigger] v.free[l]).len() == 0,
    ensures
        forall|a: int, t: int|
            buddy_wf(
                BuddyState { free: split_from(v.free, level, found), allocated: a, total_size: t, ..v },
                max,
            ),
        (v.free[found][0] as int) % level_size(level as nat) == 0,
{
    let out = split_from(v.free, level, found);
    let block = v.free[found][0];
    assert(blocks_fit(v.free[found], found as nat));
    assert((block as int) % level_size(found as nat) == 0);
    lemma_level_size_grows(level as nat, found as nat);
    lemma_level_size(level as nat);
    lemma_multiple(block as int, level_size(found as nat), level_size(level as nat));
    assert forall|l: int| 0 <= l < out.len() implies blocks_fit(#[trigger] out[l], l as nat) by {
        assert(blocks_fit(v.free[l], l as nat));
        if l == found {
            assert forall|i: int| 0 <= i < out[l].len() implies ((#[trigger] out[l][i]) as int)
                % level_size(l as nat) == 0 && out[l][i] + level_size(l as nat) <= usize::MAX by {
                assert(out[l][i] == v.free[l][i + 1]);
            }
        } else if level <= l < found {
            lemma_level_size(l as nat);
            lemma_level_size_grows((l + 1) as nat, found as nat);
            lemma_level_size_grows(l as nat, found as nat);
            lemma_multiple(block as int, level_size(found as nat), level_size(l as nat));
        }
    }
    assert forall|l: int| 0 <= l < out.len() - 1 implies ascending(#[trigger] out[l])
        && no_buddies(out[l], l as nat) by {
        assert(ascending(v.free[l]) && no_buddies(v.free[l], l as nat));
        if l == found {
            assert forall|i: int, j: int| 0 <= i < j < out[l].len() implies out[l][i]
                <= out[l][j] by {
                assert(v.free[l][i + 1] <= v.free[l][j + 1]);
            }
            assert forall|i: int, j: int|
                0 <= i < out[l].len() && 0 <= j < out[l].len() implies (#[trigger] out[l][i])
                != buddy_of((#[trigger] out[l][j]) as int, l as nat) by {
                assert(v.free[l][i + 1] != buddy_of(v.free[l][j + 1] as int, l as nat));
            }
        } else if level <= l < found {
            lemma_level_size(l as nat);
        }
    }
}

/// Taking a block out of a list of free blocks keeps the blocks aligned and
/// free of buddies.
pub proof fn lemma_without_fit(s: Seq<usize>, ptr: usize, l: nat)
    requires
        blocks_fit(s, l),
    ensures
        blocks_fit(without(s, ptr), l),
        no_buddies(s, l) ==> no_buddies(without(s, ptr), l),
{
    lemma_without(s, ptr);
    let r = without(s, ptr);
    assert forall|i: int| 0 <= i < r.len() implies ((#[trigger] r[i]) as int) % level_size(l) == 0
        && r[i] + level_size(l) <= usize::MAX by {
        assert(s.contains(r[i]));
        let k = choose|k: int| 0 <= k < s.len() && s[k] == r[i];
        assert(s[k] as int % level_size(l) == 0);
    }
    if no_buddies(s, l) {
        assert forall|i: int, j: int| 0 <= i < r.len() && 0 <= j < r.len() implies (
        #[trigger] r[i]) != buddy_of((#[trigger] r[j]) as int, l) by {
            assert(s.contains(r[i]));
            assert(s.contains(r[j]));
            let a = choose|k: int| 0 <= k < s.len() && s[k] == r[i];
            let b = choose|k: int| 0 <= k < s.len() && s[k] == r[j];
            assert(s[a] != buddy_of(s[b] as int, l));
        }
    }
}

/// Putting a block whose buddy is not free into a list of free blocks keeps
/// the blocks aligned and free of buddies.
pub proof fn lemma_with_sorted_fit(s: Seq<usize>, ptr: usize, l: nat)
    requires
        blocks_fit(s, l),
        (ptr as int) % level_size(l) == 0,
        ptr + level_size(l) <= usize::MAX,
    ensures
        blocks_fit(with_sorted(s, ptr), l),
        no_buddies(s, l) && !s.contains(buddy_of(ptr as int, l) as usize) ==> no_buddies(
            with_sorted(s, ptr),
            l,
        ),
{
    crate::search::lemma_first_where_is_first(s, crate::intrusive_linked_list::is_above(ptr));
    let k = crate::search::first_where(s, crate::intrusive_linked_list::is_above(ptr));
    let r = with_sorted(s, ptr);
    assert forall|i: int| 0 <= i < r.len() implies ((#[trigger] r[i]) as int) % level_size(l) == 0
        && r[i] + level_size(l) <= usize::MAX by {
        if i < k {
            assert(r[i] == s[i]);
        } else if i > k {
            assert(r[i] == s[i - 1]);
        }
    }
    if no_buddies(s, l) && !s.contains(buddy_of(ptr as int, l) as usize) {
        lemma_buddy(ptr as int, l);
        assert forall|i: int, j: int| 0 <= i < r.len() && 0 <= j < r.len() implies (
        #[trigger] r[i]) != buddy_of((#[trigger] r[j]) as int, l) by {
            let si = if i < k {
                i
            } else {
                i - 1
            };
            let sj = if j < k {
                j
            } else {
                j - 1
            };
            if i != k && j != k {
                assert(r[i] == s[si] && r[j] == s[sj]);
                assert(s[si] != buddy_of(s[sj] as int, l));
            } else if i == k && j != k {
                assert(r[j] == s[sj]);
                assert(s[sj] as int % level_size(l) == 0);
                lemma_buddy(s[sj] as int, l);
                if ptr == buddy_of(s[sj] as int, l) {
                    assert(buddy_of(ptr as int, l) == s[sj]);
                    assert(s.contains(s[sj]));
                }
            } else if i != k && j == k {
                assert(r[i] == s[si]);
                if s[si] == buddy_of(ptr as int, l) {
                    assert(s.contains(s[si]));
                }
            }
        }
    }
}

/// The buddy allocator.
pub struct BuddyAllocator<const MAX_ALLOCATABLE_BYTES: usize, H: HeapSource> {
    free_list: Vec<IntrusiveLinkedList>,
    alloc_heap: Option<H>,
    total_size: usize,
    allocated: usize,
}

impl<const MAX_ALLOCATABLE_BYTES: usize, H: HeapSource> View for BuddyAllocator<
    MAX_ALLOCATABLE_BYTES,
    H,
> {
    type V = BuddyState;

    closed spec fn view(&self) -> BuddyState {
        BuddyState {
            free: Seq::new(self.free_list@.len(), |l: int| self.free_list@[l]@),
            total_size: self.total_size as int,
            allocated: self.allocated as int,
            has_source: self.alloc_heap is Some,
        }
    }
}

impl<const MAX_ALLOCATABLE_BYTES: usize, H: HeapSource> BuddyAllocator<MAX_ALLOCATABLE_BYTES, H> {
    /// The invariant of the allocator.
    pub open spec fn wf(&self) -> bool {
        buddy_wf(self@, MAX_ALLOCATABLE_BYTES as int)
    }

    /// The number of levels.
    pub fn level_count() -> (r: usize)
        requires
            is_pow2(MAX_ALLOCATABLE_BYTES as int),
            MAX_ALLOCATABLE_BYTES >= MINIMUM_ALLOCATABLE_BYTES,
        ensures
            r == levels(MAX_ALLOCATABLE_BYTES as int),
            r >= 1,
    {
        Self::size2level(MAX_ALLOCATABLE_BYTES) + 1
    }

    /// The size of the blocks of `level`.
    pub fn level2size(level: usize) -> (r: usize)
        requires
            level_size(level as nat) <= usize::MAX,
        ensures
            r == level_size(level as nat),
    {
        let mut size: usize = MINIMUM_ALLOCATABLE_BYTES;
        let mut l: usize = 0;
        while l < level
            invariant
                l <= level,
                size == level_size(l as nat),
                level_size(level as nat) <= usize::MAX,
            decreases level - l,
        {
            proof {
                lemma_level_size(l as nat);
                lemma_level_size_grows((l + 1) as nat, level as nat);
            }
            size = size * 2;
            l += 1;
        }
        size
    }

    /// The level of the blocks that hold `size` bytes, or `None` where no
    /// power of two that holds them is a machine word.
    pub fn size2level_next_power(size: usize) -> (r: Option<usize>)
        ensures
            r matches Some(l) ==> l == size_level(next_pow2(size as int)),
            r is None <==> next_pow2(size as int) > usize::MAX,
    {
        match crate::layout::next_power_of_two(size) {
            Some(p) => Some(Self::size2level(p)),
            None => None,
        }
    }

    /// The level of the blocks of `size` bytes, `size` being a power of two.
    pub fn size2level(size: usize) -> (r: usize)
        ensures
            r == size_level(size as int),
            r < 64,
    {
        let mut s: usize = size;
        let mut l: usize = 0;
        while s > MINIMUM_ALLOCATABLE_BYTES
            invariant
                l + size_level(s as int) == size_level(size as int),
                l <= 64,
                s >= 1 || l == 0,
                s as int * level_size(l as nat) <= 16 * usize::MAX,
            decreases s,
        {
            proof {
                lemma_level_size(l as nat);
                lemma_level_bound(l as nat);
                if l >= 64 {
                    assert(s as int * level_size(l as nat) >= level_size(l as nat))
                        by (nonlinear_arith)
                        requires
                            s >= 1,
                            level_size(l as nat) >= 0,
                    ;
                }
                assert((s / 2) as int * (2 * level_size(l as nat)) <= s as int * level_size(
                    l as nat,
                )) by (nonlinear_arith)
                    requires
                        s >= 0,
                        level_size(l as nat) >= 0,
                ;
            }
            s = s / 2;
            l += 1;
        }
        proof {
            lemma_level_bound(l as nat);
            if l >= 64 {
                assert(s as int * level_size(l as nat) >= level_size(l as nat)) by (nonlinear_arith)
                    requires
                        s >= 1,
                        level_size(l as nat) >= 0,
                ;
            }
        }
        l
    }

    /// An allocator without memory. `heap_allocator` is asked for a fresh
    /// block whenever the allocator has run out of blocks.
    pub fn new(heap_allocator: Option<H>) -> (r: Self)
        requires
            is_pow2(MAX_ALLOCATABLE_BYTES as int),
            MAX_ALLOCATABLE_BYTES >= MINIMUM_ALLOCATABLE_BYTES,
        ensures
            r.wf(),
            r@.total_size == 0,
            r@.allocated == 0,
            r@.has_source == (heap_allocator is Some),
            forall|l: int| 0 <= l < r@.free.len() ==> (#[trigger] r@.free[l]).len() == 0,
    {
        let count = Self::level_count();
        let mut free_list: Vec<IntrusiveLinkedList> = Vec::new();
        while free_list.len() < count
            invariant
                free_list@.len() <= count,
                forall|l: int| 0 <= l < free_list@.len() ==> (#[trigger] free_list@[l])@.len() == 0,
            decreases count - free_list.len(),
        {
            free_list.push(IntrusiveLinkedList::new());
        }
        Self { free_list, alloc_heap: heap_allocator, total_size: 0, allocated: 0 }
    }

    /// Attaches another source of fresh blocks, or none.
    pub fn change_allocator(&mut self, heap_allocator: Option<H>)
        ensures
            final(self)@ == (BuddyState {
                has_source: heap_allocator is Some,
                ..old(self)@
            }),
    {
        self.alloc_heap = heap_allocator;
    }

    /// Puts the block at `ptr` at the front of the list of `level`.
    fn push_at(&mut self, level: usize, ptr: usize)
        requires
            level < old(self)@.free.len(),
        ensures
            final(self)@ == (BuddyState {
                free: old(self)@.free.update(
                    level as int,
                    old(self)@.free[level as int].insert(0, ptr),
                ),
                ..old(self)@
            }),
    {
        self.free_list[level].push(ptr);
        proof {
            assert(self@.free =~= old(self)@.free.update(
                level as int,
                old(self)@.free[level as int].insert(0, ptr),
            ));
        }
    }

    /// Puts the block at `ptr` at the back of the list of `level`.
    fn push_back_at(&mut self, level: usize, ptr: usize)
        requires
            level < old(self)@.free.len(),
        ensures
            final(self)@ == (BuddyState {
                free: old(self)@.free.update(level as int, old(self)@.free[level as int].push(ptr)),
                ..old(self)@
            }),
    {
        self.free_list[level].push_back(ptr);
        proof {
            assert(self@.free =~= old(self)@.free.update(
                level as int,
                old(self)@.free[level as int].push(ptr),
            ));
        }
    }

    /// Takes the first block of the list of `level`, which is not empty.
    fn pop_at(&mut self, level: usize) -> (r: usize)
        requires
            level < old(self)@.free.len(),
            old(self)@.free[level as int].len() > 0,
        ensures
            r == old(self)@.free[level as int][0],
            final(self)@ == (BuddyState {
                free: old(self)@.free.update(level as int, old(self)@.free[level as int].remove(0)),
                ..old(self)@
            }),
    {
        let head = self.free_list[level].get(0);
        let _ = self.free_list[level].pop();
        proof {
            assert(self@.free =~= old(self)@.free.update(
                level as int,
                old(self)@.free[level as int].remove(0),
            ));
        }
        head
    }

    /// Takes the block at `ptr` out of the list of `level`, and says whether it was there.
    fn remove_at(&mut self, level: usize, ptr: usize) -> (r: bool)
        requires
            level < old(self)@.free.len(),
        ensures
            r == old(self)@.free[level as int].contains(ptr),
            final(self)@ == (BuddyState {
                free: old(self)@.free.update(
                    level as int,
                    without(old(self)@.free[level as int], ptr),
                ),
                ..old(self)@
            }),
    {
        let found = self.free_list[level].remove_if(ptr);
        proof {
            assert(self@.free =~= old(self)@.free.update(
                level as int,
                without(old(self)@.free[level as int], ptr),
            ));
        }
        found
    }

    /// Puts the block at `ptr` into the list of `level`, in order.
    fn add_sorted_at(&mut self, level: usize, ptr: usize)
        requires
            level < old(self)@.free.len(),
        ensures
            final(self)@ == (BuddyState {
                free: old(self)@.free.update(
                    level as int,
                    with_sorted(old(self)@.free[level as int], ptr),
                ),
                ..old(self)@
            }),
    {
        self.free_list[level].add_with_sort(ptr);
        proof {
            assert(self@.free =~= old(self)@.free.update(
                level as int,
                with_sorted(old(self)@.free[level as int], ptr),
            ));
        }
    }

    /// Gives the allocator the `size` bytes at `ptr`, as blocks of the top
    /// level. `ptr` is aligned to the size of those blocks and `size` is a
    /// multiple of it.
    pub fn set_memory(&mut self, ptr: usize, size: usize)
        requires
            old(self).wf(),
            (ptr as int) % (MAX_ALLOCATABLE_BYTES as int) == 0,
            (size as int) % (MAX_ALLOCATABLE_BYTES as int) == 0,
            ptr + size <= usize::MAX,
            old(self)@.total_size + size <= usize::MAX,
        ensures
            final(self).wf(),
            final(self)@ == (BuddyState {
                free: old(self)@.free.update(
                    old(self)@.free.len() - 1,
                    old(self)@.free[old(self)@.free.len() - 1] + top_blocks(
                        ptr,
                        size as int / MAX_ALLOCATABLE_BYTES as int,
                        MAX_ALLOCATABLE_BYTES as int,
                    ),
                ),
                total_size: old(self)@.total_size + size,
                ..old(self)@
            }),
    {
        let top = self.free_list.len() - 1;
        let count = size / MAX_ALLOCATABLE_BYTES;
        self.total_size = self.total_size + size;
        let mut p = ptr;
        let mut k: usize = 0;
        proof {
            lemma_size_level(MAX_ALLOCATABLE_BYTES as int);
            vstd::arithmetic::div_mod::lemma_fundamental_div_mod(
                size as int,
                MAX_ALLOCATABLE_BYTES as int,
            );
            assert(old(self)@.free[top as int] + top_blocks(ptr, 0, MAX_ALLOCATABLE_BYTES as int)
                =~= old(self)@.free[top as int]);
            assert(self@.free =~= old(self)@.free.update(top as int, old(self)@.free[top as int]));
        }
        while k < count
            invariant
                k <= count,
                top == old(self)@.free.len() - 1,
                size == MAX_ALLOCATABLE_BYTES * count,
                ptr + size <= usize::MAX,
                (ptr as int) % (MAX_ALLOCATABLE_BYTES as int) == 0,
                level_size(top as nat) == MAX_ALLOCATABLE_BYTES,
                k < count ==> p == ptr + k * MAX_ALLOCATABLE_BYTES,
                self.wf(),
                self@ == (BuddyState {
                    free: old(self)@.free.update(
                        top as int,
                        old(self)@.free[top as int] + top_blocks(
                            ptr,
                            k as int,
                            MAX_ALLOCATABLE_BYTES as int,
                        ),
                    ),
                    total_size: old(self)@.total_size + size,
                    ..old(self)@
                }),
            decreases count - k,
        {
            let ghost before = self@;
            proof {
                assert((k + 1) * MAX_ALLOCATABLE_BYTES <= MAX_ALLOCATABLE_BYTES * count)
                    by (nonlinear_arith)
                    requires
                        k < count,
                ;
                assert((k + 1) * MAX_ALLOCATABLE_BYTES == k * MAX_ALLOCATABLE_BYTES
                    + MAX_ALLOCATABLE_BYTES) by (nonlinear_arith);
                assert(k * MAX_ALLOCATABLE_BYTES >= 0) by (nonlinear_arith);
                vstd::arithmetic::div_mod::lemma_mod_multiples_vanish(
                    k as int,
                    ptr as int,
                    MAX_ALLOCATABLE_BYTES as int,
                );
                assert(MAX_ALLOCATABLE_BYTES as int * k as int + ptr as int == p as int)
                    by (nonlinear_arith)
                    requires
                        p == ptr + k * MAX_ALLOCATABLE_BYTES,
                ;
            }
            self.push_back_at(top, p);
            proof {
                let grown = before.free[top as int].push(p);
                assert(grown =~= old(self)@.free[top as int] + top_blocks(
                    ptr,
                    k + 1,
                    MAX_ALLOCATABLE_BYTES as int,
                ));
                assert(self@.free =~= old(self)@.free.update(top as int, grown));
                assert forall|l: int| 0 <= l < self@.free.len() implies blocks_fit(
                    #[trigger] self@.free[l],
                    l as nat,
                ) by {
                    assert(blocks_fit(before.free[l], l as nat));
                }
                assert forall|l: int| 0 <= l < self@.free.len() - 1 implies ascending(
                    #[trigger] self@.free[l],
                ) && no_buddies(self@.free[l], l as nat) by {
                    assert(ascending(before.free[l]) && no_buddies(before.free[l], l as nat));
                }
            }
            k += 1;
            if k < count {
                proof {
                    assert((k + 1) * MAX_ALLOCATABLE_BYTES <= MAX_ALLOCATABLE_BYTES * count)
                        by (nonlinear_arith)
                        requires
                            k < count,
                    ;
                    assert((k - 1) * MAX_ALLOCATABLE_BYTES + MAX_ALLOCATABLE_BYTES == k
                        * MAX_ALLOCATABLE_BYTES) by (nonlinear_arith);
                    assert((k + 1) * MAX_ALLOCATABLE_BYTES == k * MAX_ALLOCATABLE_BYTES
                        + MAX_ALLOCATABLE_BYTES) by (nonlinear_arith);
                }
                p = p + MAX_ALLOCATABLE_BYTES;
            }
        }
    }

    /// Whether a request for `layout` would have to ask the source for a
    /// fresh block.
    pub fn needs_refill(&self, layout: Layout) -> (r: bool)
        requires
            self.wf(),
        ensures
            r == wants_block(
                self@,
                MAX_ALLOCATABLE_BYTES as int,
                layout.spec_size(),
                layout.spec_align(),
            ),
    {
        let wanted = crate::range_list_allocator::larger_of(
            crate::range_list_allocator::larger_of(layout.size(), layout.align()),
            MINIMUM_ALLOCATABLE_BYTES,
        );
        let req = match crate::layout::next_power_of_two(wanted) {
            Some(p) => p,
            None => {
                return false;
            },
        };
        if req > MAX_ALLOCATABLE_BYTES {
            return false;
        }
        let level = Self::size2level(req);
        proof {
            lemma_size_level_grows(req as int, MAX_ALLOCATABLE_BYTES as int);
        }
        let found = self.find_free(level);
        found == self.free_list.len()
    }

    /// The first level from `level` upwards that has a free block, or the number of levels.
    fn find_free(&self, level: usize) -> (r: usize)
        requires
            level <= self@.free.len(),
        ensures
            r == first_free(self@.free, level as int),
            level <= r <= self@.free.len(),
    {
        let mut free_level = level;
        while free_level < self.free_list.len() && self.free_list[free_level].is_none()
            invariant
                level <= free_level <= self.free_list.len(),
                forall|l: int| level <= l < free_level ==> (#[trigger] self@.free[l]).len() == 0,
            decreases self.free_list.len() - free_level,
        {
            free_level += 1;
        }
        proof {
            lemma_first_free_is(self@.free, level as int, free_level as int);
        }
        free_level
    }

    /// Answers a request for `layout`, `fresh` being what the source has
    /// handed over for it, if it was asked.
    pub fn alloc_with_block(&mut self, layout: Layout, fresh: Option<usize>) -> (r: Result<
        usize,
        AllocError,
    >)
        requires
            old(self).wf(),
            layout.wf(),
            old(self)@.allocated + MAX_ALLOCATABLE_BYTES <= usize::MAX,
            old(self)@.total_size + MAX_ALLOCATABLE_BYTES <= usize::MAX,
        ensures
            (final(self)@, r) == alloc_with(
                old(self)@,
                MAX_ALLOCATABLE_BYTES as int,
                layout.spec_size(),
                layout.spec_align(),
                fresh,
            ),
            final(self).wf(),
            r matches Ok(a) ==> a % layout.align_value() == 0,
    {
        let wanted = crate::range_list_allocator::larger_of(
            crate::range_list_allocator::larger_of(layout.size(), layout.align()),
            MINIMUM_ALLOCATABLE_BYTES,
        );
        let req = match crate::layout::next_power_of_two(wanted) {
            Some(p) => p,
            None => {
                return Err(AllocError::OutOfMemory);
            },
        };
        if req > MAX_ALLOCATABLE_BYTES {
            return Err(AllocError::OutOfMemory);
        }
        let level = Self::size2level(req);
        let count = self.free_list.len();
        proof {
            crate::layout::lemma_next_pow2(wanted as int);
            lemma_size_level(req as int);
            lemma_size_level(MAX_ALLOCATABLE_BYTES as int);
            lemma_size_level_grows(req as int, MAX_ALLOCATABLE_BYTES as int);
            crate::layout::lemma_pow2_pos(layout.spec_align());
        }
        let mut free_level = self.find_free(level);
        if free_level == count {
            if self.alloc_heap.is_none() {
                return Err(AllocError::OutOfMemory);
            }
            match fresh {
                Some(b) => {
                    if b % MAX_ALLOCATABLE_BYTES != 0 || b > usize::MAX - MAX_ALLOCATABLE_BYTES {
                        return Err(AllocError::OutOfMemory);
                    }
                    proof {
                        vstd::arithmetic::div_mod::lemma_mod_self_0(MAX_ALLOCATABLE_BYTES as int);
                        lemma_first_free(old(self)@.free, level as int);
                        assert(old(self)@.free[count - 1].len() == 0);
                    }
                    self.set_memory(b, MAX_ALLOCATABLE_BYTES);
                    proof {
                        assert(top_blocks(b, 1, MAX_ALLOCATABLE_BYTES as int) =~= seq![b]);
                        assert(old(self)@.free[count - 1] + seq![b] =~= old(self)@.free[count
                            - 1].push(b));
                        assert forall|l: int| level <= l < count - 1 implies (
                        #[trigger] self@.free[l]).len() == 0 by {
                            assert(old(self)@.free[l].len() == 0);
                        }
                    }
                    free_level = count - 1;
                },
                None => {
                    return Err(AllocError::OutOfMemory);
                },
            }
        } else {
            proof {
                lemma_first_free(self@.free, level as int);
            }
        }
        let ghost start = self@;
        proof {
            lemma_split_wf(start, MAX_ALLOCATABLE_BYTES as int, level as int, free_level as int);
        }
        let block = self.pop_at(free_level);
        let mut i = free_level;
        proof {
            assert(self@.free =~= Seq::new(
                start.free.len(),
                |l: int|
                    if l == free_level {
                        start.free[l].remove(0)
                    } else if i <= l < free_level {
                        seq![(block + level_size(l as nat)) as usize]
                    } else {
                        start.free[l]
                    },
            ));
        }
        while i > level
            invariant
                level <= i <= free_level < count,
                count == start.free.len(),
                block == start.free[free_level as int][0],
                buddy_wf(start, MAX_ALLOCATABLE_BYTES as int),
                forall|l: int| level <= l < free_level ==> (#[trigger] start.free[l]).len() == 0,
                start.free[free_level as int].len() > 0,
                self@ == (BuddyState {
                    free: Seq::new(
                        start.free.len(),
                        |l: int|
                            if l == free_level {
                                start.free[l].remove(0)
                            } else if i <= l < free_level {
                                seq![(block + level_size(l as nat)) as usize]
                            } else {
                                start.free[l]
                            },
                    ),
                    ..start
                }),
            decreases i,
        {
            let ghost before = self@;
            proof {
                lemma_level_size((i - 1) as nat);
                lemma_level_size_grows(i as nat, free_level as nat);
                lemma_level_size_grows(free_level as nat, (count - 1) as nat);
                lemma_size_level(MAX_ALLOCATABLE_BYTES as int);
                lemma_level_size_grows((i - 1) as nat, free_level as nat);
                assert(blocks_fit(start.free[free_level as int], free_level as nat));
                assert(start.free[free_level as int][0] + level_size(free_level as nat)
                    <= usize::MAX);
            }
            let lower_level_size = Self::level2size(i - 1);
            self.push_at(i - 1, block + lower_level_size);
            i -= 1;
            proof {
                assert(before.free[i as int] == start.free[i as int]);
                assert(start.free[i as int].insert(0, (block + lower_level_size) as usize)
                    =~= seq![(block + level_size(i as nat)) as usize]);
                assert(self@.free =~= Seq::new(
                    start.free.len(),
                    |l: int|
                        if l == free_level {
                            start.free[l].remove(0)
                        } else if i <= l < free_level {
                            seq![(block + level_size(l as nat)) as usize]
                        } else {
                            start.free[l]
                        },
                ));
            }
        }
        self.allocated = self.allocated + req;
        proof {
            assert(self@.free =~= split_from(start.free, level as int, free_level as int));
            crate::layout::lemma_pow2_divides(layout.spec_align(), req as int);
            lemma_multiple(block as int, req as int, layout.spec_align());
        }
        Ok(block)
    }

    /// Answers a request for `layout` with the address of a block, asking
    /// the source for a fresh block where no free block is large enough.
    pub fn allocate(&mut self, layout: Layout) -> (r: Result<usize, AllocError>)
        requires
            old(self).wf(),
            layout.wf(),
            old(self)@.allocated + MAX_ALLOCATABLE_BYTES <= usize::MAX,
            old(self)@.total_size + MAX_ALLOCATABLE_BYTES <= usize::MAX,
        ensures
            exists|fresh: Option<usize>|
                (final(self)@, r) == #[trigger] alloc_with(
                    old(self)@,
                    MAX_ALLOCATABLE_BYTES as int,
                    layout.spec_size(),
                    layout.spec_align(),
                    fresh,
                ),
            !wants_block(
                old(self)@,
                MAX_ALLOCATABLE_BYTES as int,
                layout.spec_size(),
                layout.spec_align(),
            ) || !old(self)@.has_source ==> (final(self)@, r) == alloc_with(
                old(self)@,
                MAX_ALLOCATABLE_BYTES as int,
                layout.spec_size(),
                layout.spec_align(),
                None,
            ),
            final(self).wf(),
            r matches Ok(a) ==> a % layout.align_value() == 0,
    {
        let fresh = if self.needs_refill(layout) {
            match &self.alloc_heap {
                Some(source) => source.fetch(),
                None => None,
            }
        } else {
            None
        };
        self.alloc_with_block(layout, fresh)
    }

    /// Takes back the block at `ptr` of `layout.size()` bytes. The block is
    /// fused with its buddy as long as that is free, level by level.
    pub fn dealloc(&mut self, ptr: usize, layout: Layout)
        requires
            old(self).wf(),
            released_size(layout.spec_size()) <= MAX_ALLOCATABLE_BYTES,
            (ptr as int) % released_size(layout.spec_size()) == 0,
            ptr + released_size(layout.spec_size()) <= usize::MAX,
            old(self)@.allocated >= released_size(layout.spec_size()),
        ensures
            final(self)@ == (BuddyState {
                free: merge_up(
                    old(self)@.free,
                    ptr,
                    size_level(released_size(layout.spec_size())) as int,
                ),
                allocated: old(self)@.allocated - released_size(layout.spec_size()),
                ..old(self)@
            }),
            final(self).wf(),
            forall|l: int|
                0 <= l < final(self)@.free.len() - 1 ==> no_buddies(
                    #[trigger] final(self)@.free[l],
                    l as nat,
                ),
    {
        let wanted = crate::range_list_allocator::larger_of(
            layout.size(),
            MINIMUM_ALLOCATABLE_BYTES,
        );
        let req = match crate::layout::next_power_of_two(wanted) {
            Some(p) => p,
            None => 0,
        };
        proof {
            crate::layout::lemma_next_pow2(wanted as int);
            lemma_size_level(req as int);
            lemma_size_level(MAX_ALLOCATABLE_BYTES as int);
            lemma_size_level_grows(req as int, MAX_ALLOCATABLE_BYTES as int);
        }
        let start_level = Self::size2level(req);
        let count = self.free_list.len();
        self.allocated = self.allocated - req;
        let ghost goal = merge_up(old(self)@.free, ptr, start_level as int);
        let mut p = ptr;
        let mut level = start_level;
        while level + 1 < count
            invariant
                level < count,
                count == self@.free.len(),
                self.wf(),
                (p as int) % level_size(level as nat) == 0,
                p + level_size(level as nat) <= usize::MAX,
                merge_up(self@.free, p, level as int) == goal,
                goal == merge_up(
                    old(self)@.free,
                    ptr,
                    size_level(released_size(layout.spec_size())) as int,
                ),
                req == released_size(layout.spec_size()),
                self@.allocated == old(self)@.allocated - req,
                self@.total_size == old(self)@.total_size,
                self@.has_source == old(self)@.has_source,
            decreases count - level,
        {
            let ghost before = self@;
            proof {
                lemma_level_size(level as nat);
                lemma_level_size_grows((level + 1) as nat, (count - 1) as nat);
                lemma_size_level(MAX_ALLOCATABLE_BYTES as int);
                lemma_buddy(p as int, level as nat);
                assert(blocks_fit(before.free[level as int], level as nat));
                assert(ascending(before.free[level as int]) && no_buddies(
                    before.free[level as int],
                    level as nat,
                ));
            }
            let block_size = Self::level2size(level);
            let buddy_addr = if p % (2 * block_size) == 0 {
                p + block_size
            } else {
                p - block_size
            };
            let merged = self.remove_at(level, buddy_addr);
            proof {
                lemma_without(before.free[level as int], buddy_addr);
                if !merged {
                    assert(self@.free =~= before.free);
                }
            }
            if merged {
                proof {
                    lemma_without_fit(before.free[level as int], buddy_addr, level as nat);
                    let k = choose|k: int|
                        0 <= k < before.free[level as int].len() && before.free[level as int][k]
                            == buddy_addr;
                    assert(before.free[level as int][k] + level_size(level as nat) <= usize::MAX);
                    assert forall|l: int| 0 <= l < self@.free.len() implies blocks_fit(
                        #[trigger] self@.free[l],
                        l as nat,
                    ) by {
                        assert(blocks_fit(before.free[l], l as nat));
                    }
                    assert forall|l: int| 0 <= l < self@.free.len() - 1 implies ascending(
                        #[trigger] self@.free[l],
                    ) && no_buddies(self@.free[l], l as nat) by {
                        assert(ascending(before.free[l]) && no_buddies(before.free[l], l as nat));
                    }
                }
                if buddy_addr < p {
                    p = buddy_addr;
                }
                level += 1;
            } else {
                let ghost unmerged = self@;
                self.add_sorted_at(level, p);
                proof {
                    assert(unmerged.free == before.free);
                    assert(buddy_addr == buddy_of(p as int, level as nat) as usize);
                    assert(merge_up(before.free, p, level as int) == before.free.update(
                        level as int,
                        with_sorted(before.free[level as int], p),
                    ));
                    assert(self@.free == goal);
                    lemma_with_sorted_ascending(before.free[level as int], p);
                    lemma_with_sorted_fit(before.free[level as int], p, level as nat);
                    assert forall|l: int| 0 <= l < self@.free.len() implies blocks_fit(
                        #[trigger] self@.free[l],
                        l as nat,
                    ) by {
                        assert(blocks_fit(before.free[l], l as nat));
                    }
                    assert forall|l: int| 0 <= l < self@.free.len() - 1 implies ascending(
                        #[trigger] self@.free[l],
                    ) && no_buddies(self@.free[l], l as nat) by {
                        assert(ascending(before.free[l]) && no_buddies(before.free[l], l as nat));
                    }
                }
                return ;
            }
        }
        let ghost before = self@;
        self.push_back_at(level, p);
        proof {
            assert forall|l: int| 0 <= l < self@.free.len() implies blocks_fit(
                #[trigger] self@.free[l],
                l as nat,
            ) by {
                assert(blocks_fit(before.free[l], l as nat));
            }
            assert forall|l: int| 0 <= l < self@.free.len() - 1 implies ascending(
                #[trigger] self@.free[l],
            ) && no_buddies(self@.free[l], l as nat) by {
                assert(ascending(before.free[l]) && no_buddies(before.free[l], l as nat));
            }
        }
    }

    /// The sum of the sizes of the blocks that are handed out.
    pub fn allocated(&self) -> (r: usize)
        ensures
            r == self@.allocated,
    {
        self.allocated
    }

    /// The number of bytes that the allocator was given.
    pub fn total_size(&self) -> (r: usize)
        ensures
            r == self@.total_size,
    {
        self.total_size
    }

    /// Whether a source of fresh blocks is attached.
    pub fn has_source(&self) -> (r: bool)
        ensures
            r == self@.has_source,
    {
        self.alloc_heap.is_some()
    }

    /// Tests whether the free blocks of `level` are aligned to their size,
    /// end within the address space and, below the top level, are in
    /// ascending order with no two buddies among them.
    fn is_level_well_formed(&self, level: usize) -> (r: bool)
        requires
            is_pow2(MAX_ALLOCATABLE_BYTES as int),
            MAX_ALLOCATABLE_BYTES >= MINIMUM_ALLOCATABLE_BYTES,
            self@.free.len() == levels(MAX_ALLOCATABLE_BYTES as int),
            level < self@.free.len(),
        ensures
            r == (blocks_fit(self@.free[level as int], level as nat) && (level + 1
                < self@.free.len() ==> ascending(self@.free[level as int]) && no_buddies(
                self@.free[level as int],
                level as nat,
            ))),
    {
        proof {
            lemma_size_level(MAX_ALLOCATABLE_BYTES as int);
            lemma_level_size_grows(level as nat, (self@.free.len() - 1) as nat);
            lemma_level_size(level as nat);
            if level + 1 < self@.free.len() {
                lemma_level_size_grows((level + 1) as nat, (self@.free.len() - 1) as nat);
            }
        }
        let size = Self::level2size(level);
        let list = &self.free_list[level];
        let count = list.size();
        let ghost s = self@.free[level as int];
        let mut i: usize = 0;
        while i < count
            invariant
                i <= count,
                count == s.len(),
                list@ == s,
                s == self@.free[level as int],
                size == level_size(level as nat),
                size > 0,
                forall|k: int|
                    0 <= k < i ==> ((#[trigger] s[k]) as int) % level_size(level as nat) == 0
                        && s[k] + level_size(level as nat) <= usize::MAX,
            decreases count - i,
        {
            let b = list.get(i);
            if b % size != 0 || b > usize::MAX - size {
                proof {
                    assert(!((s[i as int] as int) % level_size(level as nat) == 0 && s[i as int]
                        + level_size(level as nat) <= usize::MAX));
                }
                return false;
            }
            i += 1;
        }
        if level >= self.free_list.len() - 1 {
            return true;
        }
        if !list.is_ascending() {
            return false;
        }
        let mut j: usize = 0;
        while j < count
            invariant
                j <= count,
                count == s.len(),
                list@ == s,
                s == self@.free[level as int],
                level + 1 < self@.free.len(),
                ascending(s),
                size == level_size(level as nat),
                2 * size <= usize::MAX,
                blocks_fit(s, level as nat),
                forall|a: int, k: int|
                    0 <= a < s.len() && 0 <= k < j ==> (#[trigger] s[a]) != buddy_of(
                        (#[trigger] s[k]) as int,
                        level as nat,
                    ),
            decreases count - j,
        {
            let b = list.get(j);
            proof {
                assert((s[j as int] as int) % level_size(level as nat) == 0);
                lemma_buddy(b as int, level as nat);
            }
            let buddy = if b % (2 * size) == 0 {
                b + size
            } else {
                b - size
            };
            let mut a: usize = 0;
            while a < count
                invariant
                    a <= count,
                    j < count,
                    count == s.len(),
                    list@ == s,
                    s == self@.free[level as int],
                    level + 1 < self@.free.len(),
                    buddy == buddy_of(s[j as int] as int, level as nat),
                    forall|m: int| 0 <= m < a ==> (#[trigger] s[m]) != buddy,
                decreases count - a,
            {
                if list.get(a) == buddy {
                    proof {
                        assert(s[a as int] == buddy_of(s[j as int] as int, level as nat));
                    }
                    return false;
                }
                a += 1;
            }
            j += 1;
        }
        true
    }

    /// Tests the invariant of the allocator.
    pub fn is_well_formed(&self) -> (r: bool)
        ensures
            r == self.wf(),
    {
        if !crate::layout::is_power_of_two(MAX_ALLOCATABLE_BYTES) || MAX_ALLOCATABLE_BYTES
            < MINIMUM_ALLOCATABLE_BYTES {
            return false;
        }
        if self.free_list.len() != Self::level_count() {
            return false;
        }
        let mut level: usize = 0;
        while level < self.free_list.len()
            invariant
                level <= self@.free.len(),
                is_pow2(MAX_ALLOCATABLE_BYTES as int),
                MAX_ALLOCATABLE_BYTES >= MINIMUM_ALLOCATABLE_BYTES,
                self@.free.len() == levels(MAX_ALLOCATABLE_BYTES as int),
                forall|l: int| 0 <= l < level ==> blocks_fit(#[trigger] self@.free[l], l as nat),
                forall|l: int|
                    0 <= l < level && l < self@.free.len() - 1 ==> ascending(
                        #[trigger] self@.free[l],
                    ) && no_buddies(self@.free[l], l as nat),
            decreases self@.free.len() - level,
        {
            if !self.is_level_well_formed(level) {
                return false;
            }
            level += 1;
        }
        true
    }

    /// Tests whether the block of `layout.size()` bytes at `ptr` can come
    /// back: it is no larger than the largest block, aligned to the size of
    /// the block that is given back and ends within the address space, and
    /// at least that many bytes are handed out.
    pub fn can_take_back(&self, ptr: usize, layout: Layout) -> (r: bool)
        ensures
            r == (released_size(layout.spec_size()) <= MAX_ALLOCATABLE_BYTES && (ptr as int)
                % released_size(layout.spec_size()) == 0 && ptr + released_size(layout.spec_size())
                <= usize::MAX && self@.allocated >= released_size(layout.spec_size())),
    {
        let wanted = crate::range_list_allocator::larger_of(
            layout.size(),
            MINIMUM_ALLOCATABLE_BYTES,
        );
        proof {
            crate::layout::lemma_next_pow2(wanted as int);
        }
        match crate::layout::next_power_of_two(wanted) {
            Some(req) => req <= MAX_ALLOCATABLE_BYTES && ptr % req == 0 && ptr <= usize::MAX - req
                && self.allocated >= req,
            None => false,
        }
    }

    /// The list of the free blocks of `level`.
    pub fn free_list(&self, level: usize) -> (r: &IntrusiveLinkedList)
        requires
            level < self@.free.len(),
        ensures
            r@ == self@.free[level as int],
    {
        &self.free_list[level]
    }
}

/// 16 is a power of two.
pub proof fn lemma_sixteen()
    ensures
        is_pow2(16),
{
    reveal_with_fuel(is_pow2, 6);
}

/// The size of the level `a + b`, in units of 16 bytes, is the product of
/// the sizes of the levels `a` and `b` in those units.
pub proof fn lemma_level_size_sum(a: nat, b: nat)
    ensures
        16 * level_size(a + b) == level_size(a) * level_size(b),
    decreases b,
{
    if b == 0 {
        assert(level_size(a) * 16 == 16 * level_size(a));
    } else {
        lemma_level_size_sum(a, (b - 1) as nat);
        let x = level_size(a);
        let y = level_size((b - 1) as nat);
        assert(level_size(a + b) == 2 * level_size((a + b - 1) as nat));
        assert(x * (2 * y) == 2 * (x * y)) by (nonlinear_arith);
    }
}

/// The size of level 64 and of every level above is no machine word.
pub proof fn lemma_level_bound(l: nat)
    ensures
        l >= 64 ==> level_size(l) > 16 * usize::MAX,
    decreases l,
{
    if l > 64 {
        lemma_level_bound((l - 1) as nat);
    } else if l == 64 {
        lemma_level_size_sum(32, 32);
        lemma_level_size_sum(16, 16);
        lemma_level_size_sum(8, 8);
        lemma_level_size_sum(4, 4);
        assert(level_size(4) == 256) by {
            reveal_with_fuel(level_size, 5);
        }
        let a = level_size(4);
        let b = level_size(8);
        let c = level_size(16);
        let d = level_size(32);
        assert(a * a == 65536) by (nonlinear_arith)
            requires
                a == 256,
        ;
        assert(b * b == 16777216) by (nonlinear_arith)
            requires
                b == 4096,
        ;
        assert(c * c == 0x100_0000_0000) by (nonlinear_arith)
            requires
                c == 0x10_0000,
        ;
        assert(d * d == 0x100_0000_0000_0000_0000) by (nonlinear_arith)
            requires
                d == 0x10_0000_0000,
        ;
    }
}

} // verus!
