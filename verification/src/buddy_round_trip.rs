//! A block that the buddy allocator hands out and takes back at once leaves
//! the lists of free blocks as they were, but for the place of the block in
//! the list of the top level.
use vstd::prelude::*;
use crate::buddy_allocator::alloc_with;
use crate::buddy_allocator::blocks_fit;
use crate::buddy_allocator::buddy_of;
use crate::buddy_allocator::buddy_wf;
use crate::buddy_allocator::first_free;
use crate::buddy_allocator::lemma_buddy;
use crate::buddy_allocator::lemma_first_free;
use crate::buddy_allocator::lemma_level_size;
use crate::buddy_allocator::lemma_level_size_grows;
use crate::buddy_allocator::lemma_multiple;
use crate::buddy_allocator::lemma_size_level;
use crate::buddy_allocator::lemma_size_level_grows;
use crate::buddy_allocator::level_size;
use crate::buddy_allocator::merge_up;
use crate::buddy_allocator::no_buddies;
use crate::buddy_allocator::released_size;
use crate::buddy_allocator::required_size;
use crate::buddy_allocator::size_level;
use crate::buddy_allocator::split_from;
use crate::buddy_allocator::BuddyState;
use crate::buddy_allocator::MINIMUM_ALLOCATABLE_BYTES;
use crate::intrusive_linked_list::ascending;
use crate::intrusive_linked_list::is_above;
use crate::intrusive_linked_list::is_at;
use crate::intrusive_linked_list::with_sorted;
use crate::intrusive_linked_list::without;
use crate::layout::is_pow2;
use crate::region::larger;
use crate::search::first_where;
use crate::search::lemma_first_where;

verus! {

/// The first block of an ascending list goes back to its place when it is
/// put into the rest of the list in order.
pub proof fn lemma_head_returns(s: Seq<usize>)
    requires
        ascending(s),
        s.len() > 0,
    ensures
        with_sorted(s.remove(0), s[0]) == s,
{
    let t = s.remove(0);
    let b = s[0];
    crate::search::lemma_first_where_is_first(t, is_above(b));
    let k = first_where(t, is_above(b));
    assert forall|i: int| 0 <= i < t.len() implies t[i] >= b by {
        assert(t[i] == s[i + 1]);
        assert(s[0] <= s[i + 1]);
    }
    assert forall|i: int| 0 <= i < k implies #[trigger] t[i] == b by {
        assert(!is_above(b)(t[i]));
    }
    let r = t.insert(k, b);
    assert forall|i: int| 0 <= i < s.len() implies r[i] == s[i] by {
        if i < k {
            assert(t[i] == b);
            if i > 0 {
                assert(t[i - 1] == b);
                assert(t[i - 1] == s[i]);
            }
        } else if i == k {
            if k > 0 {
                assert(t[k - 1] == b);
                assert(t[k - 1] == s[k]);
            }
        } else {
            assert(r[i] == t[i - 1]);
        }
    }
    assert(r =~= s);
}

/// The lists of free blocks after the first block of level `found` has been
/// split down to `level` and handed back at once: they are what they were
/// below the top level, and on the top level the block has moved to the back
/// of the list.
pub proof fn lemma_merge_undoes_split(v: BuddyState, max: int, level: int, found: int)
    requires
        buddy_wf(v, max),
        0 <= level <= found < v.free.len(),
        v.free[found].len() > 0,
        forall|l: int| level <= l < found ==> (#[trigger] v.free[l]).len() == 0,
    ensures
        merge_up(split_from(v.free, level, found), v.free[found][0], level) == (if found + 1
            < v.free.len() {
            v.free
        } else {
            v.free.update(found, v.free[found].remove(0).push(v.free[found][0]))
        }),
    decreases found - level,
{
    let f = v.free;
    let block = f[found][0];
    let g = split_from(f, level, found);
    assert(blocks_fit(f[found], found as nat));
    assert((block as int) % level_size(found as nat) == 0);
    if level == found {
        if found + 1 < f.len() {
            assert(ascending(f[found]) && no_buddies(f[found], found as nat));
            lemma_buddy(block as int, found as nat);
            let buddy = buddy_of(block as int, found as nat) as usize;
            assert(block + level_size(found as nat) <= usize::MAX);
            assert(buddy == buddy_of(block as int, found as nat));
            let rest = f[found].remove(0);
            assert(g[found] == rest);
            assert(!rest.contains(buddy)) by {
                if rest.contains(buddy) {
                    let i = choose|i: int| 0 <= i < rest.len() && rest[i] == buddy;
                    assert(rest[i] == f[found][i + 1]);
                    assert(f[found][i + 1] != buddy_of(f[found][0] as int, found as nat));
                }
            }
            lemma_head_returns(f[found]);
            assert(g.update(found, with_sorted(rest, block)) =~= f);
        } else {
            assert(g.update(found, g[found].push(block)) =~= f.update(
                found,
                f[found].remove(0).push(block),
            ));
        }
    } else {
        lemma_level_size(level as nat);
        lemma_level_size_grows((level + 1) as nat, found as nat);
        lemma_multiple(block as int, level_size(found as nat), 2 * level_size(level as nat));
        let buddy = buddy_of(block as int, level as nat) as usize;
        assert(block + level_size(found as nat) <= usize::MAX);
        assert(buddy == block + level_size(level as nat));
        let single = seq![buddy];
        assert(g[level] == single);
        assert(single[0] == buddy);
        assert(single.contains(buddy));
        assert(without(single, buddy) =~= Seq::<usize>::empty()) by {
            lemma_first_where(single, is_at(buddy), 0);
        }
        let next = split_from(f, level + 1, found);
        assert(g.update(level, without(single, buddy)) =~= next) by {
            assert(f[level].len() == 0);
            assert(f[level] =~= Seq::<usize>::empty());
        }
        lemma_merge_undoes_split(v, max, level + 1, found);
    }
}

/// A request that is served from the free blocks, followed by the release
/// of its block, leaves the buddy allocator as it was: the counter, and the
/// lists of free blocks but for the place of the block in the list of the
/// top level. This holds where the alignment of the request is no larger
/// than the block that holds its size.
pub proof fn lemma_buddy_round_trip(v: BuddyState, max: int, size: int, align: int)
    requires
        buddy_wf(v, max),
        0 <= size,
        is_pow2(align),
        align <= released_size(size),
        required_size(size, align) <= max,
        first_free(v.free, size_level(required_size(size, align)) as int) < v.free.len(),
    ensures
        alloc_with(v, max, size, align, None).1 is Ok,
        alloc_with(v, max, size, align, None).0.allocated - released_size(size) == v.allocated,
        merge_up(
            alloc_with(v, max, size, align, None).0.free,
            alloc_with(v, max, size, align, None).1->Ok_0,
            size_level(released_size(size)) as int,
        ) == (if first_free(v.free, size_level(required_size(size, align)) as int) + 1
            < v.free.len() {
            v.free
        } else {
            v.free.update(
                v.free.len() - 1,
                v.free[v.free.len() - 1].remove(0).push(v.free[v.free.len() - 1][0]),
            )
        }),
{
    crate::accounting::lemma_counted_alike(size, align);
    let req = required_size(size, align);
    let level = size_level(req) as int;
    crate::layout::lemma_next_pow2(larger(larger(size, align), MINIMUM_ALLOCATABLE_BYTES as int));
    lemma_size_level(max);
    lemma_size_level_grows(req, max);
    lemma_first_free(v.free, level);
    let found = first_free(v.free, level);
    lemma_merge_undoes_split(v, max, level, found);
}

} // verus!
