//! The first element of a sequence that passes a test.
use vstd::prelude::*;

verus! {

/// The position of the first element for which `f` holds, or the length of
/// the list where it holds for none.
pub open spec fn first_where<T>(s: Seq<T>, f: spec_fn(T) -> bool) -> int
    decreases s.len(),
{
    if s.len() == 0 {
        0
    } else if f(s[0]) {
        0
    } else {
        1 + first_where(s.skip(1), f)
    }
}

/// A position before which `f` holds nowhere, and at which it holds unless
/// it is the end of the list, is the first at which `f` holds.
pub proof fn lemma_first_where<T>(s: Seq<T>, f: spec_fn(T) -> bool, k: int)
    requires
        0 <= k <= s.len(),
        forall|i: int| 0 <= i < k ==> !f(#[trigger] s[i]),
        k < s.len() ==> f(s[k]),
    ensures
        first_where(s, f) == k,
    decreases s.len(),
{
    if s.len() == 0 {
    } else if k == 0 {
    } else {
        let t = s.skip(1);
        assert(!f(s[0]));
        assert forall|i: int| 0 <= i < k - 1 implies !f(#[trigger] t[i]) by {
            assert(t[i] == s[i + 1]);
        }
        if k < s.len() {
            assert(t[k - 1] == s[k]);
        }
        lemma_first_where(t, f, k - 1);
    }
}

/// The first position at which `f` holds lies within the list or at its
/// end; `f` holds there unless it is the end, and nowhere before it.
pub proof fn lemma_first_where_is_first<T>(s: Seq<T>, f: spec_fn(T) -> bool)
    ensures
        0 <= first_where(s, f) <= s.len(),
        forall|i: int| 0 <= i < first_where(s, f) ==> !f(#[trigger] s[i]),
        first_where(s, f) < s.len() ==> f(s[first_where(s, f)]),
    decreases s.len(),
{
    if s.len() == 0 {
    } else if f(s[0]) {
    } else {
        let t = s.skip(1);
        lemma_first_where_is_first(t, f);
        let k = first_where(t, f);
        assert forall|i: int| 0 <= i < k + 1 implies !f(#[trigger] s[i]) by {
            if i > 0 {
                assert(t[i - 1] == s[i]);
            }
        }
        if k < t.len() {
            assert(t[k] == s[k + 1]);
        }
    }
}

} // verus!
