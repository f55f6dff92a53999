//! The list of the free blocks of one size. In memory each free block holds
//! the address of the next one in its first word; here the list is the
//! sequence of those addresses, first block first.
use vstd::prelude::*;
use crate::search::first_where;
use crate::search::lemma_first_where;
use crate::search::lemma_first_where_is_first;

verus! {

/// The test that a block lies at `ptr`.
pub open spec fn is_at(ptr: usize) -> spec_fn(usize) -> bool {
    |a: usize| a == ptr
}

/// The test that a block lies above `ptr`.
pub open spec fn is_above(ptr: usize) -> spec_fn(usize) -> bool {
    |a: usize| a > ptr
}

/// The list without the first block at `ptr`, if there is one.
pub open spec fn without(s: Seq<usize>, ptr: usize) -> Seq<usize> {
    let i = first_where(s, is_at(ptr));
    if i < s.len() {
        s.remove(i)
    } else {
        s
    }
}

/// The list with `ptr` put in before the first block above it.
pub open spec fn with_sorted(s: Seq<usize>, ptr: usize) -> Seq<usize> {
    s.insert(first_where(s, is_above(ptr)), ptr)
}

/// The addresses are in ascending order.
pub open spec fn ascending(s: Seq<usize>) -> bool {
    forall|i: int, j: int| 0 <= i < j < s.len() ==> s[i] <= s[j]
}

/// A list of free blocks.
#[derive(Debug)]
pub struct IntrusiveLinkedList {
    nodes: Vec<usize>,
}

impl View for IntrusiveLinkedList {
    type V = Seq<usize>;

    closed spec fn view(&self) -> Seq<usize> {
        self.nodes@
    }
}

impl IntrusiveLinkedList {
    /// The empty list.
    pub fn new() -> (r: Self)
        ensures
            r@ == Seq::<usize>::empty(),
    {
        Self { nodes: Vec::new() }
    }

    /// Whether the list holds no block.
    pub fn is_none(&self) -> (r: bool)
        ensures
            r == (self@.len() == 0),
    {
        self.nodes.len() == 0
    }

    /// Puts the block at `ptr` at the front.
    pub fn push(&mut self, ptr: usize)
        ensures
            final(self)@ == old(self)@.insert(0, ptr),
    {
        self.nodes.insert(0, ptr);
    }

    /// Puts the block at `ptr` at the back.
    pub fn push_back(&mut self, ptr: usize)
        ensures
            final(self)@ == old(self)@.push(ptr),
    {
        self.nodes.push(ptr);
    }

    /// Takes the block at the front, if there is one.
    pub fn pop(&mut self) -> (r: Option<usize>)
        ensures
            old(self)@.len() == 0 ==> r is None && final(self)@ == old(self)@,
            old(self)@.len() > 0 ==> r == Some(old(self)@[0]) && final(self)@ == old(self)@.remove(
                0,
            ),
    {
        if self.nodes.len() == 0 {
            None
        } else {
            Some(self.nodes.remove(0))
        }
    }

    /// Takes the first block at `ptr` out of the list, and says whether there was one.
    pub fn remove_if(&mut self, ptr: usize) -> (r: bool)
        ensures
            r == old(self)@.contains(ptr),
            final(self)@ == without(old(self)@, ptr),
    {
        let mut i: usize = 0;
        while i < self.nodes.len()
            invariant
                i <= self.nodes.len(),
                self.nodes@ == old(self).nodes@,
                forall|j: int| 0 <= j < i ==> !is_at(ptr)(#[trigger] self.nodes@[j]),
            decreases self.nodes.len() - i,
        {
            if self.nodes[i] == ptr {
                proof {
                    lemma_first_where(self.nodes@, is_at(ptr), i as int);
                    assert(self.nodes@[i as int] == ptr);
                }
                self.nodes.remove(i);
                return true;
            }
            i += 1;
        }
        proof {
            lemma_first_where(self.nodes@, is_at(ptr), i as int);
            if self.nodes@.contains(ptr) {
                let j = choose|j: int| 0 <= j < self.nodes@.len() && self.nodes@[j] == ptr;
                assert(!is_at(ptr)(self.nodes@[j]));
            }
        }
        false
    }

    /// Puts the block at `ptr` in before the first block that lies above it.
    pub fn add_with_sort(&mut self, ptr: usize)
        ensures
            final(self)@ == with_sorted(old(self)@, ptr),
    {
        let mut i: usize = 0;
        while i < self.nodes.len() && self.nodes[i] <= ptr
            invariant
                i <= self.nodes.len(),
                self.nodes@ == old(self).nodes@,
                forall|j: int| 0 <= j < i ==> !is_above(ptr)(#[trigger] self.nodes@[j]),
            decreases self.nodes.len() - i,
        {
            i += 1;
        }
        proof {
            lemma_first_where(self.nodes@, is_above(ptr), i as int);
        }
        self.nodes.insert(i, ptr);
    }

    /// The number of blocks in the list.
    pub fn size(&self) -> (r: usize)
        ensures
            r == self@.len(),
    {
        self.nodes.len()
    }

    /// The address of the block at position `i`, counted from the front.
    pub fn get(&self, i: usize) -> (r: usize)
        requires
            i < self@.len(),
        ensures
            r == self@[i as int],
    {
        self.nodes[i]
    }

    /// Tests whether the addresses are in ascending order.
    pub fn is_ascending(&self) -> (r: bool)
        ensures
            r == ascending(self@),
    {
        let mut i: usize = 1;
        while i < self.nodes.len()
            invariant
                1 <= i,
                forall|k: int| 0 <= k < i - 1 && k < self.nodes@.len() - 1 ==> self.nodes@[k]
                    <= #[trigger] self.nodes@[k + 1],
            decreases self.nodes.len() - i,
        {
            if self.nodes[i - 1] > self.nodes[i] {
                return false;
            }
            i += 1;
        }
        proof {
            assert forall|a: int, b: int| 0 <= a < b < self.nodes@.len() implies self.nodes@[a]
                <= self.nodes@[b] by {
                lemma_ascending_steps(self.nodes@, a, b);
            }
        }
        true
    }

    /// The address of the block at the front, if there is one.
    pub fn get_next(&self) -> (r: Option<usize>)
        ensures
            self@.len() == 0 ==> r is None,
            self@.len() > 0 ==> r == Some(self@[0]),
    {
        if self.nodes.len() == 0 {
            None
        } else {
            Some(self.nodes[0])
        }
    }
}

/// A list in which no address is above the next one is in ascending order.
pub proof fn lemma_ascending_steps(s: Seq<usize>, i: int, j: int)
    requires
        forall|k: int| 0 <= k < s.len() - 1 ==> s[k] <= #[trigger] s[k + 1],
        0 <= i <= j < s.len(),
    ensures
        s[i] <= s[j],
    decreases j - i,
{
    if i < j {
        lemma_ascending_steps(s, i, j - 1);
        assert(s[j - 1] <= s[j - 1 + 1]);
    }
}

/// Putting a block in order into an ascending list keeps the list ascending.
pub proof fn lemma_with_sorted_ascending(s: Seq<usize>, ptr: usize)
    requires
        ascending(s),
    ensures
        ascending(with_sorted(s, ptr)),
{
    lemma_first_where_is_first(s, is_above(ptr));
    let k = first_where(s, is_above(ptr));
    let r = with_sorted(s, ptr);
    assert forall|i: int, j: int| 0 <= i < j < r.len() implies r[i] <= r[j] by {
        if i < k {
            assert(!is_above(ptr)(s[i]));
        }
        if j > k {
            assert(s[k] <= s[j - 1]);
            assert(is_above(ptr)(s[k]));
        }
    }
}

/// Taking a block out of an ascending list keeps the list ascending, and
/// every block of the new list is one of the old list.
pub proof fn lemma_without(s: Seq<usize>, ptr: usize)
    ensures
        ascending(s) ==> ascending(without(s, ptr)),
        forall|i: int|
            0 <= i < without(s, ptr).len() ==> s.contains(#[trigger] without(s, ptr)[i]),
        s.contains(ptr) ==> without(s, ptr).len() == s.len() - 1,
        !s.contains(ptr) ==> without(s, ptr) == s,
{
    lemma_first_where_is_first(s, is_at(ptr));
    let k = first_where(s, is_at(ptr));
    let r = without(s, ptr);
    if k < s.len() {
        assert(is_at(ptr)(s[k]));
        assert(s[k] == ptr);
    } else {
        if s.contains(ptr) {
            let j = choose|j: int| 0 <= j < s.len() && s[j] == ptr;
            assert(!is_at(ptr)(s[j]));
        }
    }
    assert forall|i: int| 0 <= i < r.len() implies s.contains(#[trigger] r[i]) by {
        if k < s.len() && i >= k {
            assert(r[i] == s[i + 1]);
        } else {
            assert(r[i] == s[i]);
        }
    }
    if ascending(s) {
        assert forall|i: int, j: int| 0 <= i < j < r.len() implies r[i] <= r[j] by {
            let si = if k < s.len() && i >= k {
                i + 1
            } else {
                i
            };
            let sj = if k < s.len() && j >= k {
                j + 1
            } else {
                j
            };
            assert(s[si] <= s[sj]);
        }
    }
}

} // verus!
