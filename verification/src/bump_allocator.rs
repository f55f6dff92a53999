//! An allocator that hands out the bytes of one heap from the bottom up and
//! never takes any back.
use vstd::prelude::*;
use crate::layout::next_multiple_of;
use crate::layout::round_up;
use crate::layout::Layout;

verus! {

/// The allocator: its heap and the number of bytes that are used.
pub struct BumpAllocator {
    heap_start: usize,
    heap_size: usize,
    next: usize,
}

impl BumpAllocator {
    /// The address of the first byte of the heap.
    pub closed spec fn start(&self) -> int {
        self.heap_start as int
    }

    /// The number of bytes of the heap.
    pub closed spec fn size(&self) -> int {
        self.heap_size as int
    }

    /// The number of bytes from the bottom of the heap that are used.
    pub closed spec fn used(&self) -> int {
        self.next as int
    }

    /// The invariant of the allocator: what is used lies within the heap,
    /// and the heap within the address space.
    pub open spec fn wf(&self) -> bool {
        self.used() <= self.size() && self.start() + self.size() <= usize::MAX
    }

    /// The address that answers a request for `size` bytes aligned to
    /// `align`, if the heap has room for them above what is used.
    pub open spec fn placed(&self, size: int, align: int) -> Option<int> {
        let place = round_up(self.start() + self.used(), align);
        if place + size <= self.start() + self.size() {
            Some(place)
        } else {
            None
        }
    }

    /// An allocator for the `heap_size` bytes at `heap_start`, none of them used.
    pub fn new(heap_start: usize, heap_size: usize) -> (r: Self)
        requires
            heap_start + heap_size <= usize::MAX,
        ensures
            r.wf(),
            r.start() == heap_start,
            r.size() == heap_size,
            r.used() == 0,
    {
        Self { heap_start, heap_size, next: 0 }
    }

    /// Hands out the lowest block above what is used that has the size and
    /// the alignment of `layout`, or `None` where the heap has no room for it.
    pub fn allocate(&mut self, layout: Layout) -> (r: Option<usize>)
        requires
            old(self).wf(),
            layout.wf(),
        ensures
            final(self).wf(),
            final(self).start() == old(self).start(),
            final(self).size() == old(self).size(),
            match r {
                Some(a) => old(self).placed(layout.spec_size(), layout.spec_align()) == Some(
                    a as int,
                ) && final(self).used() == a + layout.spec_size() - old(self).start() && a
                    % layout.align_value() == 0,
                None => old(self).placed(layout.spec_size(), layout.spec_align()) is None && final(self).used() == old(self).used(),
            },
    {
        proof {
            crate::layout::lemma_pow2_pos(layout.spec_align());
            crate::layout::lemma_round_up(self.start() + self.used(), layout.spec_align());
        }
        let heap_end = self.heap_start + self.heap_size;
        let current_addr = self.heap_start + self.next;
        let aligned_addr = match next_multiple_of(current_addr, layout.align()) {
            Some(a) => a,
            None => {
                return None;
            },
        };
        if aligned_addr > heap_end || layout.size() > heap_end - aligned_addr {
            return None;
        }
        self.next = aligned_addr + layout.size() - self.heap_start;
        Some(aligned_addr)
    }

    /// Takes back a block: the allocator keeps no record of it, and nothing changes.
    pub fn deallocate(&mut self, ptr: usize, layout: Layout)
        ensures
            final(self).start() == old(self).start(),
            final(self).size() == old(self).size(),
            final(self).used() == old(self).used(),
    {
    }
}

} // verus!
