//! The bump allocator: a cursor that only moves forward, with a live-count
//! that lets the whole heap be reclaimed once every allocation is returned.

use vstd::prelude::*;
use crate::memory::allocator::{align_up, spec_align_up, ranges_disjoint, Layout};

verus! {

pub struct BumpAllocator {
    pub heap_start: usize,
    pub heap_end: usize,
    pub next: usize,
    pub allocations: usize,
}

/// `live` abstracts the allocations handed out and not yet returned: the
/// count matches the allocator's, every block sits between the start of the
/// heap and the cursor, and no two blocks overlap.
pub open spec fn live_blocks_inv(b: BumpAllocator, live: Seq<(int, int)>) -> bool {
    &&& live.len() == b.allocations
    &&& forall|i: int|
        0 <= i < live.len() ==> {
            &&& (#[trigger] live[i]).1 >= 0
            &&& b.heap_start <= live[i].0
            &&& live[i].0 + live[i].1 <= b.next
        }
    &&& forall|i: int, j: int|
        0 <= i < live.len() && 0 <= j < live.len() && i != j ==> ranges_disjoint(
            #[trigger] live[i],
            #[trigger] live[j],
        )
}

/// The state change of a successful allocation returning address `p`.
pub open spec fn bump_alloc_some(pre: BumpAllocator, post: BumpAllocator, layout: Layout, p: usize) -> bool {
    &&& post.heap_start == pre.heap_start
    &&& post.heap_end == pre.heap_end
    &&& post.allocations == pre.allocations + 1
    &&& p == spec_align_up(pre.next as int, layout.align as int)
    &&& (p as int) % (layout.align as int) == 0
    &&& pre.next <= p
    &&& p + layout.size == post.next
    &&& post.next <= post.heap_end
}

/// The state change of a deallocation: only the live count, and — on full
/// quiescence — the cursor, move.
pub open spec fn bump_dealloc(pre: BumpAllocator, post: BumpAllocator) -> bool {
    &&& post.heap_start == pre.heap_start
    &&& post.heap_end == pre.heap_end
    &&& post.allocations == pre.allocations - 1
    &&& post.next == if post.allocations == 0 {
        pre.heap_start
    } else {
        pre.next
    }
}

impl BumpAllocator {
    pub open spec fn wf(self) -> bool {
        self.heap_start <= self.next <= self.heap_end
    }

    /// An empty allocator; it must be given a heap with `init` before use.
    pub fn new() -> (r: BumpAllocator)
        ensures
            r.heap_start == 0,
            r.heap_end == 0,
            r.next == 0,
            r.allocations == 0,
            r.wf(),
    {
        BumpAllocator { heap_start: 0, heap_end: 0, next: 0, allocations: 0 }
    }

    /// Point the allocator at the heap `[heap_start, heap_start + heap_size)`.
    pub fn init(&mut self, heap_start: usize, heap_size: usize)
        requires
            heap_start + heap_size <= usize::MAX,
        ensures
            final(self).heap_start == heap_start,
            final(self).heap_end == heap_start + heap_size,
            final(self).next == heap_start,
            final(self).allocations == old(self).allocations,
            final(self).wf(),
    {
        self.heap_start = heap_start;
        self.heap_end = heap_start + heap_size;
        self.next = heap_start;
    }

    /// Round the cursor up to the requested alignment, reserve `layout.size`
    /// bytes there, and advance.  Refused exactly when the aligned block
    /// would reach past the end of the heap.
    pub fn allocate(&mut self, layout: Layout) -> (r: Option<usize>)
        requires
            old(self).wf(),
            layout.valid(),
            old(self).next + layout.align <= usize::MAX,
            old(self).allocations < usize::MAX,
        ensures
            final(self).wf(),
            match r {
                Some(p) => bump_alloc_some(*old(self), *final(self), layout, p),
                None => {
                    &&& *final(self) == *old(self)
                    &&& spec_align_up(old(self).next as int, layout.align as int) + layout.size
                        > old(self).heap_end
                },
            },
    {
        let alloc_start = align_up(self.next, layout.align);
        let alloc_end = match alloc_start.checked_add(layout.size) {
            Some(end) => end,
            None => {
                return None;
            },
        };

        if alloc_end > self.heap_end {
            return None;
        }

        self.next = alloc_end;
        self.allocations = self.allocations + 1;
        Some(alloc_start)
    }

    /// Drop the live count; once it reaches zero nothing is outstanding and
    /// the cursor rewinds to the start of the heap.
    pub fn dealloc(&mut self, _ptr: usize, _layout: Layout)
        requires
            old(self).wf(),
            old(self).allocations >= 1,
        ensures
            final(self).wf(),
            bump_dealloc(*old(self), *final(self)),
    {
        self.allocations = self.allocations - 1;
        if self.allocations == 0 {
            self.next = self.heap_start;
        }
    }
}

/// Every address a successful allocation returns is aligned to the request,
/// and the new block is disjoint from every block still live: the cursor
/// never moves back over memory that is spoken for.
pub proof fn lemma_bump_alloc_fresh(
    pre: BumpAllocator,
    post: BumpAllocator,
    live: Seq<(int, int)>,
    layout: Layout,
    p: usize,
)
    requires
        pre.wf(),
        live_blocks_inv(pre, live),
        bump_alloc_some(pre, post, layout, p),
    ensures
        forall|i: int|
            0 <= i < live.len() ==> ranges_disjoint(#[trigger] live[i], (p as int, layout.size as int)),
        live_blocks_inv(post, live.push((p as int, layout.size as int))),
{
    let nb = (p as int, layout.size as int);
    let live2 = live.push(nb);
    assert forall|i: int| 0 <= i < live.len() implies ranges_disjoint(#[trigger] live[i], nb) by {
        assert(live[i].0 + live[i].1 <= pre.next <= p);
    }
    assert forall|i: int, j: int|
        0 <= i < live2.len() && 0 <= j < live2.len() && i != j implies ranges_disjoint(
        #[trigger] live2[i],
        #[trigger] live2[j],
    ) by {
        if i < live.len() && j < live.len() {
            assert(ranges_disjoint(live[i], live[j]));
        } else if i < live.len() {
            assert(live2[j] == nb);
            assert(ranges_disjoint(live[i], nb));
        } else {
            assert(live2[i] == nb);
            assert(ranges_disjoint(live[j], nb));
        }
    }
}

/// Deallocation keeps the live-block abstraction: whichever block is given
/// back, the remaining blocks still sit below the cursor, and a reset only
/// happens when nothing is live at all.
pub proof fn lemma_bump_dealloc_preserves(
    pre: BumpAllocator,
    post: BumpAllocator,
    live: Seq<(int, int)>,
    j: int,
)
    requires
        live_blocks_inv(pre, live),
        bump_dealloc(pre, post),
        0 <= j < live.len(),
    ensures
        live_blocks_inv(post, live.remove(j)),
{
    let live2 = live.remove(j);
    assert(live2.len() == live.len() - 1);
    assert forall|i: int| 0 <= i < live2.len() implies {
        &&& (#[trigger] live2[i]).1 >= 0
        &&& post.heap_start <= live2[i].0
        &&& live2[i].0 + live2[i].1 <= post.next
    } by {
        if i < j {
            assert(live2[i] == live[i]);
        } else {
            assert(live2[i] == live[i + 1]);
        }
    }
    assert forall|i: int, k: int|
        0 <= i < live2.len() && 0 <= k < live2.len() && i != k implies ranges_disjoint(
        #[trigger] live2[i],
        #[trigger] live2[k],
    ) by {
        let i0 = if i < j { i } else { i + 1 };
        let k0 = if k < j { k } else { k + 1 };
        assert(live2[i] == live[i0]);
        assert(live2[k] == live[k0]);
        assert(ranges_disjoint(live[i0], live[k0]));
    }
}

/// Once as many deallocations as allocations have happened, the cursor is
/// back at the start of the heap, so the next allocation is granted the
/// start of the heap aligned up to its request.
pub proof fn lemma_bump_quiescent_alloc(
    pre: BumpAllocator,
    mid: BumpAllocator,
    post: BumpAllocator,
    layout: Layout,
    p: usize,
)
    requires
        pre.allocations == 1,
        bump_dealloc(pre, mid),
        bump_alloc_some(mid, post, layout, p),
    ensures
        p == spec_align_up(pre.heap_start as int, layout.align as int),
{
    assert(mid.next == pre.heap_start);
}

} // verus!
