//! The fixed-size-block allocator: a ladder of power-of-two block classes,
//! each with its own list of ready blocks, over a free-list fallback heap
//! that serves oversized requests and replenishes empty classes.  Giving a
//! block back and asking for the same layout again is a constant-time
//! round trip that returns the very same block.

use vstd::prelude::*;
use vstd::arithmetic::div_mod::lemma_mod_self_0;
use crate::memory::allocator::{lemma_align_up_unique, Layout};
use crate::memory::allocator::linked_list::{
    lemma_mod_transitive, lemma_pow2_le_divides, spec_size_align, LinkedListAllocator,
};

verus! {

/// How many block classes the ladder has.
pub const BLOCK_CLASS_COUNT: usize = 9;

/// Bytes of a block-list link as it sits inside a free block: one machine
/// word on x86_64.  Every ladder size can hold one, which the smallest
/// class matches exactly.
pub const BLOCK_NODE_SIZE: usize = 8;

/// The ladder of block sizes; each is a power of two and doubles as the
/// block's alignment.
pub open spec fn spec_block_size(i: int) -> int {
    if i == 0 {
        8
    } else if i == 1 {
        16
    } else if i == 2 {
        32
    } else if i == 3 {
        64
    } else if i == 4 {
        128
    } else if i == 5 {
        256
    } else if i == 6 {
        512
    } else if i == 7 {
        1024
    } else {
        2048
    }
}

/// The ladder entry `i`, as the running code reads it.
pub fn block_size(i: usize) -> (r: usize)
    requires
        i < BLOCK_CLASS_COUNT,
    ensures
        r == spec_block_size(i as int),
        8 <= r <= 2048,
        r & ((r - 1) as usize) == 0,
{
    proof {
        assert(8usize & 7 == 0 && 16usize & 15 == 0 && 32usize & 31 == 0 && 64usize & 63 == 0
            && 128usize & 127 == 0 && 256usize & 255 == 0 && 512usize & 511 == 0 && 1024usize
            & 1023 == 0 && 2048usize & 2047 == 0) by (bit_vector);
    }
    if i == 0 {
        8
    } else if i == 1 {
        16
    } else if i == 2 {
        32
    } else if i == 3 {
        64
    } else if i == 4 {
        128
    } else if i == 5 {
        256
    } else if i == 6 {
        512
    } else if i == 7 {
        1024
    } else {
        2048
    }
}

/// The block class a request falls in: what the request really needs is
/// `max(size, align)` bytes, and the class is the first ladder rung at or
/// above that.  Requests beyond the ladder have no class and go to the
/// fallback heap.
pub open spec fn spec_required_size(layout: Layout) -> int {
    if layout.size >= layout.align {
        layout.size as int
    } else {
        layout.align as int
    }
}

/// The block class of `layout`: the first rung at or above
/// `max(size, align)`, or none beyond the ladder.
pub open spec fn spec_list_index(layout: Layout) -> Option<int> {
    let req = spec_required_size(layout);
    if req <= spec_block_size(0) {
        Some(0int)
    } else if req <= spec_block_size(1) {
        Some(1int)
    } else if req <= spec_block_size(2) {
        Some(2int)
    } else if req <= spec_block_size(3) {
        Some(3int)
    } else if req <= spec_block_size(4) {
        Some(4int)
    } else if req <= spec_block_size(5) {
        Some(5int)
    } else if req <= spec_block_size(6) {
        Some(6int)
    } else if req <= spec_block_size(7) {
        Some(7int)
    } else if req <= spec_block_size(8) {
        Some(8int)
    } else {
        None
    }
}

/// Choose the block class for `layout`: the first rung that holds
/// `max(size, align)`, or `None` beyond the ladder.
pub fn list_index(layout: &Layout) -> (r: Option<usize>)
    ensures
        match r {
            Some(i) => {
                &&& spec_list_index(*layout) == Some(i as int)
                &&& 0 <= i < BLOCK_CLASS_COUNT
                &&& spec_block_size(i as int) >= spec_required_size(*layout)
                &&& forall|j: int|
                    0 <= j < i ==> spec_block_size(j) < spec_required_size(*layout)
            },
            None => spec_list_index(*layout).is_none() && spec_required_size(*layout) > 2048,
        },
{
    let required_block_size = if layout.size >= layout.align {
        layout.size
    } else {
        layout.align
    };
    let mut i: usize = 0;
    while i < BLOCK_CLASS_COUNT
        invariant
            i <= BLOCK_CLASS_COUNT,
            required_block_size == spec_required_size(*layout),
            forall|j: int| 0 <= j < i ==> spec_block_size(j) < required_block_size,
        decreases BLOCK_CLASS_COUNT - i,
    {
        if block_size(i) >= required_block_size {
            return Some(i);
        }
        i = i + 1;
    }
    proof {
        assert(spec_block_size(8) == 2048);
    }
    None
}

pub struct FixedSizeBlockAllocator {
    /// For each block class, the addresses of the ready blocks; the most
    /// recently freed block sits at the end and leaves first.
    pub list_heads: Vec<Vec<usize>>,
    /// The free-list heap behind the ladder.
    pub fallback_allocator: LinkedListAllocator,
}

/// The state change of handing out the most recently freed block of class
/// `i`: that list shrinks by its last entry, nothing else moves.
pub open spec fn fsb_pops_block(
    pre: FixedSizeBlockAllocator,
    post: FixedSizeBlockAllocator,
    i: int,
    p: usize,
) -> bool {
    &&& pre.list_heads@[i]@.len() > 0
    &&& p == pre.list_heads@[i]@.last()
    &&& post.list_heads@.len() == pre.list_heads@.len()
    &&& post.list_heads@[i]@ == pre.list_heads@[i]@.drop_last()
    &&& forall|j: int|
        0 <= j < pre.list_heads@.len() && j != i ==> (#[trigger] post.list_heads@[j])@
            == pre.list_heads@[j]@
    &&& post.fallback_allocator.head@ == pre.fallback_allocator.head@
    &&& post.fallback_allocator.live@ == pre.fallback_allocator.live@
}

/// The state change of giving a block of class `i` back: it is appended to
/// that list, nothing else moves.
pub open spec fn fsb_pushes_block(
    pre: FixedSizeBlockAllocator,
    post: FixedSizeBlockAllocator,
    i: int,
    p: usize,
) -> bool {
    &&& post.list_heads@.len() == pre.list_heads@.len()
    &&& post.list_heads@[i]@ == pre.list_heads@[i]@.push(p)
    &&& forall|j: int|
        0 <= j < pre.list_heads@.len() && j != i ==> (#[trigger] post.list_heads@[j])@
            == pre.list_heads@[j]@
    &&& post.fallback_allocator.head@ == pre.fallback_allocator.head@
    &&& post.fallback_allocator.live@ == pre.fallback_allocator.live@
}

impl FixedSizeBlockAllocator {
    /// Every block parked in class `i` is aligned to — and thus also sized
    /// for — that class, and the fallback heap is well formed.
    pub open spec fn wf(self) -> bool {
        &&& self.list_heads@.len() == BLOCK_CLASS_COUNT
        &&& forall|i: int, k: int|
            0 <= i < BLOCK_CLASS_COUNT && 0 <= k < self.list_heads@[i]@.len() ==> {
                let a = #[trigger] self.list_heads@[i]@[k];
                &&& (a as int) % spec_block_size(i) == 0
                &&& a + spec_block_size(i) <= usize::MAX
            }
        &&& self.fallback_allocator.wf()
    }

    /// An empty allocator: every class list empty, no fallback memory.
    pub fn new() -> (r: FixedSizeBlockAllocator)
        ensures
            r.wf(),
            forall|i: int| 0 <= i < BLOCK_CLASS_COUNT ==> (#[trigger] r.list_heads@[i])@.len() == 0,
            r.fallback_allocator.head@.len() == 0,
            r.fallback_allocator.live@.len() == 0,
    {
        let mut lists: Vec<Vec<usize>> = Vec::new();
        let mut i: usize = 0;
        while i < BLOCK_CLASS_COUNT
            invariant
                i <= BLOCK_CLASS_COUNT,
                lists@.len() == i,
                forall|j: int| 0 <= j < i ==> (#[trigger] lists@[j])@.len() == 0,
            decreases BLOCK_CLASS_COUNT - i,
        {
            lists.push(Vec::new());
            i = i + 1;
        }
        FixedSizeBlockAllocator {
            list_heads: lists,
            fallback_allocator: LinkedListAllocator::new(),
        }
    }

    /// Hand the allocator the heap `[heap_start, heap_start + heap_size)`;
    /// it all goes to the fallback, and blocks migrate to the ladder as
    /// they are freed.
    pub fn init(&mut self, heap_start: usize, heap_size: usize)
        requires
            old(self).wf(),
            old(self).fallback_allocator.head@.len() == 0,
            old(self).fallback_allocator.live@.len() == 0,
            heap_start % 8 == 0,
            heap_size >= 16,
            heap_start + heap_size <= usize::MAX,
        ensures
            final(self).wf(),
            final(self).fallback_allocator.regions() =~= seq![
                (heap_start as int, heap_size as int),
            ],
            final(self).list_heads@ == old(self).list_heads@,
    {
        self.fallback_allocator.init(heap_start, heap_size);
    }

    /// Serve `layout` from the fallback heap.
    fn fallback_allocator(&mut self, layout: Layout) -> (r: Option<usize>)
        requires
            old(self).wf(),
            layout.valid(),
            layout.size <= usize::MAX / 2,
            layout.align <= usize::MAX / 2,
        ensures
            final(self).wf(),
            final(self).list_heads@ == old(self).list_heads@,
            match r {
                Some(p) => {
                    &&& (p as int) % (spec_size_align(layout).1) == 0
                    &&& (p as int) % (layout.align as int) == 0
                    &&& p + spec_size_align(layout).0 <= usize::MAX
                    &&& final(self).fallback_allocator.live@
                        == old(self).fallback_allocator.live@.push(
                        (p as int, spec_size_align(layout).0),
                    )
                },
                None => {
                    &&& final(self).fallback_allocator.head@ == old(
                        self,
                    ).fallback_allocator.head@
                    &&& final(self).fallback_allocator.live@ == old(
                        self,
                    ).fallback_allocator.live@
                },
            },
    {
        self.fallback_allocator.allocate(layout)
    }

    /// Serve `layout`.  A ladder request takes the most recently freed
    /// block of its class in constant time; an empty class is replenished
    /// with a fresh, naturally aligned block from the fallback; an
    /// off-ladder request goes to the fallback as it stands.
    pub fn allocate(&mut self, layout: Layout) -> (r: Option<usize>)
        requires
            old(self).wf(),
            layout.valid(),
            layout.size <= usize::MAX / 2,
            layout.align <= usize::MAX / 2,
        ensures
            final(self).wf(),
            match spec_list_index(layout) {
                Some(i) => {
                    if old(self).list_heads@[i]@.len() > 0 {
                        match r {
                            Some(p) => {
                                &&& fsb_pops_block(*old(self), *final(self), i, p)
                                &&& (p as int) % spec_block_size(i) == 0
                                &&& (p as int) % (layout.align as int) == 0
                            },
                            None => false,
                        }
                    } else {
                        let bl = (Layout {
                            size: spec_block_size(i) as usize,
                            align: spec_block_size(i) as usize,
                        });
                        match r {
                            Some(p) => {
                                &&& final(self).list_heads@ == old(self).list_heads@
                                &&& (p as int) % spec_block_size(i) == 0
                                &&& (p as int) % (layout.align as int) == 0
                                &&& p + spec_block_size(i) <= usize::MAX
                                &&& final(self).fallback_allocator.live@ == old(
                                    self,
                                ).fallback_allocator.live@.push((p as int, spec_size_align(bl).0))
                            },
                            None => {
                                &&& final(self).list_heads@ == old(self).list_heads@
                                &&& final(self).fallback_allocator.head@ == old(
                                    self,
                                ).fallback_allocator.head@
                                &&& final(self).fallback_allocator.live@ == old(
                                    self,
                                ).fallback_allocator.live@
                            },
                        }
                    }
                },
                None => {
                    &&& final(self).list_heads@ == old(self).list_heads@
                    &&& match r {
                        Some(p) => {
                            &&& (p as int) % (layout.align as int) == 0
                            &&& final(self).fallback_allocator.live@ == old(
                                self,
                            ).fallback_allocator.live@.push(
                                (p as int, spec_size_align(layout).0),
                            )
                        },
                        None => {
                            &&& final(self).fallback_allocator.head@ == old(
                                self,
                            ).fallback_allocator.head@
                            &&& final(self).fallback_allocator.live@ == old(
                                self,
                            ).fallback_allocator.live@
                        },
                    }
                },
            },
    {
        let ghost pre = *self;
        match list_index(&layout) {
            Some(index) => {
                let bs = block_size(index);
                let mut inner = self.list_heads.remove(index);
                if inner.len() > 0 {
                    let p = match inner.pop() {
                        Some(p) => p,
                        None => {
                            // unreachable: the list was just seen non-empty
                            return None;
                        },
                    };
                    self.list_heads.insert(index, inner);
                    proof {
                        assert(self.list_heads@ =~= pre.list_heads@.update(
                            index as int,
                            self.list_heads@[index as int],
                        ));
                        let k = pre.list_heads@[index as int]@.len() - 1;
                        assert((pre.list_heads@[index as int]@[k] as int) % spec_block_size(
                            index as int,
                        ) == 0);
                        lemma_pow2_le_divides(layout.align, bs);
                        lemma_mod_transitive(p as int, bs as int, layout.align as int);
                    }
                    Some(p)
                } else {
                    self.list_heads.insert(index, inner);
                    proof {
                        assert(self.list_heads@ =~= pre.list_heads@);
                    }
                    let block_layout = Layout::new(bs, bs);
                    let r = self.fallback_allocator(block_layout);
                    proof {
                        if let Some(p) = r {
                            assert((p as int) % (spec_size_align(block_layout).1) == 0);
                            lemma_mod_self_0(bs as int);
                            lemma_align_up_unique(bs as int, bs as int, bs as int);
                            assert(spec_size_align(block_layout).0 >= bs);
                            lemma_pow2_le_divides(layout.align, bs);
                            lemma_mod_transitive(p as int, bs as int, layout.align as int);
                        }
                    }
                    r
                }
            },
            None => self.fallback_allocator(layout),
        }
    }

    /// Take the block at `ptr`, granted for `layout`, back.  A ladder block
    /// is parked on its class list, ready to be handed out again; an
    /// off-ladder block returns to the fallback heap.
    pub fn dealloc(&mut self, ptr: usize, layout: Layout)
        requires
            old(self).wf(),
            layout.valid(),
            layout.size <= usize::MAX / 2,
            layout.align <= usize::MAX / 2,
            match spec_list_index(layout) {
                Some(i) => (ptr as int) % spec_block_size(i) == 0 && ptr + spec_block_size(i)
                    <= usize::MAX,
                None => ptr % 8 == 0 && exists|j: int|
                    0 <= j < old(self).fallback_allocator.live@.len() && old(
                        self,
                    ).fallback_allocator.live@[j] == (ptr as int, spec_size_align(layout).0),
            },
        ensures
            final(self).wf(),
            match spec_list_index(layout) {
                Some(i) => fsb_pushes_block(*old(self), *final(self), i, ptr),
                None => {
                    &&& final(self).list_heads@ == old(self).list_heads@
                    &&& final(self).fallback_allocator.regions() =~= seq![
                        (ptr as int, spec_size_align(layout).0),
                    ] + old(self).fallback_allocator.regions()
                },
            },
    {
        let ghost pre = *self;
        match list_index(&layout) {
            Some(index) => {
                proof {
                    // every ladder block can hold a free-list link
                    assert(BLOCK_NODE_SIZE as int <= spec_block_size(index as int));
                }
                let mut inner = self.list_heads.remove(index);
                inner.push(ptr);
                self.list_heads.insert(index, inner);
                proof {
                    assert(self.list_heads@ =~= pre.list_heads@.update(
                        index as int,
                        self.list_heads@[index as int],
                    ));
                }
            },
            None => {
                self.fallback_allocator.dealloc(ptr, layout);
            },
        }
    }
}

/// A block given back for a ladder layout and asked for again comes back
/// unchanged, in constant time, leaving the class list exactly as it was.
pub proof fn lemma_fsb_block_recycled(
    a: FixedSizeBlockAllocator,
    b: FixedSizeBlockAllocator,
    c: FixedSizeBlockAllocator,
    i: int,
    p: usize,
    q: usize,
)
    requires
        0 <= i < a.list_heads@.len(),
        fsb_pushes_block(a, b, i, p),
        fsb_pops_block(b, c, i, q),
    ensures
        q == p,
        c.list_heads@[i]@ =~= a.list_heads@[i]@,
        forall|j: int|
            0 <= j < a.list_heads@.len() && j != i ==> (#[trigger] c.list_heads@[j])@
                == a.list_heads@[j]@,
        c.fallback_allocator.head@ == a.fallback_allocator.head@,
        c.fallback_allocator.live@ == a.fallback_allocator.live@,
{
    assert(b.list_heads@[i]@.last() == p);
}

} // verus!
