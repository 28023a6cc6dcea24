//! The free-list allocator: a list of free regions, scanned first-fit.  A
//! freed block is pushed at the head; a granted block is carved out of the
//! first region it fits in, the trailing rest staying on the list.  The
//! allocator never hands out bytes that overlap a block still in use.

use vstd::prelude::*;
use vstd::arithmetic::div_mod::{
    lemma_add_mod_noop, lemma_fundamental_div_mod, lemma_mod_multiples_basic, lemma_small_mod,
};
use vstd::arithmetic::mul::{lemma_mul_is_associative, lemma_mul_is_commutative};
use crate::memory::allocator::{
    align_up, all_ranges_disjoint, lemma_align_up_props, lemma_align_up_unique, ranges_disjoint,
    spec_align_up, Layout,
};

verus! {

/// Bytes of a free-region header as it sits in heap memory: the region size
/// and the link to the next region, one machine word each on x86_64.
pub const NODE_SIZE: usize = 16;

/// Alignment of a free-region header: that of a machine word on x86_64.
pub const NODE_ALIGN: usize = 8;

/// One free region: `size` bytes starting at address `start`.
#[derive(Debug, Clone, Copy, PartialEq, Eq, Structural)]
pub struct ListNode {
    pub size: usize,
    pub start: usize,
}

impl ListNode {
    pub fn new(size: usize) -> (r: ListNode)
        ensures
            r.size == size,
            r.start == 0,
    {
        ListNode { size, start: 0 }
    }

    pub fn start_address(&self) -> (r: usize)
        ensures
            r == self.start,
    {
        self.start
    }

    pub fn end_address(&self) -> (r: usize)
        requires
            self.start + self.size <= usize::MAX,
        ensures
            r == self.start + self.size,
    {
        self.start + self.size
    }

    /// The byte range the region covers, as (start, length).
    pub open spec fn range(self) -> (int, int) {
        (self.start as int, self.size as int)
    }
}

/// The effective request the free list serves: the alignment is raised to
/// the header's, the size padded to that alignment and to at least one
/// header, so that every carved block can later hold a header again.
pub open spec fn spec_size_align(layout: Layout) -> (int, int) {
    let al = if layout.align >= NODE_ALIGN {
        layout.align as int
    } else {
        NODE_ALIGN as int
    };
    let padded = spec_align_up(layout.size as int, al);
    let sz = if padded >= NODE_SIZE {
        padded
    } else {
        NODE_SIZE as int
    };
    (sz, al)
}

/// A region can serve a request of `size` bytes at alignment `align`: the
/// aligned block fits, and what trails it is either nothing or enough for a
/// fresh header.
pub open spec fn region_suitable(r: (int, int), size: int, align: int) -> bool {
    let s = spec_align_up(r.0, align);
    &&& r.0 + align <= usize::MAX
    &&& s + size <= r.0 + r.1
    &&& (r.0 + r.1 - (s + size) == 0 || r.0 + r.1 - (s + size) >= NODE_SIZE)
}

/// The free list after a successful grant of `size` bytes at `align`:
/// the first region that can serve the request leaves the list, the block
/// starts at that region's aligned start, and the region's tail beyond
/// the block — when there is one — returns to the head as a new free
/// region.  No byte is both free and granted.
pub open spec fn alloc_carves_first_fit(
    pre: LinkedListAllocator,
    post: LinkedListAllocator,
    size: int,
    align: int,
    p: usize,
) -> bool {
    exists|i: int|
        {
            &&& 0 <= i < pre.regions().len()
            &&& region_suitable(#[trigger] pre.regions()[i], size, align)
            &&& (forall|j: int|
                0 <= j < i ==> !region_suitable(#[trigger] pre.regions()[j], size, align))
            &&& p == spec_align_up(pre.regions()[i].0, align)
            &&& pre.regions()[i].0 <= p
            &&& p + size <= pre.regions()[i].0 + pre.regions()[i].1
            &&& post.regions() == (if pre.regions()[i].0 + pre.regions()[i].1 - (p + size) > 0 {
                seq![
                    ((p + size) as int, pre.regions()[i].0 + pre.regions()[i].1 - (p + size)),
                ] + pre.regions().remove(i)
            } else {
                pre.regions().remove(i)
            })
        }
}

pub struct LinkedListAllocator {
    /// The free regions, most recently freed first.
    pub head: Vec<ListNode>,
    /// The blocks handed out and not yet returned, as (start, length).
    pub live: Ghost<Seq<(int, int)>>,
}

impl LinkedListAllocator {
    /// The free regions as plain ranges.
    pub open spec fn regions(self) -> Seq<(int, int)> {
        self.head@.map_values(|n: ListNode| n.range())
    }

    /// Free regions are header-aligned, large enough for a header, inside
    /// the address space, and — together with every live block — pairwise
    /// disjoint.
    pub open spec fn wf(self) -> bool {
        &&& forall|i: int|
            0 <= i < self.regions().len() ==> {
                let r = #[trigger] self.regions()[i];
                &&& r.1 >= NODE_SIZE
                &&& r.0 % (NODE_ALIGN as int) == 0
                &&& r.0 + r.1 <= usize::MAX
            }
        &&& forall|i: int|
            0 <= i < self.live@.len() ==> {
                let b = #[trigger] self.live@[i];
                &&& b.1 >= 0
                &&& b.0 >= 0
                &&& b.0 + b.1 <= usize::MAX
            }
        &&& all_ranges_disjoint(self.regions() + self.live@)
    }

    /// An empty allocator: no free memory, nothing live.
    pub fn new() -> (r: LinkedListAllocator)
        ensures
            r.head@.len() == 0,
            r.live@.len() == 0,
            r.wf(),
    {
        let r = LinkedListAllocator { head: Vec::new(), live: Ghost(Seq::empty()) };
        proof {
            assert(r.regions() =~= Seq::<(int, int)>::empty());
        }
        r
    }

    /// Hand the allocator the heap `[heap_start, heap_start + heap_size)`.
    pub fn init(&mut self, heap_start: usize, heap_size: usize)
        requires
            old(self).head@.len() == 0,
            old(self).live@.len() == 0,
            heap_start % NODE_ALIGN == 0,
            heap_size >= NODE_SIZE,
            heap_start + heap_size <= usize::MAX,
        ensures
            final(self).regions() =~= seq![(heap_start as int, heap_size as int)],
            final(self).live@ == old(self).live@,
            final(self).wf(),
    {
        proof {
            assert(old(self).regions() =~= Seq::<(int, int)>::empty());
        }
        self.add_free_region(heap_start, heap_size);
    }

    /// Push `[address, address + size)` onto the head of the free list.
    /// The range must be free memory: disjoint from every free region and
    /// from every live block.
    fn add_free_region(&mut self, address: usize, size: usize)
        requires
            old(self).wf(),
            address % NODE_ALIGN == 0,
            size >= NODE_SIZE,
            address + size <= usize::MAX,
            forall|i: int|
                0 <= i < old(self).regions().len() ==> ranges_disjoint(
                    #[trigger] old(self).regions()[i],
                    (address as int, size as int),
                ),
            forall|i: int|
                0 <= i < old(self).live@.len() ==> ranges_disjoint(
                    #[trigger] old(self).live@[i],
                    (address as int, size as int),
                ),
        ensures
            final(self).regions() =~= seq![(address as int, size as int)] + old(self).regions(),
            final(self).live@ == old(self).live@,
            final(self).wf(),
    {
        let node = ListNode { size, start: address };
        self.head.insert(0, node);
        proof {
            assert(self.regions() =~= seq![(address as int, size as int)] + old(self).regions());
            let all = self.regions() + self.live@;
            let all0 = old(self).regions() + old(self).live@;
            assert forall|i: int, j: int|
                0 <= i < all.len() && 0 <= j < all.len() && i != j implies ranges_disjoint(
                #[trigger] all[i],
                #[trigger] all[j],
            ) by {
                let nb = (address as int, size as int);
                if i == 0 {
                    if j <= old(self).regions().len() {
                        assert(all[j] == old(self).regions()[j - 1]);
                    } else {
                        assert(all[j] == old(self).live@[j - 1 - old(self).regions().len()]);
                    }
                } else if j == 0 {
                    if i <= old(self).regions().len() {
                        assert(all[i] == old(self).regions()[i - 1]);
                    } else {
                        assert(all[i] == old(self).live@[i - 1 - old(self).regions().len()]);
                    }
                } else {
                    assert(all[i] == all0[i - 1]);
                    assert(all[j] == all0[j - 1]);
                    assert(ranges_disjoint(all0[i - 1], all0[j - 1]));
                }
            }
        }
    }

    /// Whether an aligned block of `size` bytes fits in `region`, and where
    /// it would start.
    pub fn alloc_from_region(region: &ListNode, size: usize, align: usize) -> (r: Result<
        usize,
        (),
    >)
        requires
            align >= 1,
            align & ((align - 1) as usize) == 0,
            region.start + region.size <= usize::MAX,
        ensures
            match r {
                Ok(s) => region_suitable(region.range(), size as int, align as int) && s
                    == spec_align_up(region.start as int, align as int),
                Err(()) => !region_suitable(region.range(), size as int, align as int),
            },
    {
        if align > usize::MAX - region.start {
            return Err(());
        }
        let alloc_start = align_up(region.start, align);
        let alloc_end = match alloc_start.checked_add(size) {
            Some(end) => end,
            None => {
                return Err(());
            },
        };

        if alloc_end > region.end_address() {
            return Err(());
        }

        let excess_size = region.end_address() - alloc_end;
        if excess_size > 0 && excess_size < NODE_SIZE {
            return Err(());
        }

        Ok(alloc_start)
    }

    /// Scan the free list from the head for the first region that can serve
    /// the request; remove it from the list and report where the block will
    /// start.
    pub fn find_region(&mut self, size: usize, align: usize) -> (r: Option<(ListNode, usize)>)
        requires
            old(self).wf(),
            align >= 1,
            align & ((align - 1) as usize) == 0,
        ensures
            final(self).live@ == old(self).live@,
            final(self).wf(),
            match r {
                Some((node, start)) => exists|i: int|
                    {
                        &&& 0 <= i < old(self).head@.len()
                        &&& node == old(self).head@[i]
                        &&& region_suitable(node.range(), size as int, align as int)
                        &&& (forall|j: int|
                            0 <= j < i ==> !region_suitable(
                                (#[trigger] old(self).head@[j]).range(),
                                size as int,
                                align as int,
                            ))
                        &&& final(self).head@ =~= old(self).head@.remove(i)
                        &&& start == spec_align_up(node.start as int, align as int)
                    },
                None => {
                    &&& final(self).head@ == old(self).head@
                    &&& (forall|j: int|
                        0 <= j < old(self).head@.len() ==> !region_suitable(
                            (#[trigger] old(self).head@[j]).range(),
                            size as int,
                            align as int,
                        ))
                },
            },
    {
        let mut i: usize = 0;
        while i < self.head.len()
            invariant
                *self == *old(self),
                old(self).wf(),
                align >= 1,
                align & ((align - 1) as usize) == 0,
                i <= self.head.len(),
                forall|j: int|
                    0 <= j < i ==> !region_suitable(
                        (#[trigger] self.head@[j]).range(),
                        size as int,
                        align as int,
                    ),
            decreases self.head.len() - i,
        {
            let node = self.head[i];
            proof {
                assert(self.regions()[i as int] == node.range());
            }
            match Self::alloc_from_region(&node, size, align) {
                Ok(alloc_start) => {
                    let ghost pre = *self;
                    let removed = self.head.remove(i);
                    proof {
                        lemma_remove_region_wf(pre, *self, i as int);
                    }
                    return Some((removed, alloc_start));
                },
                Err(()) => {},
            }
            i = i + 1;
        }
        None
    }

    /// The effective (size, alignment) served for `layout`; see
    /// [`spec_size_align`].
    pub fn size_align(layout: Layout) -> (r: (usize, usize))
        requires
            layout.valid(),
            layout.size <= usize::MAX / 2,
            layout.align <= usize::MAX / 2,
        ensures
            r.0 == spec_size_align(layout).0,
            r.1 == spec_size_align(layout).1,
            r.1 >= NODE_ALIGN,
            r.1 & ((r.1 - 1) as usize) == 0,
            r.0 >= NODE_SIZE,
            (r.0 as int) % (NODE_ALIGN as int) == 0,
            (r.1 as int) % (NODE_ALIGN as int) == 0,
    {
        let align = if layout.align >= NODE_ALIGN {
            layout.align
        } else {
            proof {
                assert(8usize & 7usize == 0) by (bit_vector);
            }
            NODE_ALIGN
        };
        let padded = align_up(layout.size, align);
        let size = if padded >= NODE_SIZE {
            padded
        } else {
            NODE_SIZE
        };
        proof {
            assert(8usize & 7usize == 0) by (bit_vector);
            lemma_pow2_le_divides(NODE_ALIGN, align);
            if padded >= NODE_SIZE {
                lemma_mod_transitive(padded as int, align as int, NODE_ALIGN as int);
            } else {
                assert(16int % 8int == 0);
            }
        }
        (size, align)
    }

    /// Serve `layout` from the first region that fits: the aligned block is
    /// carved out, any trailing rest goes back on the list, and the block
    /// becomes live.  `None` exactly when no region can serve the request.
    pub fn allocate(&mut self, layout: Layout) -> (r: Option<usize>)
        requires
            old(self).wf(),
            layout.valid(),
            layout.size <= usize::MAX / 2,
            layout.align <= usize::MAX / 2,
        ensures
            final(self).wf(),
            match r {
                Some(p) => {
                    &&& (p as int) % (spec_size_align(layout).1) == 0
                    &&& (p as int) % (layout.align as int) == 0
                    &&& p + spec_size_align(layout).0 <= usize::MAX
                    &&& final(self).live@ == old(self).live@.push(
                        (p as int, spec_size_align(layout).0),
                    )
                    &&& alloc_carves_first_fit(
                        *old(self),
                        *final(self),
                        spec_size_align(layout).0,
                        spec_size_align(layout).1,
                        p,
                    )
                },
                None => {
                    &&& final(self).head@ == old(self).head@
                    &&& final(self).live@ == old(self).live@
                    &&& forall|i: int|
                        0 <= i < old(self).regions().len() ==> !region_suitable(
                            #[trigger] old(self).regions()[i],
                            spec_size_align(layout).0,
                            spec_size_align(layout).1,
                        )
                },
            },
    {
        let (size, align) = Self::size_align(layout);
        let ghost pre = *self;
        match self.find_region(size, align) {
            Some((region, alloc_start)) => {
                let ghost i = choose|i: int|
                    {
                        &&& 0 <= i < pre.head@.len()
                        &&& region == pre.head@[i]
                        &&& region_suitable(region.range(), size as int, align as int)
                        &&& (forall|j: int|
                            0 <= j < i ==> !region_suitable(
                                (#[trigger] pre.head@[j]).range(),
                                size as int,
                                align as int,
                            ))
                        &&& self.head@ =~= pre.head@.remove(i)
                        &&& alloc_start == spec_align_up(region.start as int, align as int)
                    };
                proof {
                    assert(pre.regions()[i] == region.range());
                    lemma_align_up_props(region.start as int, align as int);
                }
                let alloc_end = alloc_start + size;
                let excess_size = region.end_address() - alloc_end;
                let ghost after_find = *self;
                proof {
                    lemma_remove_region_wf(pre, after_find, i);
                    // the carved block and its trailing rest sit inside the
                    // region that was just removed from the list
                    assert forall|k: int| 0 <= k < after_find.regions().len() implies
                        ranges_disjoint(#[trigger] after_find.regions()[k], region.range()) by {
                        let k0 = if k < i {
                            k
                        } else {
                            k + 1
                        };
                        assert(after_find.regions()[k] == pre.regions()[k0]);
                        let all0 = pre.regions() + pre.live@;
                        assert(all0[k0] == pre.regions()[k0]);
                        assert(all0[i] == pre.regions()[i]);
                        assert(ranges_disjoint(all0[k0], all0[i]));
                    }
                    assert forall|k: int| 0 <= k < after_find.live@.len() implies
                        ranges_disjoint(#[trigger] after_find.live@[k], region.range()) by {
                        let all0 = pre.regions() + pre.live@;
                        let m = pre.regions().len();
                        assert(all0[m + k] == pre.live@[k]);
                        assert(all0[i] == pre.regions()[i]);
                        assert(ranges_disjoint(all0[m + k], all0[i]));
                    }
                    // the block address is aligned for a region header
                    assert(8usize & 7usize == 0) by (bit_vector);
                    lemma_pow2_le_divides(NODE_ALIGN, align);
                    lemma_mod_transitive(alloc_start as int, align as int, NODE_ALIGN as int);
                    lemma_add_mod_noop(alloc_start as int, size as int, NODE_ALIGN as int);
                    lemma_small_mod(0, NODE_ALIGN as nat);
                    // ... and for the caller's own, coarser alignment
                    lemma_pow2_le_divides(layout.align, align);
                    lemma_mod_transitive(alloc_start as int, align as int, layout.align as int);
                }
                if excess_size > 0 {
                    proof {
                        assert forall|k: int| 0 <= k < after_find.regions().len() implies
                            ranges_disjoint(
                            #[trigger] after_find.regions()[k],
                            (alloc_end as int, excess_size as int),
                        ) by {
                            lemma_inner_range_disjoint(
                                region.range(),
                                (alloc_end as int, excess_size as int),
                                after_find.regions()[k],
                            );
                        }
                        assert forall|k: int| 0 <= k < after_find.live@.len() implies
                            ranges_disjoint(
                            #[trigger] after_find.live@[k],
                            (alloc_end as int, excess_size as int),
                        ) by {
                            lemma_inner_range_disjoint(
                                region.range(),
                                (alloc_end as int, excess_size as int),
                                after_find.live@[k],
                            );
                        }
                    }
                    self.add_free_region(alloc_end, excess_size);
                }
                let ghost before_push = *self;
                let ghost nb = (alloc_start as int, size as int);
                self.live = Ghost(self.live@.push(nb));
                proof {
                    assert forall|k: int| 0 <= k < before_push.regions().len() implies
                        ranges_disjoint(#[trigger] before_push.regions()[k], nb) by {
                        if excess_size > 0 && k == 0 {
                            assert(before_push.regions()[0]
                                == (alloc_end as int, excess_size as int));
                        } else {
                            let k0 = if excess_size > 0 {
                                k - 1
                            } else {
                                k
                            };
                            assert(before_push.regions()[k] == after_find.regions()[k0]);
                            lemma_inner_range_disjoint(
                                region.range(),
                                nb,
                                after_find.regions()[k0],
                            );
                        }
                    }
                    assert forall|k: int| 0 <= k < before_push.live@.len() implies
                        ranges_disjoint(#[trigger] before_push.live@[k], nb) by {
                        lemma_inner_range_disjoint(region.range(), nb, before_push.live@[k]);
                    }
                    lemma_push_live_wf(before_push, *self, nb);
                    // the resulting free list is the first-fit carve
                    assert(pre.regions()[i] == region.range());
                    assert forall|j: int| 0 <= j < i implies !region_suitable(
                        #[trigger] pre.regions()[j],
                        size as int,
                        align as int,
                    ) by {
                        assert(pre.regions()[j] == pre.head@[j].range());
                    }
                    if excess_size > 0 {
                        assert(self.regions() =~= seq![
                            ((alloc_start + size) as int, excess_size as int),
                        ] + pre.regions().remove(i));
                    } else {
                        assert(self.regions() =~= pre.regions().remove(i));
                    }
                    assert(alloc_carves_first_fit(
                        pre,
                        *self,
                        size as int,
                        align as int,
                        alloc_start,
                    ));
                }
                Some(alloc_start)
            },
            None => None,
        }
    }

    /// Give the block at `ptr`, granted for `layout`, back to the free list.
    /// It must be live: returned by `allocate` for this layout and not freed
    /// since.
    pub fn dealloc(&mut self, ptr: usize, layout: Layout)
        requires
            old(self).wf(),
            layout.valid(),
            layout.size <= usize::MAX / 2,
            layout.align <= usize::MAX / 2,
            ptr % NODE_ALIGN == 0,
            exists|j: int|
                0 <= j < old(self).live@.len() && old(self).live@[j] == (
                    ptr as int,
                    spec_size_align(layout).0,
                ),
        ensures
            final(self).wf(),
            final(self).regions() =~= seq![(ptr as int, spec_size_align(layout).0)]
                + old(self).regions(),
            exists|j: int|
                0 <= j < old(self).live@.len() && old(self).live@[j] == (
                    ptr as int,
                    spec_size_align(layout).0,
                ) && final(self).live@ == old(self).live@.remove(j),
    {
        let (size, _align) = Self::size_align(layout);
        let ghost pre = *self;
        let ghost j = choose|j: int|
            0 <= j < pre.live@.len() && pre.live@[j] == (ptr as int, size as int);
        self.live = Ghost(self.live@.remove(j));
        proof {
            lemma_remove_live_wf(pre, *self, j);
        }
        self.add_free_region(ptr, size);
    }
}


/// A range nested inside `outer` is disjoint from anything `outer` is
/// disjoint from.
proof fn lemma_inner_range_disjoint(outer: (int, int), inner: (int, int), other: (int, int))
    requires
        ranges_disjoint(outer, other),
        outer.0 <= inner.0,
        inner.0 + inner.1 <= outer.0 + outer.1,
        inner.1 >= 0,
    ensures
        ranges_disjoint(inner, other),
{
}

/// Divisibility is transitive: a multiple of `b` is a multiple of every
/// divisor `a` of `b`.
pub proof fn lemma_mod_transitive(p: int, b: int, a: int)
    requires
        a > 0,
        b > 0,
        p % b == 0,
        b % a == 0,
    ensures
        p % a == 0,
{
    lemma_fundamental_div_mod(p, b);
    lemma_fundamental_div_mod(b, a);
    let k = p / b;
    let m = b / a;
    assert(p == (a * m) * k);
    lemma_mul_is_associative(a, m, k);
    assert(p == a * (m * k));
    lemma_mul_is_commutative(a, m * k);
    lemma_mod_multiples_basic(m * k, a);
}

/// Of two powers of two, the smaller divides the larger.
#[verifier::rlimit(100)]
pub proof fn lemma_pow2_le_divides(a: usize, b: usize)
    by (bit_vector)
    requires
        a >= 1,
        a & ((a - 1) as usize) == 0,
        b >= 1,
        b & ((b - 1) as usize) == 0,
        a <= b,
    ensures
        b % a == 0,
{
}

/// Removing a free region keeps the allocator well formed.
proof fn lemma_remove_region_wf(pre: LinkedListAllocator, post: LinkedListAllocator, i: int)
    requires
        pre.wf(),
        0 <= i < pre.head@.len(),
        post.head@ == pre.head@.remove(i),
        post.live@ == pre.live@,
    ensures
        post.wf(),
        post.regions() =~= pre.regions().remove(i),
{
    let m = pre.regions().len();
    assert(post.regions() =~= pre.regions().remove(i));
    let all = post.regions() + post.live@;
    let all0 = pre.regions() + pre.live@;
    assert forall|k: int| 0 <= k < all.len() implies #[trigger] all[k] == all0[
        if k < i {
            k
        } else {
            k + 1
        }
    ] by {
        if k < m - 1 {
            assert(all[k] == post.regions()[k]);
        } else {
            assert(all[k] == post.live@[k - (m - 1)]);
        }
    }
    assert forall|k1: int, k2: int|
        0 <= k1 < all.len() && 0 <= k2 < all.len() && k1 != k2 implies ranges_disjoint(
        #[trigger] all[k1],
        #[trigger] all[k2],
    ) by {
        let j1 = if k1 < i {
            k1
        } else {
            k1 + 1
        };
        let j2 = if k2 < i {
            k2
        } else {
            k2 + 1
        };
        assert(ranges_disjoint(all0[j1], all0[j2]));
    }
}

/// Recording one more live block keeps the allocator well formed, provided
/// the block is disjoint from every free region and every live block.
proof fn lemma_push_live_wf(pre: LinkedListAllocator, post: LinkedListAllocator, nb: (int, int))
    requires
        pre.wf(),
        post.head@ == pre.head@,
        post.live@ == pre.live@.push(nb),
        nb.0 >= 0,
        nb.1 >= 0,
        nb.0 + nb.1 <= usize::MAX,
        forall|k: int|
            0 <= k < pre.regions().len() ==> ranges_disjoint(#[trigger] pre.regions()[k], nb),
        forall|k: int| 0 <= k < pre.live@.len() ==> ranges_disjoint(#[trigger] pre.live@[k], nb),
    ensures
        post.wf(),
{
    let m = pre.regions().len();
    assert(post.regions() =~= pre.regions());
    let all = post.regions() + post.live@;
    let all0 = pre.regions() + pre.live@;
    assert forall|k: int| 0 <= k < all.len() - 1 implies #[trigger] all[k] == all0[k] by {
        if k < m {
            assert(all[k] == post.regions()[k]);
        } else {
            assert(all[k] == post.live@[k - m]);
            assert(all0[k] == pre.live@[k - m]);
        }
    }
    assert(all[all.len() - 1] == nb);
    assert forall|k1: int, k2: int|
        0 <= k1 < all.len() && 0 <= k2 < all.len() && k1 != k2 implies ranges_disjoint(
        #[trigger] all[k1],
        #[trigger] all[k2],
    ) by {
        let last = all.len() - 1;
        if k1 != last && k2 != last {
            assert(ranges_disjoint(all0[k1], all0[k2]));
        } else if k1 == last {
            if k2 < m {
                assert(ranges_disjoint(pre.regions()[k2], nb));
            } else {
                assert(ranges_disjoint(pre.live@[k2 - m], nb));
            }
        } else {
            if k1 < m {
                assert(ranges_disjoint(pre.regions()[k1], nb));
            } else {
                assert(ranges_disjoint(pre.live@[k1 - m], nb));
            }
        }
    }
}

/// Forgetting one live block keeps the allocator well formed, and the
/// forgotten block stays disjoint from everything that remains.
proof fn lemma_remove_live_wf(pre: LinkedListAllocator, post: LinkedListAllocator, j: int)
    requires
        pre.wf(),
        0 <= j < pre.live@.len(),
        post.head@ == pre.head@,
        post.live@ == pre.live@.remove(j),
    ensures
        post.wf(),
        forall|k: int|
            0 <= k < post.regions().len() ==> ranges_disjoint(
                #[trigger] post.regions()[k],
                pre.live@[j],
            ),
        forall|k: int|
            0 <= k < post.live@.len() ==> ranges_disjoint(#[trigger] post.live@[k], pre.live@[j]),
{
    let m = pre.regions().len();
    assert(post.regions() =~= pre.regions());
    let all = post.regions() + post.live@;
    let all0 = pre.regions() + pre.live@;
    assert forall|k: int| 0 <= k < all.len() implies #[trigger] all[k] == all0[
        if k < m + j {
            k
        } else {
            k + 1
        }
    ] by {
        if k < m {
            assert(all[k] == post.regions()[k]);
        } else {
            assert(all[k] == post.live@[k - m]);
            if k - m < j {
                assert(post.live@[k - m] == pre.live@[k - m]);
            } else {
                assert(post.live@[k - m] == pre.live@[k - m + 1]);
            }
        }
    }
    assert forall|k1: int, k2: int|
        0 <= k1 < all.len() && 0 <= k2 < all.len() && k1 != k2 implies ranges_disjoint(
        #[trigger] all[k1],
        #[trigger] all[k2],
    ) by {
        let j1 = if k1 < m + j {
            k1
        } else {
            k1 + 1
        };
        let j2 = if k2 < m + j {
            k2
        } else {
            k2 + 1
        };
        assert(ranges_disjoint(all0[j1], all0[j2]));
    }
    assert forall|k: int| 0 <= k < post.regions().len() implies ranges_disjoint(
        #[trigger] post.regions()[k],
        pre.live@[j],
    ) by {
        assert(all0[k] == pre.regions()[k]);
        assert(ranges_disjoint(all0[k], all0[m + j]));
    }
    assert forall|k: int| 0 <= k < post.live@.len() implies ranges_disjoint(
        #[trigger] post.live@[k],
        pre.live@[j],
    ) by {
        let k0 = if k < j {
            k
        } else {
            k + 1
        };
        assert(post.live@[k] == pre.live@[k0]);
        assert(ranges_disjoint(all0[m + k0], all0[m + j]));
    }
}

/// No two blocks that are live at the same time overlap: every address the
/// allocator grants is disjoint from every other allocation still in use.
pub proof fn lemma_live_blocks_disjoint(a: LinkedListAllocator, i: int, j: int)
    requires
        a.wf(),
        0 <= i < a.live@.len(),
        0 <= j < a.live@.len(),
        i != j,
    ensures
        ranges_disjoint(a.live@[i], a.live@[j]),
{
    let all = a.regions() + a.live@;
    let m = a.regions().len();
    assert(all[m + i] == a.live@[i]);
    assert(all[m + j] == a.live@[j]);
    assert(ranges_disjoint(all[m + i], all[m + j]));
}

/// A block freed for `layout` and sitting at the head of the list can serve
/// the same `layout` again: it starts aligned, the request fits it exactly,
/// and nothing trails.  With [`LinkedListAllocator::allocate`]'s contract
/// — which returns `None` only when no region at all is suitable — a free
/// of a granted block followed by the same request always succeeds.
pub proof fn lemma_freed_block_refits(c: LinkedListAllocator, layout: Layout, p: usize)
    requires
        layout.valid(),
        c.regions().len() > 0,
        c.regions()[0] == (p as int, spec_size_align(layout).0),
        (p as int) % spec_size_align(layout).1 == 0,
        p + spec_size_align(layout).1 <= usize::MAX,
    ensures
        region_suitable(c.regions()[0], spec_size_align(layout).0, spec_size_align(layout).1),
{
    let al = spec_size_align(layout).1;
    lemma_align_up_unique(p as int, al, p as int);
}

} // verus!
