//! The kernel heap: its fixed virtual placement, the allocation-request
//! shape shared by every allocator strategy, and the alignment arithmetic
//! they all rely on.

use vstd::prelude::*;
use vstd::arithmetic::div_mod::{
    lemma_div_is_ordered, lemma_fundamental_div_mod, lemma_div_multiples_vanish_fancy,
    lemma_mod_bound, lemma_mod_multiples_basic,
};
use vstd::arithmetic::mul::lemma_mul_is_commutative;
use crate::memory::FRAME_SIZE;

pub mod bump;
pub mod linked_list;
pub mod fixed_size_block;

verus! {

/// First virtual address of the kernel heap.
pub const HEAP_START: u64 = 0x4444_4444_0000;

/// Size of the kernel heap in bytes (100 KiB).
pub const HEAP_SIZE: u64 = 100 * 1024;

/// An allocation request: a byte count and a power-of-two alignment.
#[derive(Debug, Clone, Copy, PartialEq, Eq, Structural)]
pub struct Layout {
    pub size: usize,
    pub align: usize,
}

impl Layout {
    /// A layout is meaningful only when its alignment is a power of two.
    pub open spec fn valid(self) -> bool {
        self.align >= 1 && (self.align & ((self.align - 1) as usize)) == 0
    }

    pub fn new(size: usize, align: usize) -> (r: Layout)
        requires
            align >= 1,
            align & ((align - 1) as usize) == 0,
        ensures
            r.size == size,
            r.align == align,
            r.valid(),
    {
        Layout { size, align }
    }
}

/// Two byte ranges, each given as (start, length), do not overlap.
pub open spec fn ranges_disjoint(a: (int, int), b: (int, int)) -> bool {
    a.0 + a.1 <= b.0 || b.0 + b.1 <= a.0
}

/// No two distinct ranges of the sequence overlap.
pub open spec fn all_ranges_disjoint(s: Seq<(int, int)>) -> bool {
    forall|i: int, j: int|
        0 <= i < s.len() && 0 <= j < s.len() && i != j ==> ranges_disjoint(
            #[trigger] s[i],
            #[trigger] s[j],
        )
}

/// `x` rounded up to the next multiple of `a`.
pub open spec fn spec_align_up(x: int, a: int) -> int
    recommends
        a > 0,
{
    ((x + a - 1) / a) * a
}

/// Rounding up lands on a multiple of `a`, at or above `x` and less than
/// one whole alignment above it.
pub proof fn lemma_align_up_props(x: int, a: int)
    requires
        a > 0,
        x >= 0,
    ensures
        x <= spec_align_up(x, a) < x + a,
        spec_align_up(x, a) % a == 0,
{
    let s = x + a - 1;
    let q = s / a;
    lemma_fundamental_div_mod(s, a);
    lemma_mod_bound(s, a);
    lemma_mul_is_commutative(a, q);
    assert(q * a == s - s % a);
    lemma_mod_multiples_basic(q, a);
}

/// A value that is itself a multiple of `a` in the window `[x, x + a)` is
/// exactly `x` rounded up.
pub proof fn lemma_align_up_unique(x: int, a: int, v: int)
    requires
        a > 0,
        v % a == 0,
        x <= v < x + a,
        0 <= x,
    ensures
        v == spec_align_up(x, a),
{
    let s = x + a - 1;
    let k = v / a;
    lemma_fundamental_div_mod(v, a);
    assert(v == a * k);
    lemma_mul_is_commutative(a, k);
    assert(v <= s);
    lemma_div_is_ordered(v, s, a);
    assert(s <= v + a - 1);
    lemma_div_is_ordered(s, v + a - 1, a);
    lemma_div_multiples_vanish_fancy(k, a - 1, a);
    assert(v + a - 1 == a * k + (a - 1));
    assert((v + a - 1) / a == k);
    assert(k <= s / a <= k);
    lemma_mul_is_commutative(a, s / a);
    assert(spec_align_up(x, a) == (s / a) * a);
}

/// The bitwise rounding `(x + a - 1) & !(a - 1)` yields a multiple of `a`
/// inside the window `[x, x + a)`, provided `a` is a power of two.
#[verifier::rlimit(100)]
#[verifier::spinoff_prover]
proof fn lemma_align_up_bitwise_mod(s: usize, a: usize)
    by (bit_vector)
    requires
        a >= 1,
        a & ((a - 1) as usize) == 0,
    ensures
        (s & !((a - 1) as usize)) % a == 0,
{
}

#[verifier::rlimit(100)]
proof fn lemma_align_up_bitwise_window(x: usize, a: usize, s: usize)
    by (bit_vector)
    requires
        a >= 1,
        a & ((a - 1) as usize) == 0,
        s == x + a - 1,
    ensures
        x <= (s & !((a - 1) as usize)),
        (s & !((a - 1) as usize)) < x + a,
{
}

/// Align `address` upwards to `align`, which must be a power of two.
pub fn align_up(address: usize, align: usize) -> (r: usize)
    requires
        align >= 1,
        align & ((align - 1) as usize) == 0,
        address + align <= usize::MAX,
    ensures
        r == spec_align_up(address as int, align as int),
        address <= r < address + align,
        r % align == 0,
{
    let s = address + align - 1;
    let r = s & !(align - 1);
    proof {
        lemma_align_up_bitwise_mod(s, align);
        lemma_align_up_bitwise_window(address, align, s);
        lemma_align_up_unique(address as int, align as int, r as int);
        lemma_align_up_props(address as int, align as int);
    }
    r
}

/// No byte of the heap range translates yet.
pub open spec fn heap_unmapped(mapper: crate::memory::paging::OffsetPageTable) -> bool {
    forall|v: u64|
        HEAP_START <= v < HEAP_START + HEAP_SIZE ==> (#[trigger] mapper.interp_addr(v)).is_none()
}

/// Two heap addresses in different pages part ways at the lowest level of
/// the walk: the heap spans well under two megabytes and crosses no
/// two-megabyte boundary, so the level-one index alone tells its pages
/// apart.
proof fn lemma_heap_addresses_distinct_paths(v: u64, p: u64)
    by (bit_vector)
    requires
        0x4444_4444_0000 <= v < 0x4444_4444_0000 + 102400,
        0x4444_4444_0000 <= p < 0x4444_4444_0000 + 102400,
        p % 4096 == 0,
        !(p <= v < p + 4096),
    ensures
        ((v >> 12) & 0x1ff) != ((p >> 12) & 0x1ff),
{
}

/// The page maps to a frame drawn from the map's usable frames between
/// positions `lo` and `hi` of the frame cursor.
pub open spec fn mapped_to_fresh_frame(
    mapper: crate::memory::paging::OffsetPageTable,
    map: Seq<crate::memory::MemoryRegion>,
    lo: int,
    hi: int,
    page: u64,
) -> bool {
    exists|n: int|
        lo <= n < hi && mapper.interp_addr(page) == Some(
            #[trigger] crate::memory::usable_frames(map)[n],
        )
}

/// Map the whole heap range, one fresh frame per page, then hand the heap
/// to the allocator.  On success every heap address translates, present
/// and writable, each heap page to a frame freshly drawn from the
/// allocator, and the allocator owns exactly the heap range as one free
/// region.  Nothing that was mapped before is disturbed either way, and
/// each error names its cause.
pub fn init_heap(
    mapper: &mut crate::memory::paging::OffsetPageTable,
    frame_allocator: &mut crate::memory::BootInfoFrameAllocator,
    allocator: &mut linked_list::LinkedListAllocator,
) -> (r: Result<(), crate::memory::paging::MapToError>)
    requires
        old(mapper).wf(),
        old(frame_allocator).wf(),
        old(frame_allocator).next + 128 <= usize::MAX,
        old(allocator).head@.len() == 0,
        old(allocator).live@.len() == 0,
    ensures
        final(mapper).wf(),
        final(frame_allocator).wf(),
        final(allocator).wf(),
        final(frame_allocator).memory_map == old(frame_allocator).memory_map,
        crate::memory::paging::tables_grow(*old(mapper), *final(mapper)),
        forall|w: u64|
            old(mapper).interp_entry(w).is_some() ==> final(mapper).interp_entry(w) == old(
                mapper,
            ).interp_entry(w),
        heap_unmapped(*old(mapper)) && crate::memory::usable_frames(
            old(frame_allocator).memory_map@,
        ).len() >= old(frame_allocator).next + 100 ==> r.is_ok(),
        match r {
            Ok(()) => {
                &&& forall|v: u64|
                    HEAP_START <= v < HEAP_START + HEAP_SIZE
                        ==> (#[trigger] final(mapper).interp_addr(v)).is_some()
                &&& forall|v: u64|
                    HEAP_START <= v < HEAP_START + HEAP_SIZE
                        ==> #[trigger] final(mapper).interp_flags(v) == Some(
                        (crate::memory::paging::PageTableFlags {
                            present: true,
                            writable: true,
                        }),
                    )
                &&& forall|k: u64|
                    k < HEAP_SIZE / FRAME_SIZE ==> #[trigger] mapped_to_fresh_frame(
                        *final(mapper),
                        old(frame_allocator).memory_map@,
                        old(frame_allocator).next as int,
                        final(frame_allocator).next as int,
                        (HEAP_START + k * FRAME_SIZE) as u64,
                    )
                &&& final(allocator).regions() =~= seq![
                    ((HEAP_START as usize) as int, (HEAP_SIZE as usize) as int),
                ]
                &&& final(allocator).live@.len() == 0
            },
            Err(e) => {
                &&& final(allocator).head@ == old(allocator).head@
                &&& final(allocator).live@ == old(allocator).live@
                &&& (e == crate::memory::paging::MapToError::FrameAllocationFailed
                    ==> crate::memory::usable_frames(old(frame_allocator).memory_map@).len()
                    < final(frame_allocator).next)
                &&& (e == crate::memory::paging::MapToError::PageAlreadyMapped || e
                    == crate::memory::paging::MapToError::ParentEntryHugePage ==> exists|v: u64|
                    HEAP_START <= v < HEAP_START + HEAP_SIZE
                        && (#[trigger] final(mapper).interp_addr(v)).is_some())
            },
        },
{
    let page_count: u64 = HEAP_SIZE / FRAME_SIZE;
    let mut i: u64 = 0;
    while i < page_count
        invariant
            i <= page_count,
            page_count == HEAP_SIZE / FRAME_SIZE,
            mapper.wf(),
            frame_allocator.wf(),
            frame_allocator.memory_map == old(frame_allocator).memory_map,
            old(frame_allocator).next <= frame_allocator.next,
            frame_allocator.next <= old(frame_allocator).next + 4 * i,
            old(frame_allocator).next + 128 <= usize::MAX,
            allocator.head@ == old(allocator).head@,
            allocator.live@ == old(allocator).live@,
            old(allocator).head@.len() == 0,
            old(allocator).live@.len() == 0,
            crate::memory::paging::tables_grow(*old(mapper), *mapper),
            forall|w: u64|
                old(mapper).interp_entry(w).is_some() ==> mapper.interp_entry(w) == old(
                    mapper,
                ).interp_entry(w),
            forall|v: u64|
                HEAP_START <= v < HEAP_START + i * FRAME_SIZE ==> (#[trigger] mapper.interp_addr(
                    v,
                )).is_some(),
            forall|v: u64|
                HEAP_START <= v < HEAP_START + i * FRAME_SIZE ==> #[trigger] mapper.interp_flags(v)
                    == Some(
                    (crate::memory::paging::PageTableFlags { present: true, writable: true }),
                ),
            forall|k: u64|
                k < i ==> #[trigger] mapped_to_fresh_frame(
                    *mapper,
                    old(frame_allocator).memory_map@,
                    old(frame_allocator).next as int,
                    frame_allocator.next as int,
                    (HEAP_START + k * FRAME_SIZE) as u64,
                ),
            heap_unmapped(*old(mapper)) && crate::memory::usable_frames(
                old(frame_allocator).memory_map@,
            ).len() >= old(frame_allocator).next + 100 ==> (forall|v: u64|
                HEAP_START + i * FRAME_SIZE <= v < HEAP_START + HEAP_SIZE
                    ==> (#[trigger] mapper.interp_addr(v)).is_none()),
        decreases page_count - i,
    {
        let page: u64 = HEAP_START + i * FRAME_SIZE;
        let ghost pre_draw = *frame_allocator;
        let frame = match frame_allocator.allocate_frame() {
            Some(f) => f,
            None => {
                proof {
                    if heap_unmapped(*old(mapper)) && crate::memory::usable_frames(
                        old(frame_allocator).memory_map@,
                    ).len() >= old(frame_allocator).next + 100 {
                        // with a hundred frames to spare the draw cannot
                        // run dry
                        assert(false);
                    }
                }
                return Err(crate::memory::paging::MapToError::FrameAllocationFailed);
            },
        };
        let ghost n_drawn = pre_draw.next as int;
        let flags = crate::memory::paging::PageTableFlags { present: true, writable: true };
        let ghost pre_map = *mapper;
        let ghost pre_map_fa = *frame_allocator;
        match mapper.map_to(page, frame, flags, frame_allocator) {
            Ok(flush) => {
                flush.flush();
            },
            Err(e) => {
                proof {
                    if heap_unmapped(*old(mapper)) && crate::memory::usable_frames(
                        old(frame_allocator).memory_map@,
                    ).len() >= old(frame_allocator).next + 100 {
                        // the page was still unmapped and frames remained:
                        // the mapping call owes success
                        assert(pre_map.interp_addr(page).is_none());
                        assert(crate::memory::usable_frames(pre_map_fa.memory_map@).len()
                            >= pre_map_fa.next + 3);
                        assert(false);
                    }
                    if e == crate::memory::paging::MapToError::PageAlreadyMapped || e
                        == crate::memory::paging::MapToError::ParentEntryHugePage {
                        // the failing page was already mapped, and its
                        // mapping survives the failing call
                        assert(pre_map.interp_addr(page).is_some());
                        assert(pre_map.interp_entry(page).is_some());
                        assert(mapper.interp_entry(page) == pre_map.interp_entry(page));
                        assert(HEAP_START <= page < HEAP_START + HEAP_SIZE);
                        assert((#[trigger] mapper.interp_addr(page)).is_some());
                    }
                }
                return Err(e);
            },
        }
        proof {
            crate::memory::paging::lemma_tables_grow_trans(*old(mapper), pre_map, *mapper);
            assert forall|w: u64| old(mapper).interp_entry(w).is_some() implies
                mapper.interp_entry(w) == old(mapper).interp_entry(w) by {
                assert(pre_map.interp_entry(w) == old(mapper).interp_entry(w));
            }
            assert forall|v: u64| HEAP_START <= v < HEAP_START + (i + 1) * FRAME_SIZE implies (
            #[trigger] mapper.interp_addr(v)).is_some() by {
                if v < HEAP_START + i * FRAME_SIZE {
                    assert(pre_map.interp_addr(v).is_some());
                    assert(pre_map.interp_entry(v).is_some());
                    assert(mapper.interp_entry(v) == pre_map.interp_entry(v));
                } else {
                    let off = (v - page) as u64;
                    assert(off < FRAME_SIZE);
                    assert(mapper.interp_addr((page + off) as u64) == Some((frame + off) as u64));
                    assert((page + off) as u64 == v);
                }
            }
            assert forall|v: u64| HEAP_START <= v < HEAP_START + (i + 1) * FRAME_SIZE implies
                #[trigger] mapper.interp_flags(v) == Some(
                (crate::memory::paging::PageTableFlags { present: true, writable: true }),
            ) by {
                if v < HEAP_START + i * FRAME_SIZE {
                    assert(pre_map.interp_addr(v).is_some());
                    assert(pre_map.interp_entry(v).is_some());
                    assert(mapper.interp_entry(v) == pre_map.interp_entry(v));
                    assert(mapper.interp_flags(v) == pre_map.interp_flags(v));
                } else {
                    let off = (v - page) as u64;
                    assert(off < FRAME_SIZE);
                    assert(mapper.interp_entry((page + off) as u64) == Some(
                        (((frame + off) as u64), flags),
                    ));
                    assert((page + off) as u64 == v);
                }
            }
            if heap_unmapped(*old(mapper)) && crate::memory::usable_frames(
                old(frame_allocator).memory_map@,
            ).len() >= old(frame_allocator).next + 100 {
                assert forall|v: u64|
                    HEAP_START + (i + 1) * FRAME_SIZE <= v < HEAP_START + HEAP_SIZE implies (
                #[trigger] mapper.interp_addr(v)).is_none() by {
                    assert(pre_map.interp_addr(v).is_none());
                    lemma_heap_addresses_distinct_paths(v, page);
                    assert(!crate::memory::paging::same_page_path(v, page)) by {
                        assert(crate::memory::paging::spec_table_index(v, 1)
                            != crate::memory::paging::spec_table_index(page, 1));
                    }
                    assert(mapper.interp_entry(v) == pre_map.interp_entry(v));
                    assert(pre_map.interp_entry(v).is_none());
                }
            }
            assert forall|k: u64| k < i + 1 implies #[trigger] mapped_to_fresh_frame(
                *mapper,
                old(frame_allocator).memory_map@,
                old(frame_allocator).next as int,
                frame_allocator.next as int,
                (HEAP_START + k * FRAME_SIZE) as u64,
            ) by {
                let map = old(frame_allocator).memory_map@;
                if k < i {
                    let pk = (HEAP_START + k * FRAME_SIZE) as u64;
                    assert(mapped_to_fresh_frame(
                        pre_map,
                        map,
                        old(frame_allocator).next as int,
                        pre_draw.next as int,
                        pk,
                    ));
                    let n = choose|n: int|
                        old(frame_allocator).next <= n < pre_draw.next
                            && pre_map.interp_addr(pk) == Some(
                            #[trigger] crate::memory::usable_frames(map)[n],
                        );
                    assert(pre_map.interp_addr(pk).is_some());
                    assert(pre_map.interp_entry(pk).is_some());
                    assert(mapper.interp_entry(pk) == pre_map.interp_entry(pk));
                    assert(mapper.interp_addr(pk) == Some(crate::memory::usable_frames(map)[n]));
                    assert(n < frame_allocator.next);
                } else {
                    assert(frame == crate::memory::usable_frames(map)[n_drawn]);
                    assert(mapper.interp_addr((page + 0) as u64) == Some((frame + 0) as u64));
                    assert((page + 0) as u64 == page);
                    assert((frame + 0) as u64 == frame);
                    assert(old(frame_allocator).next <= n_drawn < frame_allocator.next);
                    assert(mapper.interp_addr(page) == Some(
                        crate::memory::usable_frames(map)[n_drawn],
                    ));
                }
            }
        }
        i = i + 1;
    }
    proof {
        assert((HEAP_START as usize) % 8 == 0) by (bit_vector);
        assert((HEAP_SIZE as usize) == 102400) by (bit_vector);
        // the heap base fits the address width: in full on 64 bits, or by
        // its low half on 32
        assert(((HEAP_START as usize) as u64 == 0x4444_4444_0000u64) || ((HEAP_START as usize)
            as u64 == 0x4444_0000u64)) by (bit_vector);
        assert((HEAP_START as usize) + (HEAP_SIZE as usize) <= usize::MAX);
    }
    allocator.init(HEAP_START as usize, HEAP_SIZE as usize);
    Ok(())
}

/// An allocator that grants nothing: every request is refused, so no
/// deallocation can ever legally happen.
pub struct Dummy;

impl Dummy {
    pub fn allocate(&self, _layout: Layout) -> (r: Option<usize>)
        ensures
            r.is_none(),
    {
        None
    }
}

} // verus!
