//! Physical-memory management: the firmware memory map, and the frame
//! allocator that hands out each usable 4 KiB frame at most once.

use vstd::prelude::*;
use vstd::arithmetic::div_mod::{
    lemma_add_mod_noop, lemma_fundamental_div_mod, lemma_mod_multiples_basic, lemma_small_mod,
};
use vstd::arithmetic::mul::{lemma_mul_inequality, lemma_mul_is_commutative};

pub mod allocator;
pub mod gdt;
pub mod interrupts;
pub mod paging;

verus! {

/// Size of one physical frame and of one virtual page, in bytes.
pub const FRAME_SIZE: u64 = 4096;

/// Classification of a firmware-reported region of physical memory.
/// Only `Usable` regions may be handed out as fresh frames.
#[derive(Debug, Clone, Copy, PartialEq, Eq, Structural)]
pub enum MemoryRegionKind {
    Usable,
    InUse,
    Reserved,
}

/// One region of the firmware memory map: the physical byte range
/// `[start, end)` and its classification.
#[derive(Debug, Clone, Copy, PartialEq, Eq, Structural)]
pub struct MemoryRegion {
    pub start: u64,
    pub end: u64,
    pub kind: MemoryRegionKind,
}

/// The frames of one region: every frame-aligned address in `[start, end)`,
/// in ascending order — or none at all if the region is not usable.
pub open spec fn region_frames(r: MemoryRegion) -> Seq<u64> {
    if r.kind == MemoryRegionKind::Usable {
        Seq::new(
            (((r.end - r.start) / (FRAME_SIZE as int)) as nat),
            |k: int| (r.start + (FRAME_SIZE as int) * k) as u64,
        )
    } else {
        Seq::empty()
    }
}

/// All usable frames of the memory map, region by region in map order.
pub open spec fn usable_frames(map: Seq<MemoryRegion>) -> Seq<u64>
    decreases map.len(),
{
    if map.len() == 0 {
        Seq::empty()
    } else {
        region_frames(map[0]) + usable_frames(map.drop_first())
    }
}

/// A well-formed memory map: regions are frame-aligned and ordered within
/// themselves, and no two usable regions overlap — the firmware guarantee
/// the frame allocator relies on.
pub open spec fn map_wf(map: Seq<MemoryRegion>) -> bool {
    &&& forall|i: int|
        0 <= i < map.len() ==> {
            let r = #[trigger] map[i];
            &&& r.start % FRAME_SIZE == 0
            &&& r.end % FRAME_SIZE == 0
            &&& r.start <= r.end
        }
    &&& forall|i: int, j: int|
        0 <= i < map.len() && 0 <= j < map.len() && i != j && (#[trigger] map[i]).kind
            == MemoryRegionKind::Usable && (#[trigger] map[j]).kind == MemoryRegionKind::Usable
            ==> map[i].end <= map[j].start || map[j].end <= map[i].start
}

/// A frame allocator that never produces a frame.
pub struct EmptyFrameAllocator;

impl EmptyFrameAllocator {
    pub fn allocate_frame(&mut self) -> (r: Option<u64>)
        ensures
            r.is_none(),
    {
        None
    }
}

/// Walks the firmware memory map and hands out the usable frames one by
/// one, by a cursor that only moves forward.  Frames are never taken back.
pub struct BootInfoFrameAllocator {
    pub memory_map: Vec<MemoryRegion>,
    pub next: usize,
}

impl BootInfoFrameAllocator {
    pub open spec fn wf(self) -> bool {
        map_wf(self.memory_map@)
    }

    /// Create an allocator over the given memory map, starting at the
    /// first usable frame.
    pub fn init(memory_map: Vec<MemoryRegion>) -> (r: BootInfoFrameAllocator)
        requires
            map_wf(memory_map@),
        ensures
            r.memory_map == memory_map,
            r.next == 0,
            r.wf(),
    {
        BootInfoFrameAllocator { memory_map, next: 0 }
    }

    /// The next usable frame the map still holds, if any.  The cursor
    /// advances on every call, so no frame is ever produced twice.
    pub fn allocate_frame(&mut self) -> (r: Option<u64>)
        requires
            old(self).wf(),
            old(self).next < usize::MAX,
        ensures
            final(self).memory_map == old(self).memory_map,
            final(self).next == old(self).next + 1,
            final(self).wf(),
            r == (if (old(self).next as int) < usable_frames(old(self).memory_map@).len() {
                Some(usable_frames(old(self).memory_map@)[old(self).next as int])
            } else {
                Option::<u64>::None
            }),
            r matches Some(f) ==> f % FRAME_SIZE == 0,
    {
        let ghost map = self.memory_map@;
        let mut remaining: u64 = self.next as u64;
        let mut i: usize = 0;
        proof {
            assert(map.take(0) =~= Seq::<MemoryRegion>::empty());
            assert(map.skip(0) =~= map);
        }
        while i < self.memory_map.len()
            invariant
                self.memory_map == old(self).memory_map,
                self.memory_map@ == map,
                self.next == old(self).next,
                map_wf(map),
                i <= map.len(),
                self.next < usize::MAX,
                usable_frames(map.take(i as int)).len() <= self.next,
                remaining == self.next - usable_frames(map.take(i as int)).len(),
                usable_frames(map) =~= usable_frames(map.take(i as int)) + usable_frames(
                    map.skip(i as int),
                ),
            decreases map.len() - i,
        {
            let region = self.memory_map[i];
            proof {
                assert(map.skip(i as int)[0] == map[i as int]);
                assert(map.skip(i as int).drop_first() =~= map.skip(i as int + 1));
                assert(usable_frames(map.skip(i as int)) =~= region_frames(map[i as int])
                    + usable_frames(map.skip(i as int + 1)));
            }
            if matches!(region.kind, MemoryRegionKind::Usable) {
                let count = (region.end - region.start) / FRAME_SIZE;
                if remaining < count {
                    proof {
                        lemma_fundamental_div_mod(
                            (region.end - region.start) as int,
                            FRAME_SIZE as int,
                        );
                        lemma_mul_inequality(
                            remaining as int + 1,
                            count as int,
                            FRAME_SIZE as int,
                        );
                        lemma_mul_is_commutative(remaining as int + 1, FRAME_SIZE as int);
                        lemma_mul_is_commutative(count as int, FRAME_SIZE as int);
                        lemma_mul_inequality(0, remaining as int, FRAME_SIZE as int);
                        lemma_mul_is_commutative(0, FRAME_SIZE as int);
                        lemma_mul_is_commutative(remaining as int, FRAME_SIZE as int);
                        assert(region_frames(map[i as int])[remaining as int] == (region.start
                            + (FRAME_SIZE as int) * (remaining as int)) as u64);
                        let n = old(self).next as int;
                        assert(usable_frames(map.skip(i as int))[remaining as int]
                            == region_frames(map[i as int])[remaining as int]);
                        assert(usable_frames(map)[n] == (usable_frames(map.take(i as int))
                            + usable_frames(map.skip(i as int)))[n]);
                        let rem = remaining as int;
                        assert(usable_frames(map)[n] == usable_frames(map.skip(i as int))[rem]);
                    }
                    proof {
                        lemma_mod_multiples_basic(remaining as int, FRAME_SIZE as int);
                        lemma_add_mod_noop(
                            region.start as int,
                            (FRAME_SIZE * remaining) as int,
                            FRAME_SIZE as int,
                        );
                        lemma_small_mod(0, FRAME_SIZE as nat);
                    }
                    self.next = self.next + 1;
                    return Some(region.start + FRAME_SIZE * remaining);
                }
                remaining = remaining - count;
            }
            proof {
                assert(map.take(i as int + 1) =~= map.take(i as int).push(map[i as int]));
                lemma_usable_frames_push(map.take(i as int), map[i as int]);
            }
            i = i + 1;
        }
        proof {
            assert(map.take(map.len() as int) =~= map);
        }
        self.next = self.next + 1;
        None
    }
}

/// Appending a region to a map appends that region's frames.
proof fn lemma_usable_frames_push(map: Seq<MemoryRegion>, r: MemoryRegion)
    ensures
        usable_frames(map.push(r)) =~= usable_frames(map) + region_frames(r),
    decreases map.len(),
{
    if map.len() == 0 {
        assert(map.push(r)[0] == r);
        assert(map.push(r).drop_first() =~= Seq::<MemoryRegion>::empty());
        assert(usable_frames(map.push(r)) == region_frames(r) + usable_frames(Seq::empty()));
        assert(region_frames(r) + Seq::<u64>::empty() =~= Seq::<u64>::empty() + region_frames(r));
    } else {
        assert(map.push(r)[0] == map[0]);
        assert(map.push(r).drop_first() =~= map.drop_first().push(r));
        lemma_usable_frames_push(map.drop_first(), r);
        assert(usable_frames(map.push(r)) == region_frames(map[0]) + usable_frames(
            map.drop_first().push(r),
        ));
        assert(region_frames(map[0]) + (usable_frames(map.drop_first()) + region_frames(r)) =~= (
        region_frames(map[0]) + usable_frames(map.drop_first())) + region_frames(r));
    }
}

/// Every usable frame lies inside a usable region of the map.
proof fn lemma_frames_in_regions(map: Seq<MemoryRegion>)
    requires
        map_wf(map),
    ensures
        forall|n: int|
            0 <= n < usable_frames(map).len() ==> exists|i: int|
                {
                    &&& 0 <= i < map.len()
                    &&& (#[trigger] map[i]).kind == MemoryRegionKind::Usable
                    &&& map[i].start <= #[trigger] usable_frames(map)[n] < map[i].end
                },
    decreases map.len(),
{
    if map.len() > 0 {
        let rest = map.drop_first();
        assert(map_wf(rest)) by {
            assert(forall|i: int| 0 <= i < rest.len() ==> #[trigger] rest[i] == map[i + 1]);
        }
        lemma_frames_in_regions(rest);
        let rf = region_frames(map[0]);
        assert forall|n: int| 0 <= n < usable_frames(map).len() implies exists|i: int|
            {
                &&& 0 <= i < map.len()
                &&& (#[trigger] map[i]).kind == MemoryRegionKind::Usable
                &&& map[i].start <= #[trigger] usable_frames(map)[n] < map[i].end
            } by {
            if n < rf.len() {
                let f = usable_frames(map)[n];
                assert(f == rf[n]);
                proof_region_frame_in_range(map[0], n);
                assert(0 <= 0 < map.len() && map[0].kind == MemoryRegionKind::Usable && map[0].start
                    <= usable_frames(map)[n] < map[0].end);
            } else {
                let m = n - rf.len();
                assert(usable_frames(map)[n] == usable_frames(rest)[m]);
                let i0 = choose|i0: int|
                    {
                        &&& 0 <= i0 < rest.len()
                        &&& (#[trigger] rest[i0]).kind == MemoryRegionKind::Usable
                        &&& rest[i0].start <= usable_frames(rest)[m] < rest[i0].end
                    };
                assert(rest[i0] == map[i0 + 1]);
                assert(0 <= i0 + 1 < map.len() && map[i0 + 1].kind == MemoryRegionKind::Usable
                    && map[i0 + 1].start <= usable_frames(map)[n] < map[i0 + 1].end);
            }
        }
    }
}

/// A frame of a well-formed region lies inside the region's byte range.
proof fn proof_region_frame_in_range(r: MemoryRegion, k: int)
    requires
        r.start % FRAME_SIZE == 0,
        r.end % FRAME_SIZE == 0,
        r.start <= r.end,
        0 <= k < region_frames(r).len(),
    ensures
        r.start <= region_frames(r)[k] < r.end,
        region_frames(r)[k] == r.start + (FRAME_SIZE as int) * k,
{
    let count = (r.end - r.start) / (FRAME_SIZE as int);
    lemma_fundamental_div_mod((r.end - r.start) as int, FRAME_SIZE as int);
    lemma_mul_inequality(k + 1, count, FRAME_SIZE as int);
    lemma_mul_is_commutative(k + 1, FRAME_SIZE as int);
    lemma_mul_is_commutative(count, FRAME_SIZE as int);
    assert((FRAME_SIZE as int) * k >= 0) by {
        lemma_mul_inequality(0, k, FRAME_SIZE as int);
        lemma_mul_is_commutative(0, FRAME_SIZE as int);
        lemma_mul_is_commutative(k, FRAME_SIZE as int);
    }
}

/// The frame allocator yields pairwise distinct frames: any two positions
/// of the usable-frame sequence hold different addresses, so two successful
/// `allocate_frame` calls — whose cursor positions always differ — never
/// return the same frame.
pub proof fn lemma_usable_frames_distinct(map: Seq<MemoryRegion>, n1: int, n2: int)
    requires
        map_wf(map),
        0 <= n1 < usable_frames(map).len(),
        0 <= n2 < usable_frames(map).len(),
        n1 != n2,
    ensures
        usable_frames(map)[n1] != usable_frames(map)[n2],
    decreases map.len(),
{
    let rf = region_frames(map[0]);
    let rest = map.drop_first();
    assert(map_wf(rest)) by {
        assert(forall|i: int| 0 <= i < rest.len() ==> #[trigger] rest[i] == map[i + 1]);
    }
    if n1 < rf.len() && n2 < rf.len() {
        proof_region_frame_in_range(map[0], n1);
        proof_region_frame_in_range(map[0], n2);
        assert((FRAME_SIZE as int) * n1 != (FRAME_SIZE as int) * n2);
    } else if n1 >= rf.len() && n2 >= rf.len() {
        lemma_usable_frames_distinct(rest, n1 - rf.len(), n2 - rf.len());
        assert(usable_frames(map)[n1] == usable_frames(rest)[n1 - rf.len()]);
        assert(usable_frames(map)[n2] == usable_frames(rest)[n2 - rf.len()]);
    } else {
        let (na, nb) = if n1 < rf.len() {
            (n1, n2)
        } else {
            (n2, n1)
        };
        proof_region_frame_in_range(map[0], na);
        let m = nb - rf.len();
        lemma_frames_in_regions(rest);
        assert(usable_frames(map)[nb] == usable_frames(rest)[m]);
        let i0 = choose|i0: int|
            {
                &&& 0 <= i0 < rest.len()
                &&& (#[trigger] rest[i0]).kind == MemoryRegionKind::Usable
                &&& rest[i0].start <= usable_frames(rest)[m] < rest[i0].end
            };
        assert(rest[i0] == map[i0 + 1]);
        assert(map[0].kind == MemoryRegionKind::Usable);
        assert(map[0].end <= map[i0 + 1].start || map[i0 + 1].end <= map[0].start);
    }
}

/// Map `page` onto the frame that holds the VGA text buffer, present and
/// writable, and flush.  On success every byte of the page reads through
/// to the buffer's frame; a page that is already mapped is refused with
/// the cause named, nothing mapped before is disturbed either way, and an
/// unmapped page with three frames to spare is always mapped.
pub fn create_example_mapping(
    page: u64,
    mapper: &mut paging::OffsetPageTable,
    frame_allocator: &mut BootInfoFrameAllocator,
) -> (r: Result<(), paging::MapToError>)
    requires
        old(mapper).wf(),
        page % FRAME_SIZE == 0,
        old(frame_allocator).wf(),
        old(frame_allocator).next + 3 <= usize::MAX,
    ensures
        final(mapper).wf(),
        final(frame_allocator).wf(),
        final(frame_allocator).memory_map == old(frame_allocator).memory_map,
        paging::tables_grow(*old(mapper), *final(mapper)),
        forall|w: u64|
            old(mapper).interp_entry(w).is_some() ==> final(mapper).interp_entry(w) == old(
                mapper,
            ).interp_entry(w),
        old(mapper).interp_addr(page).is_none() && usable_frames(
            old(frame_allocator).memory_map@,
        ).len() >= old(frame_allocator).next + 3 ==> r.is_ok(),
        match r {
            Ok(()) => {
                &&& old(mapper).interp_addr(page).is_none()
                &&& forall|off: u64|
                    off < FRAME_SIZE ==> #[trigger] final(mapper).interp_addr((page + off) as u64)
                        == Some((0xb8000 + off) as u64)
                &&& forall|off: u64|
                    off < FRAME_SIZE ==> #[trigger] final(mapper).interp_flags((page + off) as u64)
                        == Some((paging::PageTableFlags { present: true, writable: true }))
            },
            Err(e) => {
                &&& (e == paging::MapToError::PageAlreadyMapped || e
                    == paging::MapToError::ParentEntryHugePage ==> final(mapper).tables@ == old(
                    mapper,
                ).tables@ && old(mapper).interp_addr(page).is_some())
                &&& (e == paging::MapToError::FrameAllocationFailed ==> old(mapper).interp_addr(
                    page,
                ).is_none() && usable_frames(old(frame_allocator).memory_map@).len()
                    < final(frame_allocator).next)
            },
        },
{
    let frame: u64 = 0xb8000;
    let flags = paging::PageTableFlags { present: true, writable: true };

    match mapper.map_to(page, frame, flags, frame_allocator) {
        Ok(flush) => {
            flush.flush();
            proof {
                assert forall|off: u64| off < FRAME_SIZE implies #[trigger] mapper.interp_flags(
                    (page + off) as u64,
                ) == Some((paging::PageTableFlags { present: true, writable: true })) by {
                    assert(mapper.interp_entry((page + off) as u64) == Some(
                        (((frame + off) as u64), flags),
                    ));
                }
            }
            Ok(())
        },
        Err(e) => Err(e),
    }
}

} // verus!
