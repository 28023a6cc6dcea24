//! Frame allocation over a firmware memory map, and the four-level page
//! mapper: distinct frames, faithful translation, and the heap brought up
//! page by page.

use cometos::memory::allocator::{init_heap, HEAP_SIZE, HEAP_START};
use cometos::memory::allocator::linked_list::LinkedListAllocator;
use cometos::memory::paging::{MapToError, OffsetPageTable, PageTableEntry, PageTableFlags};
use cometos::memory::{
    create_example_mapping, BootInfoFrameAllocator, EmptyFrameAllocator, MemoryRegion,
    MemoryRegionKind,
};

fn test_map() -> Vec<MemoryRegion> {
    vec![
        MemoryRegion { start: 0x0, end: 0x4000, kind: MemoryRegionKind::InUse },
        MemoryRegion { start: 0x4000, end: 0x8000, kind: MemoryRegionKind::Usable },
        MemoryRegion { start: 0x8000, end: 0x9000, kind: MemoryRegionKind::Reserved },
        MemoryRegion { start: 0x10000, end: 0x12000, kind: MemoryRegionKind::Usable },
    ]
}

fn ample_map() -> Vec<MemoryRegion> {
    vec![MemoryRegion { start: 0x10_0000, end: 0x40_0000, kind: MemoryRegionKind::Usable }]
}

#[test]
fn empty_allocator_never_produces() {
    let mut empty = EmptyFrameAllocator;
    assert!(empty.allocate_frame().is_none());
}

#[test]
fn frames_come_from_usable_regions_in_order() {
    let mut fa = BootInfoFrameAllocator::init(test_map());
    assert_eq!(fa.allocate_frame(), Some(0x4000));
    assert_eq!(fa.allocate_frame(), Some(0x5000));
    assert_eq!(fa.allocate_frame(), Some(0x6000));
    assert_eq!(fa.allocate_frame(), Some(0x7000));
    assert_eq!(fa.allocate_frame(), Some(0x10000));
    assert_eq!(fa.allocate_frame(), Some(0x11000));
    assert_eq!(fa.allocate_frame(), None, "the map is exhausted");
}

#[test]
fn frames_are_pairwise_distinct() {
    let mut fa = BootInfoFrameAllocator::init(test_map());
    let mut seen: Vec<u64> = Vec::new();
    while let Some(frame) = fa.allocate_frame() {
        assert!(!seen.contains(&frame), "a frame was produced twice");
        seen.push(frame);
    }
    assert_eq!(seen.len(), 6);
}

#[test]
fn mapped_page_translates_to_its_frame() {
    let mut fa = BootInfoFrameAllocator::init(ample_map());
    let mut mapper = OffsetPageTable::new(0x2000, 0);
    let page: u64 = 0x4000_0000;
    let frame: u64 = 0xb000;
    let flags = PageTableFlags { present: true, writable: true };
    let flush = mapper.map_to(page, frame, flags, &mut fa).expect("map_to failed");
    flush.flush();
    assert_eq!(mapper.translate(page), Some(frame));
    assert_eq!(mapper.translate(page + 0x123), Some(frame + 0x123));
    assert_eq!(mapper.translate(page + 0xfff), Some(frame + 0xfff));
}

#[test]
fn unmapped_addresses_translate_to_nothing() {
    let mapper = OffsetPageTable::new(0x2000, 0);
    assert_eq!(mapper.translate(0x4000_0000), None);
    assert_eq!(mapper.translate(0), None);
}

#[test]
fn mapping_never_overwrites_silently() {
    let mut fa = BootInfoFrameAllocator::init(ample_map());
    let mut mapper = OffsetPageTable::new(0x2000, 0);
    let page: u64 = 0x4000_0000;
    let flags = PageTableFlags { present: true, writable: true };
    mapper.map_to(page, 0xb000, flags, &mut fa).expect("first map_to failed").flush();
    let second = mapper.map_to(page, 0xc000, flags, &mut fa);
    assert!(matches!(second, Err(MapToError::PageAlreadyMapped)));
    assert_eq!(mapper.translate(page), Some(0xb000), "the first mapping stands");
}

#[test]
fn mapping_earlier_pages_survives_later_maps() {
    let mut fa = BootInfoFrameAllocator::init(ample_map());
    let mut mapper = OffsetPageTable::new(0x2000, 0);
    let flags = PageTableFlags { present: true, writable: true };
    mapper.map_to(0x1000, 0xa000, flags, &mut fa).unwrap().flush();
    mapper.map_to(0x2000, 0xb000, flags, &mut fa).unwrap().flush();
    mapper.map_to(0x8000_0000_0000u64 >> 1, 0xc000, flags, &mut fa).unwrap().flush();
    assert_eq!(mapper.translate(0x1000), Some(0xa000));
    assert_eq!(mapper.translate(0x2000), Some(0xb000));
}

#[test]
fn walk_through_huge_mapping_is_refused() {
    let mut fa = BootInfoFrameAllocator::init(ample_map());
    let mut mapper = OffsetPageTable::new(0x2000, 0);
    let flags = PageTableFlags { present: true, writable: true };
    // create the path 0 -> level-3 table, then put a 1 GiB mapping in the
    // neighbouring level-3 slot
    mapper.map_to(0, 0xb000, flags, &mut fa).unwrap().flush();
    mapper.tables[1].entries[1] = PageTableEntry::Frame { addr: 0x4000_0000, flags };
    let huge_page: u64 = 0x4000_0000;
    let r = mapper.map_to(huge_page, 0xc000, flags, &mut fa);
    assert!(matches!(r, Err(MapToError::ParentEntryHugePage)));
    // translation goes through the huge mapping, offset and all
    assert_eq!(mapper.translate(huge_page + 0x12345), Some(0x4000_0000 + 0x12345));
}

#[test]
fn dummy_allocator_grants_nothing() {
    let dummy = cometos::memory::allocator::Dummy;
    assert!(dummy.allocate(cometos::memory::allocator::Layout::new(8, 8)).is_none());
}

#[test]
fn mapping_fails_without_frames() {
    let mut fa = BootInfoFrameAllocator::init(vec![]);
    let mut mapper = OffsetPageTable::new(0x2000, 0);
    let flags = PageTableFlags { present: true, writable: true };
    let r = mapper.map_to(0x4000_0000, 0xb000, flags, &mut fa);
    assert!(matches!(r, Err(MapToError::FrameAllocationFailed)));
}

#[test]
fn example_mapping_reaches_the_text_buffer() {
    let mut fa = BootInfoFrameAllocator::init(ample_map());
    let mut mapper = OffsetPageTable::new(0x2000, 0);
    create_example_mapping(0, &mut mapper, &mut fa).expect("mapping failed");
    assert_eq!(mapper.translate(0), Some(0xb8000));
    assert_eq!(mapper.translate(0x7ff), Some(0xb8000 + 0x7ff));
}

#[test]
fn heap_init_maps_every_heap_page() {
    let mut fa = BootInfoFrameAllocator::init(ample_map());
    let mut mapper = OffsetPageTable::new(0x2000, 0);
    let mut allocator = LinkedListAllocator::new();
    init_heap(&mut mapper, &mut fa, &mut allocator).expect("heap init failed");
    assert!(mapper.translate(HEAP_START).is_some());
    assert!(mapper.translate(HEAP_START + HEAP_SIZE / 2).is_some());
    assert!(mapper.translate(HEAP_START + HEAP_SIZE - 1).is_some());
    assert!(mapper.translate(HEAP_START + HEAP_SIZE).is_none());
    // and the allocator now owns exactly the heap
    let p = allocator.allocate(cometos::memory::allocator::Layout::new(64, 8)).unwrap();
    assert_eq!(p, HEAP_START as usize);
}

#[test]
fn heap_init_reports_frame_exhaustion() {
    let small = vec![MemoryRegion {
        start: 0x10_0000,
        end: 0x10_2000,
        kind: MemoryRegionKind::Usable,
    }];
    let mut fa = BootInfoFrameAllocator::init(small);
    let mut mapper = OffsetPageTable::new(0x2000, 0);
    let mut allocator = LinkedListAllocator::new();
    let r = init_heap(&mut mapper, &mut fa, &mut allocator);
    assert!(matches!(r, Err(MapToError::FrameAllocationFailed)));
}
