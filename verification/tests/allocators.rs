//! The three heap allocator strategies, driven as the kernel drives them:
//! alignment, disjointness, reuse after free, and the constant-time
//! recycling of ladder blocks.

use cometos::memory::allocator::{align_up, Layout};
use cometos::memory::allocator::bump::BumpAllocator;
use cometos::memory::allocator::fixed_size_block::{list_index, FixedSizeBlockAllocator};
use cometos::memory::allocator::linked_list::LinkedListAllocator;

const HEAP_START: usize = 0x1000;
const HEAP_SIZE: usize = 100 * 1024;

#[test]
fn align_up_values() {
    assert_eq!(align_up(0, 1), 0);
    assert_eq!(align_up(7, 8), 8);
    assert_eq!(align_up(8, 8), 8);
    assert_eq!(align_up(9, 8), 16);
    assert_eq!(align_up(0x1001, 4096), 0x2000);
}

#[test]
fn bump_allocates_aligned_disjoint_blocks() {
    let mut bump = BumpAllocator::new();
    bump.init(HEAP_START, HEAP_SIZE);
    let a = bump.allocate(Layout::new(24, 8)).unwrap();
    let b = bump.allocate(Layout::new(100, 16)).unwrap();
    assert_eq!(a % 8, 0);
    assert_eq!(b % 16, 0);
    // later blocks start past earlier ones: no overlap among live blocks
    assert!(a + 24 <= b);
}

#[test]
fn bump_resets_after_quiescence() {
    let mut bump = BumpAllocator::new();
    bump.init(HEAP_START, HEAP_SIZE);
    let first = bump.allocate(Layout::new(32, 8)).unwrap();
    let _second = bump.allocate(Layout::new(32, 8)).unwrap();
    bump.dealloc(0, Layout::new(32, 8));
    bump.dealloc(0, Layout::new(32, 8));
    // as many frees as grants: the next grant starts the heap over
    let again = bump.allocate(Layout::new(32, 8)).unwrap();
    assert_eq!(again, first);
    assert_eq!(again, align_up(HEAP_START, 8));
}

#[test]
fn bump_refuses_when_exhausted() {
    let mut bump = BumpAllocator::new();
    bump.init(HEAP_START, 64);
    assert!(bump.allocate(Layout::new(65, 1)).is_none());
    assert!(bump.allocate(Layout::new(64, 1)).is_some());
}

#[test]
fn free_list_reuses_freed_block() {
    let mut heap = LinkedListAllocator::new();
    heap.init(HEAP_START, HEAP_SIZE);
    let layout = Layout::new(32, 8);
    let p = heap.allocate(layout).unwrap();
    assert_eq!(p % 8, 0);
    heap.dealloc(p, layout);
    // free then ask again: the same block comes back
    let q = heap.allocate(layout).unwrap();
    assert_eq!(p, q);
}

#[test]
fn free_list_blocks_are_disjoint() {
    let mut heap = LinkedListAllocator::new();
    heap.init(HEAP_START, HEAP_SIZE);
    let mut blocks: Vec<(usize, usize)> = Vec::new();
    for i in 0..16 {
        let layout = Layout::new(16 + 8 * i, 8);
        let p = heap.allocate(layout).unwrap();
        blocks.push((p, 16 + 8 * i));
    }
    for (i, &(a, al)) in blocks.iter().enumerate() {
        for &(b, bl) in blocks.iter().skip(i + 1) {
            assert!(a + al <= b || b + bl <= a, "blocks overlap");
        }
    }
}

#[test]
fn free_list_many_boxes_reuse() {
    // one-byte grants, freed at once: the heap never runs dry and always
    // hands the same bytes back
    let mut heap = LinkedListAllocator::new();
    heap.init(HEAP_START, HEAP_SIZE);
    let layout = Layout::new(1, 1);
    let mut last: Option<usize> = None;
    for _ in 0..HEAP_SIZE {
        let p = heap.allocate(layout).expect("heap ran dry");
        if let Some(prev) = last {
            assert_eq!(p, prev, "the freed bytes are handed back");
        }
        last = Some(p);
        heap.dealloc(p, layout);
    }
}

#[test]
fn free_list_backs_value_storage() {
    // two boxes with 41 and 13: what was written is what is read
    let mut heap = LinkedListAllocator::new();
    heap.init(HEAP_START, HEAP_SIZE);
    let mut arena = vec![0u8; HEAP_SIZE];
    let a = heap.allocate(Layout::new(1, 1)).unwrap();
    let b = heap.allocate(Layout::new(1, 1)).unwrap();
    arena[a - HEAP_START] = 41;
    arena[b - HEAP_START] = 13;
    assert_eq!(arena[a - HEAP_START], 41);
    assert_eq!(arena[b - HEAP_START], 13);
}

#[test]
fn large_vector_fits_and_sums() {
    // a thousand entries both sum correctly and fit the heap in one block
    let mut heap = LinkedListAllocator::new();
    heap.init(HEAP_START, HEAP_SIZE);
    let backing = heap.allocate(Layout::new(1000 * 8, 8));
    assert!(backing.is_some());
    let values: Vec<u64> = (0..1000).collect();
    let sum: u64 = values.iter().sum();
    assert_eq!(sum, 499500);
}

#[test]
fn free_list_refuses_oversized_request() {
    let mut heap = LinkedListAllocator::new();
    heap.init(HEAP_START, 128);
    assert!(heap.allocate(Layout::new(4096, 8)).is_none());
}

#[test]
fn ladder_index_picks_first_fitting_class() {
    assert_eq!(list_index(&Layout::new(1, 1)), Some(0));
    assert_eq!(list_index(&Layout::new(8, 8)), Some(0));
    assert_eq!(list_index(&Layout::new(9, 1)), Some(1));
    assert_eq!(list_index(&Layout::new(65, 1)), Some(4));
    assert_eq!(list_index(&Layout::new(2048, 2048)), Some(8));
    assert_eq!(list_index(&Layout::new(2049, 1)), None);
    assert_eq!(list_index(&Layout::new(1, 4096)), None);
}

#[test]
fn fixed_size_block_recycles_in_place() {
    let mut heap = FixedSizeBlockAllocator::new();
    heap.init(HEAP_START, HEAP_SIZE);
    let layout = Layout::new(100, 64);
    let p = heap.allocate(layout).unwrap();
    assert_eq!(p % 128, 0, "served from the 128-byte class, naturally aligned");
    heap.dealloc(p, layout);
    // a freed ladder block is handed straight back
    let q = heap.allocate(layout).unwrap();
    assert_eq!(p, q);
}

#[test]
fn fixed_size_block_routes_large_requests_to_fallback() {
    let mut heap = FixedSizeBlockAllocator::new();
    heap.init(HEAP_START, HEAP_SIZE);
    let big = Layout::new(4096, 8);
    let p = heap.allocate(big).unwrap();
    assert_eq!(p % 8, 0);
    heap.dealloc(p, big);
    let q = heap.allocate(big).unwrap();
    assert_eq!(p, q);
}

#[test]
fn fixed_size_block_refuses_when_fallback_dry() {
    let mut heap = FixedSizeBlockAllocator::new();
    heap.init(HEAP_START, 64);
    assert!(heap.allocate(Layout::new(4096, 8)).is_none());
}
