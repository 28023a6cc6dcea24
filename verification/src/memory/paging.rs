//! Four-level x86_64 page tables, modelled as a store of tables indexed by
//! position: the active level-4 table sits at the root, entries name either
//! the next table, a mapped frame, or nothing.  Mapping installs a frame at
//! the leaf of a page's path, allocating the missing intermediate tables on
//! the way; translation walks the same path down.

use vstd::prelude::*;
use crate::memory::{usable_frames, BootInfoFrameAllocator, FRAME_SIZE};

verus! {

/// Entries per page table: 512 eight-byte entries fill one 4 KiB page.
pub const ENTRY_COUNT: usize = 512;

/// The flags a mapping carries.  A mapped entry is always present; the
/// kernel maps its pages writable.
#[derive(Debug, Clone, Copy, PartialEq, Eq, Structural)]
pub struct PageTableFlags {
    pub present: bool,
    pub writable: bool,
}

/// One entry of a page table.
#[derive(Debug, Clone, Copy, PartialEq, Eq, Structural)]
pub enum PageTableEntry {
    /// Nothing mapped along this slot.
    Empty,
    /// The next-level table, by its position in the mapper's table store.
    Table { index: usize },
    /// A mapped frame: a 4 KiB leaf at level 1, a huge mapping at level 2
    /// (2 MiB) or level 3 (1 GiB).
    Frame { addr: u64, flags: PageTableFlags },
}

/// One page table: its own physical frame address, the level it serves
/// (4 down to 1), and its 512 entries.
pub struct PageTable {
    pub phys: u64,
    pub level: usize,
    pub entries: Vec<PageTableEntry>,
}

/// Why a mapping could not be installed.
#[derive(Debug, Clone, Copy, PartialEq, Eq, Structural)]
pub enum MapToError {
    /// The frame allocator ran dry while a missing intermediate table
    /// needed a fresh frame.
    FrameAllocationFailed,
    /// The page already has a frame: an existing mapping is never silently
    /// overwritten.
    PageAlreadyMapped,
    /// The walk ran into a huge mapping; there is no level-1 entry to fill.
    ParentEntryHugePage,
}

/// Proof of a pending change to the active address space: the hardware
/// translation cache must be flushed for the new mapping to be observed.
#[derive(Debug, Clone, Copy, PartialEq, Eq, Structural)]
pub struct MapperFlush {
    pub page: u64,
}

impl MapperFlush {
    /// Flush the mapped page from the translation cache.  The model keeps
    /// no cache, so observing the mapping needs nothing further; on the
    /// hardware this is where `invlpg` runs.
    pub fn flush(self) {
    }
}

/// The index a virtual address selects at each level of the walk: nine
/// bits, starting at bit 39 for level 4 down to bit 12 for level 1.
pub open spec fn spec_table_index(vaddr: u64, level: int) -> int {
    if level == 4 {
        ((vaddr >> 39) & 0x1ff) as int
    } else if level == 3 {
        ((vaddr >> 30) & 0x1ff) as int
    } else if level == 2 {
        ((vaddr >> 21) & 0x1ff) as int
    } else {
        ((vaddr >> 12) & 0x1ff) as int
    }
}

/// Each level's index is nine bits wide.
pub proof fn lemma_table_index_bounds(vaddr: u64)
    by (bit_vector)
    ensures
        0 <= ((vaddr >> 39) & 0x1ff) < 512,
        0 <= ((vaddr >> 30) & 0x1ff) < 512,
        0 <= ((vaddr >> 21) & 0x1ff) < 512,
        0 <= ((vaddr >> 12) & 0x1ff) < 512,
{
}

/// A 4 KiB-aligned address leaves room for a full page above it.
proof fn lemma_aligned_4k_bound(a: u64)
    by (bit_vector)
    requires
        a % 4096 == 0,
    ensures
        a <= 0xffff_ffff_ffff_f000u64,
{
}

/// A 2 MiB-aligned address leaves room for a full huge page above it.
proof fn lemma_aligned_2m_bound(a: u64)
    by (bit_vector)
    requires
        a % 0x20_0000 == 0,
    ensures
        a <= 0xffff_ffff_ffe0_0000u64,
{
}

/// A 1 GiB-aligned address leaves room for a full giant page above it.
proof fn lemma_aligned_1g_bound(a: u64)
    by (bit_vector)
    requires
        a % 0x4000_0000 == 0,
    ensures
        a <= 0xffff_ffff_c000_0000u64,
{
}

/// The page offset is below the page size.
proof fn lemma_offset_bounds(vaddr: u64)
    by (bit_vector)
    ensures
        (vaddr & 0xfff) < 4096,
        (vaddr & 0x1f_ffff) < 0x20_0000,
        (vaddr & 0x3fff_ffff) < 0x4000_0000,
{
}

/// The table a `Table` entry points at, or -1 for the other entries.
pub open spec fn entry_child(e: PageTableEntry) -> int {
    match e {
        PageTableEntry::Table { index } => index as int,
        _ => -1,
    }
}

/// The mapper over the active level-4 table: the table store, rooted at
/// position 0, and the fixed offset at which all physical memory is
/// visible in the virtual address space.
pub struct OffsetPageTable {
    pub tables: Vec<PageTable>,
    pub physical_memory_offset: u64,
}

impl OffsetPageTable {
    /// The shape every reachable state keeps: the root is the level-4
    /// table; tables are full and carry sensible levels; a `Table` entry
    /// points below itself in level, never at the root, and no two entries
    /// share a child; mapped frames are aligned to their mapping size and
    /// present, and never sit at level 4.
    pub open spec fn wf(self) -> bool {
        &&& self.tables@.len() >= 1
        &&& self.tables@[0].level == 4
        &&& forall|t: int|
            0 <= t < self.tables@.len() ==> {
                &&& (#[trigger] self.tables@[t]).entries@.len() == ENTRY_COUNT
                &&& 1 <= self.tables@[t].level <= 4
            }
        &&& forall|t: int, e: int|
            0 <= t < self.tables@.len() && 0 <= e < ENTRY_COUNT ==> match (
            #[trigger] self.tables@[t].entries@[e]) {
                PageTableEntry::Table { index } => {
                    &&& self.tables@[t].level > 1
                    &&& 1 <= index < self.tables@.len()
                    &&& self.tables@[index as int].level == self.tables@[t].level - 1
                },
                PageTableEntry::Frame { addr, flags } => {
                    &&& flags.present
                    &&& self.tables@[t].level < 4
                    &&& (self.tables@[t].level == 1 ==> addr % 4096 == 0)
                    &&& (self.tables@[t].level == 2 ==> addr % 0x20_0000 == 0)
                    &&& (self.tables@[t].level == 3 ==> addr % 0x4000_0000 == 0)
                },
                PageTableEntry::Empty => true,
            }
        &&& forall|t1: int, e1: int, t2: int, e2: int|
            {
                &&& 0 <= t1 < self.tables@.len()
                &&& 0 <= e1 < ENTRY_COUNT
                &&& 0 <= t2 < self.tables@.len()
                &&& 0 <= e2 < ENTRY_COUNT
                &&& (t1 != t2 || e1 != e2)
                &&& entry_child(#[trigger] self.tables@[t1].entries@[e1]) >= 0
                &&& entry_child(#[trigger] self.tables@[t2].entries@[e2]) >= 0
            } ==> entry_child(self.tables@[t1].entries@[e1]) != entry_child(
                self.tables@[t2].entries@[e2],
            )
    }

    /// Walk from table `t` at `level` down to whatever `vaddr` reaches:
    /// the physical address it translates to and the flags of the mapping
    /// it goes through, or nothing.
    pub open spec fn resolve_from(self, t: int, level: int, vaddr: u64) -> Option<
        (u64, PageTableFlags),
    >
        decreases level,
    {
        if level < 1 || !(0 <= t < self.tables@.len()) {
            None
        } else {
            let idx = spec_table_index(vaddr, level);
            match self.tables@[t].entries@[idx] {
                PageTableEntry::Empty => None,
                PageTableEntry::Table { index } => if level > 1 {
                    self.resolve_from(index as int, (level - 1) as int, vaddr)
                } else {
                    None
                },
                PageTableEntry::Frame { addr, flags } => if level == 1 {
                    Some((((addr + (vaddr & 0xfff)) as u64), flags))
                } else if level == 2 {
                    Some((((addr + (vaddr & 0x1f_ffff)) as u64), flags))
                } else if level == 3 {
                    Some((((addr + (vaddr & 0x3fff_ffff)) as u64), flags))
                } else {
                    None
                },
            }
        }
    }

    /// The physical address and flags `vaddr` translates to.
    pub open spec fn interp_entry(self, vaddr: u64) -> Option<(u64, PageTableFlags)> {
        self.resolve_from(0, 4, vaddr)
    }

    /// The flags of the mapping `vaddr` goes through, if any.
    pub open spec fn interp_flags(self, vaddr: u64) -> Option<PageTableFlags> {
        match self.resolve_from(0, 4, vaddr) {
            Some(entry) => Some(entry.1),
            None => None,
        }
    }

    /// The physical address `vaddr` translates to under this mapper.
    pub open spec fn interp_addr(self, vaddr: u64) -> Option<u64> {
        match self.resolve_from(0, 4, vaddr) {
            Some(entry) => Some(entry.0),
            None => None,
        }
    }

    /// A mapper over a fresh, empty level-4 table at physical `l4_phys`.
    /// Nothing is mapped yet.
    pub fn new(l4_phys: u64, physical_memory_offset: u64) -> (r: OffsetPageTable)
        ensures
            r.wf(),
            r.physical_memory_offset == physical_memory_offset,
            r.tables@.len() == 1,
            forall|v: u64| r.interp_addr(v).is_none(),
    {
        let root = empty_table(l4_phys, 4);
        let mut tables: Vec<PageTable> = Vec::new();
        tables.push(root);
        let r = OffsetPageTable { tables, physical_memory_offset };
        proof {
            assert forall|v: u64| r.interp_addr(v).is_none() by {
                lemma_table_index_bounds(v);
            }
        }
        r
    }

    /// Walk the four levels for `vaddr` and report the physical address it
    /// maps to — through a huge mapping where one stands — or `None` where
    /// the path ends early.
    pub fn translate(&self, vaddr: u64) -> (r: Option<u64>)
        requires
            self.wf(),
        ensures
            r == self.interp_addr(vaddr),
    {
        proof {
            lemma_table_index_bounds(vaddr);
            lemma_offset_bounds(vaddr);
        }
        let mut t: usize = 0;
        let mut level: usize = 4;
        loop
            invariant
                self.wf(),
                1 <= level <= 4,
                t < self.tables.len(),
                self.tables@[t as int].level == level,
                self.resolve_from(0, 4, vaddr) == self.resolve_from(t as int, level as int, vaddr),
            decreases level,
        {
            proof {
                lemma_table_index_bounds(vaddr);
                lemma_offset_bounds(vaddr);
            }
            let idx = table_index(vaddr, level);
            let entry = self.tables[t].entries[idx];
            match entry {
                PageTableEntry::Empty => {
                    return None;
                },
                PageTableEntry::Table { index } => {
                    if level == 1 {
                        return None;
                    }
                    t = index;
                    level = level - 1;
                },
                PageTableEntry::Frame { addr, flags: _ } => {
                    if level == 1 {
                        proof {
                            lemma_aligned_4k_bound(addr);
                        }
                        return Some(addr + (vaddr & 0xfff));
                    } else if level == 2 {
                        proof {
                            lemma_aligned_2m_bound(addr);
                        }
                        return Some(addr + (vaddr & 0x1f_ffff));
                    } else if level == 3 {
                        proof {
                            lemma_aligned_1g_bound(addr);
                        }
                        return Some(addr + (vaddr & 0x3fff_ffff));
                    } else {
                        return None;
                    }
                },
            }
        }
    }
}

/// The running counterpart of [`spec_table_index`].
pub fn table_index(vaddr: u64, level: usize) -> (r: usize)
    requires
        1 <= level <= 4,
    ensures
        r == spec_table_index(vaddr, level as int),
        r < ENTRY_COUNT,
{
    proof {
        lemma_table_index_bounds(vaddr);
    }
    if level == 4 {
        ((vaddr >> 39) & 0x1ff) as usize
    } else if level == 3 {
        ((vaddr >> 30) & 0x1ff) as usize
    } else if level == 2 {
        ((vaddr >> 21) & 0x1ff) as usize
    } else {
        ((vaddr >> 12) & 0x1ff) as usize
    }
}

/// A table of the given level whose entries are all empty.
fn empty_table(phys: u64, level: usize) -> (r: PageTable)
    ensures
        r.phys == phys,
        r.level == level,
        r.entries@.len() == ENTRY_COUNT,
        forall|e: int| 0 <= e < ENTRY_COUNT ==> r.entries@[e] == PageTableEntry::Empty,
{
    let mut entries: Vec<PageTableEntry> = Vec::new();
    let mut i: usize = 0;
    while i < ENTRY_COUNT
        invariant
            i <= ENTRY_COUNT,
            entries@.len() == i,
            forall|e: int| 0 <= e < i ==> entries@[e] == PageTableEntry::Empty,
        decreases ENTRY_COUNT - i,
    {
        entries.push(PageTableEntry::Empty);
        i = i + 1;
    }
    PageTable { phys, level, entries }
}

/// Between two states of the mapper, tables only grow: no existing table
/// disappears or changes level, and a slot changes only if it was empty.
pub open spec fn tables_grow(pre: OffsetPageTable, post: OffsetPageTable) -> bool {
    &&& pre.tables@.len() <= post.tables@.len()
    &&& forall|u: int|
        0 <= u < pre.tables@.len() ==> {
            &&& (#[trigger] post.tables@[u]).level == pre.tables@[u].level
            &&& post.tables@[u].entries@.len() == pre.tables@[u].entries@.len()
        }
    &&& forall|u: int, e: int|
        0 <= u < pre.tables@.len() && 0 <= e < pre.tables@[u].entries@.len() ==> {
            ||| (#[trigger] post.tables@[u].entries@[e]) == pre.tables@[u].entries@[e]
            ||| pre.tables@[u].entries@[e] == PageTableEntry::Empty
        }
}

/// Growing is transitive.
pub proof fn lemma_tables_grow_trans(a: OffsetPageTable, b: OffsetPageTable, c: OffsetPageTable)
    requires
        tables_grow(a, b),
        tables_grow(b, c),
    ensures
        tables_grow(a, c),
{
    assert forall|u: int, e: int|
        0 <= u < a.tables@.len() && 0 <= e < a.tables@[u].entries@.len() implies {
        ||| (#[trigger] c.tables@[u].entries@[e]) == a.tables@[u].entries@[e]
        ||| a.tables@[u].entries@[e] == PageTableEntry::Empty
    } by {
        assert(b.tables@[u].entries@[e] == a.tables@[u].entries@[e] || a.tables@[u].entries@[e]
            == PageTableEntry::Empty);
        assert(c.tables@[u].entries@[e] == b.tables@[u].entries@[e] || b.tables@[u].entries@[e]
            == PageTableEntry::Empty);
    }
}

/// What already translates keeps translating, unchanged, across a growing
/// step: the walk of a resolving address reads only non-empty slots, and
/// growing never touches those.
pub proof fn lemma_resolve_monotonic(
    pre: OffsetPageTable,
    post: OffsetPageTable,
    t: int,
    level: int,
    w: u64,
)
    requires
        pre.wf(),
        tables_grow(pre, post),
        0 <= t < pre.tables@.len(),
        1 <= level <= 4,
        pre.resolve_from(t, level, w).is_some(),
    ensures
        post.resolve_from(t, level, w) == pre.resolve_from(t, level, w),
    decreases level,
{
    lemma_table_index_bounds(w);
    let idx = spec_table_index(w, level);
    let entry = pre.tables@[t].entries@[idx];
    assert(post.tables@[t].entries@[idx] == entry);
    match entry {
        PageTableEntry::Empty => {
            assert(false);
        },
        PageTableEntry::Table { index } => {
            assert(level > 1);
            assert(1 <= index < pre.tables@.len());
            lemma_resolve_monotonic(pre, post, index as int, level - 1, w);
        },
        PageTableEntry::Frame { .. } => {},
    }
}

/// Within one 4 KiB page, every byte walks the same path: the four indices
/// match the page's, and the low twelve bits are the byte's offset.
proof fn lemma_same_page_indices(page: u64, off: u64)
    by (bit_vector)
    requires
        page % 4096 == 0,
        off < 4096,
    ensures
        ((page + off) as u64 >> 39) & 0x1ff == (page >> 39) & 0x1ff,
        ((page + off) as u64 >> 30) & 0x1ff == (page >> 30) & 0x1ff,
        ((page + off) as u64 >> 21) & 0x1ff == (page >> 21) & 0x1ff,
        ((page + off) as u64 >> 12) & 0x1ff == (page >> 12) & 0x1ff,
        ((page + off) as u64 & 0xfff) == off,
        page + off <= u64::MAX,
{
}


/// Two addresses walk the same four-level path: their indices agree at
/// every level.  Addresses of one page always do; so do their aliases
/// above bit 47, which the walk does not read.
pub open spec fn same_page_path(w: u64, p: u64) -> bool {
    forall|l: int| 1 <= l <= 4 ==> spec_table_index(w, l) == spec_table_index(p, l)
}

/// What one walk step left behind, per [`OffsetPageTable::ensure_table`]'s
/// success: either the slot already pointed at `child` and nothing moved,
/// or the slot was empty and a fresh, empty `child` was appended behind it.
spec fn table_step_rel(
    pre: OffsetPageTable,
    post: OffsetPageTable,
    t: int,
    idx: int,
    child: usize,
) -> bool {
    ||| {
        &&& pre.tables@[t].entries@[idx] == (PageTableEntry::Table { index: child })
        &&& post.tables@ == pre.tables@
    }
    ||| {
        &&& pre.tables@[t].entries@[idx] == PageTableEntry::Empty
        &&& child as int == pre.tables@.len()
        &&& post.tables@.len() == pre.tables@.len() + 1
        &&& (forall|e: int|
            0 <= e < ENTRY_COUNT ==> post.tables@[child as int].entries@[e]
                == PageTableEntry::Empty)
        &&& post.tables@[t].entries@ == pre.tables@[t].entries@.update(
            idx,
            (PageTableEntry::Table { index: child }),
        )
        &&& (forall|u: int|
            0 <= u < pre.tables@.len() && u != t ==> post.tables@[u] == pre.tables@[u])
    }
}

/// Chaining the three walk steps and the leaf write yields the off-path
/// shape: slot changes confined to the page's walk, fresh tables empty off
/// it, and every changed slot previously empty.
#[verifier::rlimit(100)]
proof fn lemma_establish_off_path_shape(
    s0: OffsetPageTable,
    s1: OffsetPageTable,
    s2: OffsetPageTable,
    s3: OffsetPageTable,
    post: OffsetPageTable,
    page: u64,
    t3: usize,
    t2: usize,
    t1: usize,
    frame: u64,
    flags: PageTableFlags,
)
    requires
        s0.wf(),
        s1.wf(),
        s2.wf(),
        s3.wf(),
        post.wf(),
        tables_grow(s0, s1),
        tables_grow(s1, s2),
        tables_grow(s2, s3),
        tables_grow(s3, post),
        table_step_rel(s0, s1, 0, spec_table_index(page, 4), t3),
        s1.tables@[t3 as int].level == 3,
        t3 < s1.tables@.len(),
        table_step_rel(s1, s2, t3 as int, spec_table_index(page, 3), t2),
        s2.tables@[t2 as int].level == 2,
        t2 < s2.tables@.len(),
        table_step_rel(s2, s3, t2 as int, spec_table_index(page, 2), t1),
        s3.tables@[t1 as int].level == 1,
        t1 < s3.tables@.len(),
        s3.tables@[t1 as int].entries@[spec_table_index(page, 1)] == PageTableEntry::Empty,
        post.tables@.len() == s3.tables@.len(),
        post.tables@[t1 as int].entries@ == s3.tables@[t1 as int].entries@.update(
            spec_table_index(page, 1),
            (PageTableEntry::Frame { addr: frame, flags }),
        ),
        forall|u: int|
            0 <= u < s3.tables@.len() && u != t1 ==> post.tables@[u] == s3.tables@[u],
        post.tables@[0].entries@[spec_table_index(page, 4)] == (PageTableEntry::Table {
            index: t3,
        }),
        post.tables@[t3 as int].entries@[spec_table_index(page, 3)] == (PageTableEntry::Table {
            index: t2,
        }),
        post.tables@[t2 as int].entries@[spec_table_index(page, 2)] == (PageTableEntry::Table {
            index: t1,
        }),
    ensures
        off_path_shape(s0, post, page, t3, t2, t1),
{
    lemma_table_index_bounds(page);
    let n0 = s0.tables@.len() as int;
    let i4 = spec_table_index(page, 4);
    let i3 = spec_table_index(page, 3);
    let i2 = spec_table_index(page, 2);
    let i1 = spec_table_index(page, 1);
    assert(post.tables@[t3 as int].level == 3);
    assert(post.tables@[t2 as int].level == 2);
    assert(post.tables@[t1 as int].level == 1);
    assert forall|u: int, e: int|
        0 <= u < n0 && 0 <= e < ENTRY_COUNT && !(u == 0 && e == i4) && !(u == t3 as int && e
            == i3) && !(u == t2 as int && e == i2) && !(u == t1 as int && e == i1) implies
        #[trigger] post.tables@[u].entries@[e] == s0.tables@[u].entries@[e] by {
        if s0.tables@[0].entries@[i4] == PageTableEntry::Empty {
            assert(s1.tables@[u].entries@[e] == s0.tables@[u].entries@[e]);
        } else {
            assert(s1.tables@ == s0.tables@);
        }
        if s1.tables@[t3 as int].entries@[i3] == PageTableEntry::Empty {
            assert(s2.tables@[u].entries@[e] == s1.tables@[u].entries@[e]);
        } else {
            assert(s2.tables@ == s1.tables@);
        }
        if s2.tables@[t2 as int].entries@[i2] == PageTableEntry::Empty {
            assert(s3.tables@[u].entries@[e] == s2.tables@[u].entries@[e]);
        } else {
            assert(s3.tables@ == s2.tables@);
        }
        assert(post.tables@[u].entries@[e] == s3.tables@[u].entries@[e]);
    }
    if t3 as int >= n0 {
        assert(t3 as int == n0);
        assert(s1.tables@[t3 as int].entries@[i3] == PageTableEntry::Empty);
        assert(t2 as int == s1.tables@.len());
    }
    if t2 as int >= n0 {
        assert(t2 as int >= s1.tables@.len() || s1.tables@.len() > n0);
        assert(s2.tables@[t2 as int].entries@[i2] == PageTableEntry::Empty);
        assert(t1 as int == s2.tables@.len());
    }
    assert forall|u: int|
        n0 <= u < post.tables@.len() implies ((#[trigger] post.tables@[u]).level == 3 && u
        == t3 as int) || (post.tables@[u].level == 2 && u == t2 as int) || (post.tables@[u].level
        == 1 && u == t1 as int) by {
        if u < s1.tables@.len() as int {
            assert(u == t3 as int);
        } else if u < s2.tables@.len() as int {
            assert(u == t2 as int);
        } else {
            assert(u < s3.tables@.len() as int);
            assert(u == t1 as int);
        }
    }
    assert forall|u: int, e: int|
        n0 <= u < post.tables@.len() && 0 <= e < ENTRY_COUNT && !(u == t3 as int && e == i3) && !(
        u == t2 as int && e == i2) && !(u == t1 as int && e == i1) implies
        #[trigger] post.tables@[u].entries@[e] == PageTableEntry::Empty by {
        if u == t3 as int {
            assert(s1.tables@[u].entries@[e] == PageTableEntry::Empty);
            assert(s2.tables@[u].entries@[e] == s1.tables@[u].entries@[e]);
            assert(s3.tables@[u].entries@[e] == s2.tables@[u].entries@[e]);
            assert(post.tables@[u].entries@[e] == s3.tables@[u].entries@[e]);
        } else if u == t2 as int {
            assert(s2.tables@[u].entries@[e] == PageTableEntry::Empty);
            assert(s3.tables@[u].entries@[e] == s2.tables@[u].entries@[e]);
            assert(post.tables@[u].entries@[e] == s3.tables@[u].entries@[e]);
        } else {
            assert(u == t1 as int);
            assert(s3.tables@[u].entries@[e] == PageTableEntry::Empty);
            assert(post.tables@[u].entries@[e] == s3.tables@[u].entries@[e]);
        }
    }
    assert(s0.tables@[0].entries@[i4] == post.tables@[0].entries@[i4] || (
    s0.tables@[0].entries@[i4] == PageTableEntry::Empty && t3 as int >= n0));
    assert((t3 as int) < n0 ==> s0.tables@[t3 as int].entries@[i3] == post.tables@[
        t3 as int
    ].entries@[i3] || (s0.tables@[t3 as int].entries@[i3] == PageTableEntry::Empty && t2 as int
        >= n0));
    assert((t2 as int) < n0 ==> s0.tables@[t2 as int].entries@[i2] == post.tables@[
        t2 as int
    ].entries@[i2] || (s0.tables@[t2 as int].entries@[i2] == PageTableEntry::Empty && t1 as int
        >= n0));
    assert((t1 as int) < n0 ==> s0.tables@[t1 as int].entries@[i1] == post.tables@[
        t1 as int
    ].entries@[i1] || s0.tables@[t1 as int].entries@[i1] == PageTableEntry::Empty);
}

/// The shape a mapping step leaves the table store in, relative to the
/// page's walk: lengths only grow, levels stand, every slot off the walk
/// stands, the walk's own slots point down it, appended tables are the
/// walk's own and empty off their one filled slot, tables are appended
/// top-down, and each walk slot either stood already or was empty with a
/// fresh table behind it.
spec fn off_path_shape(
    pre: OffsetPageTable,
    post: OffsetPageTable,
    page: u64,
    t3: usize,
    t2: usize,
    t1: usize,
) -> bool {
    &&& pre.wf()
    &&& post.wf()
    &&& pre.tables@.len() <= post.tables@.len()
    &&& (forall|u: int|
        0 <= u < pre.tables@.len() ==> (#[trigger] post.tables@[u]).level == pre.tables@[u].level)
    &&& (forall|u: int, e: int|
        0 <= u < pre.tables@.len() && 0 <= e < ENTRY_COUNT && !(u == 0 && e == spec_table_index(
            page,
            4,
        )) && !(u == t3 && e == spec_table_index(page, 3)) && !(u == t2 && e == spec_table_index(
            page,
            2,
        )) && !(u == t1 && e == spec_table_index(page, 1)) ==> #[trigger] post.tables@[
            u
        ].entries@[e] == pre.tables@[u].entries@[e])
    &&& t3 < post.tables@.len() && post.tables@[t3 as int].level == 3
    &&& t2 < post.tables@.len() && post.tables@[t2 as int].level == 2
    &&& t1 < post.tables@.len() && post.tables@[t1 as int].level == 1
    &&& post.tables@[0].entries@[spec_table_index(page, 4)] == (PageTableEntry::Table {
        index: t3,
    })
    &&& post.tables@[t3 as int].entries@[spec_table_index(page, 3)] == (PageTableEntry::Table {
        index: t2,
    })
    &&& post.tables@[t2 as int].entries@[spec_table_index(page, 2)] == (PageTableEntry::Table {
        index: t1,
    })
    &&& (forall|u: int|
        pre.tables@.len() <= u < post.tables@.len() ==> ((#[trigger] post.tables@[u]).level == 3
            && u == t3) || (post.tables@[u].level == 2 && u == t2) || (post.tables@[u].level == 1
            && u == t1))
    &&& (forall|u: int, e: int|
        pre.tables@.len() <= u < post.tables@.len() && 0 <= e < ENTRY_COUNT && !(u == t3 && e
            == spec_table_index(page, 3)) && !(u == t2 && e == spec_table_index(page, 2)) && !(u
            == t1 && e == spec_table_index(page, 1)) ==> #[trigger] post.tables@[u].entries@[e]
            == PageTableEntry::Empty)
    &&& (t3 >= pre.tables@.len() ==> t2 >= pre.tables@.len())
    &&& (t2 >= pre.tables@.len() ==> t1 >= pre.tables@.len())
    &&& (pre.tables@[0].entries@[spec_table_index(page, 4)] == post.tables@[0].entries@[
        spec_table_index(page, 4)
    ] || (pre.tables@[0].entries@[spec_table_index(page, 4)] == PageTableEntry::Empty && t3
        >= pre.tables@.len()))
    &&& (t3 < pre.tables@.len() ==> pre.tables@[t3 as int].entries@[spec_table_index(page, 3)]
        == post.tables@[t3 as int].entries@[spec_table_index(page, 3)] || (pre.tables@[
        t3 as int
    ].entries@[spec_table_index(page, 3)] == PageTableEntry::Empty && t2 >= pre.tables@.len()))
    &&& (t2 < pre.tables@.len() ==> pre.tables@[t2 as int].entries@[spec_table_index(page, 2)]
        == post.tables@[t2 as int].entries@[spec_table_index(page, 2)] || (pre.tables@[
        t2 as int
    ].entries@[spec_table_index(page, 2)] == PageTableEntry::Empty && t1 >= pre.tables@.len()))
    &&& (t1 < pre.tables@.len() ==> pre.tables@[t1 as int].entries@[spec_table_index(page, 1)]
        == post.tables@[t1 as int].entries@[spec_table_index(page, 1)] || pre.tables@[
        t1 as int
    ].entries@[spec_table_index(page, 1)] == PageTableEntry::Empty)
}

/// An address whose path diverges from the freshly mapped page resolves in
/// the grown mapper exactly as it did before: the mapping step only filled
/// empty slots on the page's own path and appended fresh tables reachable
/// nowhere else.
proof fn lemma_resolve_unchanged_off_path(
    pre: OffsetPageTable,
    post: OffsetPageTable,
    page: u64,
    t3: usize,
    t2: usize,
    t1: usize,
    t: int,
    level: int,
    w: u64,
)
    requires
        off_path_shape(pre, post, page, t3, t2, t1),
        1 <= level <= 4,
        0 <= t < post.tables@.len(),
        post.tables@[t].level == level,
        (t == (if level == 4 {
            0int
        } else if level == 3 {
            t3 as int
        } else if level == 2 {
            t2 as int
        } else {
            t1 as int
        })) ==> exists|l: int|
            1 <= l <= level && spec_table_index(w, l) != spec_table_index(page, l),
    ensures
        post.resolve_from(t, level, w) == pre.resolve_from(t, level, w),
    decreases level,
{
    lemma_table_index_bounds(w);
    lemma_table_index_bounds(page);
    let wi = spec_table_index(w, level);
    let pi = spec_table_index(page, level);
    let pt: int = if level == 4 {
        0int
    } else if level == 3 {
        t3 as int
    } else if level == 2 {
        t2 as int
    } else {
        t1 as int
    };
    // the path tables of the other levels cannot be this table: their
    // levels differ
    assert(level != 4 ==> t != 0);
    assert(level != 3 ==> t != t3 as int);
    assert(level != 2 ==> t != t2 as int);
    assert(level != 1 ==> t != t1 as int);
    if t >= pre.tables@.len() {
        // a fresh table is one of the path tables, so it is this level's
        assert(t == pt);
        assert(pre.resolve_from(t, level, w).is_none());
        if wi != pi {
            assert(post.tables@[t].entries@[wi] == PageTableEntry::Empty);
        } else {
            let l0 = choose|l: int|
                1 <= l <= level && spec_table_index(w, l) != spec_table_index(page, l);
            assert(l0 < level);
            assert(level > 1);
            let child: int = if level == 4 {
                t3 as int
            } else if level == 3 {
                t2 as int
            } else {
                t1 as int
            };
            assert(post.tables@[t].entries@[pi] == (PageTableEntry::Table {
                index: child as usize,
            }));
            assert(child >= pre.tables@.len());
            lemma_resolve_unchanged_off_path(pre, post, page, t3, t2, t1, child, level - 1, w);
            assert(pre.resolve_from(child, level - 1, w).is_none());
        }
    } else {
        if t != pt || wi != pi {
            assert(post.tables@[t].entries@[wi] == pre.tables@[t].entries@[wi]);
            match pre.tables@[t].entries@[wi] {
                PageTableEntry::Empty => {},
                PageTableEntry::Frame { .. } => {},
                PageTableEntry::Table { index: c } => {
                    assert(level > 1);
                    assert(1 <= c < pre.tables@.len());
                    assert(pre.tables@[c as int].level == level - 1);
                    assert(post.tables@[c as int].level == level - 1);
                    // post holds both this entry and the path's own at the
                    // next level; two slots, one child each, so the walk
                    // does not enter the path
                    let ptn: int = if level == 4 {
                        t3 as int
                    } else if level == 3 {
                        t2 as int
                    } else {
                        t1 as int
                    };
                    let ppt: int = pt;
                    assert(c as int != ptn) by {
                        if c as int == ptn {
                            assert(post.tables@[ppt].entries@[pi] == (PageTableEntry::Table {
                                index: ptn as usize,
                            }));
                            assert(post.tables@[t].entries@[wi] == (PageTableEntry::Table {
                                index: c,
                            }));
                            assert(t != ppt || wi != pi);
                            assert(entry_child(post.tables@[t].entries@[wi]) >= 0);
                            assert(entry_child(post.tables@[ppt].entries@[pi]) >= 0);
                            assert(entry_child(post.tables@[t].entries@[wi]) != entry_child(
                                post.tables@[ppt].entries@[pi],
                            ));
                            assert(false);
                        }
                    }
                    lemma_resolve_unchanged_off_path(
                        pre,
                        post,
                        page,
                        t3,
                        t2,
                        t1,
                        c as int,
                        level - 1,
                        w,
                    );
                },
            }
        } else {
            // on the path with the same index: the divergence sits strictly
            // below this level
            let l0 = choose|l: int|
                1 <= l <= level && spec_table_index(w, l) != spec_table_index(page, l);
            assert(l0 < level);
            assert(level > 1);
            let child: int = if level == 4 {
                t3 as int
            } else if level == 3 {
                t2 as int
            } else {
                t1 as int
            };
            assert(post.tables@[t].entries@[pi] == (PageTableEntry::Table {
                index: child as usize,
            }));
            if child < pre.tables@.len() {
                // a slot with an old child cannot be a freshly filled one,
                // so it already pointed there before the mapping
                assert(pre.tables@[t].entries@[pi] == post.tables@[t].entries@[pi]);
                assert(post.tables@[child].level == level - 1);
                lemma_resolve_unchanged_off_path(pre, post, page, t3, t2, t1, child, level - 1, w);
            } else {
                // a fresh child: before the mapping the slot was empty, or
                // pointed at a table past the old store; either way the old
                // walk found nothing here
                lemma_resolve_unchanged_off_path(pre, post, page, t3, t2, t1, child, level - 1, w);
                assert(pre.resolve_from(child, level - 1, w).is_none());
                match pre.tables@[t].entries@[pi] {
                    PageTableEntry::Table { index: c0 } => {
                        assert(pre.tables@[t].entries@[pi] == post.tables@[t].entries@[pi]);
                        assert(c0 as int == child);
                        assert(1 <= c0 < pre.tables@.len());
                        assert(false);
                    },
                    PageTableEntry::Frame { .. } => {
                        assert(false);
                    },
                    PageTableEntry::Empty => {},
                }
            }
        }
    }
}

impl OffsetPageTable {
    /// Step one level down the path: hand back the table behind slot
    /// `idx` of table `t`, allocating a frame and creating the table where
    /// the slot is empty.
    fn ensure_table(
        &mut self,
        t: usize,
        idx: usize,
        frame_allocator: &mut BootInfoFrameAllocator,
    ) -> (r: Result<usize, MapToError>)
        requires
            old(self).wf(),
            t < old(self).tables@.len(),
            idx < ENTRY_COUNT,
            old(self).tables@[t as int].level >= 2,
            old(frame_allocator).wf(),
            old(frame_allocator).next < usize::MAX,
        ensures
            final(self).wf(),
            final(frame_allocator).wf(),
            final(frame_allocator).memory_map == old(frame_allocator).memory_map,
            old(frame_allocator).next <= final(frame_allocator).next <= old(frame_allocator).next
                + 1,
            final(self).physical_memory_offset == old(self).physical_memory_offset,
            tables_grow(*old(self), *final(self)),
            match r {
                Ok(child) => {
                    &&& 1 <= child < final(self).tables@.len()
                    &&& final(self).tables@[child as int].level == old(self).tables@[
                        t as int
                    ].level - 1
                    &&& final(self).tables@[t as int].entries@[idx as int] == (
                    PageTableEntry::Table { index: child })
                    &&& {
                        ||| {
                            &&& old(self).tables@[t as int].entries@[idx as int] == (
                            PageTableEntry::Table { index: child })
                            &&& final(self).tables@ == old(self).tables@
                        }
                        ||| {
                            &&& old(self).tables@[t as int].entries@[idx as int]
                                == PageTableEntry::Empty
                            &&& child == old(self).tables@.len()
                            &&& final(self).tables@.len() == old(self).tables@.len() + 1
                            &&& forall|e: int|
                                0 <= e < ENTRY_COUNT ==> final(self).tables@[
                                    child as int
                                ].entries@[e] == PageTableEntry::Empty
                            &&& final(self).tables@[t as int].entries@ == old(self).tables@[
                                t as int
                            ].entries@.update(idx as int, PageTableEntry::Table { index: child })
                            &&& forall|u: int|
                                0 <= u < old(self).tables@.len() && u != t
                                    ==> final(self).tables@[u] == old(self).tables@[u]
                        }
                    }
                },
                Err(e) => {
                    &&& final(self).tables@ == old(self).tables@
                    &&& (e == MapToError::FrameAllocationFailed ==> old(self).tables@[
                        t as int
                    ].entries@[idx as int] == PageTableEntry::Empty && usable_frames(
                        old(frame_allocator).memory_map@,
                    ).len() < final(frame_allocator).next)
                    &&& (e == MapToError::ParentEntryHugePage ==> old(self).tables@[
                        t as int
                    ].entries@[idx as int] matches PageTableEntry::Frame { .. })
                    &&& e != MapToError::PageAlreadyMapped
                },
            },
    {
        let entry = self.tables[t].entries[idx];
        match entry {
            PageTableEntry::Table { index } => Ok(index),
            PageTableEntry::Frame { addr: _, flags: _ } => Err(MapToError::ParentEntryHugePage),
            PageTableEntry::Empty => {
                let frame = match frame_allocator.allocate_frame() {
                    Some(f) => f,
                    None => {
                        return Err(MapToError::FrameAllocationFailed);
                    },
                };
                let ghost pre = *self;
                let child = self.tables.len();
                let level = self.tables[t].level;
                let mut parent = self.tables.remove(t);
                parent.entries.remove(idx);
                parent.entries.insert(idx, PageTableEntry::Table { index: child });
                self.tables.insert(t, parent);
                let ghost mid = self.tables@;
                let fresh = empty_table(frame, level - 1);
                self.tables.push(fresh);
                proof {
                    assert(parent.entries@ =~= pre.tables@[t as int].entries@.update(
                        idx as int,
                        PageTableEntry::Table { index: child },
                    ));
                    assert(mid =~= pre.tables@.update(t as int, parent));
                    assert(self.tables@ =~= mid.push(fresh));
                    assert(self.tables@[t as int] == parent);
                    assert(self.tables@[child as int] == fresh);
                    assert forall|u: int|
                        0 <= u < pre.tables@.len() && u != t implies self.tables@[u]
                        == pre.tables@[u] by {
                        assert(self.tables@[u] == mid[u]);
                    }
                    lemma_ensure_table_wf(pre, *self, t as int, idx as int, child);
                }
                Ok(child)
            },
        }
    }
}

/// Creating one fresh table behind an empty slot keeps the mapper well
/// formed and only grows it.
proof fn lemma_ensure_table_wf(
    pre: OffsetPageTable,
    post: OffsetPageTable,
    t: int,
    idx: int,
    child: usize,
)
    requires
        pre.wf(),
        0 <= t < pre.tables@.len(),
        0 <= idx < ENTRY_COUNT,
        pre.tables@[t].level >= 2,
        pre.tables@[t].entries@[idx] == PageTableEntry::Empty,
        child == pre.tables@.len(),
        post.tables@.len() == pre.tables@.len() + 1,
        post.tables@[t].entries@ == pre.tables@[t].entries@.update(
            idx,
            PageTableEntry::Table { index: child },
        ),
        post.tables@[t].level == pre.tables@[t].level,
        forall|u: int| 0 <= u < pre.tables@.len() && u != t ==> post.tables@[u] == pre.tables@[u],
        post.tables@[child as int].level == pre.tables@[t].level - 1,
        post.tables@[child as int].entries@.len() == ENTRY_COUNT,
        forall|e: int|
            0 <= e < ENTRY_COUNT ==> post.tables@[child as int].entries@[e]
                == PageTableEntry::Empty,
    ensures
        post.wf(),
        tables_grow(pre, post),
{
    let n = pre.tables@.len();
    assert forall|u: int, e: int|
        0 <= u < post.tables@.len() && 0 <= e < ENTRY_COUNT implies match (
    #[trigger] post.tables@[u].entries@[e]) {
        PageTableEntry::Table { index } => {
            &&& post.tables@[u].level > 1
            &&& 1 <= index < post.tables@.len()
            &&& post.tables@[index as int].level == post.tables@[u].level - 1
        },
        PageTableEntry::Frame { addr, flags } => {
            &&& flags.present
            &&& post.tables@[u].level < 4
            &&& (post.tables@[u].level == 1 ==> addr % 4096 == 0)
            &&& (post.tables@[u].level == 2 ==> addr % 0x20_0000 == 0)
            &&& (post.tables@[u].level == 3 ==> addr % 0x4000_0000 == 0)
        },
        PageTableEntry::Empty => true,
    } by {
        if u == child {
            assert(post.tables@[u].entries@[e] == PageTableEntry::Empty);
        } else if u == t && e == idx {
            assert(post.tables@[u].entries@[e] == (PageTableEntry::Table { index: child }));
            assert(post.tables@[child as int].level == pre.tables@[t].level - 1);
        } else {
            assert(post.tables@[u].entries@[e] == pre.tables@[u].entries@[e]);
            match pre.tables@[u].entries@[e] {
                PageTableEntry::Table { index } => {
                    assert(1 <= index < n);
                    if index as int == t {
                        assert(post.tables@[index as int].level == pre.tables@[
                            index as int
                        ].level);
                    } else {
                        assert(post.tables@[index as int] == pre.tables@[index as int]);
                    }
                },
                _ => {},
            }
        }
    }
    assert forall|t1: int, e1: int, t2: int, e2: int|
        {
            &&& 0 <= t1 < post.tables@.len()
            &&& 0 <= e1 < ENTRY_COUNT
            &&& 0 <= t2 < post.tables@.len()
            &&& 0 <= e2 < ENTRY_COUNT
            &&& (t1 != t2 || e1 != e2)
            &&& entry_child(#[trigger] post.tables@[t1].entries@[e1]) >= 0
            &&& entry_child(#[trigger] post.tables@[t2].entries@[e2]) >= 0
        } implies entry_child(post.tables@[t1].entries@[e1]) != entry_child(
        post.tables@[t2].entries@[e2],
    ) by {
        if t1 == child || t2 == child {
            assert(false);
        } else {
            if t1 == t && e1 == idx {
                assert(entry_child(post.tables@[t1].entries@[e1]) == child);
                assert(post.tables@[t2].entries@[e2] == pre.tables@[t2].entries@[e2]);
                assert(entry_child(pre.tables@[t2].entries@[e2]) < n);
            } else if t2 == t && e2 == idx {
                assert(entry_child(post.tables@[t2].entries@[e2]) == child);
                assert(post.tables@[t1].entries@[e1] == pre.tables@[t1].entries@[e1]);
                assert(entry_child(pre.tables@[t1].entries@[e1]) < n);
            } else {
                assert(post.tables@[t1].entries@[e1] == pre.tables@[t1].entries@[e1]);
                assert(post.tables@[t2].entries@[e2] == pre.tables@[t2].entries@[e2]);
            }
        }
    }
    assert forall|u: int, e: int|
        0 <= u < pre.tables@.len() && 0 <= e < pre.tables@[u].entries@.len() implies {
        ||| (#[trigger] post.tables@[u].entries@[e]) == pre.tables@[u].entries@[e]
        ||| pre.tables@[u].entries@[e] == PageTableEntry::Empty
    } by {
        if u == t && e == idx {
        } else if u == t {
            assert(post.tables@[u].entries@[e] == pre.tables@[u].entries@[e]);
        } else {
            assert(post.tables@[u] == pre.tables@[u]);
        }
    }
}

/// Installing a frame behind an empty leaf slot keeps the mapper well
/// formed and only grows it.
proof fn lemma_set_leaf_wf(
    pre: OffsetPageTable,
    post: OffsetPageTable,
    t: int,
    idx: int,
    frame: u64,
    flags: PageTableFlags,
)
    requires
        pre.wf(),
        0 <= t < pre.tables@.len(),
        0 <= idx < ENTRY_COUNT,
        pre.tables@[t].level == 1,
        pre.tables@[t].entries@[idx] == PageTableEntry::Empty,
        frame % 4096 == 0,
        flags.present,
        post.tables@.len() == pre.tables@.len(),
        post.tables@[t].entries@ == pre.tables@[t].entries@.update(
            idx,
            PageTableEntry::Frame { addr: frame, flags },
        ),
        post.tables@[t].level == pre.tables@[t].level,
        forall|u: int| 0 <= u < pre.tables@.len() && u != t ==> post.tables@[u] == pre.tables@[u],
    ensures
        post.wf(),
        tables_grow(pre, post),
{
    assert forall|u: int, e: int|
        0 <= u < post.tables@.len() && 0 <= e < ENTRY_COUNT implies match (
    #[trigger] post.tables@[u].entries@[e]) {
        PageTableEntry::Table { index } => {
            &&& post.tables@[u].level > 1
            &&& 1 <= index < post.tables@.len()
            &&& post.tables@[index as int].level == post.tables@[u].level - 1
        },
        PageTableEntry::Frame { addr, flags: fl } => {
            &&& fl.present
            &&& post.tables@[u].level < 4
            &&& (post.tables@[u].level == 1 ==> addr % 4096 == 0)
            &&& (post.tables@[u].level == 2 ==> addr % 0x20_0000 == 0)
            &&& (post.tables@[u].level == 3 ==> addr % 0x4000_0000 == 0)
        },
        PageTableEntry::Empty => true,
    } by {
        if u == t && e == idx {
            assert(post.tables@[u].entries@[e] == (PageTableEntry::Frame { addr: frame, flags }));
        } else {
            assert(post.tables@[u].entries@[e] == pre.tables@[u].entries@[e]);
            match pre.tables@[u].entries@[e] {
                PageTableEntry::Table { index } => {
                    assert(1 <= index < pre.tables@.len());
                    if index as int == t {
                        assert(post.tables@[index as int].level == pre.tables@[
                            index as int
                        ].level);
                    } else {
                        assert(post.tables@[index as int] == pre.tables@[index as int]);
                    }
                },
                _ => {},
            }
        }
    }
    assert forall|t1: int, e1: int, t2: int, e2: int|
        {
            &&& 0 <= t1 < post.tables@.len()
            &&& 0 <= e1 < ENTRY_COUNT
            &&& 0 <= t2 < post.tables@.len()
            &&& 0 <= e2 < ENTRY_COUNT
            &&& (t1 != t2 || e1 != e2)
            &&& entry_child(#[trigger] post.tables@[t1].entries@[e1]) >= 0
            &&& entry_child(#[trigger] post.tables@[t2].entries@[e2]) >= 0
        } implies entry_child(post.tables@[t1].entries@[e1]) != entry_child(
        post.tables@[t2].entries@[e2],
    ) by {
        assert(!(t1 == t && e1 == idx) && !(t2 == t && e2 == idx));
        assert(post.tables@[t1].entries@[e1] == pre.tables@[t1].entries@[e1]);
        assert(post.tables@[t2].entries@[e2] == pre.tables@[t2].entries@[e2]);
    }
    assert forall|u: int, e: int|
        0 <= u < pre.tables@.len() && 0 <= e < pre.tables@[u].entries@.len() implies {
        ||| (#[trigger] post.tables@[u].entries@[e]) == pre.tables@[u].entries@[e]
        ||| pre.tables@[u].entries@[e] == PageTableEntry::Empty
    } by {
        if u == t && e == idx {
        } else if u == t {
            assert(post.tables@[u].entries@[e] == pre.tables@[u].entries@[e]);
        } else {
            assert(post.tables@[u] == pre.tables@[u]);
        }
    }
}

impl OffsetPageTable {
    /// Map `page` to `frame` with `flags`, allocating any missing
    /// intermediate tables from `frame_allocator`.  On success the whole
    /// page translates to the frame, byte for byte and with these flags,
    /// and everything mapped before stays mapped as it was; a page that
    /// already has a frame is never overwritten, each error names its
    /// cause, and an unmapped page with three frames to spare is always
    /// mapped.
    #[verifier::rlimit(100)]
    pub fn map_to(
        &mut self,
        page: u64,
        frame: u64,
        flags: PageTableFlags,
        frame_allocator: &mut BootInfoFrameAllocator,
    ) -> (r: Result<MapperFlush, MapToError>)
        requires
            old(self).wf(),
            page % FRAME_SIZE == 0,
            frame % FRAME_SIZE == 0,
            flags.present,
            old(frame_allocator).wf(),
            old(frame_allocator).next + 3 <= usize::MAX,
        ensures
            final(self).wf(),
            final(frame_allocator).wf(),
            final(frame_allocator).memory_map == old(frame_allocator).memory_map,
            old(frame_allocator).next <= final(frame_allocator).next <= old(frame_allocator).next
                + 3,
            final(self).physical_memory_offset == old(self).physical_memory_offset,
            tables_grow(*old(self), *final(self)),
            forall|w: u64|
                old(self).interp_entry(w).is_some() ==> final(self).interp_entry(w) == old(
                    self,
                ).interp_entry(w),
            old(self).interp_addr(page).is_none() && usable_frames(
                old(frame_allocator).memory_map@,
            ).len() >= old(frame_allocator).next + 3 ==> r.is_ok(),
            match r {
                Ok(flush) => {
                    &&& flush.page == page
                    &&& old(self).interp_addr(page).is_none()
                    &&& forall|off: u64|
                        off < FRAME_SIZE ==> #[trigger] final(self).interp_entry((page + off) as u64)
                            == Some((((frame + off) as u64), flags))
                    &&& forall|off: u64|
                        off < FRAME_SIZE ==> #[trigger] final(self).interp_addr((page + off) as u64)
                            == Some((frame + off) as u64)
                    &&& forall|w: u64|
                        !same_page_path(w, page) ==> #[trigger] final(self).interp_entry(w) == old(
                            self,
                        ).interp_entry(w)
                },
                Err(e) => {
                    &&& (e == MapToError::PageAlreadyMapped ==> final(self).tables@ == old(
                        self,
                    ).tables@ && old(self).interp_addr(page).is_some())
                    &&& (e == MapToError::ParentEntryHugePage ==> final(self).tables@ == old(
                        self,
                    ).tables@ && old(self).interp_addr(page).is_some())
                    &&& (e == MapToError::FrameAllocationFailed ==> old(self).interp_addr(
                        page,
                    ).is_none() && usable_frames(old(frame_allocator).memory_map@).len()
                        < final(frame_allocator).next)
                },
            },
    {
        proof {
            lemma_table_index_bounds(page);
        }
        let ghost s0 = *self;
        let p4i = table_index(page, 4);
        let p3i = table_index(page, 3);
        let p2i = table_index(page, 2);
        let p1i = table_index(page, 1);

        let t3 = match self.ensure_table(0, p4i, frame_allocator) {
            Ok(i) => i,
            Err(e) => {
                proof {
                    assert forall|w: u64| s0.interp_entry(w).is_some() implies self.interp_entry(w)
                        == s0.interp_entry(w) by {
                        lemma_resolve_monotonic(s0, *self, 0, 4, w);
                    }
                    if e == MapToError::FrameAllocationFailed {
                        assert(s0.resolve_from(0, 4, page).is_none());
                    }
                    if e == MapToError::ParentEntryHugePage {
                        // the root is the level-4 table; a mapped frame
                        // cannot sit there
                        assert(s0.tables@[0].entries@[p4i as int] matches PageTableEntry::Frame {
                            ..
                        });
                        assert(false);
                    }
                }
                return Err(e);
            },
        };
        let ghost s1 = *self;

        let t2 = match self.ensure_table(t3, p3i, frame_allocator) {
            Ok(i) => i,
            Err(e) => {
                proof {
                    lemma_tables_grow_trans(s0, s1, *self);
                    assert forall|w: u64| s0.interp_entry(w).is_some() implies self.interp_entry(w)
                        == s0.interp_entry(w) by {
                        lemma_resolve_monotonic(s0, *self, 0, 4, w);
                    }
                    if s0.tables@[0].entries@[p4i as int] == PageTableEntry::Empty {
                        assert(s0.resolve_from(0, 4, page).is_none());
                        assert(e != MapToError::ParentEntryHugePage);
                    } else {
                        assert(s1.tables@ == s0.tables@);
                        assert(s0.tables@[0].entries@[p4i as int] == (PageTableEntry::Table {
                            index: t3,
                        }));
                        assert(s0.resolve_from(0, 4, page) == s0.resolve_from(t3 as int, 3, page));
                        if e == MapToError::FrameAllocationFailed {
                            assert(s0.tables@[t3 as int].entries@[p3i as int]
                                == PageTableEntry::Empty);
                            assert(s0.resolve_from(t3 as int, 3, page).is_none());
                        }
                        if e == MapToError::ParentEntryHugePage {
                            assert(s0.tables@[t3 as int].level == 3);
                            assert(s0.resolve_from(t3 as int, 3, page).is_some());
                        }
                    }
                }
                return Err(e);
            },
        };
        let ghost s2 = *self;

        let t1 = match self.ensure_table(t2, p2i, frame_allocator) {
            Ok(i) => i,
            Err(e) => {
                proof {
                    lemma_tables_grow_trans(s0, s1, s2);
                    lemma_tables_grow_trans(s0, s2, *self);
                    assert forall|w: u64| s0.interp_entry(w).is_some() implies self.interp_entry(w)
                        == s0.interp_entry(w) by {
                        lemma_resolve_monotonic(s0, *self, 0, 4, w);
                    }
                    if s0.tables@[0].entries@[p4i as int] == PageTableEntry::Empty {
                        assert(s0.resolve_from(0, 4, page).is_none());
                        assert(forall|x: int|
                            0 <= x < ENTRY_COUNT ==> s1.tables@[t3 as int].entries@[x]
                                == PageTableEntry::Empty);
                        assert(e != MapToError::ParentEntryHugePage);
                    } else {
                        assert(s1.tables@ == s0.tables@);
                        assert(s0.tables@[0].entries@[p4i as int] == (PageTableEntry::Table {
                            index: t3,
                        }));
                        assert(s0.resolve_from(0, 4, page) == s0.resolve_from(t3 as int, 3, page));
                        if s1.tables@[t3 as int].entries@[p3i as int] == PageTableEntry::Empty {
                            assert(s0.resolve_from(t3 as int, 3, page).is_none());
                            assert(s0.resolve_from(0, 4, page).is_none());
                            assert(e != MapToError::ParentEntryHugePage);
                        } else {
                            assert(s2.tables@ == s1.tables@);
                            assert(s0.tables@[t3 as int].entries@[p3i as int]
                                == (PageTableEntry::Table { index: t2 }));
                            assert(s0.resolve_from(t3 as int, 3, page) == s0.resolve_from(
                                t2 as int,
                                2,
                                page,
                            ));
                            if e == MapToError::FrameAllocationFailed {
                                assert(s0.tables@[t2 as int].entries@[p2i as int]
                                    == PageTableEntry::Empty);
                                assert(s0.resolve_from(t2 as int, 2, page).is_none());
                                assert(s0.resolve_from(t3 as int, 3, page).is_none());
                                assert(s0.resolve_from(0, 4, page).is_none());
                            }
                            if e == MapToError::ParentEntryHugePage {
                                assert(s0.tables@[t2 as int].level == 2);
                                assert(s0.resolve_from(t2 as int, 2, page).is_some());
                            }
                        }
                    }
                }
                return Err(e);
            },
        };
        let ghost s3 = *self;

        let entry = self.tables[t1].entries[p1i];
        match entry {
            PageTableEntry::Empty => {
                let ghost pre = *self;
                let mut leaf = self.tables.remove(t1);
                leaf.entries.remove(p1i);
                leaf.entries.insert(p1i, PageTableEntry::Frame { addr: frame, flags });
                self.tables.insert(t1, leaf);
                proof {
                    assert(leaf.entries@ =~= pre.tables@[t1 as int].entries@.update(
                        p1i as int,
                        PageTableEntry::Frame { addr: frame, flags },
                    ));
                    assert(self.tables@ =~= pre.tables@.update(t1 as int, leaf));
                    assert(self.tables@[t1 as int] == leaf);
                    assert forall|u: int|
                        0 <= u < pre.tables@.len() && u != t1 implies self.tables@[u]
                        == pre.tables@[u] by {}
                    lemma_set_leaf_wf(
                        pre,
                        *self,
                        t1 as int,
                        p1i as int,
                        frame,
                        flags,
                    );
                    lemma_tables_grow_trans(s0, s1, s2);
                    lemma_tables_grow_trans(s0, s2, s3);
                    lemma_tables_grow_trans(s0, s3, *self);
                    assert forall|w: u64| s0.interp_entry(w).is_some() implies self.interp_entry(
                        w,
                    ) == s0.interp_entry(w) by {
                        lemma_resolve_monotonic(s0, *self, 0, 4, w);
                    }
                    // the freshly mapped page now walks 0 -> t3 -> t2 -> t1
                    // and ends at the frame, byte for byte
                    assert(self.tables@[0].entries@[p4i as int] == (PageTableEntry::Table {
                        index: t3,
                    }));
                    assert(self.tables@[t3 as int].entries@[p3i as int] == (PageTableEntry::Table {
                        index: t2,
                    }));
                    assert(self.tables@[t2 as int].entries@[p2i as int] == (PageTableEntry::Table {
                        index: t1,
                    }));
                    assert(self.tables@[t1 as int].entries@[p1i as int] == (PageTableEntry::Frame {
                        addr: frame,
                        flags,
                    }));
                    assert forall|off: u64| off < FRAME_SIZE implies #[trigger] self.interp_entry(
                        (page + off) as u64,
                    ) == Some((((frame + off) as u64), flags)) by {
                        lemma_same_page_indices(page, off);
                        let w = (page + off) as u64;
                        assert(spec_table_index(w, 4) == p4i as int);
                        assert(spec_table_index(w, 3) == p3i as int);
                        assert(spec_table_index(w, 2) == p2i as int);
                        assert(spec_table_index(w, 1) == p1i as int);
                        assert(self.resolve_from(0, 4, w) == self.resolve_from(t3 as int, 3, w));
                        assert(self.resolve_from(t3 as int, 3, w) == self.resolve_from(
                            t2 as int,
                            2,
                            w,
                        ));
                        assert(self.resolve_from(t2 as int, 2, w) == self.resolve_from(
                            t1 as int,
                            1,
                            w,
                        ));
                        assert(self.resolve_from(t1 as int, 1, w) == Some(
                            (((frame + (w & 0xfff)) as u64), flags),
                        ));
                        assert((w & 0xfff) == off);
                    }
                    assert forall|off: u64| off < FRAME_SIZE implies #[trigger] self.interp_addr(
                        (page + off) as u64,
                    ) == Some((frame + off) as u64) by {
                        assert(self.interp_entry((page + off) as u64) == Some(
                            (((frame + off) as u64), flags),
                        ));
                    }
                    // the page translated to nothing before this call
                    if s0.tables@[0].entries@[p4i as int] == PageTableEntry::Empty {
                        assert(s0.resolve_from(0, 4, page).is_none());
                    } else {
                        assert(s1.tables@ == s0.tables@);
                        if s1.tables@[t3 as int].entries@[p3i as int] == PageTableEntry::Empty {
                            assert(s0.resolve_from(t3 as int, 3, page).is_none());
                            assert(s0.resolve_from(0, 4, page).is_none());
                        } else {
                            assert(s2.tables@ == s1.tables@);
                            if s2.tables@[t2 as int].entries@[p2i as int]
                                == PageTableEntry::Empty {
                                assert(s0.resolve_from(t2 as int, 2, page).is_none());
                                assert(s0.resolve_from(t3 as int, 3, page).is_none());
                                assert(s0.resolve_from(0, 4, page).is_none());
                            } else {
                                assert(s3.tables@ == s2.tables@);
                                assert(s0.tables@[t1 as int].entries@[p1i as int]
                                    == PageTableEntry::Empty);
                                assert(s0.resolve_from(t1 as int, 1, page).is_none());
                                assert(s0.resolve_from(t2 as int, 2, page).is_none());
                                assert(s0.resolve_from(t3 as int, 3, page).is_none());
                                assert(s0.resolve_from(0, 4, page).is_none());
                            }
                        }
                    }
                }
                // every walk that leaves the page's path reads only
                // untouched slots: its translation stands
                proof {
                    assert(table_step_rel(s0, s1, 0, p4i as int, t3));
                    assert(table_step_rel(s1, s2, t3 as int, p3i as int, t2));
                    assert(table_step_rel(s2, s3, t2 as int, p2i as int, t1));
                    assert(s2.tables@[t3 as int].level == 3);
                    assert(s3.tables@[t1 as int].level == 1);
                    lemma_establish_off_path_shape(
                        s0,
                        s1,
                        s2,
                        s3,
                        *self,
                        page,
                        t3,
                        t2,
                        t1,
                        frame,
                        flags,
                    );
                    assert forall|w: u64| !same_page_path(w, page) implies
                        #[trigger] self.interp_entry(w) == s0.interp_entry(w) by {
                        assert(exists|l: int|
                            1 <= l <= 4 && spec_table_index(w, l) != spec_table_index(page, l));
                        lemma_resolve_unchanged_off_path(s0, *self, page, t3, t2, t1, 0, 4, w);
                    }
                }
                Ok(MapperFlush { page })
            },
            PageTableEntry::Frame { addr: _, flags: _ } => {
                proof {
                    // a frame at the leaf means no step of the walk created a
                    // table: created tables are empty all the way down, so
                    // the mapper stands exactly as it did
                    if s0.tables@[0].entries@[p4i as int] == PageTableEntry::Empty {
                        assert(s1.tables@[t3 as int].entries@[p3i as int]
                            == PageTableEntry::Empty);
                        assert(s2.tables@[t2 as int].entries@[p2i as int]
                            == PageTableEntry::Empty);
                        assert(s3.tables@[t1 as int].entries@[p1i as int]
                            == PageTableEntry::Empty);
                        assert(false);
                    } else {
                        assert(s1.tables@ == s0.tables@);
                        if s1.tables@[t3 as int].entries@[p3i as int] == PageTableEntry::Empty {
                            assert(s2.tables@[t2 as int].entries@[p2i as int]
                                == PageTableEntry::Empty);
                            assert(s3.tables@[t1 as int].entries@[p1i as int]
                                == PageTableEntry::Empty);
                            assert(false);
                        } else {
                            assert(s2.tables@ == s1.tables@);
                            if s2.tables@[t2 as int].entries@[p2i as int]
                                == PageTableEntry::Empty {
                                assert(s3.tables@[t1 as int].entries@[p1i as int]
                                    == PageTableEntry::Empty);
                                assert(false);
                            } else {
                                assert(s3.tables@ == s2.tables@);
                            }
                        }
                    }
                    assert forall|w: u64| s0.interp_entry(w).is_some() implies self.interp_entry(
                        w,
                    ) == s0.interp_entry(w) by {
                        lemma_resolve_monotonic(s0, *self, 0, 4, w);
                    }
                    // the page already resolves: the walk that found the
                    // frame is the page's own
                    assert(s0.tables@[0].entries@[p4i as int] == (PageTableEntry::Table {
                        index: t3,
                    }));
                    assert(s0.tables@[t3 as int].entries@[p3i as int] == (PageTableEntry::Table {
                        index: t2,
                    }));
                    assert(s0.tables@[t2 as int].entries@[p2i as int] == (PageTableEntry::Table {
                        index: t1,
                    }));
                    assert(s0.tables@[t1 as int].entries@[p1i as int] matches PageTableEntry::Frame {
                        ..
                    });
                    assert(s0.resolve_from(0, 4, page) == s0.resolve_from(t3 as int, 3, page));
                    assert(s0.resolve_from(t3 as int, 3, page) == s0.resolve_from(
                        t2 as int,
                        2,
                        page,
                    ));
                    assert(s0.resolve_from(t2 as int, 2, page) == s0.resolve_from(
                        t1 as int,
                        1,
                        page,
                    ));
                    assert(s0.resolve_from(t1 as int, 1, page).is_some());
                }
                Err(MapToError::PageAlreadyMapped)
            },
            PageTableEntry::Table { index: _ } => {
                proof {
                    // a level-1 table can hold no table reference
                    assert(false);
                }
                Err(MapToError::PageAlreadyMapped)
            },
        }
    }
}

} // verus!
