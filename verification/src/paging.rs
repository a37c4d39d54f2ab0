//! The four-level page table: virtual-to-physical translation and mapping.
//!
//! The hardware walks tables that live in physical memory and are reached
//! through a fixed offset mapping of all physical memory; the kernel holds
//! the one mutable reference to the active top-level table. The types here
//! hold exactly what that walk reads and writes — per-entry present and
//! writable flags and frame pointers, 512 entries per table — so the walk
//! and the mapping logic can be verified; reading and writing the real
//! table memory through the physical-memory offset is the boot path's job.
//!
//! A virtual address selects one entry per level through its four 9-bit
//! index fields (bits 12..48); the low 12 bits are the offset into the
//! mapped frame. Large ("huge") pages — present entries that end the walk
//! above level 1 — are intentionally unsupported: translation refuses such
//! inputs and mapping reports them as a typed error.

use crate::memory::{
    lemma_usable_frames_increasing, regions_wf, usable_frames, BootInfoFrameAllocator, PhysFrame,
    FRAME_SIZE,
};
use vstd::prelude::*;

verus! {

/// Flags of a page-table entry that this kernel sets when mapping.
#[derive(Debug, Clone, Copy, PartialEq, Eq, Structural)]
pub struct PageTableFlags {
    /// The entry takes part in translation.
    pub present: bool,
    /// The mapped page may be written.
    pub writable: bool,
}

/// One entry of a page table.
pub enum PageTableEntry {
    /// Not present: ends the walk with "not mapped".
    Empty,
    /// Present entry pointing at the next-level table, which occupies the
    /// frame starting at `addr`.
    Table { addr: u64, table: Box<PageTable> },
    /// Present leaf entry: at level 1 it maps a 4 KiB page to the frame at
    /// `addr`; above level 1 it is a large page, which this kernel does
    /// not support.
    Page { addr: u64, writable: bool },
}

/// One 512-entry page table.
#[verifier::ext_equal]
pub struct PageTable {
    entries: Vec<PageTableEntry>,
}

impl PageTable {
    /// The entries of this table.
    pub closed spec fn spec_entries(self) -> Seq<PageTableEntry> {
        self.entries@
    }
}

/// Index field of `va` for the given level: bits 12..21 select the level-1
/// entry, each level above shifts by a further 9 bits.
pub open spec fn level_index(va: u64, level: int) -> int {
    ((va >> ((12 + 9 * (level - 1)) as u64)) & 0x1ff) as int
}

/// What a walk of the tables from a given level finds for an address.
pub enum WalkResult {
    /// A present level-1 entry maps the page to the frame at `frame`.
    Mapped { frame: u64 },
    /// Some entry on the path is not present.
    NotMapped,
    /// A present entry above level 1 ends the walk: a large page.
    LargePage,
}

/// The translation walk: look up the address's index field at each level,
/// following table pointers down to level 1.
pub open spec fn walk(t: PageTable, level: int, va: u64) -> WalkResult
    decreases level,
{
    if level < 1 {
        WalkResult::NotMapped
    } else {
        match t.spec_entries()[level_index(va, level)] {
            PageTableEntry::Empty => WalkResult::NotMapped,
            PageTableEntry::Page { addr, writable } => if level == 1 {
                WalkResult::Mapped { frame: addr }
            } else {
                WalkResult::LargePage
            },
            PageTableEntry::Table { addr, table } => if level >= 2 {
                walk(*table, level - 1, va)
            } else {
                WalkResult::NotMapped
            },
        }
    }
}

/// A well-formed table hierarchy rooted at `level`: every table has 512
/// entries, frame pointers are frame-aligned, table pointers appear only
/// above level 1, and every child hierarchy is well formed.
pub open spec fn wf_table(t: PageTable, level: int) -> bool
    decreases level,
{
    &&& 1 <= level <= 4
    &&& t.spec_entries().len() == 512
    &&& forall|i: int|
        0 <= i < 512 ==> match #[trigger] t.spec_entries()[i] {
            PageTableEntry::Empty => true,
            PageTableEntry::Page { addr, writable } => addr % FRAME_SIZE == 0 && level <= 3,
            PageTableEntry::Table { addr, table } => level >= 2 && addr % FRAME_SIZE == 0
                && wf_table(*table, level - 1),
        }
}

/// A frame reported by a walk of a well-formed hierarchy is frame-aligned.
pub proof fn lemma_walk_frame_aligned(t: PageTable, level: int, va: u64)
    requires
        wf_table(t, level),
        walk(t, level, va) matches WalkResult::Mapped { frame },
    ensures
        (walk(t, level, va) matches WalkResult::Mapped { frame } ==> frame % FRAME_SIZE == 0),
    decreases level,
{
    lemma_level_index_bounds(va, level);
    match t.spec_entries()[level_index(va, level)] {
        PageTableEntry::Empty => {},
        PageTableEntry::Page { addr, writable } => {},
        PageTableEntry::Table { addr, table } => {
            if level >= 2 {
                lemma_walk_frame_aligned(*table, level - 1, va);
            }
        },
    }
}

/// Index fields are 9 bits wide, so they always select one of the 512
/// entries.
pub proof fn lemma_level_index_bounds(va: u64, level: int)
    ensures
        0 <= level_index(va, level) < 512,
{
    let shift = (12 + 9 * (level - 1)) as u64;
    assert((va >> shift) & 0x1ff < 512) by (bit_vector);
}

/// The model of the active mapping structure: the level-4 table and all
/// tables reachable from it.
pub struct PageTables {
    root: PageTable,
}

impl PageTables {
    /// The level-4 table at the root of the hierarchy.
    pub closed spec fn spec_root(self) -> PageTable {
        self.root
    }

    /// The whole hierarchy is well formed.
    pub open spec fn wf(self) -> bool {
        wf_table(self.spec_root(), 4)
    }

    /// Result of the four-level walk for `va`.
    pub open spec fn page_walk(self, va: u64) -> WalkResult {
        walk(self.spec_root(), 4, va)
    }

    /// The physical address `va` translates to: the mapped frame plus the
    /// address's low 12 bits, or nothing if the walk fails.
    pub open spec fn translate_spec(self, va: u64) -> Option<u64> {
        match self.page_walk(va) {
            WalkResult::Mapped { frame } => Some((frame + (va & 0xfff)) as u64),
            _ => None,
        }
    }

    /// An empty hierarchy: a fresh level-4 table with no present entries,
    /// under which no address translates.
    pub fn new() -> (r: PageTables)
        ensures
            r.wf(),
            forall|va: u64| #[trigger] r.page_walk(va) is NotMapped,
            forall|va: u64| #[trigger] r.translate_spec(va) is None,
    {
        let root = empty_table();
        let r = PageTables { root };
        proof {
            assert forall|va: u64| #[trigger] r.page_walk(va) is NotMapped by {
                lemma_level_index_bounds(va, 4);
            }
        }
        r
    }

    /// Translate a virtual address by walking the hierarchy, reporting the
    /// physical address it maps to, or nothing the first time an entry on
    /// the path is not present. Addresses under a large page are refused:
    /// translating them is intentionally unsupported.
    pub fn translate_addr(&self, va: u64) -> (r: Option<u64>)
        requires
            self.wf(),
            !(self.page_walk(va) is LargePage),
        ensures
            r == self.translate_spec(va),
    {
        match walk_tables(&self.root, 4, va) {
            Some(frame) => {
                proof {
                    lemma_walk_frame_aligned(self.spec_root(), 4, va);
                    assert(va & 0xfff < 4096) by (bit_vector);
                    assert(frame % 4096 == 0 ==> frame <= 0xffff_ffff_ffff_f000u64) by (bit_vector);
                }
                Some(frame + (va & 0xfff))
            },
            None => None,
        }
    }
}

/// A table with 512 entries, none of them present.
fn empty_table() -> (r: PageTable)
    ensures
        r.spec_entries().len() == 512,
        forall|i: int| 0 <= i < 512 ==> #[trigger] r.spec_entries()[i] is Empty,
        forall|l: int| 1 <= l <= 4 ==> wf_table(r, l),
        forall|l: int, va: u64| 1 <= l <= 4 ==> #[trigger] walk(r, l, va) is NotMapped,
{
    let mut entries: Vec<PageTableEntry> = Vec::new();
    let mut i: usize = 0;
    while i < 512
        invariant
            i == entries.len(),
            i <= 512,
            forall|k: int| 0 <= k < i ==> #[trigger] entries@[k] is Empty,
        decreases 512 - i,
    {
        entries.push(PageTableEntry::Empty);
        i = i + 1;
    }
    let r = PageTable { entries };
    proof {
        assert forall|l: int, va: u64| 1 <= l <= 4 implies #[trigger] walk(r, l, va) is NotMapped by {
            lemma_level_index_bounds(va, l);
        }
    }
    r
}

/// Two addresses share the translation path down to the given level: their
/// index fields agree at every level from `level` down to 1.
pub open spec fn same_path(va1: u64, va2: u64, level: int) -> bool {
    forall|l: int| 1 <= l <= level ==> level_index(va1, l) == level_index(va2, l)
}

/// Sharing a path one level at a time.
pub proof fn lemma_same_path_unfold(va1: u64, va2: u64, level: int)
    requires
        level >= 1,
    ensures
        same_path(va1, va2, level) <==> (level_index(va1, level) == level_index(va2, level)
            && same_path(va1, va2, level - 1)),
{
    if same_path(va1, va2, level) {
        assert(level_index(va1, level) == level_index(va2, level));
        assert(same_path(va1, va2, level - 1)) by {
            assert forall|l: int| 1 <= l <= level - 1 implies level_index(va1, l) == level_index(
                va2,
                l,
            ) by {
                assert(1 <= l <= level);
            }
        }
    }
    if level_index(va1, level) == level_index(va2, level) && same_path(va1, va2, level - 1) {
        assert forall|l: int| 1 <= l <= level implies level_index(va1, l) == level_index(
            va2,
            l,
        ) by {
            if l < level {
                assert(1 <= l <= level - 1);
            }
        }
    }
}

/// A walk reads nothing of the address but its index fields, so addresses
/// that share the path walk to the same result.
pub proof fn lemma_walk_same_path(t: PageTable, level: int, va1: u64, va2: u64)
    requires
        same_path(va1, va2, level),
    ensures
        walk(t, level, va1) == walk(t, level, va2),
    decreases level,
{
    if level >= 1 {
        lemma_same_path_unfold(va1, va2, level);
        match t.spec_entries()[level_index(va1, level)] {
            PageTableEntry::Empty => {},
            PageTableEntry::Page { addr, writable } => {},
            PageTableEntry::Table { addr, table } => {
                if level >= 2 {
                    lemma_walk_same_path(*table, level - 1, va1, va2);
                }
            },
        }
    }
}

/// An address inside a page shares the page base's translation path, and
/// translates to the mapped frame plus its offset within the page.
pub proof fn lemma_translate_within_page(pt: PageTables, page: u64, va: u64)
    requires
        page % FRAME_SIZE == 0,
        page <= va < page + FRAME_SIZE,
    ensures
        same_path(va, page, 4),
        pt.page_walk(va) == pt.page_walk(page),
        pt.page_walk(page) matches WalkResult::Mapped { frame } ==> pt.translate_spec(va) == Some(
            (frame + (va - page)) as u64,
        ),
{
    assert(same_path(va, page, 4)) by {
        lemma_same_page_same_path(va, page);
    }
    lemma_walk_same_path(pt.spec_root(), 4, va, page);
    assert(page % 4096 == 0 && page <= va && va < page + 4096 ==> va & 0xfff == va - page)
        by (bit_vector);
}

/// Addresses of one 4 KiB page agree on all four index fields.
proof fn lemma_same_page_same_path(va: u64, page: u64)
    requires
        page % FRAME_SIZE == 0,
        page <= va < page + FRAME_SIZE,
    ensures
        same_path(va, page, 4),
{
    assert(page % 4096 == 0 && page <= va && va < page + 4096 ==> ((va >> 12) & 0x1ff == (page >> 12)
        & 0x1ff) && ((va >> 21) & 0x1ff == (page >> 21) & 0x1ff) && ((va >> 30) & 0x1ff == (page
        >> 30) & 0x1ff) && ((va >> 39) & 0x1ff == (page >> 39) & 0x1ff)) by (bit_vector);
    assert forall|l: int| 1 <= l <= 4 implies level_index(va, l) == level_index(page, l) by {
        if l == 1 {
            assert(level_index(va, 1) == ((va >> 12u64) & 0x1ff) as int);
            assert(level_index(page, 1) == ((page >> 12u64) & 0x1ff) as int);
        } else if l == 2 {
            assert(level_index(va, 2) == ((va >> 21u64) & 0x1ff) as int);
            assert(level_index(page, 2) == ((page >> 21u64) & 0x1ff) as int);
        } else if l == 3 {
            assert(level_index(va, 3) == ((va >> 30u64) & 0x1ff) as int);
            assert(level_index(page, 3) == ((page >> 30u64) & 0x1ff) as int);
        } else {
            assert(level_index(va, 4) == ((va >> 39u64) & 0x1ff) as int);
            assert(level_index(page, 4) == ((page >> 39u64) & 0x1ff) as int);
        }
    }
}

/// Two distinct page bases below the 48-bit boundary differ in some index
/// field, so they never share the whole translation path.
pub proof fn lemma_distinct_pages_distinct_paths(p1: u64, p2: u64)
    requires
        p1 % FRAME_SIZE == 0,
        p2 % FRAME_SIZE == 0,
        p1 < 0x1_0000_0000_0000,
        p2 < 0x1_0000_0000_0000,
        p1 != p2,
    ensures
        !same_path(p1, p2, 4),
{
    assert((p1 % 4096 == 0 && p2 % 4096 == 0 && p1 < 0x1_0000_0000_0000 && p2
        < 0x1_0000_0000_0000 && ((p1 >> 12) & 0x1ff == (p2 >> 12) & 0x1ff) && ((p1 >> 21) & 0x1ff
        == (p2 >> 21) & 0x1ff) && ((p1 >> 30) & 0x1ff == (p2 >> 30) & 0x1ff) && ((p1 >> 39) & 0x1ff
        == (p2 >> 39) & 0x1ff)) ==> p1 == p2) by (bit_vector);
    if same_path(p1, p2, 4) {
        assert(level_index(p1, 1) == level_index(p2, 1));
        assert(level_index(p1, 2) == level_index(p2, 2));
        assert(level_index(p1, 3) == level_index(p2, 3));
        assert(level_index(p1, 4) == level_index(p2, 4));
        assert(((p1 >> 12u64) & 0x1ff) == ((p2 >> 12u64) & 0x1ff));
        assert(((p1 >> 21u64) & 0x1ff) == ((p2 >> 21u64) & 0x1ff));
        assert(((p1 >> 30u64) & 0x1ff) == ((p2 >> 30u64) & 0x1ff));
        assert(((p1 >> 39u64) & 0x1ff) == ((p2 >> 39u64) & 0x1ff));
    }
}

/// How many tables are missing along the path of `va` below this table:
/// the tables `map_to` would have to allocate to install a mapping there.
pub open spec fn missing_tables(t: PageTable, level: int, va: u64) -> int
    decreases level,
{
    if level < 1 {
        0
    } else {
        match t.spec_entries()[level_index(va, level)] {
            PageTableEntry::Empty => level - 1,
            PageTableEntry::Page { addr, writable } => 0,
            PageTableEntry::Table { addr, table } => if level >= 2 {
                missing_tables(*table, level - 1, va)
            } else {
                0
            },
        }
    }
}

/// At most `level - 1` tables can be missing below a well-formed table:
/// one per level between it and the leaves.
pub proof fn lemma_missing_tables_bound(t: PageTable, level: int, va: u64)
    requires
        wf_table(t, level),
    ensures
        0 <= missing_tables(t, level, va) <= level - 1,
    decreases level,
{
    lemma_level_index_bounds(va, level);
    match t.spec_entries()[level_index(va, level)] {
        PageTableEntry::Empty => {},
        PageTableEntry::Page { addr, writable } => {},
        PageTableEntry::Table { addr, table } => {
            if level >= 2 {
                lemma_missing_tables_bound(*table, level - 1, va);
            }
        },
    }
}

/// Walk the hierarchy from `level` down, reporting the mapped frame.
fn walk_tables(t: &PageTable, level: usize, va: u64) -> (r: Option<u64>)
    requires
        1 <= level <= 4,
        wf_table(*t, level as int),
        !(walk(*t, level as int, va) is LargePage),
    ensures
        match walk(*t, level as int, va) {
            WalkResult::Mapped { frame } => r == Some(frame),
            WalkResult::NotMapped => r is None,
            WalkResult::LargePage => false,
        },
    decreases level,
{
    let shift: u64 = 12 + 9 * ((level as u64) - 1);
    let idx: usize = ((va >> shift) & 0x1ff) as usize;
    proof {
        lemma_level_index_bounds(va, level as int);
        assert(idx == level_index(va, level as int));
    }
    match &t.entries[idx] {
        PageTableEntry::Empty => None,
        PageTableEntry::Page { addr, writable } => {
            proof {
                // a leaf above level 1 would be a large page, which the
                // precondition excludes
                assert(level == 1);
            }
            Some(*addr)
        },
        PageTableEntry::Table { addr, table } => {
            proof {
                assert(level >= 2);
            }
            walk_tables(table, level - 1, va)
        },
    }
}

/// Whether `va` translates, under `pt`, to a frame drawn from positions
/// `lo..hi` of the usable frames of the map `regions` — the shape of
/// `map_region`'s promise: pages map to freshly allocated frames.
pub open spec fn maps_to_fresh_frame(
    pt: PageTables,
    regions: Seq<crate::memory::MemoryRegion>,
    lo: int,
    hi: int,
    va: u64,
) -> bool {
    exists|k: int|
        lo <= k < hi && #[trigger] pt.page_walk(va) == (WalkResult::Mapped {
            frame: usable_frames(regions)[k],
        })
}

/// Why a mapping could not be installed.
#[derive(Debug, Clone, Copy, PartialEq, Eq, Structural)]
pub enum MapToError {
    /// The frame allocator ran out of usable frames while allocating
    /// page tables or backing frames.
    FrameAllocationFailed,
    /// An entry on the path is a large page, which this kernel does not
    /// support.
    ParentEntryHugePage,
    /// The page already has a present mapping; it is left untouched.
    PageAlreadyMapped,
}

/// Entries other than the updated one translate as before.
proof fn lemma_walk_unchanged_outside(t0: PageTable, t1: PageTable, level: int, idx: int)
    requires
        1 <= level,
        0 <= idx < 512,
        t0.spec_entries().len() == 512,
        t1.spec_entries().len() == 512,
        forall|i: int|
            0 <= i < 512 && i != idx ==> t1.spec_entries()[i] == #[trigger] t0.spec_entries()[i],
    ensures
        forall|w: u64|
            level_index(w, level) != idx ==> #[trigger] walk(t1, level, w) == walk(t0, level, w),
{
    assert forall|w: u64| level_index(w, level) != idx implies #[trigger] walk(t1, level, w)
        == walk(t0, level, w) by {
        lemma_level_index_bounds(w, level);
        assert(t1.spec_entries()[level_index(w, level)] == t0.spec_entries()[level_index(
            w,
            level,
        )]);
    }
}

impl PageTables {
    /// Install a mapping from the 4 KiB page at `page` to `frame`,
    /// allocating any missing intermediate tables from `allocator`.
    /// Succeeds exactly when the page is unmapped and the allocator still
    /// holds as many frames as tables are missing on the page's path; an
    /// already-mapped page, a large page on the path, and frame
    /// exhaustion are reported as typed errors and never disturb any
    /// existing translation.
    pub fn map_to(
        &mut self,
        page: u64,
        frame: PhysFrame,
        flags: PageTableFlags,
        allocator: &mut BootInfoFrameAllocator,
    ) -> (r: Result<(), MapToError>)
        requires
            old(self).wf(),
            old(allocator).wf(),
            page % FRAME_SIZE == 0,
            frame.start_address % FRAME_SIZE == 0,
            flags.present,
        ensures
            final(self).wf(),
            final(allocator).wf(),
            final(allocator).spec_regions() == old(allocator).spec_regions(),
            old(allocator).spec_next() <= final(allocator).spec_next(),
            r is Ok <==> (old(self).page_walk(page) is NotMapped && missing_tables(
                old(self).spec_root(),
                4,
                page,
            ) <= usable_frames(old(allocator).spec_regions()).len() - old(allocator).spec_next()),
            (r matches Err(e) && e is PageAlreadyMapped) <==> old(self).page_walk(page) is Mapped,
            (r matches Err(e) && e is ParentEntryHugePage) <==> old(self).page_walk(page) is LargePage,
            (r matches Err(e) && e is FrameAllocationFailed) ==> final(allocator).spec_next()
                == usable_frames(old(allocator).spec_regions()).len(),
            r is Ok ==> final(allocator).spec_next() == old(allocator).spec_next()
                + missing_tables(old(self).spec_root(), 4, page),
            r is Ok ==> forall|w: u64|
                #[trigger] final(self).page_walk(w) == (if same_path(w, page, 4) {
                    WalkResult::Mapped { frame: frame.start_address }
                } else {
                    old(self).page_walk(w)
                }),
            !(r is Ok) ==> forall|w: u64| #[trigger] final(self).page_walk(w) == old(self).page_walk(w),
    {
        map_in(&mut self.root, 4, page, frame, flags, allocator)
    }

    /// Map every page of the frame-aligned virtual range `[start, end)`
    /// to a freshly allocated physical frame with the given flags,
    /// creating intermediate tables on demand. Frame exhaustion is
    /// surfaced as a typed failure; whatever the outcome, translations
    /// that existed before the call are unchanged.
    #[verifier::rlimit(50)]
    pub fn map_region(
        &mut self,
        start: u64,
        end: u64,
        flags: PageTableFlags,
        allocator: &mut BootInfoFrameAllocator,
    ) -> (r: Result<(), MapToError>)
        requires
            old(self).wf(),
            old(allocator).wf(),
            flags.present,
            start % FRAME_SIZE == 0,
            end % FRAME_SIZE == 0,
            start < end,
            end <= 0x1_0000_0000_0000,
        ensures
            final(self).wf(),
            final(allocator).wf(),
            final(allocator).spec_regions() == old(allocator).spec_regions(),
            old(allocator).spec_next() <= final(allocator).spec_next(),
            r is Ok ==> (forall|va: u64|
                start <= va < end ==> (#[trigger] final(self).translate_spec(va) is Some)),
            // every page of the range maps to a frame freshly drawn from
            // the allocator during this call
            r is Ok ==> (forall|va: u64|
                start <= va < end ==> #[trigger] maps_to_fresh_frame(
                    *final(self),
                    old(allocator).spec_regions(),
                    old(allocator).spec_next(),
                    final(allocator).spec_next(),
                    va,
                )),
            // mapping succeeded only over previously unmapped addresses
            r is Ok ==> (forall|va: u64|
                start <= va < end ==> (#[trigger] old(self).page_walk(va) is NotMapped)),
            // distinct pages of the range are backed by distinct frames
            r is Ok ==> (forall|va1: u64, va2: u64|
                start <= va1 < end && start <= va2 < end && !same_path(va1, va2, 4)
                    ==> #[trigger] final(self).page_walk(va1) != #[trigger] final(self).page_walk(
                    va2,
                )),
            // success is owed: an unmapped range cannot fail to map while
            // the allocator holds the worst case of four frames per page
            // (one backing frame and up to three new tables)
            ((forall|va: u64|
                start <= va < end ==> (#[trigger] old(self).page_walk(va) is NotMapped))
                && usable_frames(old(allocator).spec_regions()).len() - old(allocator).spec_next()
                >= 4 * ((end - start) / (FRAME_SIZE as int))) ==> r is Ok,
            // frame exhaustion is reported only when the allocator held
            // less than that worst case
            (r matches Err(e) && e is FrameAllocationFailed) ==> usable_frames(
                old(allocator).spec_regions(),
            ).len() - old(allocator).spec_next() < 4 * ((end - start) / (FRAME_SIZE as int)),
            forall|va: u64|
                (old(self).page_walk(va) matches WalkResult::Mapped { frame }
                    ==> #[trigger] final(self).page_walk(va) == (WalkResult::Mapped { frame })),
            forall|va: u64|
                ((#[trigger] old(self).translate_spec(va) is Some) ==> final(self).translate_spec(
                    va,
                ) == old(self).translate_spec(va)),
            (r matches Err(e) && e is FrameAllocationFailed) ==> final(allocator).spec_next()
                == usable_frames(old(allocator).spec_regions()).len(),
            (r matches Err(e) && e is PageAlreadyMapped) ==> (exists|va: u64|
                start <= va < end && (#[trigger] old(self).translate_spec(va) is Some)),
            (r matches Err(e) && e is ParentEntryHugePage) ==> (exists|va: u64|
                start <= va < end && (#[trigger] old(self).page_walk(va) is LargePage)),
    {
        let ghost orig = *old(self);
        let ghost alloc0 = *old(allocator);
        let ghost total_pages: int = (end - start) / (FRAME_SIZE as int);
        proof {
            assert((end - start) % 4096 == 0) by {
                vstd::arithmetic::div_mod::lemma_sub_mod_noop(end as int, start as int, 4096);
                vstd::arithmetic::div_mod::lemma_small_mod(0nat, 4096nat);
            }
            vstd::arithmetic::div_mod::lemma_fundamental_div_mod(end - start, 4096);
            assert(4096 * total_pages == end - start);
        }
        let mut p: u64 = start;
        let ghost pages_done: int = 0;
        while p < end
            invariant
                orig == *old(self),
                alloc0 == *old(allocator),
                alloc0.wf(),
                total_pages == (end - start) / (FRAME_SIZE as int),
                4096 * total_pages == end - start,
                p == start + 4096 * pages_done,
                0 <= pages_done,
                allocator.spec_next() - alloc0.spec_next() <= 4 * pages_done,
                self.wf(),
                allocator.wf(),
                flags.present,
                start % FRAME_SIZE == 0,
                end % FRAME_SIZE == 0,
                start < end,
                end <= 0x1_0000_0000_0000,
                start <= p <= end,
                p % FRAME_SIZE == 0,
                allocator.spec_regions() == alloc0.spec_regions(),
                alloc0.spec_next() <= allocator.spec_next(),
                forall|va: u64|
                    start <= va < p ==> (#[trigger] self.translate_spec(va) is Some),
                forall|va: u64|
                    start <= va < p ==> #[trigger] maps_to_fresh_frame(
                        *self,
                        alloc0.spec_regions(),
                        alloc0.spec_next(),
                        allocator.spec_next(),
                        va,
                    ),
                forall|va: u64|
                    (orig.page_walk(va) matches WalkResult::Mapped { frame }
                        ==> #[trigger] self.page_walk(va) == (WalkResult::Mapped { frame })),
                forall|va: u64|
                    ((#[trigger] self.page_walk(va) is LargePage) ==> orig.page_walk(
                        va,
                    ) is LargePage),
                forall|va: u64|
                    ((#[trigger] self.page_walk(va) is Mapped) ==> orig.page_walk(va) is Mapped
                        || (exists|q: u64|
                        start <= q < p && q % FRAME_SIZE == 0 && #[trigger] same_path(va, q, 4))),
                forall|va: u64|
                    start <= va < p ==> (#[trigger] orig.page_walk(va) is NotMapped),
                forall|va: u64|
                    ((#[trigger] orig.page_walk(va) is LargePage) ==> self.page_walk(
                        va,
                    ) is LargePage),
                forall|va1: u64, va2: u64|
                    (start <= va1 < p && start <= va2 < p && !same_path(va1, va2, 4)
                        ==> #[trigger] self.page_walk(va1) != #[trigger] self.page_walk(va2)),
            decreases end - p,
        {
            let ghost alloc_head = *allocator;
            let backing = match allocator.allocate_frame() {
                Some(f) => f,
                None => {
                    proof {
                        lemma_region_err_translations(orig, *self);
                        // the allocator is exhausted: everything it held
                        // went to earlier pages, at most four frames each,
                        // and fewer pages than the whole range holds
                        assert(allocator.spec_next() == usable_frames(
                            alloc0.spec_regions(),
                        ).len());
                        assert(pages_done < total_pages) by {
                            assert(4096 * pages_done < 4096 * total_pages);
                        }
                        assert(usable_frames(alloc0.spec_regions()).len() - alloc0.spec_next() < 4
                            * total_pages);
                    }
                    return Err(MapToError::FrameAllocationFailed);
                },
            };
            let ghost prev = *self;
            match self.map_to(p, backing, flags, allocator) {
                Ok(()) => {
                    proof {
                        assert forall|va: u64| start <= va < p + 4096 implies
                            #[trigger] maps_to_fresh_frame(
                            *self,
                            alloc0.spec_regions(),
                            alloc0.spec_next(),
                            allocator.spec_next(),
                            va,
                        ) by {
                            if va >= p {
                                lemma_same_page_same_path(va, p);
                                lemma_walk_same_path(self.spec_root(), 4, va, p);
                                let k = alloc_head.spec_next();
                                assert(backing.start_address == usable_frames(
                                    alloc0.spec_regions(),
                                )[k]);
                                assert(alloc0.spec_next() <= k < allocator.spec_next()
                                    && self.page_walk(va) == (WalkResult::Mapped {
                                    frame: usable_frames(alloc0.spec_regions())[k],
                                }));
                            } else {
                                assert(maps_to_fresh_frame(
                                    prev,
                                    alloc0.spec_regions(),
                                    alloc0.spec_next(),
                                    alloc_head.spec_next(),
                                    va,
                                ));
                                let k = choose|k: int|
                                    alloc0.spec_next() <= k < alloc_head.spec_next()
                                        && #[trigger] prev.page_walk(va) == (WalkResult::Mapped {
                                        frame: usable_frames(alloc0.spec_regions())[k],
                                    });
                                if same_path(va, p, 4) {
                                    lemma_walk_same_path(prev.spec_root(), 4, va, p);
                                    assert(false);
                                }
                                assert(alloc0.spec_next() <= k < allocator.spec_next()
                                    && self.page_walk(va) == (WalkResult::Mapped {
                                    frame: usable_frames(alloc0.spec_regions())[k],
                                }));
                            }
                        }
                        assert forall|va: u64| start <= va < p + 4096 implies #[trigger] self
                            .translate_spec(va) is Some by {
                            if va >= p {
                                lemma_same_page_same_path(va, p);
                                assert(self.page_walk(va) == WalkResult::Mapped {
                                    frame: backing.start_address,
                                });
                            } else {
                                assert(prev.translate_spec(va) is Some);
                                if same_path(va, p, 4) {
                                    lemma_walk_same_path(prev.spec_root(), 4, va, p);
                                    assert(false);
                                }
                            }
                        }
                        assert forall|va: u64|
                            (orig.page_walk(va) matches WalkResult::Mapped { frame }
                                ==> #[trigger] self.page_walk(va) == (WalkResult::Mapped {
                                frame,
                            })) by {
                            if orig.page_walk(va) is Mapped && same_path(va, p, 4) {
                                lemma_walk_same_path(prev.spec_root(), 4, va, p);
                                assert(false);
                            }
                        }
                        assert forall|va: u64| #[trigger] self.page_walk(va) is Mapped implies
                            orig.page_walk(va) is Mapped || exists|q: u64|
                            start <= q < p + 4096 && q % FRAME_SIZE == 0 && #[trigger] same_path(
                            va,
                            q,
                            4,
                        ) by {
                            if same_path(va, p, 4) {
                                assert(start <= p < p + 4096 && p % FRAME_SIZE == 0 && same_path(
                                    va,
                                    p,
                                    4,
                                ));
                            } else {
                                if !(orig.page_walk(va) is Mapped) {
                                    let q = choose|q: u64|
                                        start <= q < p && q % FRAME_SIZE == 0
                                            && #[trigger] same_path(va, q, 4);
                                    assert(start <= q < p + 4096 && q % FRAME_SIZE == 0
                                        && same_path(va, q, 4));
                                }
                            }
                        }

                        // accounting: this page consumed one backing
                        // frame and at most three table frames
                        lemma_missing_tables_bound(prev.spec_root(), 4, p);
                        assert(allocator.spec_next() == alloc_head.spec_next() + 1
                            + missing_tables(prev.spec_root(), 4, p));
                        // no address of the freshly covered pages was
                        // mapped before this call began
                        assert forall|va: u64| start <= va < p + 4096 implies (
                        #[trigger] orig.page_walk(va) is NotMapped) by {
                            if va >= p {
                                lemma_same_page_same_path(va, p);
                                lemma_walk_same_path(orig.spec_root(), 4, va, p);
                                assert(prev.page_walk(p) is NotMapped);
                                assert(!(orig.page_walk(p) is Mapped));
                                assert(!(orig.page_walk(p) is LargePage));
                            }
                        }
                        // large pages appear nowhere new
                        assert forall|va: u64| (#[trigger] orig.page_walk(va) is LargePage) implies
                            self.page_walk(va) is LargePage by {
                            if same_path(va, p, 4) {
                                lemma_walk_same_path(prev.spec_root(), 4, va, p);
                                assert(false);
                            }
                        }
                        // distinct pages, distinct frames: the new page's
                        // frame is drawn strictly after every earlier one,
                        // and the usable frames are strictly increasing
                        assert(regions_wf(alloc0.spec_regions()));
                        assert(alloc0.spec_next() >= 0);
                        assert(alloc_head.spec_next() < usable_frames(
                            alloc0.spec_regions(),
                        ).len());
                        lemma_usable_frames_increasing(alloc0.spec_regions());
                        assert forall|va1: u64, va2: u64|
                            (start <= va1 < p + 4096 && start <= va2 < p + 4096 && !same_path(
                                va1,
                                va2,
                                4,
                            )) implies #[trigger] self.page_walk(va1) != #[trigger] self.page_walk(
                            va2,
                        ) by {
                            if va1 >= p && va2 >= p {
                                lemma_same_page_same_path(va1, p);
                                lemma_same_page_same_path(va2, p);
                                assert(same_path(va1, va2, 4)) by {
                                    assert forall|l: int| 1 <= l <= 4 implies level_index(va1, l)
                                        == level_index(va2, l) by {
                                        assert(level_index(va1, l) == level_index(p, l));
                                        assert(level_index(va2, l) == level_index(p, l));
                                    }
                                }
                                assert(false);
                            } else if va1 < p && va2 >= p {
                                lemma_distinct_page_frames(
                                    prev,
                                    *self,
                                    alloc0.spec_regions(),
                                    alloc0.spec_next(),
                                    alloc_head.spec_next(),
                                    backing,
                                    p,
                                    va1,
                                    va2,
                                );
                            } else if va2 < p && va1 >= p {
                                lemma_distinct_page_frames(
                                    prev,
                                    *self,
                                    alloc0.spec_regions(),
                                    alloc0.spec_next(),
                                    alloc_head.spec_next(),
                                    backing,
                                    p,
                                    va2,
                                    va1,
                                );
                            } else {
                                assert(maps_to_fresh_frame(
                                    prev,
                                    alloc0.spec_regions(),
                                    alloc0.spec_next(),
                                    alloc_head.spec_next(),
                                    va1,
                                ));
                                assert(maps_to_fresh_frame(
                                    prev,
                                    alloc0.spec_regions(),
                                    alloc0.spec_next(),
                                    alloc_head.spec_next(),
                                    va2,
                                ));
                                if same_path(va1, p, 4) {
                                    lemma_walk_same_path(prev.spec_root(), 4, va1, p);
                                    assert(false);
                                }
                                if same_path(va2, p, 4) {
                                    lemma_walk_same_path(prev.spec_root(), 4, va2, p);
                                    assert(false);
                                }
                                assert(self.page_walk(va1) == prev.page_walk(va1));
                                assert(self.page_walk(va2) == prev.page_walk(va2));
                            }
                        }
                        pages_done = pages_done + 1;
                    }
                    p = p + 4096;
                },
                Err(e) => {
                    proof {
                        if e == MapToError::PageAlreadyMapped {
                            assert(prev.page_walk(p) is Mapped);
                            if !(orig.page_walk(p) is Mapped) {
                                let q = choose|q: u64|
                                    start <= q < p && q % FRAME_SIZE == 0 && #[trigger] same_path(
                                        p,
                                        q,
                                        4,
                                    );
                                lemma_distinct_pages_distinct_paths(p, q);
                                assert(false);
                            }
                            assert(orig.page_walk(p) matches WalkResult::Mapped { frame });
                            assert(start <= p < end && orig.translate_spec(p) is Some);
                        }
                        if e == MapToError::ParentEntryHugePage {
                            assert(prev.page_walk(p) is LargePage);
                            assert(start <= p < end && orig.page_walk(p) is LargePage);
                        }
                        if e == MapToError::FrameAllocationFailed {
                            // the mapper ran dry below four frames: the
                            // whole call began with less than four per page
                            lemma_missing_tables_bound(prev.spec_root(), 4, p);
                            assert(usable_frames(alloc0.spec_regions()).len()
                                - alloc_head.spec_next() - 1 < missing_tables(
                                prev.spec_root(),
                                4,
                                p,
                            ));
                            assert(pages_done < total_pages) by {
                                assert(4096 * pages_done < 4096 * total_pages);
                            }
                            assert(usable_frames(alloc0.spec_regions()).len() - alloc0.spec_next()
                                < 4 * total_pages);
                        }
                        // whichever error came back, the old state shows
                        // its cause, so an unmapped range with ample
                        // frames cannot reach this return
                        if (forall|va: u64|
                            start <= va < end ==> (#[trigger] orig.page_walk(va) is NotMapped)) {
                            assert(orig.page_walk(p) is NotMapped);
                            assert(e == MapToError::FrameAllocationFailed);
                        }
                        lemma_region_err_translations(orig, *self);
                    }
                    return Err(e);
                },
            }
        }
        proof {
            assert(p == end);
            lemma_region_err_translations(orig, *self);
            assert forall|va: u64| start <= va < end implies #[trigger] maps_to_fresh_frame(
                *self,
                old(allocator).spec_regions(),
                old(allocator).spec_next(),
                allocator.spec_next(),
                va,
            ) by {
                assert(maps_to_fresh_frame(
                    *self,
                    alloc0.spec_regions(),
                    alloc0.spec_next(),
                    allocator.spec_next(),
                    va,
                ));
            }
        }
        Ok(())
    }
}

/// An already-mapped page and the freshly mapped page carry distinct
/// frames: the old page's frame was drawn strictly before the new one,
/// and a well-formed map's usable frames strictly increase.
proof fn lemma_distinct_page_frames(
    prev: PageTables,
    cur: PageTables,
    regions: Seq<crate::memory::MemoryRegion>,
    lo: int,
    k_new: int,
    backing: PhysFrame,
    p: u64,
    va_old: u64,
    va_new: u64,
)
    requires
        regions_wf(regions),
        maps_to_fresh_frame(prev, regions, lo, k_new, va_old),
        0 <= lo,
        k_new < usable_frames(regions).len(),
        backing.start_address == usable_frames(regions)[k_new],
        prev.page_walk(p) is NotMapped,
        p % FRAME_SIZE == 0,
        p <= va_new < p + FRAME_SIZE,
        forall|w: u64|
            #[trigger] cur.page_walk(w) == (if same_path(w, p, 4) {
                WalkResult::Mapped { frame: backing.start_address }
            } else {
                prev.page_walk(w)
            }),
    ensures
        cur.page_walk(va_old) != cur.page_walk(va_new),
{
    lemma_same_page_same_path(va_new, p);
    assert(cur.page_walk(va_new) == (WalkResult::Mapped { frame: backing.start_address }));
    let k1 = choose|k: int|
        lo <= k < k_new && #[trigger] prev.page_walk(va_old) == (WalkResult::Mapped {
            frame: usable_frames(regions)[k],
        });
    if same_path(va_old, p, 4) {
        lemma_walk_same_path(prev.spec_root(), 4, va_old, p);
        assert(false);
    }
    assert(cur.page_walk(va_old) == prev.page_walk(va_old));
    lemma_usable_frames_increasing(regions);
    assert(usable_frames(regions)[k1] < usable_frames(regions)[k_new]);
}

/// From walk-level preservation to translation-level preservation.
proof fn lemma_region_err_translations(orig: PageTables, cur: PageTables)
    requires
        forall|va: u64|
            (orig.page_walk(va) matches WalkResult::Mapped { frame } ==> #[trigger] cur.page_walk(
                va,
            ) == (WalkResult::Mapped { frame })),
    ensures
        forall|va: u64|
            ((#[trigger] orig.translate_spec(va) is Some) ==> cur.translate_spec(va)
                == orig.translate_spec(va)),
{
    assert forall|va: u64| #[trigger] orig.translate_spec(va) is Some implies cur.translate_spec(
        va,
    ) == orig.translate_spec(va) by {
        assert(orig.page_walk(va) matches WalkResult::Mapped { frame });
    }
}

/// Install a mapping below table `t`, which sits at `level`. See
/// [`PageTables::map_to`] for the meaning of the contract; this is the
/// per-level step it is proved by.
#[verifier::rlimit(50)]
fn map_in(
    t: &mut PageTable,
    level: usize,
    va: u64,
    frame: PhysFrame,
    flags: PageTableFlags,
    allocator: &mut BootInfoFrameAllocator,
) -> (r: Result<(), MapToError>)
    requires
        1 <= level <= 4,
        wf_table(*old(t), level as int),
        old(allocator).wf(),
        frame.start_address % FRAME_SIZE == 0,
        flags.present,
    ensures
        wf_table(*final(t), level as int),
        final(allocator).wf(),
        final(allocator).spec_regions() == old(allocator).spec_regions(),
        old(allocator).spec_next() <= final(allocator).spec_next(),
        r is Ok <==> (walk(*old(t), level as int, va) is NotMapped && missing_tables(
            *old(t),
            level as int,
            va,
        ) <= usable_frames(old(allocator).spec_regions()).len() - old(allocator).spec_next()),
        (r matches Err(e) && e is PageAlreadyMapped) <==> walk(*old(t), level as int, va) is Mapped,
        (r matches Err(e) && e is ParentEntryHugePage) <==> walk(*old(t), level as int, va) is LargePage,
        (r matches Err(e) && e is FrameAllocationFailed) ==> final(allocator).spec_next()
            == usable_frames(old(allocator).spec_regions()).len(),
        r is Ok ==> final(allocator).spec_next() == old(allocator).spec_next() + missing_tables(
            *old(t),
            level as int,
            va,
        ),
        r is Ok ==> forall|w: u64|
            #[trigger] walk(*final(t), level as int, w) == (if same_path(w, va, level as int) {
                WalkResult::Mapped { frame: frame.start_address }
            } else {
                walk(*old(t), level as int, w)
            }),
        !(r is Ok) ==> forall|w: u64|
            #[trigger] walk(*final(t), level as int, w) == walk(*old(t), level as int, w),
    decreases level,
{
    let ghost t0 = *t;
    let ghost lvl: int = level as int;
    let shift: u64 = 12 + 9 * ((level as u64) - 1);
    let idx: usize = ((va >> shift) & 0x1ff) as usize;
    proof {
        lemma_level_index_bounds(va, lvl);
        assert(idx == level_index(va, lvl));
    }
    let mut entry = PageTableEntry::Empty;
    core::mem::swap(&mut entry, &mut t.entries[idx]);
    match entry {
        PageTableEntry::Empty => {
            if level == 1 {
                t.entries[idx] = PageTableEntry::Page {
                    addr: frame.start_address,
                    writable: flags.writable,
                };
                proof {
                    assert(walk(t0, 1, va) is NotMapped);
                    assert(missing_tables(t0, 1, va) == 0);
                    assert forall|w: u64| #[trigger] walk(*t, 1, w) == (if same_path(w, va, 1) {
                        WalkResult::Mapped { frame: frame.start_address }
                    } else {
                        walk(t0, 1, w)
                    }) by {
                        lemma_level_index_bounds(w, 1);
                        lemma_same_path_unfold(w, va, 1);
                        if level_index(w, 1) == idx {
                            assert(same_path(w, va, 1));
                        } else {
                            assert(!same_path(w, va, 1));
                            lemma_walk_unchanged_outside(t0, *t, 1, idx as int);
                        }
                    }
                }
                Ok(())
            } else {
                match allocator.allocate_frame() {
                    None => {
                        proof {
                            assert(t.spec_entries() =~= t0.spec_entries());
                            assert(missing_tables(t0, lvl, va) == lvl - 1);
                            assert(wf_table(*t, lvl)) by {
                                assert(forall|i: int|
                                    0 <= i < 512 ==> t.spec_entries()[i] == #[trigger] t0
                                        .spec_entries()[i]);
                            }
                            assert forall|w: u64| #[trigger] walk(*t, lvl, w) == walk(
                                t0,
                                lvl,
                                w,
                            ) by {
                                lemma_level_index_bounds(w, lvl);
                                assert(t.spec_entries()[level_index(w, lvl)] == t0.spec_entries()[level_index(
                                    w,
                                    lvl,
                                )]);
                            }
                        }
                        Err(MapToError::FrameAllocationFailed)
                    },
                    Some(table_frame) => {
                        let ghost a1 = *allocator;
                        let mut child = empty_table();
                        let ghost child0 = child;
                        let r = map_in(&mut child, level - 1, va, frame, flags, allocator);
                        let ghost childf = child;
                        t.entries[idx] = PageTableEntry::Table {
                            addr: table_frame.start_address,
                            table: Box::new(child),
                        };
                        proof {
                            assert(walk(t0, lvl, va) is NotMapped);
                            assert(missing_tables(t0, lvl, va) == lvl - 1);
                            assert(missing_tables(child0, lvl - 1, va) == lvl - 2) by {
                                lemma_level_index_bounds(va, lvl - 1);
                            }
                            assert(forall|w: u64| #[trigger] walk(child0, lvl - 1, w) is NotMapped);
                            assert(t.spec_entries()[idx as int] matches PageTableEntry::Table {
                                addr,
                                table,
                            } && *table == childf && addr == table_frame.start_address);
                            assert(wf_table(*t, lvl));
                            assert forall|w: u64| #[trigger] walk(*t, lvl, w) == (if r is Ok
                                && same_path(w, va, lvl) {
                                WalkResult::Mapped { frame: frame.start_address }
                            } else {
                                walk(t0, lvl, w)
                            }) by {
                                lemma_level_index_bounds(w, lvl);
                                lemma_same_path_unfold(w, va, lvl);
                                if level_index(w, lvl) == idx {
                                    assert(walk(*t, lvl, w) == walk(childf, lvl - 1, w));
                                    assert(walk(t0, lvl, w) is NotMapped);
                                } else {
                                    assert(!same_path(w, va, lvl));
                                    lemma_walk_unchanged_outside(t0, *t, lvl, idx as int);
                                }
                            }
                        }
                        match r {
                            Ok(()) => Ok(()),
                            Err(e) => {
                                proof {
                                    assert(e == MapToError::FrameAllocationFailed);
                                }
                                Err(e)
                            },
                        }
                    },
                }
            }
        },
        PageTableEntry::Page { addr, writable } => {
            t.entries[idx] = PageTableEntry::Page { addr, writable };
            proof {
                assert(t.spec_entries() =~= t0.spec_entries());
                assert(wf_table(*t, lvl)) by {
                    assert(forall|i: int|
                        0 <= i < 512 ==> t.spec_entries()[i] == #[trigger] t0.spec_entries()[i]);
                }
                assert forall|w: u64| #[trigger] walk(*t, lvl, w) == walk(t0, lvl, w) by {
                    lemma_level_index_bounds(w, lvl);
                    assert(t.spec_entries()[level_index(w, lvl)] == t0.spec_entries()[level_index(
                        w,
                        lvl,
                    )]);
                }
            }
            if level == 1 {
                Err(MapToError::PageAlreadyMapped)
            } else {
                Err(MapToError::ParentEntryHugePage)
            }
        },
        PageTableEntry::Table { addr, table } => {
            proof {
                assert(lvl >= 2);
            }
            let mut boxed = table;
            let ghost child0 = *boxed;
            let r = map_in(&mut *boxed, level - 1, va, frame, flags, allocator);
            let ghost childf = *boxed;
            t.entries[idx] = PageTableEntry::Table { addr, table: boxed };
            proof {
                assert(walk(t0, lvl, va) == walk(child0, lvl - 1, va));
                assert(missing_tables(t0, lvl, va) == missing_tables(child0, lvl - 1, va));
                assert(t.spec_entries()[idx as int] matches PageTableEntry::Table {
                    addr: a2,
                    table: tb,
                } && *tb == childf && a2 == addr);
                assert(wf_table(*t, lvl));
                assert forall|w: u64| #[trigger] walk(*t, lvl, w) == (if r is Ok && same_path(
                    w,
                    va,
                    lvl,
                ) {
                    WalkResult::Mapped { frame: frame.start_address }
                } else {
                    walk(t0, lvl, w)
                }) by {
                    lemma_level_index_bounds(w, lvl);
                    lemma_same_path_unfold(w, va, lvl);
                    if level_index(w, lvl) == idx {
                        assert(walk(*t, lvl, w) == walk(childf, lvl - 1, w));
                        assert(walk(t0, lvl, w) == walk(child0, lvl - 1, w));
                    } else {
                        assert(!same_path(w, va, lvl));
                        lemma_walk_unchanged_outside(t0, *t, lvl, idx as int);
                    }
                }
            }
            match r {
                Ok(()) => Ok(()),
                Err(e) => Err(e),
            }
        },
    }
}

} // verus!
