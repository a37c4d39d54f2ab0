use rust_os::allocator::bump::BumpAllocator;
use rust_os::allocator::{init_heap, HEAP_SIZE, HEAP_START};
use rust_os::memory::{BootInfoFrameAllocator, MemoryRegion, PhysFrame};
use rust_os::paging::{MapToError, PageTableFlags, PageTables};

fn frames(n: u64) -> BootInfoFrameAllocator {
    let map = vec![MemoryRegion { start: 0x10_0000, end: 0x10_0000 + n * 4096, usable: true }];
    BootInfoFrameAllocator::init(map)
}

fn flags() -> PageTableFlags {
    PageTableFlags { present: true, writable: true }
}

#[test]
fn fresh_tables_translate_nothing() {
    let pt = PageTables::new();
    assert_eq!(pt.translate_addr(0), None);
    assert_eq!(pt.translate_addr(0xdead_beaf_0000), None);
    assert_eq!(pt.translate_addr(u64::MAX), None);
}

#[test]
fn translate_returns_the_mapped_frame_plus_offset() {
    let mut pt = PageTables::new();
    let mut alloc = frames(8);
    let page: u64 = 0xdead_beaf_0000;
    let frame = PhysFrame { start_address: 0x7000_0000 };
    assert_eq!(pt.map_to(page, frame, flags(), &mut alloc), Ok(()));
    assert_eq!(pt.translate_addr(page), Some(0x7000_0000));
    assert_eq!(pt.translate_addr(page + 0x123), Some(0x7000_0123));
    assert_eq!(pt.translate_addr(page + 0xfff), Some(0x7000_0fff));
}

#[test]
fn translate_is_not_mapped_off_the_mapped_page() {
    let mut pt = PageTables::new();
    let mut alloc = frames(8);
    let page: u64 = 0x4444_4444_0000;
    let frame = PhysFrame { start_address: 0x1234_5000 };
    assert_eq!(pt.map_to(page, frame, flags(), &mut alloc), Ok(()));
    // the neighbouring pages, and unrelated addresses, stay unmapped
    assert_eq!(pt.translate_addr(page - 1), None);
    assert_eq!(pt.translate_addr(page + 0x1000), None);
    assert_eq!(pt.translate_addr(0), None);
    assert_eq!(pt.translate_addr(0x9999_0000_0000), None);
}

#[test]
fn mapping_a_page_twice_is_refused_and_changes_nothing() {
    let mut pt = PageTables::new();
    let mut alloc = frames(8);
    let page: u64 = 0x10_0000_0000;
    assert_eq!(pt.map_to(page, PhysFrame { start_address: 0x5000 }, flags(), &mut alloc), Ok(()));
    assert_eq!(
        pt.map_to(page, PhysFrame { start_address: 0x9000 }, flags(), &mut alloc),
        Err(MapToError::PageAlreadyMapped)
    );
    // the first mapping still stands, unaltered
    assert_eq!(pt.translate_addr(page + 4), Some(0x5004));
}

#[test]
fn frame_exhaustion_while_building_tables_is_reported() {
    let mut pt = PageTables::new();
    // a brand-new mapping needs three intermediate tables; two frames
    // cannot cover them
    let mut alloc = frames(2);
    let r = pt.map_to(0x8000_0000, PhysFrame { start_address: 0x3000 }, flags(), &mut alloc);
    assert_eq!(r, Err(MapToError::FrameAllocationFailed));
    assert_eq!(pt.translate_addr(0x8000_0000), None);
    // the allocator is exhausted for every later caller too
    assert_eq!(alloc.allocate_frame(), None);
}

#[test]
fn map_region_maps_every_page_of_the_range() {
    let mut pt = PageTables::new();
    let mut alloc = frames(16);
    let start: u64 = 0x2000_0000;
    let end: u64 = start + 3 * 4096;
    assert_eq!(pt.map_region(start, end, flags(), &mut alloc), Ok(()));
    let mut frames_seen: Vec<u64> = Vec::new();
    for page in 0..3u64 {
        let pa = pt.translate_addr(start + page * 4096 + 7).unwrap();
        // each page is backed by its own frame
        let frame = pa - 7;
        assert!(!frames_seen.contains(&frame));
        frames_seen.push(frame);
    }
    assert_eq!(pt.translate_addr(end), None);
    assert_eq!(pt.translate_addr(start - 1), None);
}

#[test]
fn map_region_without_enough_frames_reports_exhaustion() {
    let mut pt = PageTables::new();
    let mut alloc = frames(4);
    let start: u64 = 0x2000_0000;
    let end: u64 = start + 8 * 4096;
    assert_eq!(
        pt.map_region(start, end, flags(), &mut alloc),
        Err(MapToError::FrameAllocationFailed)
    );
    assert_eq!(alloc.allocate_frame(), None);
}

#[test]
fn sibling_pages_share_intermediate_tables() {
    let mut pt = PageTables::new();
    // three frames cover the intermediate tables of the first mapping;
    // the neighbouring page walks through the very same tables
    let mut alloc = frames(3);
    assert_eq!(pt.map_to(0x40_0000, PhysFrame { start_address: 0x1000 }, flags(), &mut alloc), Ok(()));
    // all three frames went to tables; a second fresh path would fail,
    // but the sibling page needs no new table
    assert_eq!(pt.map_to(0x40_1000, PhysFrame { start_address: 0x2000 }, flags(), &mut alloc), Ok(()));
    assert_eq!(pt.translate_addr(0x40_0000), Some(0x1000));
    assert_eq!(pt.translate_addr(0x40_1000), Some(0x2000));
}

#[test]
fn init_heap_maps_the_heap_and_primes_the_bump_allocator() {
    let mut pt = PageTables::new();
    // 25 heap pages plus 3 intermediate tables
    let mut alloc = frames(40);
    let mut heap = BumpAllocator::new();
    assert_eq!(init_heap(&mut pt, &mut alloc, &mut heap), Ok(()));
    assert!(pt.translate_addr(HEAP_START).is_some());
    assert!(pt.translate_addr(HEAP_START + HEAP_SIZE - 1).is_some());
    assert_eq!(pt.translate_addr(HEAP_START + HEAP_SIZE), None);
    assert_eq!(heap.acquire(64, 8), Some(HEAP_START));
}

#[test]
fn init_heap_exhaustion_leaves_the_bump_allocator_untouched() {
    let mut pt = PageTables::new();
    let mut alloc = frames(5);
    let mut heap = BumpAllocator::new();
    assert_eq!(
        init_heap(&mut pt, &mut alloc, &mut heap),
        Err(MapToError::FrameAllocationFailed)
    );
    // the allocator still manages the empty region: nothing to hand out
    assert_eq!(heap.acquire(1, 1), None);
}

#[test]
fn mappings_survive_later_mappings() {
    let mut pt = PageTables::new();
    let mut alloc = frames(32);
    let first: u64 = 0x1000_0000;
    assert_eq!(pt.map_to(first, PhysFrame { start_address: 0xaaaa_a000 }, flags(), &mut alloc), Ok(()));
    let before = pt.translate_addr(first + 0x10);
    assert_eq!(pt.map_region(0x2000_0000, 0x2000_0000 + 4 * 4096, flags(), &mut alloc), Ok(()));
    assert_eq!(
        pt.map_to(0xffff_0000, PhysFrame { start_address: 0xbbbb_b000 }, flags(), &mut alloc),
        Ok(())
    );
    assert_eq!(pt.translate_addr(first + 0x10), before);
    assert_eq!(before, Some(0xaaaa_a010));
}
