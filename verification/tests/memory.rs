use rust_os::memory::{BootInfoFrameAllocator, MemoryRegion, PhysFrame};

fn region(start: u64, end: u64, usable: bool) -> MemoryRegion {
    MemoryRegion { start, end, usable }
}

#[test]
fn frames_come_from_usable_regions_in_address_order() {
    let map = vec![
        region(0x1000, 0x3000, true),
        region(0x3000, 0x5000, false),
        region(0x5000, 0x6000, true),
    ];
    let mut alloc = BootInfoFrameAllocator::init(map);
    assert_eq!(alloc.allocate_frame(), Some(PhysFrame { start_address: 0x1000 }));
    assert_eq!(alloc.allocate_frame(), Some(PhysFrame { start_address: 0x2000 }));
    assert_eq!(alloc.allocate_frame(), Some(PhysFrame { start_address: 0x5000 }));
    assert_eq!(alloc.allocate_frame(), None);
}

#[test]
fn no_frame_is_handed_out_twice() {
    let map = vec![region(0x10000, 0x10000 + 16 * 4096, true)];
    let mut alloc = BootInfoFrameAllocator::init(map);
    let mut seen: Vec<u64> = Vec::new();
    while let Some(f) = alloc.allocate_frame() {
        assert!(!seen.contains(&f.start_address));
        assert_eq!(f.start_address % 4096, 0);
        seen.push(f.start_address);
    }
    assert_eq!(seen.len(), 16);
}

#[test]
fn exhaustion_is_deterministic() {
    let map = vec![region(0x2000, 0x3000, true)];
    let mut alloc = BootInfoFrameAllocator::init(map);
    assert!(alloc.allocate_frame().is_some());
    for _ in 0..5 {
        assert_eq!(alloc.allocate_frame(), None);
    }
}

#[test]
fn reserved_only_map_is_exhausted_from_the_start() {
    let map = vec![region(0x1000, 0x8000, false)];
    let mut alloc = BootInfoFrameAllocator::init(map);
    assert_eq!(alloc.allocate_frame(), None);
    assert_eq!(alloc.allocate_frame(), None);
}

#[test]
fn empty_region_yields_no_frames() {
    let map = vec![region(0x4000, 0x4000, true), region(0x6000, 0x7000, true)];
    let mut alloc = BootInfoFrameAllocator::init(map);
    assert_eq!(alloc.allocate_frame(), Some(PhysFrame { start_address: 0x6000 }));
    assert_eq!(alloc.allocate_frame(), None);
}
