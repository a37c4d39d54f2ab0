use rust_os::allocator::bump::BumpAllocator;
use rust_os::allocator::{HEAP_SIZE, HEAP_START};

#[test]
fn acquire_returns_region_start_first() {
    let mut b = BumpAllocator::new();
    b.init(0x1000, 0x400);
    assert_eq!(b.acquire(16, 8), Some(0x1000));
}

#[test]
fn acquire_rounds_cursor_up_to_alignment() {
    let mut b = BumpAllocator::new();
    b.init(0x1000, 0x400);
    assert_eq!(b.acquire(10, 4), Some(0x1000));
    // cursor is at 0x100a; the next 16-aligned address is 0x1010
    assert_eq!(b.acquire(8, 16), Some(0x1010));
}

#[test]
fn acquire_pointers_do_not_overlap() {
    let mut b = BumpAllocator::new();
    b.init(2000, 1000);
    let p1 = b.acquire(100, 1).unwrap();
    let p2 = b.acquire(50, 1).unwrap();
    let p3 = b.acquire(1, 1).unwrap();
    assert!(p1 + 100 <= p2);
    assert!(p2 + 50 <= p3);
    assert!(p1 >= 2000 && p3 < 3000);
}

#[test]
fn acquire_past_the_end_fails_and_preserves_cursor() {
    let mut b = BumpAllocator::new();
    b.init(1000, 100);
    assert_eq!(b.acquire(10, 4), Some(1000));
    // 90 bytes remain; 91 do not fit
    assert_eq!(b.acquire(91, 1), None);
    // the failed acquire moved nothing: 90 bytes still fit exactly
    assert_eq!(b.acquire(90, 1), Some(1010));
}

#[test]
fn acquire_fails_when_alignment_pushes_past_end() {
    let mut b = BumpAllocator::new();
    b.init(1000, 30);
    assert_eq!(b.acquire(5, 1), Some(1000));
    // next aligned candidate is 1024, and 1024 + 10 > 1030
    assert_eq!(b.acquire(10, 1024), None);
}

#[test]
fn release_all_rewinds_to_region_start() {
    let mut b = BumpAllocator::new();
    b.init(4096, 1024);
    let p1 = b.acquire(100, 8).unwrap();
    let p2 = b.acquire(200, 8).unwrap();
    assert_eq!(p1, 4096);
    b.release(p1, 100, 8);
    // one allocation still lives: the cursor stays put
    assert_eq!(b.acquire(10, 1), Some(4096 + 304));
    b.release(p2, 200, 8);
    b.release(4096 + 304, 10, 1);
    // every outstanding allocation released: the next acquire returns
    // the original start address again
    assert_eq!(b.acquire(100, 8), Some(4096));
}

#[test]
fn release_of_some_allocations_reclaims_nothing() {
    let mut b = BumpAllocator::new();
    b.init(0, 1000);
    let p1 = b.acquire(500, 1).unwrap();
    let _p2 = b.acquire(400, 1).unwrap();
    b.release(p1, 500, 1);
    // 100 bytes remain at the top even though 500 were released below
    assert_eq!(b.acquire(200, 1), None);
    assert_eq!(b.acquire(100, 1), Some(900));
}

#[test]
fn heap_region_constants() {
    assert_eq!(HEAP_START, 0x4444_4444_0000);
    assert_eq!(HEAP_SIZE, 100 * 1024);
    assert_eq!(HEAP_START % 4096, 0);
    assert_eq!(HEAP_SIZE % 4096, 0);
}
