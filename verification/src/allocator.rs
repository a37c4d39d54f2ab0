//! The kernel heap: a fixed virtual region backed by freshly allocated
//! physical frames and served by a bump allocator.

use crate::memory::{BootInfoFrameAllocator, FRAME_SIZE};
use crate::paging::{maps_to_fresh_frame, MapToError, PageTableFlags, PageTables};
use vstd::prelude::*;

pub mod bump;

verus! {

/// Starting virtual address of the kernel heap region.
pub const HEAP_START: u64 = 0x4444_4444_0000;

/// Size of the kernel heap in bytes (100 KiB).
pub const HEAP_SIZE: u64 = 100 * 1024;

/// Map the heap's virtual region to freshly allocated physical frames and
/// hand the region to the bump allocator. Frame exhaustion while mapping
/// is reported to the boot sequence as a typed failure, so the caller can
/// abandon heap initialisation and keep the rest of the kernel running;
/// translations that existed before the call are unchanged either way.
pub fn init_heap(
    mapper: &mut PageTables,
    frame_allocator: &mut BootInfoFrameAllocator,
    heap: &mut bump::BumpAllocator,
) -> (r: Result<(), MapToError>)
    requires
        old(mapper).wf(),
        old(frame_allocator).wf(),
    ensures
        final(mapper).wf(),
        final(frame_allocator).wf(),
        final(frame_allocator).spec_regions() == old(frame_allocator).spec_regions(),
        r is Ok ==> (forall|va: u64|
            HEAP_START <= va < HEAP_START + HEAP_SIZE ==> (#[trigger] final(mapper).translate_spec(
                va,
            ) is Some)),
        // the heap's pages are backed by frames freshly drawn from the
        // boot memory map during this call
        r is Ok ==> (forall|va: u64|
            HEAP_START <= va < HEAP_START + HEAP_SIZE ==> #[trigger] maps_to_fresh_frame(
                *final(mapper),
                old(frame_allocator).spec_regions(),
                old(frame_allocator).spec_next(),
                final(frame_allocator).spec_next(),
                va,
            )),
        r is Ok ==> (final(heap).wf() && final(heap).spec_heap_start() == HEAP_START && final(heap).spec_heap_end() == HEAP_START + HEAP_SIZE && final(heap).spec_next() == HEAP_START
            && final(heap).spec_allocations() == 0),
        r is Err ==> *final(heap) == *old(heap),
        forall|va: u64|
            ((#[trigger] old(mapper).translate_spec(va) is Some) ==> final(mapper).translate_spec(
                va,
            ) == old(mapper).translate_spec(va)),
        // the frame cursor only ever advances: no frame is reused
        old(frame_allocator).spec_next() <= final(frame_allocator).spec_next(),
        // initialisation succeeded only over previously unmapped addresses
        r is Ok ==> (forall|va: u64|
            HEAP_START <= va < HEAP_START + HEAP_SIZE ==> (#[trigger] old(mapper).page_walk(
                va,
            ) is NotMapped)),
        // distinct heap pages are backed by distinct frames
        r is Ok ==> (forall|va1: u64, va2: u64|
            HEAP_START <= va1 < HEAP_START + HEAP_SIZE && HEAP_START <= va2 < HEAP_START
                + HEAP_SIZE && !crate::paging::same_path(va1, va2, 4) ==> #[trigger] final(mapper).page_walk(va1) != #[trigger] final(mapper).page_walk(va2)),
        // success is owed: an unmapped heap range cannot fail while the
        // allocator holds the worst case of four frames per heap page
        ((forall|va: u64|
            HEAP_START <= va < HEAP_START + HEAP_SIZE ==> (#[trigger] old(mapper).page_walk(
                va,
            ) is NotMapped)) && crate::memory::usable_frames(
            old(frame_allocator).spec_regions(),
        ).len() - old(frame_allocator).spec_next() >= 4 * ((HEAP_SIZE / FRAME_SIZE) as int))
            ==> r is Ok,
        // frame exhaustion is reported only when the allocator held less
        // than that worst case
        (r matches Err(e) && e is FrameAllocationFailed) ==> (crate::memory::usable_frames(
            old(frame_allocator).spec_regions(),
        ).len() - old(frame_allocator).spec_next() < 4 * ((HEAP_SIZE / FRAME_SIZE) as int)),
        // and it leaves the cursor at the end of the usable map, so every
        // later frame request reports exhaustion as well
        (r matches Err(e) && e is FrameAllocationFailed) ==> final(frame_allocator).spec_next()
            == crate::memory::usable_frames(old(frame_allocator).spec_regions()).len(),
        // the other failures only report what the old state shows
        (r matches Err(e) && e is PageAlreadyMapped) ==> (exists|va: u64|
            HEAP_START <= va < HEAP_START + HEAP_SIZE && (#[trigger] old(mapper).translate_spec(
                va,
            ) is Some)),
        (r matches Err(e) && e is ParentEntryHugePage) ==> (exists|va: u64|
            HEAP_START <= va < HEAP_START + HEAP_SIZE && (#[trigger] old(mapper).page_walk(
                va,
            ) is LargePage)),
{
    let flags = PageTableFlags { present: true, writable: true };
    let heap_end: u64 = HEAP_START + HEAP_SIZE;
    match mapper.map_region(HEAP_START, heap_end, flags, frame_allocator) {
        Ok(()) => {
            heap.init(HEAP_START, HEAP_SIZE);
            Ok(())
        },
        Err(e) => Err(e),
    }
}

} // verus!
