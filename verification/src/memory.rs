//! Physical frame allocation from the boot-supplied memory map.
//!
//! At boot the loader hands the kernel a map of physical memory: a sorted
//! list of disjoint regions, each marked usable or reserved. The frame
//! allocator hands out the usable 4 KiB frames of that map in address
//! order, never reusing one — a handed-out frame's ownership passes to the
//! page-table mapping that consumes it, and there is no free list.
//!
//! The map arrives from the boot environment as foreign data; the boot
//! path converts it to [`MemoryRegion`] values, which hold exactly what
//! the allocator reads: region bounds and the usable flag.

use vstd::prelude::*;

verus! {

/// Size in bytes of one physical frame and one virtual page.
pub const FRAME_SIZE: u64 = 4096;

/// One region of the boot memory map.
#[derive(Debug, Clone, Copy, PartialEq, Eq, Structural)]
pub struct MemoryRegion {
    /// Physical address of the first byte of the region.
    pub start: u64,
    /// Physical address one past the last byte of the region.
    pub end: u64,
    /// Whether the region is free for the kernel to allocate from.
    pub usable: bool,
}

/// One 4 KiB unit of physical memory, identified by its start address.
#[derive(Debug, Clone, Copy, PartialEq, Eq, Structural)]
pub struct PhysFrame {
    /// Physical address of the first byte of the frame; a multiple of
    /// [`FRAME_SIZE`].
    pub start_address: u64,
}

/// A well-formed boot memory map: every region is frame-aligned with its
/// start not past its end, and the regions are sorted and disjoint.
pub open spec fn regions_wf(s: Seq<MemoryRegion>) -> bool {
    &&& forall|i: int|
        0 <= i < s.len() ==> {
            &&& #[trigger] s[i].start % FRAME_SIZE == 0
            &&& s[i].end % FRAME_SIZE == 0
            &&& s[i].start <= s[i].end
        }
    &&& forall|i: int, j: int| 0 <= i < j < s.len() ==> #[trigger] s[i].end <= #[trigger] s[j].start
}

/// The frames of one region, in address order; empty if the region is
/// reserved.
pub open spec fn region_frames(r: MemoryRegion) -> Seq<u64> {
    if r.usable {
        Seq::new(((r.end - r.start) / (FRAME_SIZE as int)) as nat, |i: int| (r.start + 4096 * i) as u64)
    } else {
        Seq::empty()
    }
}

/// Every usable frame of the map, region by region in map order.
pub open spec fn usable_frames(s: Seq<MemoryRegion>) -> Seq<u64>
    decreases s.len(),
{
    if s.len() == 0 {
        Seq::empty()
    } else {
        region_frames(s[0]) + usable_frames(s.drop_first())
    }
}

/// Appending a region appends its frames.
pub proof fn lemma_usable_frames_push(s: Seq<MemoryRegion>, r: MemoryRegion)
    ensures
        usable_frames(s.push(r)) == usable_frames(s) + region_frames(r),
    decreases s.len(),
{
    if s.len() == 0 {
        assert(s.push(r).drop_first() =~= Seq::<MemoryRegion>::empty());
        assert(usable_frames(Seq::<MemoryRegion>::empty()) == Seq::<u64>::empty());
        assert(s.push(r)[0] == r);
        assert(usable_frames(s.push(r)) == region_frames(r) + Seq::<u64>::empty());
        assert(usable_frames(s.push(r)) =~= usable_frames(s) + region_frames(r));
    } else {
        assert(s.push(r).drop_first() =~= s.drop_first().push(r));
        lemma_usable_frames_push(s.drop_first(), r);
        assert(s.push(r)[0] == s[0]);
        assert(usable_frames(s.push(r)) == region_frames(s[0]) + usable_frames(
            s.drop_first().push(r),
        ));
        assert(usable_frames(s.push(r)) =~= usable_frames(s) + region_frames(r));
    }
}

/// The frames of a map split anywhere: those of the first `i` regions
/// followed by those of the rest.
pub proof fn lemma_usable_frames_split(s: Seq<MemoryRegion>, i: int)
    requires
        0 <= i <= s.len(),
    ensures
        usable_frames(s) == usable_frames(s.take(i)) + usable_frames(s.skip(i)),
    decreases i,
{
    if i == 0 {
        assert(s.take(0) =~= Seq::<MemoryRegion>::empty());
        assert(s.skip(0) =~= s);
        assert(usable_frames(s) =~= usable_frames(s.take(0)) + usable_frames(s.skip(0)));
    } else {
        lemma_usable_frames_split(s, i - 1);
        assert(s.take(i) =~= s.take(i - 1).push(s[i - 1]));
        lemma_usable_frames_push(s.take(i - 1), s[i - 1]);
        assert(s.skip(i - 1) =~= seq![s[i - 1]] + s.skip(i));
        assert(s.skip(i - 1).drop_first() =~= s.skip(i));
        assert(usable_frames(s.skip(i - 1)) == region_frames(s[i - 1]) + usable_frames(s.skip(i)));
        assert(usable_frames(s) =~= usable_frames(s.take(i)) + usable_frames(s.skip(i)));
    }
}

/// Every frame of a well-formed map lies at or above the start of its
/// first region.
proof fn lemma_usable_frames_lower_bound(s: Seq<MemoryRegion>, lo: u64)
    requires
        regions_wf(s),
        forall|i: int| 0 <= i < s.len() ==> lo <= #[trigger] s[i].start,
    ensures
        forall|k: int| 0 <= k < usable_frames(s).len() ==> lo <= #[trigger] usable_frames(s)[k],
    decreases s.len(),
{
    if s.len() > 0 {
        let rest = s.drop_first();
        assert(regions_wf(rest)) by {
            assert(forall|i: int| 0 <= i < rest.len() ==> rest[i] == s[i + 1]);
        }
        lemma_usable_frames_lower_bound(rest, lo);
        assert forall|k: int| 0 <= k < usable_frames(s).len() implies lo <= #[trigger] usable_frames(
            s,
        )[k] by {
            let a = region_frames(s[0]);
            if k < a.len() {
                assert(usable_frames(s)[k] == a[k]);
                assert(a[k] == (s[0].start + 4096 * k) as u64);
                assert(0 <= 4096 * k);
                assert(s[0].start + 4096 * k < s[0].end) by {
                    assert(k < (s[0].end - s[0].start) / 4096);
                    vstd::arithmetic::div_mod::lemma_remainder_lower(
                        s[0].end - s[0].start,
                        4096,
                    );
                    assert(4096 * ((s[0].end - s[0].start) / 4096) <= s[0].end - s[0].start);
                    assert(4096 * k + 4096 <= 4096 * ((s[0].end - s[0].start) / 4096));
                }
            } else {
                assert(usable_frames(s)[k] == usable_frames(rest)[k - a.len()]);
            }
        }
    }
}

/// In a well-formed map the usable frames are strictly increasing, so no
/// frame appears twice.
pub proof fn lemma_usable_frames_increasing(s: Seq<MemoryRegion>)
    requires
        regions_wf(s),
    ensures
        forall|i: int, j: int|
            0 <= i < j < usable_frames(s).len() ==> #[trigger] usable_frames(s)[i]
                < #[trigger] usable_frames(s)[j],
    decreases s.len(),
{
    if s.len() > 0 {
        let rest = s.drop_first();
        assert(regions_wf(rest)) by {
            assert(forall|i: int| 0 <= i < rest.len() ==> rest[i] == s[i + 1]);
        }
        lemma_usable_frames_increasing(rest);
        lemma_usable_frames_lower_bound(rest, s[0].end);
        let a = region_frames(s[0]);
        let n = (s[0].end - s[0].start) / (4096 as int);
        assert forall|i: int, j: int|
            0 <= i < j < usable_frames(s).len() implies #[trigger] usable_frames(s)[i]
            < #[trigger] usable_frames(s)[j] by {
            if j < a.len() {
                assert(4096 * i < 4096 * j);
                assert(s[0].start + 4096 * j < s[0].end) by {
                    vstd::arithmetic::div_mod::lemma_remainder_lower(
                        s[0].end - s[0].start,
                        4096,
                    );
                    assert(4096 * j + 4096 <= 4096 * n);
                }
                assert(s[0].start + 4096 * i < s[0].start + 4096 * j);
            } else if i < a.len() {
                assert(s[0].start + 4096 * i < s[0].end) by {
                    vstd::arithmetic::div_mod::lemma_remainder_lower(
                        s[0].end - s[0].start,
                        4096,
                    );
                    assert(4096 * i + 4096 <= 4096 * n);
                }
                assert(usable_frames(s)[j] == usable_frames(rest)[j - a.len()]);
                assert(s[0].end <= usable_frames(rest)[j - a.len()]);
            } else {
                assert(usable_frames(s)[i] == usable_frames(rest)[i - a.len()]);
                assert(usable_frames(s)[j] == usable_frames(rest)[j - a.len()]);
            }
        }
    }
}

/// Allocates unused physical frames from the boot memory map, in address
/// order, and never hands the same frame out twice.
pub struct BootInfoFrameAllocator {
    regions: Vec<MemoryRegion>,
    next: usize,
}

impl BootInfoFrameAllocator {
    /// The memory map this allocator draws from.
    pub closed spec fn spec_regions(self) -> Seq<MemoryRegion> {
        self.regions@
    }

    /// How many usable frames have been handed out so far.
    pub closed spec fn spec_next(self) -> int {
        self.next as int
    }

    /// The map is well formed and the cursor has not passed the end of
    /// the usable frames.
    pub open spec fn wf(self) -> bool {
        &&& regions_wf(self.spec_regions())
        &&& 0 <= self.spec_next() <= usable_frames(self.spec_regions()).len()
        // machine limit: the cursor, a usize, must be able to reach the end
        &&& usable_frames(self.spec_regions()).len() <= usize::MAX
    }

    /// Adopt a boot memory map. The caller vouches that the regions
    /// describe real, unused physical memory: handing out a frame that is
    /// in use would let the kernel overwrite live data.
    pub fn init(regions: Vec<MemoryRegion>) -> (r: BootInfoFrameAllocator)
        requires
            regions_wf(regions@),
            usable_frames(regions@).len() <= usize::MAX,
        ensures
            r.wf(),
            r.spec_regions() == regions@,
            r.spec_next() == 0,
    {
        BootInfoFrameAllocator { regions, next: 0 }
    }

    /// Hand out the next usable frame of the map, or report exhaustion.
    /// Once the map is exhausted, every further call reports exhaustion
    /// and changes nothing.
    pub fn allocate_frame(&mut self) -> (r: Option<PhysFrame>)
        requires
            old(self).wf(),
        ensures
            final(self).wf(),
            final(self).spec_regions() == old(self).spec_regions(),
            r is Some <==> old(self).spec_next() < usable_frames(old(self).spec_regions()).len(),
            r matches Some(f) ==> {
                &&& f.start_address == usable_frames(old(self).spec_regions())[old(self).spec_next()]
                &&& f.start_address % FRAME_SIZE == 0
                &&& final(self).spec_next() == old(self).spec_next() + 1
            },
            r is None ==> *final(self) == *old(self),
    {
        let ghost all = usable_frames(self.regions@);
        let mut i: usize = 0;
        let mut skipped: u64 = 0;
        while i < self.regions.len()
            invariant
                self.wf(),
                *self == *old(self),
                0 <= i <= self.regions.len(),
                skipped == usable_frames(self.regions@.take(i as int)).len(),
                skipped <= self.next as u64,
                all == usable_frames(self.regions@),
                self.next as int <= all.len(),
            decreases self.regions.len() - i,
        {
            proof {
                lemma_usable_frames_split(self.regions@, i as int);
                lemma_usable_frames_split(self.regions@, i + 1);
                assert(self.regions@.take(i + 1) =~= self.regions@.take(i as int).push(
                    self.regions@[i as int],
                ));
                lemma_usable_frames_push(self.regions@.take(i as int), self.regions@[i as int]);
            }
            let region = self.regions[i];
            if region.usable {
                let count: u64 = (region.end - region.start) / FRAME_SIZE;
                proof {
                    assert(region_frames(self.regions@[i as int]).len() == count);
                }
                let position: u64 = (self.next as u64) - skipped;
                if position < count {
                    proof {
                        assert(all[self.next as int] == region_frames(self.regions@[i as int])[position as int]);
                        vstd::arithmetic::div_mod::lemma_remainder_lower(
                            (region.end - region.start) as int,
                            4096,
                        );
                        assert(4096 * (position as int) + 4096 <= 4096 * (count as int));
                    }
                    let frame = PhysFrame { start_address: region.start + FRAME_SIZE * position };
                    proof {
                        assert(frame.start_address % FRAME_SIZE == 0) by {
                            vstd::arithmetic::div_mod::lemma_add_mod_noop(
                                region.start as int,
                                4096 * (position as int),
                                4096,
                            );
                            vstd::arithmetic::div_mod::lemma_mod_multiples_basic(
                                position as int,
                                4096,
                            );
                            vstd::arithmetic::div_mod::lemma_small_mod(0nat, 4096nat);
                        }
                    }
                    self.next = self.next + 1;
                    return Some(frame);
                }
                skipped = skipped + count;
            }
            i = i + 1;
        }
        proof {
            lemma_usable_frames_split(self.regions@, self.regions@.len() as int);
            assert(self.regions@.take(self.regions@.len() as int) =~= self.regions@);
            assert(all.len() == skipped);
        }
        None
    }
}

/// No frame is handed out twice: distinct positions of the usable-frame
/// sequence are distinct frames, and `allocate_frame` advances through
/// that sequence without ever stepping back.
pub proof fn lemma_frames_never_repeat(s: Seq<MemoryRegion>, i: int, j: int)
    requires
        regions_wf(s),
        0 <= i < j < usable_frames(s).len(),
    ensures
        usable_frames(s)[i] != usable_frames(s)[j],
{
    lemma_usable_frames_increasing(s);
}

} // verus!
