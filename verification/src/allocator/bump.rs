//! A bump allocator for the kernel heap.
//!
//! The allocator hands out addresses from a fixed virtual region by
//! advancing a cursor. Releasing an allocation only decrements a count of
//! live allocations; the cursor rewinds to the start of the region when
//! that count reaches zero. This reclaims memory only in the degenerate
//! case of total emptiness — a deliberate simplification, not a defect:
//! interleaving long-lived and short-lived allocations will exhaust the
//! region, and that exhaustion behaviour is part of this allocator's
//! contract.
//!
//! In the kernel the allocator sits behind a mutual-exclusion lock and
//! implements the language runtime's global allocation interface; that
//! wiring is unverifiable plumbing and lives outside this crate. Interrupt
//! handlers must never allocate: taking the lock from interrupt context
//! could deadlock against the very code it interrupted.

use vstd::prelude::*;

verus! {

/// Smallest multiple of `align` that is at least `addr`.
pub open spec fn align_up(addr: int, align: int) -> int
    recommends
        align > 0,
{
    if addr % align == 0 {
        addr
    } else {
        addr + align - addr % align
    }
}

/// What `align_up` yields: an aligned address in `[addr, addr + align)`.
pub proof fn lemma_align_up(addr: int, align: int)
    requires
        addr >= 0,
        align > 0,
    ensures
        align_up(addr, align) % align == 0,
        addr <= align_up(addr, align) < addr + align,
{
    let r = addr % align;
    if r != 0 {
        assert((addr + (align - r)) % align == 0) by {
            vstd::arithmetic::div_mod::lemma_fundamental_div_mod(addr, align);
            vstd::arithmetic::mul::lemma_mul_is_distributive_add(align, addr / align, 1);
            assert(addr + (align - r) == align * (addr / align + 1));
            vstd::arithmetic::mul::lemma_mul_is_commutative(align, addr / align + 1);
            vstd::arithmetic::div_mod::lemma_mod_multiples_basic(addr / align + 1, align);
        }
    }
}

/// Bump allocator over the virtual region `[heap_start, heap_end)`.
pub struct BumpAllocator {
    heap_start: u64,
    heap_end: u64,
    next: u64,
    allocations: u64,
}

impl BumpAllocator {
    /// Start of the region this allocator manages.
    pub closed spec fn spec_heap_start(self) -> int {
        self.heap_start as int
    }

    /// One past the end of the region this allocator manages.
    pub closed spec fn spec_heap_end(self) -> int {
        self.heap_end as int
    }

    /// Position of the allocation cursor: the next candidate address.
    pub closed spec fn spec_next(self) -> int {
        self.next as int
    }

    /// Number of allocations acquired and not yet released.
    pub closed spec fn spec_allocations(self) -> nat {
        self.allocations as nat
    }

    /// The cursor always stays inside the managed region.
    pub open spec fn wf(self) -> bool {
        0 <= self.spec_heap_start() <= self.spec_next() <= self.spec_heap_end()
    }

    /// An allocator that manages the empty region at address zero, as the
    /// kernel's global allocator is before the heap is mapped.
    pub fn new() -> (r: BumpAllocator)
        ensures
            r.wf(),
            r.spec_heap_start() == 0,
            r.spec_heap_end() == 0,
            r.spec_next() == 0,
            r.spec_allocations() == 0,
    {
        BumpAllocator { heap_start: 0, heap_end: 0, next: 0, allocations: 0 }
    }

    /// Adopt the region `[heap_start, heap_start + heap_size)`, which the
    /// caller must already have mapped, and reset the cursor to its start.
    /// Called exactly once, after the heap pages are mapped.
    pub fn init(&mut self, heap_start: u64, heap_size: u64)
        requires
            heap_start + heap_size <= u64::MAX,
        ensures
            final(self).wf(),
            final(self).spec_heap_start() == heap_start,
            final(self).spec_heap_end() == heap_start + heap_size,
            final(self).spec_next() == heap_start,
            final(self).spec_allocations() == 0,
    {
        self.heap_start = heap_start;
        self.heap_end = heap_start + heap_size;
        self.next = heap_start;
        self.allocations = 0;
    }

    /// Acquire `size` bytes at alignment `align`: round the cursor up to
    /// the alignment and advance it past the allocation. Fails, leaving
    /// the allocator untouched, exactly when the rounded cursor plus
    /// `size` would pass the end of the region.
    pub fn acquire(&mut self, size: u64, align: u64) -> (r: Option<u64>)
        requires
            old(self).wf(),
            align > 0,
            old(self).spec_allocations() < u64::MAX,
        ensures
            final(self).wf(),
            final(self).spec_heap_start() == old(self).spec_heap_start(),
            final(self).spec_heap_end() == old(self).spec_heap_end(),
            r is None <==> align_up(old(self).spec_next(), align as int) + size > old(self).spec_heap_end(),
            r is None ==> *final(self) == *old(self),
            r matches Some(p) ==> {
                &&& p == align_up(old(self).spec_next(), align as int)
                &&& p % align == 0
                &&& old(self).spec_next() <= p
                &&& old(self).spec_heap_start() <= p
                &&& p + size <= old(self).spec_heap_end()
                &&& final(self).spec_next() == p + size
                &&& final(self).spec_allocations() == old(self).spec_allocations() + 1
            },
    {
        proof {
            lemma_align_up(self.next as int, align as int);
        }
        let rem: u64 = self.next % align;
        let alloc_start: u64 = if rem == 0 {
            self.next
        } else {
            // `align_up` stays within the region only if it does not pass
            // `heap_end`; on machine overflow it certainly would, so fail.
            match self.next.checked_add(align - rem) {
                Some(s) => s,
                None => {
                    return None;
                },
            }
        };
        let alloc_end: u64 = match alloc_start.checked_add(size) {
            Some(e) => e,
            None => {
                return None;
            },
        };
        if alloc_end > self.heap_end {
            None
        } else {
            self.next = alloc_end;
            self.allocations = self.allocations + 1;
            Some(alloc_start)
        }
    }

    /// Release one outstanding allocation. Only when the last outstanding
    /// allocation is released does the cursor rewind to the start of the
    /// region; otherwise the space is not reclaimed.
    pub fn release(&mut self, _ptr: u64, _size: u64, _align: u64)
        requires
            old(self).wf(),
            old(self).spec_allocations() > 0,
        ensures
            final(self).wf(),
            final(self).spec_heap_start() == old(self).spec_heap_start(),
            final(self).spec_heap_end() == old(self).spec_heap_end(),
            final(self).spec_allocations() == old(self).spec_allocations() - 1,
            old(self).spec_allocations() == 1 ==> final(self).spec_next() == final(self).spec_heap_start(),
            old(self).spec_allocations() > 1 ==> final(self).spec_next() == old(self).spec_next(),
    {
        self.allocations = self.allocations - 1;
        if self.allocations == 0 {
            self.next = self.heap_start;
        }
    }
}

/// Distinct acquisitions never overlap: a second successful acquire begins
/// at or after the end of the first, since the cursor only moves forward.
pub proof fn lemma_acquires_are_disjoint(
    mid: BumpAllocator,
    p1: int,
    size1: int,
    p2: int,
    size2: int,
    align2: int,
)
    requires
        align2 > 0,
        mid.wf(),
        // state after the first acquire: the cursor sits at its end
        mid.spec_next() == p1 + size1,
        // the second acquire succeeded from that state
        p2 == align_up(mid.spec_next(), align2),
    ensures
        p1 + size1 <= p2,
{
    lemma_align_up(mid.spec_next(), align2);
}

/// Releasing every outstanding allocation rewinds the cursor to the region
/// start, so the next acquire at a given alignment returns the same address
/// a first acquire at that alignment would have returned.
pub proof fn lemma_release_all_restores_start(a: BumpAllocator, fresh: BumpAllocator, align: int)
    requires
        align > 0,
        a.wf(),
        fresh.wf(),
        // `a`: a state in which every outstanding allocation has been
        // released; `fresh`: the state `init` establishes for this region.
        a.spec_allocations() == 0,
        a.spec_next() == a.spec_heap_start(),
        fresh.spec_next() == fresh.spec_heap_start(),
        fresh.spec_heap_start() == a.spec_heap_start(),
    ensures
        align_up(a.spec_next(), align) == align_up(fresh.spec_next(), align),
{
}

} // verus!
