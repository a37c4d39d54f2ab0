//! Interrupt vector layout for the legacy dual programmable interrupt
//! controller (PIC).
//!
//! The 32 vectors below 32 are reserved for CPU exceptions, so hardware
//! interrupts are remapped to begin at vector 32: the first controller
//! delivers vectors 32..=39 and the second 40..=47. The timer and the
//! keyboard occupy the first two slots of the first controller.
//!
//! Loading the interrupt descriptor table onto the CPU, and signalling
//! end-of-interrupt to the controllers, are hardware operations and are
//! performed outside this crate; this module pins down the vector numbers
//! those operations use and the table layout [`install`] builds: every
//! vector not explicitly set traps to a default failure handler, and only
//! the double-fault entry switches to the dedicated stack.

use vstd::prelude::*;

verus! {

/// First vector delivered by the primary interrupt controller.
pub const PIC_1_OFFSET: u8 = 32;

/// First vector delivered by the secondary interrupt controller.
pub const PIC_2_OFFSET: u8 = PIC_1_OFFSET + 8;

/// Hardware interrupt lines this kernel handles, by their position in the
/// remapped vector space.
#[derive(Debug, Clone, Copy, PartialEq, Eq, Structural)]
pub enum InterruptIndex {
    Timer,
    Keyboard,
}

impl InterruptIndex {
    /// The interrupt vector this line is delivered on.
    pub open spec fn spec_vector(self) -> u8 {
        match self {
            InterruptIndex::Timer => 32,
            InterruptIndex::Keyboard => 33,
        }
    }

    /// Vector number as a byte, as the controller expects for
    /// end-of-interrupt notifications.
    pub fn as_u8(self) -> (r: u8)
        ensures
            r == self.spec_vector(),
            PIC_1_OFFSET <= r < PIC_1_OFFSET + 8,
    {
        match self {
            InterruptIndex::Timer => PIC_1_OFFSET,
            InterruptIndex::Keyboard => PIC_1_OFFSET + 1,
        }
    }

    /// Vector number widened for indexing the 256-entry dispatch table.
    pub fn as_usize(self) -> (r: usize)
        ensures
            r == self.spec_vector(),
            32 <= r < 256,
    {
        self.as_u8() as usize
    }
}

/// The handler a vector dispatches to.
#[derive(Debug, Clone, Copy, PartialEq, Eq, Structural)]
pub enum Handler {
    /// An unconfigured vector: reports the unexpected event and fails.
    Default,
    /// Diagnostic breakpoint: reports and resumes.
    Breakpoint,
    /// Second fault while handling a first: fatal, on a dedicated stack.
    DoubleFault,
    /// Page fault: reported, then the CPU is parked.
    PageFault,
    /// Timer tick.
    Timer,
    /// Keyboard byte ready.
    Keyboard,
}

/// Architectural vector of the breakpoint exception.
pub const BREAKPOINT_VECTOR: u8 = 3;

/// Architectural vector of the double fault.
pub const DOUBLE_FAULT_VECTOR: u8 = 8;

/// Architectural vector of the page fault.
pub const PAGE_FAULT_VECTOR: u8 = 14;

/// The double-fault handler uses the first stack of the interrupt stack
/// table, so a fault raised on a corrupted stack can still be serviced.
pub const DOUBLE_FAULT_IST_INDEX: u16 = 0;

/// The 256-entry dispatch table: one handler per interrupt vector.
pub struct DispatchTable {
    entries: Vec<Handler>,
}

impl DispatchTable {
    /// The handler of each vector.
    pub closed spec fn spec_entries(self) -> Seq<Handler> {
        self.entries@
    }

    /// The handler a vector dispatches to.
    pub fn dispatch(&self, vector: u8) -> (h: Handler)
        requires
            self.spec_entries().len() == 256,
        ensures
            h == self.spec_entries()[vector as int],
    {
        self.entries[vector as usize]
    }

    /// Whether a vector's handler runs on the dedicated known-good stack:
    /// only the double fault, whose trigger may be a corrupted stack.
    pub fn dedicated_stack_index(&self, vector: u8) -> (r: Option<u16>)
        ensures
            vector == DOUBLE_FAULT_VECTOR ==> r == Some(DOUBLE_FAULT_IST_INDEX),
            vector != DOUBLE_FAULT_VECTOR ==> r is None,
    {
        if vector == DOUBLE_FAULT_VECTOR {
            Some(DOUBLE_FAULT_IST_INDEX)
        } else {
            None
        }
    }
}

/// Build the dispatch table the kernel loads at boot: every vector traps
/// to the default failure handler except the five the kernel handles —
/// breakpoint, double fault and page fault at their architectural
/// vectors, timer and keyboard at the remapped hardware vectors.
pub fn install() -> (t: DispatchTable)
    ensures
        t.spec_entries().len() == 256,
        t.spec_entries()[BREAKPOINT_VECTOR as int] == Handler::Breakpoint,
        t.spec_entries()[DOUBLE_FAULT_VECTOR as int] == Handler::DoubleFault,
        t.spec_entries()[PAGE_FAULT_VECTOR as int] == Handler::PageFault,
        t.spec_entries()[InterruptIndex::Timer.spec_vector() as int] == Handler::Timer,
        t.spec_entries()[InterruptIndex::Keyboard.spec_vector() as int] == Handler::Keyboard,
        forall|v: int|
            0 <= v < 256 && v != BREAKPOINT_VECTOR && v != DOUBLE_FAULT_VECTOR && v
                != PAGE_FAULT_VECTOR && v != InterruptIndex::Timer.spec_vector() && v
                != InterruptIndex::Keyboard.spec_vector() ==> (#[trigger] t.spec_entries()[v] is Default),
{
    let mut entries: Vec<Handler> = Vec::new();
    let mut i: usize = 0;
    while i < 256
        invariant
            i == entries.len(),
            i <= 256,
            forall|k: int| 0 <= k < i ==> (#[trigger] entries@[k] is Default),
        decreases 256 - i,
    {
        entries.push(Handler::Default);
        i = i + 1;
    }
    entries[BREAKPOINT_VECTOR as usize] = Handler::Breakpoint;
    entries[DOUBLE_FAULT_VECTOR as usize] = Handler::DoubleFault;
    entries[PAGE_FAULT_VECTOR as usize] = Handler::PageFault;
    entries[InterruptIndex::Timer.as_usize()] = Handler::Timer;
    entries[InterruptIndex::Keyboard.as_usize()] = Handler::Keyboard;
    DispatchTable { entries }
}

} // verus!
