//! Core logic of a freestanding, single-core x86-64 kernel: interrupt vector
//! layout, virtual-to-physical address translation over a four-level page
//! table, physical frame allocation from a boot-supplied memory map, a bump
//! heap allocator, and a cooperative task executor with a keyboard bridge.
//!
//! Everything hardware-facing (descriptor tables, port I/O, the real page
//! tables in physical memory, interrupt delivery) lives outside this crate;
//! the types here model exactly the state that the kernel's decisions read
//! and write, so those decisions can be specified and verified.

use vstd::prelude::*;

pub mod allocator;
pub mod interrupts;
pub mod memory;
pub mod paging;
pub mod task;

verus! {


/// Exit code reported to the emulator's debug-exit device by the test
/// harness. The device reports `(code << 1) | 1` to the host, so success
/// is deliberately a value distinct from every ordinary exit status.
#[derive(Debug, Clone, Copy, PartialEq, Eq, Structural)]
pub enum QemuExitCode {
    Success,
    Failed,
}

impl QemuExitCode {
    /// The four-byte value written to the debug-exit port for this outcome.
    pub fn code(self) -> (r: u32)
        ensures
            self is Success ==> r == 0x10,
            self is Failed ==> r == 0x11,
    {
        match self {
            QemuExitCode::Success => 0x10,
            QemuExitCode::Failed => 0x11,
        }
    }
}

} // verus!
