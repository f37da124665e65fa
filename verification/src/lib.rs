//! Heap-allocation subsystem of a freestanding kernel.
//!
//! The core of this crate is a set of three interchangeable allocation
//! strategies (bump, first-fit free list, segregated fixed-size blocks) that
//! serve variable-sized, variable-alignment memory blocks out of a single
//! fixed backing region.  Every strategy is specified and verified over an
//! explicit model of the heap: addresses are plain `usize` offsets, the
//! backing bytes live in an owned arena, and the set of outstanding
//! allocations is tracked as ghost state so that freedom from overlap is a
//! proved invariant rather than a convention.

use vstd::prelude::*;

pub mod allocator;
pub mod interrupts;
pub mod memory;
pub mod task;
pub mod vga_buffer;

verus! {

/// Exit codes reported to the emulator that hosts the kernel during a test
/// run.  The codes themselves are written to a debug port by unverified
/// startup code; here only the mapping from variant to code is defined.
#[derive(Debug, Clone, Copy, PartialEq, Eq, Structural)]
pub enum QemuExitCode {
    Success,
    Failed,
}

impl QemuExitCode {
    /// The numeric code written to the emulator's debug port.
    pub fn code(self) -> (c: u32)
        ensures
            c == (match self {
                QemuExitCode::Success => 0x10u32,
                QemuExitCode::Failed => 0x11u32,
            }),
    {
        match self {
            QemuExitCode::Success => 0x10,
            QemuExitCode::Failed => 0x11,
        }
    }
}

/// A deliberately empty function: the smallest possible body that the kernel
/// test harness can register and run.
pub fn testfn() {
}

} // verus!
