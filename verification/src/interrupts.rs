//! The interrupt lines the kernel listens on.
//!
//! The two programmable interrupt controllers are remapped at boot so that
//! their lines do not collide with CPU exceptions; the enum below names the
//! lines the kernel handles and fixes their positions in the interrupt
//! descriptor table.  Programming the controllers and installing the handler
//! table touch hardware and live with the unverified startup code.

use vstd::prelude::*;

verus! {

/// The interrupt vector where the first controller's lines begin after
/// remapping: right after the 32 CPU exception vectors.
pub const PIC_1_OFFSET: u8 = 32;

/// The interrupt vector where the second controller's lines begin.
pub const PIC_2_OFFSET: u8 = PIC_1_OFFSET + 8;

/// The hardware interrupt lines the kernel handles, in vector order
/// starting at `PIC_1_OFFSET`.
#[derive(Debug, Clone, Copy)]
pub enum InterruptIndex {
    Timer,
    KeyBoard,
}

impl InterruptIndex {
    /// The interrupt vector of this line.
    pub open spec fn spec_u8(self) -> u8 {
        match self {
            InterruptIndex::Timer => PIC_1_OFFSET,
            InterruptIndex::KeyBoard => (PIC_1_OFFSET + 1) as u8,
        }
    }

    /// The interrupt vector of this line.
    pub fn as_u8(self) -> (r: u8)
        ensures
            r == self.spec_u8(),
    {
        match self {
            InterruptIndex::Timer => PIC_1_OFFSET,
            InterruptIndex::KeyBoard => PIC_1_OFFSET + 1,
        }
    }

    /// The interrupt vector of this line, as a table index.
    pub fn as_usize(self) -> (r: usize)
        ensures
            r == self.spec_u8() as usize,
    {
        self.as_u8() as usize
    }
}

} // verus!
