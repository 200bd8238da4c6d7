//! The interrupt vectors that the kernel assigns to hardware interrupts.

use vstd::prelude::*;

verus! {

/// The vector at which the interrupts of the first interrupt controller
/// begin. The vectors below it belong to the processor's own exceptions.
pub const PIC_1_OFFSET: u8 = 32;

/// The vector at which the interrupts of the second interrupt controller
/// begin: right behind the eight lines of the first.
pub const PIC_2_OFFSET: u8 = PIC_1_OFFSET + 8;

/// A hardware interrupt that the kernel handles.
#[derive(Debug, Clone, Copy)]
pub enum InterruptIndex {
    /// The timer, on the first line of the first controller.
    Timer,
}

impl InterruptIndex {
    /// The interrupt's vector: its line, counted from the first vector of
    /// the controllers.
    pub open spec fn vector(self) -> nat {
        match self {
            InterruptIndex::Timer => PIC_1_OFFSET as nat,
        }
    }

    /// The interrupt's vector as a byte.
    pub fn as_u8(self) -> (v: u8)
        ensures
            v == self.vector(),
            PIC_1_OFFSET <= v,
    {
        match self {
            InterruptIndex::Timer => PIC_1_OFFSET,
        }
    }

    /// The interrupt's vector as an index into the table of handlers.
    pub fn as_usize(self) -> (v: usize)
        ensures
            v == self.vector(),
            PIC_1_OFFSET <= v < 256,
    {
        self.as_u8() as usize
    }
}

} // verus!
