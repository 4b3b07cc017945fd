//! The numbers of the hardware interrupts.

use vstd::prelude::*;

verus! {

/// The interrupt number of the first line of the primary interrupt
/// controller.
pub const PIC_1_OFFSET: u8 = 32;

/// The interrupt number of the first line of the secondary interrupt
/// controller.
pub const PIC_2_OFFSET: u8 = PIC_1_OFFSET + 8;

/// A hardware interrupt.
#[derive(Clone, Copy, Debug, PartialEq, Eq, Structural)]
pub enum InterruptIndex {
    Timer,
    Keyboard,
}

impl InterruptIndex {
    /// The interrupt number: the lines of the primary controller in
    /// their order, from `PIC_1_OFFSET` on.
    pub open spec fn number(self) -> u8 {
        match self {
            InterruptIndex::Timer => 32,
            InterruptIndex::Keyboard => 33,
        }
    }

    /// The interrupt number.
    pub fn as_u8(self) -> (r: u8)
        ensures
            r == self.number(),
    {
        match self {
            InterruptIndex::Timer => PIC_1_OFFSET,
            InterruptIndex::Keyboard => PIC_1_OFFSET + 1,
        }
    }

    /// The interrupt number, as an index into the table of handlers.
    pub fn as_usize(self) -> (r: usize)
        ensures
            r == self.number(),
    {
        self.as_u8() as usize
    }
}

impl From<InterruptIndex> for u8 {
    /// The interrupt number of `index`.
    fn from(index: InterruptIndex) -> (r: u8) {
        index.as_u8()
    }
}

impl vstd::std_specs::convert::FromSpecImpl<InterruptIndex> for u8 {
    open spec fn obeys_from_spec() -> bool {
        true
    }

    open spec fn from_spec(index: InterruptIndex) -> u8 {
        index.number()
    }
}

impl From<InterruptIndex> for usize {
    /// The interrupt number of `index`.
    fn from(index: InterruptIndex) -> (r: usize) {
        index.as_usize()
    }
}

impl vstd::std_specs::convert::FromSpecImpl<InterruptIndex> for usize {
    open spec fn obeys_from_spec() -> bool {
        true
    }

    open spec fn from_spec(index: InterruptIndex) -> usize {
        index.number() as usize
    }
}

} // verus!
