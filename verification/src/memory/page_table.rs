//! Page tables and their 64-bit entries.

use vstd::prelude::*;
use crate::memory::addr::PageTableIndex;
use crate::memory::addr::PhysAddr;
use crate::memory::addr::PhysFrame;
use crate::memory::addr::PHYS_ADDR_LIMIT;

verus! {

/// The number of entries of a page table.
pub const ENTRY_COUNT: usize = 512;

/// The bit of an entry that says that its frame is in memory.
pub const PRESENT: u64 = 1;

/// The bit of an entry that allows writes.
pub const WRITABLE: u64 = 0x2;

/// The bit of an entry that makes it map a huge page.
pub const HUGE_PAGE: u64 = 0x80;

/// The flags of a page table entry.
#[derive(Clone, Copy, Debug, PartialEq, Eq, Structural)]
pub struct PageTableFlags {
    pub present: bool,
    pub writable: bool,
    pub huge_page: bool,
}

/// Why an entry gives no 4 KiB frame.
#[derive(Clone, Copy, Debug, PartialEq, Eq, Structural)]
pub enum FrameError {
    /// The entry is not present.
    FrameNotPresent,
    /// The entry maps a huge page.
    HugeFrame,
}

/// Whether the entry `bits` is present.
pub open spec fn entry_is_present(bits: u64) -> bool {
    bits & 1 != 0
}

/// Whether the entry `bits` allows writes.
pub open spec fn entry_is_writable(bits: u64) -> bool {
    bits & 2 != 0
}

/// Whether the entry `bits` maps a huge page.
pub open spec fn entry_is_huge(bits: u64) -> bool {
    bits & 0x80 != 0
}

/// The physical address that the entry `bits` holds.
pub open spec fn entry_address(bits: u64) -> u64 {
    bits & 0x000f_ffff_ffff_f000
}

/// The flags of the entry `bits`.
pub open spec fn entry_flags(bits: u64) -> PageTableFlags {
    PageTableFlags {
        present: entry_is_present(bits),
        writable: entry_is_writable(bits),
        huge_page: entry_is_huge(bits),
    }
}

/// The start of the frame that the entry `bits` leads to: none while the
/// entry is not present, and none through a huge page.
pub open spec fn entry_frame(bits: u64) -> Result<u64, FrameError> {
    if !entry_is_present(bits) {
        Err(FrameError::FrameNotPresent)
    } else if entry_is_huge(bits) {
        Err(FrameError::HugeFrame)
    } else {
        Ok(entry_address(bits))
    }
}

/// The entry that holds `address` and `flags`.
pub open spec fn entry_bits(address: u64, flags: PageTableFlags) -> u64 {
    address | flags.bits()
}

impl PageTableFlags {
    /// The flags as bits of an entry.
    pub open spec fn bits(self) -> u64 {
        (if self.present { 1u64 } else { 0u64 })
        | (if self.writable { 2u64 } else { 0u64 })
        | (if self.huge_page { 0x80u64 } else { 0u64 })
    }

    /// No flag.
    pub fn empty() -> (r: PageTableFlags)
        ensures
            r == (PageTableFlags { present: false, writable: false, huge_page: false }),
    {
        PageTableFlags { present: false, writable: false, huge_page: false }
    }

    /// The flags among `PRESENT`, `WRITABLE` and `HUGE_PAGE` that `bits`
    /// holds.
    pub fn from_bits_truncate(bits: u64) -> (r: PageTableFlags)
        ensures
            r == entry_flags(bits),
    {
        PageTableFlags {
            present: bits & PRESENT != 0,
            writable: bits & WRITABLE != 0,
            huge_page: bits & HUGE_PAGE != 0,
        }
    }

    /// The flags as bits of an entry.
    pub fn to_bits(self) -> (r: u64)
        ensures
            r == self.bits(),
            entry_flags(r) == self,
            r & 0x000f_ffff_ffff_f000 == 0,
    {
        let present: u64 = if self.present { PRESENT } else { 0 };
        let writable: u64 = if self.writable { WRITABLE } else { 0 };
        let huge_page: u64 = if self.huge_page { HUGE_PAGE } else { 0 };
        proof {
            lemma_flag_bits(self);
        }
        present | writable | huge_page
    }

    /// The flags that are set in `self` or in `other`.
    pub fn union(self, other: PageTableFlags) -> (r: PageTableFlags)
        ensures
            r == (PageTableFlags {
                present: self.present || other.present,
                writable: self.writable || other.writable,
                huge_page: self.huge_page || other.huge_page,
            }),
    {
        PageTableFlags {
            present: self.present || other.present,
            writable: self.writable || other.writable,
            huge_page: self.huge_page || other.huge_page,
        }
    }

    /// Whether every flag of `other` is set in `self`.
    pub fn contains(self, other: PageTableFlags) -> (r: bool)
        ensures
            r == ((other.present ==> self.present) && (other.writable ==> self.writable) && (
            other.huge_page ==> self.huge_page)),
    {
        (!other.present || self.present) && (!other.writable || self.writable) && (
        !other.huge_page || self.huge_page)
    }
}

/// The bits of flags read back as the same flags, and none of them is a
/// bit of an address.
pub proof fn lemma_flag_bits(flags: PageTableFlags)
    ensures
        entry_flags(flags.bits()) == flags,
        flags.bits() & 0x000f_ffff_ffff_f000 == 0,
        flags.bits() <= 0x83,
{
    let p: u64 = if flags.present { 1 } else { 0 };
    let w: u64 = if flags.writable { 2 } else { 0 };
    let h: u64 = if flags.huge_page { 0x80 } else { 0 };
    assert((p == 0 || p == 1) && (w == 0 || w == 2) && (h == 0 || h == 0x80) ==> {
        &&& ((p | w | h) & 1 != 0) == (p == 1)
        &&& ((p | w | h) & 2 != 0) == (w == 2)
        &&& ((p | w | h) & 0x80 != 0) == (h == 0x80)
        &&& (p | w | h) & 0x000f_ffff_ffff_f000 == 0
        &&& (p | w | h) <= 0x83
    }) by (bit_vector);
}

/// An entry made of the start of a frame and of flags gives both back.
pub proof fn lemma_entry_round_trip(address: u64, flags: PageTableFlags)
    requires
        address % 4096 == 0,
        address < PHYS_ADDR_LIMIT,
    ensures
        entry_address(entry_bits(address, flags)) == address,
        entry_flags(entry_bits(address, flags)) == flags,
{
    let f = flags.bits();
    lemma_flag_bits(flags);
    assert(address % 4096 == 0 && address < 0x10_0000_0000_0000 && f <= 0x83 ==> {
        &&& (address | f) & 0x000f_ffff_ffff_f000 == address
        &&& ((address | f) & 1 != 0) == (f & 1 != 0)
        &&& ((address | f) & 2 != 0) == (f & 2 != 0)
        &&& ((address | f) & 0x80 != 0) == (f & 0x80 != 0)
    }) by (bit_vector);
}

/// The address that an entry holds starts a frame.
pub proof fn lemma_entry_address_is_frame(bits: u64)
    ensures
        entry_address(bits) % 4096 == 0,
        entry_address(bits) < PHYS_ADDR_LIMIT,
        entry_address(0) == 0,
        !entry_is_present(0),
{
    assert((bits & 0x000f_ffff_ffff_f000) % 4096 == 0) by (bit_vector);
    assert((bits & 0x000f_ffff_ffff_f000) < 0x10_0000_0000_0000) by (bit_vector);
    assert(0u64 & 0x000f_ffff_ffff_f000 == 0) by (bit_vector);
    assert(0u64 & 1 == 0) by (bit_vector);
}

/// A 64-bit page table entry.
#[derive(Clone, Copy, Debug, PartialEq, Eq, Structural)]
pub struct PageTableEntry {
    entry: u64,
}

impl View for PageTableEntry {
    type V = u64;

    /// The 64 bits of the entry.
    closed spec fn view(&self) -> u64 {
        self.entry
    }
}

impl PageTableEntry {
    /// The unused entry: all bits zero.
    pub fn new() -> (r: PageTableEntry)
        ensures
            r@ == 0,
    {
        PageTableEntry { entry: 0 }
    }

    /// The entry with the bits `bits`.
    pub fn from_bits(bits: u64) -> (r: PageTableEntry)
        ensures
            r@ == bits,
    {
        PageTableEntry { entry: bits }
    }

    /// The bits of the entry.
    pub fn bits(&self) -> (r: u64)
        ensures
            r == self@,
    {
        self.entry
    }

    /// Whether all bits of the entry are zero.
    pub fn is_unused(&self) -> (r: bool)
        ensures
            r == (self@ == 0),
    {
        self.entry == 0
    }

    /// Sets all bits of the entry to zero.
    pub fn set_unused(&mut self)
        ensures
            final(self)@ == 0,
    {
        self.entry = 0;
    }

    /// The flags of the entry.
    pub fn flags(&self) -> (r: PageTableFlags)
        ensures
            r == entry_flags(self@),
    {
        PageTableFlags::from_bits_truncate(self.entry)
    }

    /// The physical address that the entry holds.
    pub fn addr(&self) -> (r: PhysAddr)
        ensures
            r@ == entry_address(self@),
    {
        proof {
            lemma_entry_address_is_frame(self.entry);
        }
        PhysAddr::new(self.entry & 0x000f_ffff_ffff_f000)
    }

    /// The frame that the entry leads to.
    pub fn frame(&self) -> (r: Result<PhysFrame, FrameError>)
        ensures
            match r {
                Ok(frame) => entry_frame(self@) == Ok::<u64, FrameError>(frame@),
                Err(e) => entry_frame(self@) == Err::<u64, FrameError>(e),
            },
    {
        let flags = self.flags();
        if !flags.present {
            Err(FrameError::FrameNotPresent)
        } else if flags.huge_page {
            Err(FrameError::HugeFrame)
        } else {
            proof {
                lemma_entry_address_is_frame(self.entry);
            }
            Ok(PhysFrame::containing_address(self.addr()))
        }
    }

    /// Makes the entry lead to `frame`, with `flags`.
    pub fn set_frame(&mut self, frame: PhysFrame, flags: PageTableFlags)
        requires
            !flags.huge_page,
        ensures
            final(self)@ == entry_bits(frame@, flags),
            entry_frame(final(self)@) == if flags.present {
                Ok::<u64, FrameError>(frame@)
            } else {
                Err::<u64, FrameError>(FrameError::FrameNotPresent)
            },
    {
        let address = frame.start_address().as_u64();
        proof {
            lemma_entry_round_trip(address, flags);
        }
        self.entry = address | flags.to_bits();
    }
}

/// A page table: 512 entries.
pub struct PageTable {
    entries: [u64; ENTRY_COUNT],
}

impl View for PageTable {
    type V = Seq<u64>;

    /// The bits of the 512 entries.
    closed spec fn view(&self) -> Seq<u64> {
        self.entries@
    }
}

/// The table of 512 unused entries.
pub open spec fn empty_table() -> Seq<u64> {
    Seq::new(512, |i: int| 0u64)
}

impl PageTable {
    /// A table has 512 entries.
    pub proof fn lemma_is_whole(self)
        ensures
            self@.len() == 512,
    {
    }

    /// A table of 512 unused entries.
    pub fn new() -> (r: PageTable)
        ensures
            r@ == empty_table(),
    {
        let table = PageTable { entries: [0u64; ENTRY_COUNT] };
        assert(table@ =~= empty_table());
        table
    }

    /// The entry at `index`.
    pub fn entry(&self, index: PageTableIndex) -> (r: PageTableEntry)
        ensures
            self@.len() == 512,
            r@ == self@[index@ as int],
    {
        PageTableEntry::from_bits(self.entries[index.as_usize()])
    }

    /// Puts `entry` at `index`.
    pub fn set_entry(&mut self, index: PageTableIndex, entry: PageTableEntry)
        ensures
            final(self)@ == old(self)@.update(index@ as int, entry@),
    {
        self.entries[index.as_usize()] = entry.bits();
    }

    /// Makes every entry unused.
    pub fn zero(&mut self)
        ensures
            final(self)@ == empty_table(),
    {
        *self = PageTable::new();
    }
}

} // verus!
