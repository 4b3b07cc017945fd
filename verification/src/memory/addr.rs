//! Physical and virtual addresses, and the 4 KiB frames and pages that
//! they fall into.

use vstd::prelude::*;

verus! {

/// The size of a page and of a frame in bytes.
pub const PAGE_SIZE: u64 = 4096;

/// The first value that is no physical address: physical addresses have
/// 52 bits.
pub const PHYS_ADDR_LIMIT: u64 = 0x10_0000_0000_0000;

/// The start of the 4 KiB block that holds `addr`.
pub open spec fn align_down_4k(addr: u64) -> u64 {
    (addr - addr % 4096) as u64
}

/// The start of the first 4 KiB block that does not start below `addr`.
pub open spec fn align_up_4k(addr: u64) -> int {
    if addr % 4096 == 0 {
        addr as int
    } else {
        addr - addr % 4096 + 4096
    }
}

/// The 12-bit offset of `addr` in its page.
pub open spec fn page_offset_of(addr: u64) -> u64 {
    addr & 0xfff
}

/// The 9-bit index of `addr` into the level 1 page table.
pub open spec fn p1_index_of(addr: u64) -> u64 {
    (addr >> 12) & 0x1ff
}

/// The 9-bit index of `addr` into the level 2 page table.
pub open spec fn p2_index_of(addr: u64) -> u64 {
    (addr >> 21) & 0x1ff
}

/// The 9-bit index of `addr` into the level 3 page table.
pub open spec fn p3_index_of(addr: u64) -> u64 {
    (addr >> 30) & 0x1ff
}

/// The 9-bit index of `addr` into the level 4 page table.
pub open spec fn p4_index_of(addr: u64) -> u64 {
    (addr >> 39) & 0x1ff
}

/// An address splits into the start of its page and its page offset, and
/// the four table indices are those of the page.
pub proof fn lemma_address_parts(addr: u64)
    ensures
        addr == align_down_4k(addr) + page_offset_of(addr),
        page_offset_of(addr) < 4096,
        align_down_4k(addr) % 4096 == 0,
        p1_index_of(addr) < 512,
        p2_index_of(addr) < 512,
        p3_index_of(addr) < 512,
        p4_index_of(addr) < 512,
        p1_index_of(align_down_4k(addr)) == p1_index_of(addr),
        p2_index_of(align_down_4k(addr)) == p2_index_of(addr),
        p3_index_of(align_down_4k(addr)) == p3_index_of(addr),
        p4_index_of(align_down_4k(addr)) == p4_index_of(addr),
{
    let down = align_down_4k(addr);
    assert(addr & 0xfff == addr % 4096) by (bit_vector);
    assert(addr & !0xfffu64 == addr - addr % 4096) by (bit_vector);
    assert(down == addr & !0xfffu64);
    assert((addr >> 12) & 0x1ff < 512) by (bit_vector);
    assert((addr >> 21) & 0x1ff < 512) by (bit_vector);
    assert((addr >> 30) & 0x1ff < 512) by (bit_vector);
    assert((addr >> 39) & 0x1ff < 512) by (bit_vector);
    assert(((addr & !0xfffu64) >> 12) & 0x1ff == (addr >> 12) & 0x1ff) by (bit_vector);
    assert(((addr & !0xfffu64) >> 21) & 0x1ff == (addr >> 21) & 0x1ff) by (bit_vector);
    assert(((addr & !0xfffu64) >> 30) & 0x1ff == (addr >> 30) & 0x1ff) by (bit_vector);
    assert(((addr & !0xfffu64) >> 39) & 0x1ff == (addr >> 39) & 0x1ff) by (bit_vector);
}

/// Adding an offset below the page size to the start of a page gives an
/// address of that page with that offset.
pub proof fn lemma_address_in_page(page: u64, offset: u64)
    requires
        page % 4096 == 0,
        offset < 4096,
    ensures
        page + offset <= u64::MAX,
        align_down_4k((page + offset) as u64) == page,
        page_offset_of((page + offset) as u64) == offset,
        p1_index_of((page + offset) as u64) == p1_index_of(page),
        p2_index_of((page + offset) as u64) == p2_index_of(page),
        p3_index_of((page + offset) as u64) == p3_index_of(page),
        p4_index_of((page + offset) as u64) == p4_index_of(page),
{
    let addr = (page + offset) as u64;
    assert(addr == page + offset);
    assert(addr % 4096 == offset);
    lemma_address_parts(addr);
}

/// A virtual address: any 64-bit value.
#[derive(Clone, Copy, Debug, PartialEq, Eq, Structural)]
pub struct VirtAddr(u64);

impl View for VirtAddr {
    type V = u64;

    /// The address as a number.
    closed spec fn view(&self) -> u64 {
        self.0
    }
}

impl VirtAddr {
    /// The virtual address `addr`.
    pub fn new(addr: u64) -> (r: VirtAddr)
        ensures
            r@ == addr,
    {
        VirtAddr(addr)
    }

    /// The address as a number.
    pub fn as_u64(self) -> (r: u64)
        ensures
            r == self@,
    {
        self.0
    }

    /// The address `rhs` bytes further on; `None` past the end of the
    /// address space.
    pub fn checked_add(self, rhs: u64) -> (r: Option<VirtAddr>)
        ensures
            self@ + rhs <= u64::MAX ==> (r matches Some(a) && a@ == self@ + rhs),
            self@ + rhs > u64::MAX ==> r is None,
    {
        match self.0.checked_add(rhs) {
            Some(addr) => Some(VirtAddr(addr)),
            None => None,
        }
    }

    /// The offset of the address in its page.
    pub fn page_offset(self) -> (r: u64)
        ensures
            r == page_offset_of(self@),
            r < 4096,
    {
        let addr = self.0;
        assert(addr & 0xfff < 4096) by (bit_vector);
        addr & 0xfff
    }

    /// The index into the level 1 page table.
    pub fn p1_index(self) -> (r: PageTableIndex)
        ensures
            r@ == p1_index_of(self@),
    {
        let addr = self.0;
        assert((addr >> 12) & 0x1ff < 512) by (bit_vector);
        PageTableIndex(((addr >> 12) & 0x1ff) as u16)
    }

    /// The index into the level 2 page table.
    pub fn p2_index(self) -> (r: PageTableIndex)
        ensures
            r@ == p2_index_of(self@),
    {
        let addr = self.0;
        assert((addr >> 21) & 0x1ff < 512) by (bit_vector);
        PageTableIndex(((addr >> 21) & 0x1ff) as u16)
    }

    /// The index into the level 3 page table.
    pub fn p3_index(self) -> (r: PageTableIndex)
        ensures
            r@ == p3_index_of(self@),
    {
        let addr = self.0;
        assert((addr >> 30) & 0x1ff < 512) by (bit_vector);
        PageTableIndex(((addr >> 30) & 0x1ff) as u16)
    }

    /// The index into the level 4 page table.
    pub fn p4_index(self) -> (r: PageTableIndex)
        ensures
            r@ == p4_index_of(self@),
    {
        let addr = self.0;
        assert((addr >> 39) & 0x1ff < 512) by (bit_vector);
        PageTableIndex(((addr >> 39) & 0x1ff) as u16)
    }
}

/// A physical address: a value below `PHYS_ADDR_LIMIT`.
#[derive(Clone, Copy, Debug, PartialEq, Eq, Structural)]
pub struct PhysAddr(u64);

impl View for PhysAddr {
    type V = u64;

    /// The address as a number.
    closed spec fn view(&self) -> u64 {
        self.0
    }
}

impl PhysAddr {
    /// A physical address has 52 bits.
    #[verifier::type_invariant]
    pub open spec fn in_range(self) -> bool {
        self@ < PHYS_ADDR_LIMIT
    }

    /// The physical address `addr`.
    pub fn new(addr: u64) -> (r: PhysAddr)
        requires
            addr < PHYS_ADDR_LIMIT,
        ensures
            r@ == addr,
    {
        PhysAddr(addr)
    }

    /// The physical address `addr`, if it is one.
    pub fn try_new(addr: u64) -> (r: Option<PhysAddr>)
        ensures
            addr < PHYS_ADDR_LIMIT ==> (r matches Some(a) && a@ == addr),
            addr >= PHYS_ADDR_LIMIT ==> r is None,
    {
        if addr < PHYS_ADDR_LIMIT {
            Some(PhysAddr(addr))
        } else {
            None
        }
    }

    /// The address as a number.
    pub fn as_u64(self) -> (r: u64)
        ensures
            r == self@,
            r < PHYS_ADDR_LIMIT,
    {
        proof {
            use_type_invariant(&self);
        }
        self.0
    }
}

/// An index into a page table: a value below 512.
#[derive(Clone, Copy, Debug, PartialEq, Eq, Structural)]
pub struct PageTableIndex(u16);

impl View for PageTableIndex {
    type V = u64;

    /// The index as a number.
    closed spec fn view(&self) -> u64 {
        self.0 as u64
    }
}

impl PageTableIndex {
    /// A page table has 512 entries.
    #[verifier::type_invariant]
    pub open spec fn in_range(self) -> bool {
        self@ < 512
    }

    /// The index `index`.
    pub fn new(index: u16) -> (r: PageTableIndex)
        requires
            index < 512,
        ensures
            r@ == index,
    {
        PageTableIndex(index)
    }

    /// The index that the low 9 bits of `index` give.
    pub fn new_truncate(index: u16) -> (r: PageTableIndex)
        ensures
            r@ == index % 512,
    {
        PageTableIndex(index % 512)
    }

    /// The index as a number.
    pub fn as_usize(self) -> (r: usize)
        ensures
            r == self@,
            r < 512,
    {
        proof {
            use_type_invariant(&self);
        }
        self.0 as usize
    }
}

/// What `from_start_address` says of an address that starts no frame or
/// page.
#[derive(Clone, Copy, Debug, PartialEq, Eq, Structural)]
pub struct AddressNotAligned;

/// A physical frame: 4096 bytes of physical memory that start at a
/// multiple of 4096.
#[derive(Clone, Copy, Debug, PartialEq, Eq, Structural)]
pub struct PhysFrame {
    start_address: PhysAddr,
}

impl View for PhysFrame {
    type V = u64;

    /// The address at which the frame starts.
    closed spec fn view(&self) -> u64 {
        self.start_address@
    }
}

impl PhysFrame {
    /// A frame starts at a multiple of 4096 that is a physical address.
    #[verifier::type_invariant]
    pub open spec fn aligned(self) -> bool {
        &&& self@ % 4096 == 0
        &&& self@ < PHYS_ADDR_LIMIT
    }

    /// The frame that starts at `start`.
    pub closed spec fn at(start: u64) -> PhysFrame {
        PhysFrame { start_address: PhysAddr(start) }
    }

    /// `at(start)` starts at `start`, and every frame is the one at its
    /// start.
    pub broadcast proof fn lemma_at(start: u64)
        ensures
            (#[trigger] PhysFrame::at(start))@ == start,
    {
    }

    /// The frame that starts at `address`, if one does.
    pub fn from_start_address(address: PhysAddr) -> (r: Result<PhysFrame, AddressNotAligned>)
        ensures
            address@ % 4096 == 0 ==> (r matches Ok(frame) && frame@ == address@),
            address@ % 4096 != 0 ==> r is Err,
    {
        if address.as_u64() % PAGE_SIZE == 0 {
            Ok(PhysFrame { start_address: address })
        } else {
            Err(AddressNotAligned)
        }
    }

    /// The frame that holds `address`.
    pub fn containing_address(address: PhysAddr) -> (r: PhysFrame)
        ensures
            r@ == align_down_4k(address@),
    {
        let addr = address.as_u64();
        PhysFrame { start_address: PhysAddr::new(addr - addr % PAGE_SIZE) }
    }

    /// The address at which the frame starts.
    pub fn start_address(self) -> (r: PhysAddr)
        ensures
            r@ == self@,
            r@ % 4096 == 0,
    {
        proof {
            use_type_invariant(&self);
        }
        self.start_address
    }
}

/// Two frames that start at the same address are the same frame.
pub proof fn lemma_frame_by_start(a: PhysFrame, b: PhysFrame)
    requires
        a@ == b@,
    ensures
        a == b,
{
}

/// A page: 4096 bytes of virtual memory that start at a multiple of 4096.
#[derive(Clone, Copy, Debug, PartialEq, Eq, Structural)]
pub struct Page {
    start_address: VirtAddr,
}

impl View for Page {
    type V = u64;

    /// The address at which the page starts.
    closed spec fn view(&self) -> u64 {
        self.start_address@
    }
}

impl Page {
    /// A page starts at a multiple of 4096.
    #[verifier::type_invariant]
    pub open spec fn aligned(self) -> bool {
        self@ % 4096 == 0
    }

    /// The page that starts at `address`, if one does.
    pub fn from_start_address(address: VirtAddr) -> (r: Result<Page, AddressNotAligned>)
        ensures
            address@ % 4096 == 0 ==> (r matches Ok(page) && page@ == address@),
            address@ % 4096 != 0 ==> r is Err,
    {
        if address.as_u64() % PAGE_SIZE == 0 {
            Ok(Page { start_address: address })
        } else {
            Err(AddressNotAligned)
        }
    }

    /// The page that holds `address`.
    pub fn containing_address(address: VirtAddr) -> (r: Page)
        ensures
            r@ == align_down_4k(address@),
    {
        let addr = address.as_u64();
        Page { start_address: VirtAddr::new(addr - addr % PAGE_SIZE) }
    }

    /// The address at which the page starts.
    pub fn start_address(self) -> (r: VirtAddr)
        ensures
            r@ == self@,
            r@ % 4096 == 0,
    {
        proof {
            use_type_invariant(&self);
        }
        self.start_address
    }

    /// The index of the page into the level 1 page table.
    pub fn p1_index(self) -> (r: PageTableIndex)
        ensures
            r@ == p1_index_of(self@),
    {
        self.start_address.p1_index()
    }

    /// The index of the page into the level 2 page table.
    pub fn p2_index(self) -> (r: PageTableIndex)
        ensures
            r@ == p2_index_of(self@),
    {
        self.start_address.p2_index()
    }

    /// The index of the page into the level 3 page table.
    pub fn p3_index(self) -> (r: PageTableIndex)
        ensures
            r@ == p3_index_of(self@),
    {
        self.start_address.p3_index()
    }

    /// The index of the page into the level 4 page table.
    pub fn p4_index(self) -> (r: PageTableIndex)
        ensures
            r@ == p4_index_of(self@),
    {
        self.start_address.p4_index()
    }
}

/// The pages from `start` to `end`, both of them in it.
#[derive(Clone, Copy, Debug, PartialEq, Eq, Structural)]
pub struct PageRangeInclusive {
    pub start: Page,
    pub end: Page,
}

impl PageRangeInclusive {
    /// The number of pages in the range.
    pub open spec fn count(self) -> nat {
        if self.start@ <= self.end@ {
            ((self.end@ - self.start@) / 4096 + 1) as nat
        } else {
            0
        }
    }

    /// Where page `i` of the range starts.
    pub open spec fn page_start(self, i: int) -> u64 {
        (self.start@ + 4096 * i) as u64
    }

    /// The number of pages in the range.
    pub fn len(&self) -> (r: u64)
        ensures
            r == self.count(),
    {
        let start = self.start.start_address().as_u64();
        let end = self.end.start_address().as_u64();
        if start <= end {
            (end - start) / PAGE_SIZE + 1
        } else {
            0
        }
    }

    /// Page `i` of the range.
    pub fn get(&self, i: u64) -> (r: Page)
        requires
            i < self.count(),
        ensures
            r@ == self.page_start(i as int),
            self.start@ + 4096 * i <= self.end@,
    {
        let start = self.start.start_address().as_u64();
        proof {
            use_type_invariant(&self.end);
        }
        let address = start + PAGE_SIZE * i;
        Page::containing_address(VirtAddr::new(address))
    }
}

impl Page {
    /// The pages from `start` to `end`, both of them in it.
    pub fn range_inclusive(start: Page, end: Page) -> (r: PageRangeInclusive)
        ensures
            r == (PageRangeInclusive { start, end }),
    {
        PageRangeInclusive { start, end }
    }
}

} // verus!
