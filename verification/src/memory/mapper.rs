//! The page tables of one address space, held by the frame in which each
//! table lies, and the mapping of pages into them.

use std::collections::BTreeMap;
use vstd::prelude::*;
use crate::memory::FrameAllocator;
use crate::memory::addr::Page;
use crate::memory::addr::PageTableIndex;
use crate::memory::addr::PhysFrame;
use crate::memory::addr::VirtAddr;
use crate::memory::addr::p1_index_of;
use crate::memory::addr::p2_index_of;
use crate::memory::addr::p3_index_of;
use crate::memory::addr::p4_index_of;
use crate::memory::page_table::FrameError;
use crate::memory::page_table::PageTable;
use crate::memory::page_table::PageTableEntry;
use crate::memory::page_table::PageTableFlags;
use crate::memory::page_table::empty_table;
use crate::memory::page_table::entry_bits;
use crate::memory::page_table::entry_frame;
use crate::memory::page_table::entry_is_present;

verus! {

broadcast use vstd::std_specs::btree::group_btree_axioms;

/// The page tables in physical memory: the 512 entries of each table,
/// under the start of the frame in which the table lies.
pub type Tables = Map<u64, Seq<u64>>;

/// Every table of `mem` has its 512 entries.
pub open spec fn tables_are_whole(mem: Tables) -> bool {
    forall|frame: u64| #[trigger] mem.contains_key(frame) ==> mem[frame].len() == 512
}

/// The table that `mem` holds in the frame at `frame`: a frame that was
/// never written holds the table of unused entries.
pub open spec fn table_at(mem: Tables, frame: u64) -> Seq<u64> {
    if mem.contains_key(frame) {
        mem[frame]
    } else {
        empty_table()
    }
}

/// The bits of entry `index` of the table in the frame at `frame`.
pub open spec fn read_entry(mem: Tables, frame: u64, index: int) -> u64 {
    table_at(mem, frame)[index]
}

/// `mem` with entry `index` of the table in the frame at `frame` set to
/// `bits`.
pub open spec fn write_entry(mem: Tables, frame: u64, index: int, bits: u64) -> Tables {
    mem.insert(frame, table_at(mem, frame).update(index, bits))
}

/// `mem` with a table of unused entries in the frame at `frame`.
pub open spec fn clear_table(mem: Tables, frame: u64) -> Tables {
    mem.insert(frame, empty_table())
}

/// Why a page was not mapped.
#[derive(Clone, Copy, Debug, PartialEq, Eq, Structural)]
pub enum MapToError {
    /// A page table was missing, and the allocator had no frame for it.
    FrameAllocationFailed,
    /// An entry on the way to the page maps a huge page.
    ParentEntryHugePage,
    /// The page is mapped already. The frame is the one that was to be
    /// mapped.
    PageAlreadyMapped(PhysFrame),
}

/// The flags with which a new page table is linked into its parent.
pub open spec fn parent_flags() -> PageTableFlags {
    PageTableFlags { present: true, writable: true, huge_page: false }
}

/// What one step down towards a page leaves: the tables, the frames that
/// the allocator still has, and the start of the frame of the next table
/// or the reason why there is none.
pub struct TableStep {
    pub mem: Tables,
    pub pending: Seq<u64>,
    pub next: Result<u64, MapToError>,
}

/// What mapping a page leaves: the tables, the frames that the allocator
/// still has, and whether the page was mapped.
pub struct MapOutcome {
    pub mem: Tables,
    pub pending: Seq<u64>,
    pub result: Result<(), MapToError>,
}

/// One step down from entry `index` of the table in the frame at `table`.
/// A present entry leads to the next table, unless it maps a huge page.
/// For an entry that is not present the next frame of `pending` is taken,
/// given a table of unused entries, and linked in at the entry; without
/// such a frame the step fails.
pub open spec fn create_next_table(
    mem: Tables,
    pending: Seq<u64>,
    table: u64,
    index: int,
) -> TableStep {
    match entry_frame(read_entry(mem, table, index)) {
        Ok(next) => TableStep { mem, pending, next: Ok(next) },
        Err(FrameError::HugeFrame) => TableStep {
            mem,
            pending,
            next: Err(MapToError::ParentEntryHugePage),
        },
        Err(FrameError::FrameNotPresent) => if pending.len() == 0 {
            TableStep { mem, pending, next: Err(MapToError::FrameAllocationFailed) }
        } else {
            TableStep {
                mem: write_entry(
                    clear_table(mem, pending[0]),
                    table,
                    index,
                    entry_bits(pending[0], parent_flags()),
                ),
                pending: pending.skip(1),
                next: Ok(pending[0]),
            }
        },
    }
}

/// Mapping the page at `page` to `frame` with `flags`: three steps down
/// from the level 4 table in the frame at `root`, then the level 1 entry
/// of the page is set, unless it is present already. What the steps
/// created before a failure stays.
pub open spec fn map_to(
    mem: Tables,
    pending: Seq<u64>,
    root: u64,
    page: u64,
    frame: PhysFrame,
    flags: PageTableFlags,
) -> MapOutcome {
    let s3 = create_next_table(mem, pending, root, p4_index_of(page) as int);
    match s3.next {
        Err(e) => MapOutcome { mem: s3.mem, pending: s3.pending, result: Err(e) },
        Ok(p3) => {
            let s2 = create_next_table(s3.mem, s3.pending, p3, p3_index_of(page) as int);
            match s2.next {
                Err(e) => MapOutcome { mem: s2.mem, pending: s2.pending, result: Err(e) },
                Ok(p2) => {
                    let s1 = create_next_table(s2.mem, s2.pending, p2, p2_index_of(page) as int);
                    match s1.next {
                        Err(e) => MapOutcome { mem: s1.mem, pending: s1.pending, result: Err(e) },
                        Ok(p1) => if entry_is_present(
                            read_entry(s1.mem, p1, p1_index_of(page) as int),
                        ) {
                            MapOutcome {
                                mem: s1.mem,
                                pending: s1.pending,
                                result: Err(MapToError::PageAlreadyMapped(frame)),
                            }
                        } else {
                            MapOutcome {
                                mem: write_entry(
                                    s1.mem,
                                    p1,
                                    p1_index_of(page) as int,
                                    entry_bits(frame@, flags),
                                ),
                                pending: s1.pending,
                                result: Ok(()),
                            }
                        },
                    }
                },
            }
        },
    }
}

/// The page whose mapping has changed: its entry in the translation cache
/// of the processor is to be invalidated before the mapping is used.
#[must_use]
pub struct MapperFlush {
    page: Page,
}

impl MapperFlush {
    /// The page to invalidate.
    pub closed spec fn page(&self) -> Page {
        self.page
    }

    /// Hands over the page to invalidate.
    pub fn flush(self) -> (r: Page)
        ensures
            r == self.page(),
    {
        self.page
    }
}

/// The virtual address at which `frame` is reached when physical memory
/// is mapped at `physical_memory_offset`; `None` where that lies past the
/// end of the address space.
pub fn frame_address(physical_memory_offset: VirtAddr, frame: PhysFrame) -> (r: Option<VirtAddr>)
    ensures
        physical_memory_offset@ + frame@ <= u64::MAX ==> (r matches Some(addr) && addr@
            == physical_memory_offset@ + frame@),
        physical_memory_offset@ + frame@ > u64::MAX ==> r is None,
{
    physical_memory_offset.checked_add(frame.start_address().as_u64())
}

/// The page tables of an address space, each held under the frame in
/// which it lies. All of physical memory is mapped at one offset into
/// virtual memory: that is where the kernel reaches a frame.
pub struct OffsetPageTable {
    level_4_frame: PhysFrame,
    phys_offset: VirtAddr,
    tables: BTreeMap<u64, PageTable>,
}

impl OffsetPageTable {
    /// The start of the frame of the level 4 table.
    pub closed spec fn root(&self) -> u64 {
        self.level_4_frame@
    }

    /// The virtual address at which physical memory is mapped.
    pub closed spec fn offset(&self) -> u64 {
        self.phys_offset@
    }

    /// The tables, each under the start of its frame.
    pub closed spec fn memory(&self) -> Tables {
        Map::new(|frame: u64| self.tables@.contains_key(frame), |frame: u64| self.tables@[frame]@)
    }

    /// Every table has its 512 entries.
    pub proof fn lemma_memory_is_whole(&self)
        ensures
            tables_are_whole(self.memory()),
    {
        assert forall|frame: u64| #[trigger] self.memory().contains_key(frame) implies self.memory()[frame].len()
            == 512 by {
            self.tables@[frame].lemma_is_whole();
        }
    }

    /// The page tables of an address space in which nothing is mapped:
    /// the level 4 table lies in `level_4_frame`, and physical memory is
    /// mapped at `physical_memory_offset`.
    pub fn new(level_4_frame: PhysFrame, physical_memory_offset: VirtAddr) -> (r: OffsetPageTable)
        ensures
            r.root() == level_4_frame@,
            r.offset() == physical_memory_offset@,
            r.memory() == Tables::empty(),
            tables_are_whole(r.memory()),
    {
        let r = OffsetPageTable {
            level_4_frame,
            phys_offset: physical_memory_offset,
            tables: BTreeMap::new(),
        };
        assert(r.memory() =~= Tables::empty());
        r
    }

    /// The frame of the level 4 table.
    pub fn level_4_frame(&self) -> (r: PhysFrame)
        ensures
            r@ == self.root(),
    {
        self.level_4_frame
    }

    /// The virtual address at which physical memory is mapped.
    pub fn phys_offset(&self) -> (r: VirtAddr)
        ensures
            r@ == self.offset(),
    {
        self.phys_offset
    }

    /// The virtual address at which `frame` is reached; `None` where
    /// that lies past the end of the address space.
    pub fn frame_address(&self, frame: PhysFrame) -> (r: Option<VirtAddr>)
        ensures
            self.offset() + frame@ <= u64::MAX ==> (r matches Some(addr) && addr@ == self.offset()
                + frame@),
            self.offset() + frame@ > u64::MAX ==> r is None,
    {
        frame_address(self.phys_offset, frame)
    }

    /// Entry `index` of the table in `frame`.
    pub fn entry(&self, frame: PhysFrame, index: PageTableIndex) -> (r: PageTableEntry)
        ensures
            r@ == read_entry(self.memory(), frame@, index@ as int),
            tables_are_whole(self.memory()),
    {
        let key = frame.start_address().as_u64();
        proof {
            use_type_invariant(&index);
            self.lemma_memory_is_whole();
        }
        match self.tables.get(&key) {
            Some(table) => table.entry(index),
            None => PageTableEntry::new(),
        }
    }

    /// Puts `entry` at `index` of the table in `frame`.
    pub fn set_entry(&mut self, frame: PhysFrame, index: PageTableIndex, entry: PageTableEntry)
        ensures
            final(self).memory() == write_entry(
                old(self).memory(),
                frame@,
                index@ as int,
                entry@,
            ),
            final(self).root() == old(self).root(),
            final(self).offset() == old(self).offset(),
    {
        let key = frame.start_address().as_u64();
        let mut table = match self.tables.remove(&key) {
            Some(table) => table,
            None => PageTable::new(),
        };
        assert(table@ == table_at(old(self).memory(), frame@));
        table.set_entry(index, entry);
        self.tables.insert(key, table);
        assert(self.tables@ == old(self).tables@.insert(key, table));
        assert(self.memory() =~= write_entry(old(self).memory(), frame@, index@ as int, entry@));
    }

    /// Makes every entry of the table in `frame` unused.
    pub fn clear_table(&mut self, frame: PhysFrame)
        ensures
            final(self).memory() == clear_table(old(self).memory(), frame@),
            final(self).root() == old(self).root(),
            final(self).offset() == old(self).offset(),
    {
        let key = frame.start_address().as_u64();
        self.tables.insert(key, PageTable::new());
        assert(self.memory() =~= clear_table(old(self).memory(), frame@));
    }

    /// Steps down from entry `index` of the table in `table`, with a new
    /// table from `allocator` where the entry is not present.
    fn create_next_table<A: FrameAllocator>(
        &mut self,
        table: PhysFrame,
        index: PageTableIndex,
        allocator: &mut A,
    ) -> (r: Result<PhysFrame, MapToError>)
        ensures
            ({
                let step = create_next_table(
                    old(self).memory(),
                    old(allocator).pending(),
                    table@,
                    index@ as int,
                );
                &&& final(self).memory() == step.mem
                &&& final(allocator).pending() == step.pending
                &&& match r {
                    Ok(next) => step.next == Ok::<u64, MapToError>(next@),
                    Err(e) => step.next == Err::<u64, MapToError>(e),
                }
            }),
            final(self).root() == old(self).root(),
            final(self).offset() == old(self).offset(),
    {
        let entry = self.entry(table, index);
        match entry.frame() {
            Ok(next) => Ok(next),
            Err(FrameError::HugeFrame) => Err(MapToError::ParentEntryHugePage),
            Err(FrameError::FrameNotPresent) => match allocator.allocate_frame() {
                None => Err(MapToError::FrameAllocationFailed),
                Some(frame) => {
                    self.clear_table(frame);
                    let mut link = PageTableEntry::new();
                    link.set_frame(
                        frame,
                        PageTableFlags { present: true, writable: true, huge_page: false },
                    );
                    self.set_entry(table, index, link);
                    Ok(frame)
                },
            },
        }
    }

    /// Maps `page` to `frame` with `flags`. Page tables that are missing
    /// on the way are made in frames from `allocator`. A page that is
    /// mapped already stays as it is. After a success the result names
    /// the page that is to be invalidated in the translation cache before
    /// the mapping is used.
    pub fn map_to<A: FrameAllocator>(
        &mut self,
        page: Page,
        frame: PhysFrame,
        flags: PageTableFlags,
        allocator: &mut A,
    ) -> (r: Result<MapperFlush, MapToError>)
        requires
            !flags.huge_page,
        ensures
            ({
                let outcome = map_to(
                    old(self).memory(),
                    old(allocator).pending(),
                    old(self).root(),
                    page@,
                    frame,
                    flags,
                );
                &&& final(self).memory() == outcome.mem
                &&& final(allocator).pending() == outcome.pending
                &&& match r {
                    Ok(flush) => outcome.result is Ok && flush.page() == page,
                    Err(e) => outcome.result == Err::<(), MapToError>(e),
                }
            }),
            final(self).root() == old(self).root(),
            final(self).offset() == old(self).offset(),
    {
        let root = self.level_4_frame;
        let p3 = match self.create_next_table(root, page.p4_index(), allocator) {
            Ok(table) => table,
            Err(e) => {
                return Err(e);
            },
        };
        let p2 = match self.create_next_table(p3, page.p3_index(), allocator) {
            Ok(table) => table,
            Err(e) => {
                return Err(e);
            },
        };
        let p1 = match self.create_next_table(p2, page.p2_index(), allocator) {
            Ok(table) => table,
            Err(e) => {
                return Err(e);
            },
        };
        let index = page.p1_index();
        if self.entry(p1, index).flags().present {
            return Err(MapToError::PageAlreadyMapped(frame));
        }
        let mut leaf = PageTableEntry::new();
        leaf.set_frame(frame, flags);
        self.set_entry(p1, index, leaf);
        Ok(MapperFlush { page })
    }
}

} // verus!
