//! Address translation: the walk through the four levels of page
//! tables.

use vstd::prelude::*;
use crate::memory::mapper::Tables;
use crate::memory::addr::PageTableIndex;
use crate::memory::addr::PhysAddr;
use crate::memory::addr::PhysFrame;
use crate::memory::addr::VirtAddr;
use crate::memory::addr::p1_index_of;
use crate::memory::addr::p2_index_of;
use crate::memory::addr::p3_index_of;
use crate::memory::addr::p4_index_of;
use crate::memory::addr::page_offset_of;
use crate::memory::mapper::OffsetPageTable;
use crate::memory::mapper::read_entry;
use crate::memory::page_table::FrameError;
use crate::memory::page_table::PageTableEntry;
use crate::memory::page_table::entry_frame;
use crate::memory::page_table::entry_is_present;

verus! {

/// Why an address has no translation.
#[derive(Clone, Copy, Debug, PartialEq, Eq, Structural)]
pub enum TranslateError {
    /// An entry on the way is not present.
    Unmapped,
    /// An entry on the way maps a huge page.
    UnsupportedMapping,
}

/// The index of `addr` into the page table of level `level`, 4 to 1.
pub open spec fn table_index_of(addr: u64, level: nat) -> u64 {
    if level == 1 {
        p1_index_of(addr)
    } else if level == 2 {
        p2_index_of(addr)
    } else if level == 3 {
        p3_index_of(addr)
    } else {
        p4_index_of(addr)
    }
}

/// Where the walk for `addr` arrives from the table of level `level` in
/// the frame at `table`, one entry per level down to level 1: at the
/// start of the frame that the level 1 entry leads to, or at the first
/// entry that leads nowhere.
pub open spec fn walk(mem: Tables, table: u64, addr: u64, level: nat) -> Result<
    u64,
    FrameError,
>
    decreases level,
{
    if level == 0 {
        Ok(table)
    } else {
        match entry_frame(read_entry(mem, table, table_index_of(addr, level) as int)) {
            Ok(next) => walk(mem, next, addr, (level - 1) as nat),
            Err(e) => Err(e),
        }
    }
}

/// The physical address that `addr` is mapped to by the tables under the
/// level 4 table in the frame at `root`: the frame that the walk arrives
/// at, and in it the page offset of `addr`.
pub open spec fn translate(mem: Tables, root: u64, addr: u64) -> Result<
    u64,
    TranslateError,
> {
    match walk(mem, root, addr, 4) {
        Ok(frame) => Ok((frame + page_offset_of(addr)) as u64),
        Err(FrameError::FrameNotPresent) => Err(TranslateError::Unmapped),
        Err(FrameError::HugeFrame) => Err(TranslateError::UnsupportedMapping),
    }
}

/// The start of the frame of the table of level `level`, 4 to 1, that
/// the walk for `addr` reads: the level 4 table lies in the frame at
/// `root`, and each table below in the frame that the entry above it
/// leads to.
pub open spec fn table_of_level(mem: Tables, root: u64, addr: u64, level: nat) -> Result<
    u64,
    FrameError,
>
    decreases 4 - level,
{
    if level >= 4 {
        Ok(root)
    } else {
        match table_of_level(mem, root, addr, level + 1) {
            Ok(table) => entry_frame(
                read_entry(mem, table, table_index_of(addr, level + 1) as int),
            ),
            Err(e) => Err(e),
        }
    }
}

/// Whether the walk for `addr` reads a table in the frame at `frame`.
pub open spec fn is_walk_table(mem: Tables, root: u64, addr: u64, frame: u64) -> bool {
    exists|level: nat|
        1 <= level <= 4 && #[trigger] table_of_level(mem, root, addr, level) == Ok::<
            u64,
            FrameError,
        >(frame)
}

/// The walk from the level 4 table goes on from each table that it
/// reads.
pub proof fn lemma_walk_from_level(mem: Tables, root: u64, addr: u64, level: nat)
    requires
        level <= 4,
    ensures
        walk(mem, root, addr, 4) == match table_of_level(mem, root, addr, level) {
            Ok(table) => walk(mem, table, addr, level),
            Err(e) => Err(e),
        },
    decreases 4 - level,
{
    if level < 4 {
        lemma_walk_from_level(mem, root, addr, level + 1);
    }
}

/// An address is not mapped where the walk for it reads an entry that is
/// not present: translation gives no address then, whatever the tables
/// below that entry hold.
pub proof fn lemma_unmapped_lookup(mem: Tables, root: u64, addr: u64, level: nat)
    requires
        1 <= level <= 4,
        table_of_level(mem, root, addr, level) matches Ok(table) && !entry_is_present(
            read_entry(mem, table, table_index_of(addr, level) as int),
        ),
    ensures
        translate(mem, root, addr) == Err::<u64, TranslateError>(TranslateError::Unmapped),
{
    lemma_walk_from_level(mem, root, addr, level);
}

/// A walk through the page tables for one address, between two reads:
/// the table of level `level` in the frame `table` is the one to read
/// next, at the index of the address. Whoever holds the memory reads the
/// entry and hands it to `step`.
pub struct PageWalk {
    addr: VirtAddr,
    level: u8,
    table: PhysFrame,
}

impl PageWalk {
    /// A walk reads tables of the levels 4 to 1.
    #[verifier::type_invariant]
    pub open spec fn wf(self) -> bool {
        1 <= self.level() <= 4
    }

    /// The address that the walk is for.
    pub closed spec fn addr(self) -> u64 {
        self.addr@
    }

    /// The level of the table that is read next.
    pub closed spec fn level(self) -> nat {
        self.level as nat
    }

    /// The start of the frame of the table that is read next.
    pub closed spec fn table_start(self) -> u64 {
        self.table@
    }

    /// The walk for `addr` at its start: at the level 4 table, which lies
    /// in `level_4_frame`.
    pub fn new(level_4_frame: PhysFrame, addr: VirtAddr) -> (r: PageWalk)
        ensures
            r.addr() == addr@,
            r.level() == 4,
            r.table_start() == level_4_frame@,
    {
        PageWalk { addr, level: 4, table: level_4_frame }
    }

    /// The frame of the table that is read next.
    pub fn table(&self) -> (r: PhysFrame)
        ensures
            r@ == self.table_start(),
    {
        self.table
    }

    /// The index of the entry that is read next.
    pub fn index(&self) -> (r: PageTableIndex)
        ensures
            r@ == table_index_of(self.addr(), self.level()),
    {
        proof {
            use_type_invariant(self);
        }
        if self.level == 4 {
            self.addr.p4_index()
        } else if self.level == 3 {
            self.addr.p3_index()
        } else if self.level == 2 {
            self.addr.p2_index()
        } else {
            self.addr.p1_index()
        }
    }

    /// Goes on with the entry that was read at `index` of `table`: down
    /// to the table that it leads to, or, from level 1, to the address in
    /// the frame that it leads to. An entry that is not present or maps a
    /// huge page ends the walk.
    pub fn step(self, entry: PageTableEntry) -> (r: WalkStep)
        ensures
            match entry_frame(entry@) {
                Err(FrameError::FrameNotPresent) => r matches WalkStep::Failed(
                    TranslateError::Unmapped,
                ),
                Err(FrameError::HugeFrame) => r matches WalkStep::Failed(
                    TranslateError::UnsupportedMapping,
                ),
                Ok(frame) => if self.level() > 1 {
                    r matches WalkStep::Descend(next) && next.addr() == self.addr() && next.level()
                        == self.level() - 1 && next.table_start() == frame
                } else {
                    r matches WalkStep::Mapped(phys) && phys@ == frame + page_offset_of(
                        self.addr(),
                    )
                },
            },
    {
        proof {
            use_type_invariant(&self);
        }
        match entry.frame() {
            Err(FrameError::FrameNotPresent) => WalkStep::Failed(TranslateError::Unmapped),
            Err(FrameError::HugeFrame) => WalkStep::Failed(TranslateError::UnsupportedMapping),
            Ok(frame) => {
                if self.level > 1 {
                    WalkStep::Descend(
                        PageWalk { addr: self.addr, level: self.level - 1, table: frame },
                    )
                } else {
                    let start = frame.start_address().as_u64();
                    WalkStep::Mapped(PhysAddr::new(start + self.addr.page_offset()))
                }
            },
        }
    }
}

/// Where a walk stands after an entry was read.
pub enum WalkStep {
    /// The entry leads to the table of the next level: the walk goes on.
    Descend(PageWalk),
    /// The walk has arrived: the address is mapped to this one.
    Mapped(PhysAddr),
    /// The walk has ended at an entry that leads nowhere.
    Failed(TranslateError),
}

impl OffsetPageTable {
    /// Translates `addr` to the physical address that it is mapped to.
    pub fn translate_addr(&self, addr: VirtAddr) -> (r: Result<PhysAddr, TranslateError>)
        ensures
            match r {
                Ok(phys) => translate(self.memory(), self.root(), addr@) == Ok::<
                    u64,
                    TranslateError,
                >(phys@),
                Err(e) => translate(self.memory(), self.root(), addr@) == Err::<
                    u64,
                    TranslateError,
                >(e),
            },
    {
        let mut at = PageWalk::new(self.level_4_frame(), addr);
        loop
            invariant
                at.wf(),
                at.addr() == addr@,
                translate(self.memory(), self.root(), addr@) == match walk(
                    self.memory(),
                    at.table_start(),
                    addr@,
                    at.level(),
                ) {
                    Ok(frame) => Ok::<u64, TranslateError>((frame + page_offset_of(addr@)) as u64),
                    Err(FrameError::FrameNotPresent) => Err(TranslateError::Unmapped),
                    Err(FrameError::HugeFrame) => Err(TranslateError::UnsupportedMapping),
                },
            decreases at.level(),
        {
            let entry = self.entry(at.table(), at.index());
            assert(walk(self.memory(), entry_frame(entry@)->Ok_0, addr@, 0) == Ok::<u64, FrameError>(
                entry_frame(entry@)->Ok_0,
            ));
            match at.step(entry) {
                WalkStep::Descend(next) => {
                    proof {
                        use_type_invariant(&next);
                    }
                    at = next;
                },
                WalkStep::Mapped(phys) => {
                    return Ok(phys);
                },
                WalkStep::Failed(e) => {
                    return Err(e);
                },
            }
        }
    }
}

} // verus!
