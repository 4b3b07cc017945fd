//! Paging: addresses, page tables, frame allocation, address translation
//! and page mapping.

use vstd::prelude::*;
use crate::memory::mapper::Tables;
use crate::memory::addr::align_up_4k;
use crate::memory::addr::lemma_frame_by_start;
use crate::memory::addr::PhysAddr;
use crate::memory::addr::PhysFrame;
use crate::memory::addr::Page;
use crate::memory::addr::VirtAddr;
use crate::memory::addr::PAGE_SIZE;
use crate::memory::addr::PHYS_ADDR_LIMIT;
use crate::memory::proofs::frames_unused;
use crate::memory::proofs::is_frame_start;
use crate::memory::mapper::map_to;
use crate::memory::translate::translate;
use crate::memory::mapper::MapToError;
use crate::memory::mapper::MapperFlush;
use crate::memory::mapper::OffsetPageTable;
use crate::memory::translate::TranslateError;
use crate::memory::page_table::PageTableFlags;

pub mod addr;
pub mod page_table;
pub mod mapper;
pub mod proofs;
pub mod translate;

verus! {

/// One region of physical memory, `[start, end)`, as the boot environment
/// reports it.
#[derive(Clone, Copy, Debug, PartialEq, Eq, Structural)]
pub struct MemoryRegion {
    pub start: PhysAddr,
    pub end: PhysAddr,
    pub usable: bool,
}

impl MemoryRegion {
    /// The start of the first frame that lies in the region, if one does.
    pub open spec fn first_frame(self) -> int {
        align_up_4k(self.start@)
    }

    /// The number of frames that the region offers: the whole frames in
    /// it, if it is usable.
    pub open spec fn frame_count(self) -> nat {
        if self.usable && self.first_frame() + 4096 <= self.end@ {
            ((self.end@ - self.first_frame()) / 4096) as nat
        } else {
            0
        }
    }

    /// The end of the last frame that the region offers.
    pub open spec fn frames_end(self) -> int {
        self.first_frame() + 4096 * self.frame_count()
    }

    /// The starts of the frames that the region offers, in rising order.
    pub open spec fn frames(self) -> Seq<u64> {
        Seq::new(self.frame_count(), |i: int| (self.first_frame() + 4096 * i) as u64)
    }

    /// The start of the first frame in the region and the number of
    /// frames that the region offers.
    fn frame_range(&self) -> (r: (u64, u64))
        ensures
            r.1 == self.frame_count(),
            r.1 > 0 ==> r.0 == self.first_frame(),
            r.0 % 4096 == 0,
            r.0 + 4096 * r.1 <= self.end@ || r.1 == 0,
            self.end@ < PHYS_ADDR_LIMIT,
    {
        let start = self.start.as_u64();
        let end = self.end.as_u64();
        let remainder = start % PAGE_SIZE;
        let first = if remainder == 0 {
            start
        } else {
            start - remainder + PAGE_SIZE
        };
        if self.usable && first + PAGE_SIZE <= end {
            (first, (end - first) / PAGE_SIZE)
        } else {
            (first, 0)
        }
    }
}

/// The starts of the frames that the usable regions of `map` offer:
/// region after region, and in rising order within a region.
pub open spec fn usable_frames(map: Seq<MemoryRegion>) -> Seq<u64>
    decreases map.len(),
{
    if map.len() == 0 {
        Seq::empty()
    } else {
        usable_frames(map.drop_last()) + map.last().frames()
    }
}

/// No two regions of `map` offer the same frame.
pub open spec fn regions_disjoint(map: Seq<MemoryRegion>) -> bool {
    forall|i: int, j: int|
        0 <= i < j < map.len() && #[trigger] map[i].frame_count() > 0
            && #[trigger] map[j].frame_count() > 0
            ==> map[i].frames_end() <= map[j].first_frame()
            || map[j].frames_end() <= map[i].first_frame()
}

/// The frames of the first `k` regions come first among the frames of
/// the map.
pub proof fn lemma_usable_frames_prefix(map: Seq<MemoryRegion>, k: int)
    requires
        0 <= k <= map.len(),
    ensures
        usable_frames(map.take(k)).len() <= usable_frames(map).len(),
        usable_frames(map.take(k)) == usable_frames(map).take(
            usable_frames(map.take(k)).len() as int,
        ),
    decreases map.len() - k,
{
    if k == map.len() {
        assert(map.take(k) == map);
    } else {
        lemma_usable_frames_prefix(map.drop_last(), k);
        assert(map.drop_last().take(k) == map.take(k));
    }
}

/// The frames of the first `k + 1` regions are those of the first `k`,
/// then those of region `k`.
pub proof fn lemma_usable_frames_step(map: Seq<MemoryRegion>, k: int)
    requires
        0 <= k < map.len(),
    ensures
        usable_frames(map.take(k + 1)) == usable_frames(map.take(k)) + map[k].frames(),
{
    assert(map.take(k + 1).drop_last() == map.take(k));
}

/// A source of unused physical frames.
pub trait FrameAllocator {
    /// The starts of the frames that the allocator will still hand out,
    /// in the order in which it will.
    spec fn pending(&self) -> Seq<u64>;

    /// Hands out the next frame, or reports that none is left.
    fn allocate_frame(&mut self) -> (r: Option<PhysFrame>)
        ensures
            old(self).pending().len() == 0 ==> r is None && final(self).pending() == old(
                self,
            ).pending(),
            old(self).pending().len() > 0 ==> (r matches Some(frame) && frame@ == old(
                self,
            ).pending()[0]) && final(self).pending() == old(self).pending().skip(1),
    ;
}

/// An allocator that has no frame to hand out.
pub struct EmptyFrameAllocator;

impl FrameAllocator for EmptyFrameAllocator {
    /// None.
    open spec fn pending(&self) -> Seq<u64> {
        Seq::empty()
    }

    /// Reports that no frame is left.
    fn allocate_frame(&mut self) -> (r: Option<PhysFrame>) {
        None
    }
}

/// An allocator that hands out the usable frames of the boot memory map,
/// each of them once.
pub struct BootInfoFrameAllocator<'a> {
    memory_map: &'a [MemoryRegion],
    next: usize,
}

impl<'a> BootInfoFrameAllocator<'a> {
    /// The memory map that the allocator was made from.
    pub closed spec fn memory_map(&self) -> Seq<MemoryRegion> {
        self.memory_map@
    }

    /// The number of calls of `allocate_frame` so far, as far as a
    /// `usize` counts.
    pub closed spec fn cursor(&self) -> nat {
        self.next as nat
    }

    /// The number of frames that the allocator hands out in all: a
    /// `usize` cursor reaches no more than `usize::MAX` of them.
    pub open spec fn frame_limit(&self) -> nat {
        if usable_frames(self.memory_map()).len() <= usize::MAX {
            usable_frames(self.memory_map()).len()
        } else {
            usize::MAX as nat
        }
    }

    /// An allocator for the usable frames of `memory_map`. The caller
    /// answers for the map: what it calls usable must be unused.
    pub fn init(memory_map: &'a [MemoryRegion]) -> (r: BootInfoFrameAllocator<'a>)
        ensures
            r.memory_map() == memory_map@,
            r.cursor() == 0,
    {
        BootInfoFrameAllocator { memory_map, next: 0 }
    }

    /// The frame at place `n` among the usable frames of the map.
    fn usable_frame(&self, n: usize) -> (r: Option<PhysFrame>)
        ensures
            n < usable_frames(self.memory_map()).len() ==> (r matches Some(frame) && frame@
                == usable_frames(self.memory_map())[n as int]),
            n >= usable_frames(self.memory_map()).len() ==> r is None,
    {
        let ghost map = self.memory_map@;
        let mut skip: usize = n;
        let mut i: usize = 0;
        while i < self.memory_map.len()
            invariant
                map == self.memory_map@,
                0 <= i <= map.len(),
                skip + usable_frames(map.take(i as int)).len() == n,
            decreases map.len() - i,
        {
            let (first, count) = self.memory_map[i].frame_range();
            proof {
                lemma_usable_frames_step(map, i as int);
                lemma_usable_frames_prefix(map, i as int + 1);
            }
            if (skip as u64) < count {
                let address = first + PAGE_SIZE * (skip as u64);
                proof {
                    let upto = usable_frames(map.take(i as int + 1));
                    assert(address == map[i as int].frames()[skip as int]);
                    assert(upto[n as int] == map[i as int].frames()[skip as int]);
                    assert(usable_frames(map)[n as int] == usable_frames(map).take(
                        upto.len() as int,
                    )[n as int]);
                    assert(address % 4096 == 0);
                }
                return Some(PhysFrame::containing_address(PhysAddr::new(address)));
            }
            skip = skip - count as usize;
            i = i + 1;
        }
        assert(map.take(i as int) == map);
        None
    }
}

impl<'a> FrameAllocator for BootInfoFrameAllocator<'a> {
    /// The usable frames of the map from the cursor on, up to the
    /// frame limit.
    open spec fn pending(&self) -> Seq<u64> {
        if self.cursor() < self.frame_limit() {
            usable_frames(self.memory_map()).subrange(
                self.cursor() as int,
                self.frame_limit() as int,
            )
        } else {
            Seq::empty()
        }
    }

    /// Hands out the usable frame at the cursor and moves the cursor on
    /// by one; `None` once the cursor is past the last frame.
    fn allocate_frame(&mut self) -> (r: Option<PhysFrame>)
        ensures
            final(self).memory_map() == old(self).memory_map(),
            final(self).cursor() == if old(self).cursor() < usize::MAX {
                old(self).cursor() + 1
            } else {
                old(self).cursor()
            },
    {
        if self.next == usize::MAX {
            return None;
        }
        let frame = self.usable_frame(self.next);
        self.next = self.next + 1;
        frame
    }
}

/// Every frame that the map offers comes from one of its regions: it
/// starts at a multiple of 4096 and lies, all of it, in a region that is
/// marked usable. The result is the place of one such region in the map.
pub proof fn lemma_usable_frame_lies_in_region(map: Seq<MemoryRegion>, i: int) -> (j: int)
    requires
        0 <= i < usable_frames(map).len(),
    ensures
        0 <= j < map.len(),
        map[j].usable,
        usable_frames(map)[i] % 4096 == 0,
        map[j].start@ <= usable_frames(map)[i],
        usable_frames(map)[i] + 4096 <= map[j].end@,
        map[j].frame_count() > 0,
        map[j].first_frame() <= usable_frames(map)[i] < map[j].frames_end(),
    decreases map.len(),
{
    let before = usable_frames(map.drop_last());
    if i < before.len() {
        lemma_usable_frame_lies_in_region(map.drop_last(), i)
    } else {
        let region = map.last();
        let k = i - before.len();
        assert(usable_frames(map)[i] == region.frames()[k]);
        assert(region.first_frame() + 4096 * (k + 1) <= region.end@);
        map.len() - 1
    }
}

/// Frame uniqueness: where no two regions offer the same frame, the map
/// offers no frame twice.
pub proof fn lemma_usable_frames_distinct(map: Seq<MemoryRegion>)
    requires
        regions_disjoint(map),
    ensures
        usable_frames(map).no_duplicates(),
    decreases map.len(),
{
    if map.len() > 0 {
        let before = usable_frames(map.drop_last());
        let region = map.last();
        let all = usable_frames(map);
        assert(regions_disjoint(map.drop_last())) by {
            let shorter = map.drop_last();
            assert forall|i: int, j: int|
                0 <= i < j < shorter.len() && #[trigger] shorter[i].frame_count() > 0
                    && #[trigger] shorter[j].frame_count() > 0 implies shorter[i].frames_end()
                <= shorter[j].first_frame() || shorter[j].frames_end()
                <= shorter[i].first_frame() by {
                assert(shorter[i] == map[i]);
                assert(shorter[j] == map[j]);
            }
        }
        lemma_usable_frames_distinct(map.drop_last());
        assert forall|a: int, b: int| 0 <= a < all.len() && 0 <= b < all.len() && a != b implies all[a]
            != all[b] by {
            let (lo, hi) = if a < b {
                (a, b)
            } else {
                (b, a)
            };
            if hi < before.len() {
                assert(all[lo] == before[lo] && all[hi] == before[hi]);
            } else if lo >= before.len() {
                assert(all[lo] == region.frames()[lo - before.len()]);
                assert(all[hi] == region.frames()[hi - before.len()]);
            } else {
                let j = lemma_usable_frame_lies_in_region(map.drop_last(), lo);
                assert(all[lo] == before[lo]);
                assert(all[hi] == region.frames()[hi - before.len()]);
                assert(map.drop_last()[j] == map[j]);
                assert(map[map.len() - 1] == region);
                assert(map[j].frame_count() > 0 && map[map.len() - 1].frame_count() > 0);
            }
        }
    }
}

/// Whether the frame that starts at `frame` lies, all of it, in a region
/// of `map` that is marked usable.
pub open spec fn lies_in_usable_region(map: Seq<MemoryRegion>, frame: u64) -> bool {
    exists|j: int|
        0 <= j < map.len() && #[trigger] map[j].usable && map[j].start@ <= frame && frame + 4096
            <= map[j].end@
}

/// Frame uniqueness, of what an allocator hands out: each frame that it
/// still hands out lies in a region marked usable, and where no two
/// regions of its map offer the same frame, these frames are pairwise
/// distinct.
pub proof fn lemma_allocated_frames_distinct(allocator: BootInfoFrameAllocator)
    ensures
        forall|i: int|
            0 <= i < allocator.pending().len() ==> lies_in_usable_region(
                allocator.memory_map(),
                #[trigger] allocator.pending()[i],
            ),
        regions_disjoint(allocator.memory_map()) ==> allocator.pending().no_duplicates(),
{
    let map = allocator.memory_map();
    let frames = usable_frames(map);
    let pending = allocator.pending();
    assert forall|i: int| 0 <= i < pending.len() implies lies_in_usable_region(
        map,
        #[trigger] pending[i],
    ) by {
        let j = lemma_usable_frame_lies_in_region(map, allocator.cursor() + i);
        assert(pending[i] == frames[allocator.cursor() + i]);
        assert(map[j].usable);
    }
    if regions_disjoint(map) {
        lemma_usable_frames_distinct(map);
        assert forall|a: int, b: int|
            0 <= a < pending.len() && 0 <= b < pending.len() && a != b implies pending[a]
            != pending[b] by {
            assert(pending[a] == frames[allocator.cursor() + a]);
            assert(pending[b] == frames[allocator.cursor() + b]);
        }
    }
}

/// In page tables that hold nothing yet, the frames that an allocator
/// hands out are unused: as long as its map offers no frame twice, offers
/// only physical addresses, and does not offer the frame of the level 4
/// table.
pub proof fn lemma_boot_frames_are_unused(allocator: BootInfoFrameAllocator, root: u64)
    requires
        regions_disjoint(allocator.memory_map()),
        forall|j: int|
            0 <= j < allocator.memory_map().len() ==> (#[trigger] allocator.memory_map()[j]).end.in_range(),
        !allocator.pending().contains(root),
    ensures
        frames_unused(Tables::empty(), root, allocator.pending()),
{
    let map = allocator.memory_map();
    let frames = usable_frames(map);
    let pending = allocator.pending();
    lemma_allocated_frames_distinct(allocator);
    assert forall|frame: u64| #[trigger] pending.contains(frame) implies is_frame_start(frame) by {
        let i = choose|i: int| 0 <= i < pending.len() && pending[i] == frame;
        let j = lemma_usable_frame_lies_in_region(map, allocator.cursor() + i);
        assert(pending[i] == frames[allocator.cursor() + i]);
        assert(map[j].end.in_range());
    }
}

/// Frame exhaustion is permanent: an allocator that has handed out its
/// last frame has none at any later time.
pub proof fn lemma_exhaustion_is_permanent(
    earlier: BootInfoFrameAllocator,
    later: BootInfoFrameAllocator,
)
    requires
        later.memory_map() == earlier.memory_map(),
        earlier.cursor() <= later.cursor(),
        earlier.pending().len() == 0,
    ensures
        later.pending().len() == 0,
{
}

/// The right to set up paging, which is had once: a second set of page
/// tables over the same memory would be a second writer to it.
pub struct InitOnce {
    claimed: bool,
}

impl InitOnce {
    /// Whether the right was claimed.
    pub closed spec fn is_claimed(&self) -> bool {
        self.claimed
    }

    /// The right, not yet claimed.
    pub fn new() -> (r: InitOnce)
        ensures
            !r.is_claimed(),
    {
        InitOnce { claimed: false }
    }

    /// Claims the right: `true` for the first to ask, `false` for
    /// everyone after.
    pub fn claim(&mut self) -> (r: bool)
        ensures
            r == !old(self).is_claimed(),
            final(self).is_claimed(),
    {
        let first = !self.claimed;
        self.claimed = true;
        first
    }
}

/// The page tables of an address space in which nothing is mapped yet:
/// the level 4 table lies in `level_4_frame`, and all of physical memory
/// is mapped at `physical_memory_offset`.
pub fn init(physical_memory_offset: VirtAddr, level_4_frame: PhysFrame) -> (r: OffsetPageTable)
    ensures
        r.root() == level_4_frame@,
        r.offset() == physical_memory_offset@,
        r.memory() == Tables::empty(),
{
    OffsetPageTable::new(level_4_frame, physical_memory_offset)
}

/// The physical address that `addr` is mapped to, or `None` where it is
/// not mapped. Huge pages are not supported: no entry on the way may map
/// one.
pub fn translate_addr(addr: VirtAddr, mapper: &OffsetPageTable) -> (r: Option<PhysAddr>)
    requires
        translate(mapper.memory(), mapper.root(), addr@) != Err::<u64, TranslateError>(
            TranslateError::UnsupportedMapping,
        ),
    ensures
        match r {
            Some(phys) => translate(mapper.memory(), mapper.root(), addr@) == Ok::<
                u64,
                TranslateError,
            >(phys@),
            None => translate(mapper.memory(), mapper.root(), addr@) == Err::<u64, TranslateError>(
                TranslateError::Unmapped,
            ),
        },
{
    match mapper.translate_addr(addr) {
        Ok(phys) => Some(phys),
        Err(_) => None,
    }
}

/// The start of the frame of the VGA text buffer.
pub const VGA_BUFFER_FRAME: u64 = 0xb8000;

/// Maps `page` to the frame of the VGA text buffer, present and writable.
pub fn create_example_mapping<A: FrameAllocator>(
    page: Page,
    mapper: &mut OffsetPageTable,
    frame_allocator: &mut A,
) -> (r: Result<MapperFlush, MapToError>)
    ensures
        ({
            let outcome = map_to(
                old(mapper).memory(),
                old(frame_allocator).pending(),
                old(mapper).root(),
                page@,
                PhysFrame::at(VGA_BUFFER_FRAME),
                PageTableFlags { present: true, writable: true, huge_page: false },
            );
            &&& final(mapper).memory() == outcome.mem
            &&& final(frame_allocator).pending() == outcome.pending
            &&& match r {
                Ok(flush) => outcome.result is Ok && flush.page() == page,
                Err(e) => outcome.result == Err::<(), MapToError>(e),
            }
        }),
        final(mapper).root() == old(mapper).root(),
        final(mapper).offset() == old(mapper).offset(),
{
    let frame = PhysFrame::containing_address(PhysAddr::new(VGA_BUFFER_FRAME));
    let flags = PageTableFlags { present: true, writable: true, huge_page: false };
    proof {
        PhysFrame::lemma_at(VGA_BUFFER_FRAME);
        lemma_frame_by_start(frame, PhysFrame::at(VGA_BUFFER_FRAME));
    }
    mapper.map_to(page, frame, flags, frame_allocator)
}

} // verus!
