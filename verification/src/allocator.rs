//! The kernel heap: where it lives and the allocators that can serve it.

use vstd::arithmetic::div_mod::lemma_fundamental_div_mod;
use vstd::arithmetic::div_mod::lemma_fundamental_div_mod_converse;
use vstd::arithmetic::div_mod::lemma_mod_multiples_basic;
use vstd::prelude::*;
use crate::memory::mapper::Tables;
use crate::allocator::bump::BumpAllocator;
use crate::allocator::bump::HeapArena;
use crate::memory::addr::align_down_4k;
use crate::memory::addr::lemma_frame_by_start;
use crate::memory::addr::Page;
use crate::memory::addr::PageRangeInclusive;
use crate::memory::addr::PhysFrame;
use crate::memory::addr::VirtAddr;
use crate::memory::proofs::frames_unused;
use crate::memory::proofs::is_frame_start;
use crate::memory::translate::is_walk_table;
use crate::memory::proofs::lemma_map_then_translate;
use crate::memory::proofs::lemma_map_to_keeps_translation;
use crate::memory::proofs::lemma_map_to_keeps_unused;
use crate::memory::proofs::lemma_unused_after_first;
use crate::memory::proofs::lemma_unused_frames_hold_no_walk_table;
use crate::memory::mapper::map_to;
use crate::memory::mapper::tables_are_whole;
use crate::memory::translate::translate;
use crate::memory::translate::TranslateError;
use crate::memory::mapper::MapOutcome;
use crate::memory::mapper::MapToError;
use crate::memory::mapper::OffsetPageTable;
use crate::memory::page_table::PageTableFlags;
use crate::memory::FrameAllocator;

pub mod bump;

verus! {

/// The virtual address at which the kernel heap starts.
pub const HEAP_START: u64 = 0x_7777_7777_7777;

/// The size of the kernel heap in bytes.
pub const HEAP_SIZE: u64 = 700 * 1024;

/// The number of pages that hold the kernel heap. The heap starts in the
/// middle of a page, so they are one more than its size fills.
pub const HEAP_PAGES: u64 = 176;

/// The smallest multiple of `align` that is not below `addr`.
pub open spec fn round_up(addr: int, align: int) -> int {
    ((addr + align - 1) / align) * align
}

/// Aligns `addr` upwards to the next multiple of `align`; `None` when that
/// multiple does not fit in a `u64`.
pub fn align_up(addr: u64, align: u64) -> (r: Option<u64>)
    requires
        align > 0,
    ensures
        round_up(addr as int, align as int) <= u64::MAX ==> r == Some(
            round_up(addr as int, align as int) as u64,
        ),
        round_up(addr as int, align as int) > u64::MAX ==> r is None,
{
    let remainder = addr % align;
    proof {
        lemma_round_up(addr as int, align as int);
    }
    if remainder == 0 {
        Some(addr)
    } else {
        addr.checked_add(align - remainder)
    }
}

/// `round_up` in terms of the remainder: an aligned address stays, any
/// other moves up by what it lacks to the next multiple.
pub proof fn lemma_round_up(addr: int, align: int)
    requires
        addr >= 0,
        align > 0,
    ensures
        round_up(addr, align) == if addr % align == 0 {
            addr
        } else {
            addr - addr % align + align
        },
        round_up(addr, align) % align == 0,
        addr <= round_up(addr, align) < addr + align,
{
    let q = addr / align;
    let r = addr % align;
    lemma_fundamental_div_mod(addr, align);
    if r == 0 {
        assert(addr + align - 1 == q * align + (align - 1)) by (nonlinear_arith)
            requires
                addr == align * q + r,
                r == 0,
        ;
        lemma_fundamental_div_mod_converse(addr + align - 1, align, q, align - 1);
    } else {
        assert(addr + align - 1 == (q + 1) * align + (r - 1)) by (nonlinear_arith)
            requires
                addr == align * q + r,
        ;
        lemma_fundamental_div_mod_converse(addr + align - 1, align, q + 1, r - 1);
        assert((q + 1) * align == addr - r + align) by (nonlinear_arith)
            requires
                addr == align * q + r,
        ;
    }
    lemma_mod_multiples_basic((addr + align - 1) / align, align);
}

/// An allocator that never has memory to give.
pub struct Dummy;

impl Dummy {
    /// Fails, whatever is asked.
    pub fn allocate(&self, size: u64, align: u64) -> (r: Option<u64>)
        ensures
            r is None,
    {
        None
    }
}

/// The pages that hold the bytes `[start, start + size)`.
pub fn pages_covering(start: VirtAddr, size: u64) -> (r: PageRangeInclusive)
    requires
        size > 0,
        start@ + size - 1 <= u64::MAX,
    ensures
        r.start@ == align_down_4k(start@),
        r.end@ == align_down_4k((start@ + size - 1) as u64),
        r.count() > 0,
{
    let last = VirtAddr::new(start.as_u64() + (size - 1));
    Page::range_inclusive(Page::containing_address(start), Page::containing_address(last))
}

/// The pages of the kernel heap.
pub fn heap_pages() -> (r: PageRangeInclusive)
    ensures
        r.start@ == align_down_4k(HEAP_START),
        r.end@ == align_down_4k((HEAP_START + HEAP_SIZE - 1) as u64),
        r.count() == HEAP_PAGES,
{
    pages_covering(VirtAddr::new(HEAP_START), HEAP_SIZE)
}

/// The flags with which the pages of the heap are mapped: present and
/// writable.
pub open spec fn heap_flags() -> PageTableFlags {
    PageTableFlags { present: true, writable: true, huge_page: false }
}

/// Mapping `count` pages in a row, the first of them at `first`: page
/// after page, the next frame of `pending` is taken and the page is
/// mapped to it with `flags`. The first page that cannot be had ends it:
/// for want of a frame, or because it cannot be mapped.
pub open spec fn map_range(
    mem: Tables,
    pending: Seq<u64>,
    root: u64,
    first: u64,
    count: nat,
    flags: PageTableFlags,
) -> MapOutcome
    decreases count,
{
    if count == 0 {
        MapOutcome { mem, pending, result: Ok(()) }
    } else {
        let before = map_range(mem, pending, root, first, (count - 1) as nat, flags);
        if before.result is Err {
            before
        } else if before.pending.len() == 0 {
            MapOutcome { result: Err(MapToError::FrameAllocationFailed), ..before }
        } else {
            map_to(
                before.mem,
                before.pending.skip(1),
                root,
                (first + 4096 * (count - 1)) as u64,
                PhysFrame::at(before.pending[0]),
                flags,
            )
        }
    }
}

/// Once a page of the row has failed, the pages after it change nothing.
pub proof fn lemma_map_range_stays_failed(
    mem: Tables,
    pending: Seq<u64>,
    root: u64,
    first: u64,
    failed: nat,
    count: nat,
    flags: PageTableFlags,
)
    requires
        failed <= count,
        map_range(mem, pending, root, first, failed, flags).result is Err,
    ensures
        map_range(mem, pending, root, first, count, flags) == map_range(
            mem,
            pending,
            root,
            first,
            failed,
            flags,
        ),
    decreases count,
{
    if failed < count {
        lemma_map_range_stays_failed(mem, pending, root, first, failed, (count - 1) as nat, flags);
    }
}

/// Maps the pages of `pages`, first to last, each to the next frame from
/// `frame_allocator`, with `flags`. The first page that cannot be had
/// ends it, and what was mapped before stays.
pub fn map_pages<A: FrameAllocator>(
    mapper: &mut OffsetPageTable,
    frame_allocator: &mut A,
    pages: PageRangeInclusive,
    flags: PageTableFlags,
) -> (r: Result<(), MapToError>)
    requires
        !flags.huge_page,
    ensures
        ({
            let outcome = map_range(
                old(mapper).memory(),
                old(frame_allocator).pending(),
                old(mapper).root(),
                pages.start@,
                pages.count(),
                flags,
            );
            &&& final(mapper).memory() == outcome.mem
            &&& final(frame_allocator).pending() == outcome.pending
            &&& r == outcome.result
        }),
        final(mapper).root() == old(mapper).root(),
        final(mapper).offset() == old(mapper).offset(),
{
    let count = pages.len();
    let ghost mem = mapper.memory();
    let ghost pending = frame_allocator.pending();
    let ghost root = mapper.root();
    let ghost first = pages.start@;
    let mut i: u64 = 0;
    while i < count
        invariant
            i <= count == pages.count(),
            first == pages.start@,
            !flags.huge_page,
            mem == old(mapper).memory(),
            pending == old(frame_allocator).pending(),
            root == old(mapper).root(),
            mapper.root() == root,
            mapper.offset() == old(mapper).offset(),
            map_range(mem, pending, root, first, i as nat, flags) == (MapOutcome {
                mem: mapper.memory(),
                pending: frame_allocator.pending(),
                result: Ok(()),
            }),
        decreases count - i,
    {
        let page = pages.get(i);
        let ghost before = map_range(mem, pending, root, first, i as nat, flags);
        let mapped = match frame_allocator.allocate_frame() {
            Some(frame) => {
                proof {
                    PhysFrame::lemma_at(before.pending[0]);
                    lemma_frame_by_start(frame, PhysFrame::at(before.pending[0]));
                }
                mapper.map_to(page, frame, flags, frame_allocator)
            },
            None => Err(MapToError::FrameAllocationFailed),
        };
        match mapped {
            Ok(flush) => {
                let _ = flush.flush();
            },
            Err(e) => {
                proof {
                    lemma_map_range_stays_failed(
                        mem,
                        pending,
                        root,
                        first,
                        (i + 1) as nat,
                        count as nat,
                        flags,
                    );
                }
                return Err(e);
            },
        }
        i = i + 1;
    }
    Ok(())
}

/// Sets up the kernel heap: maps every page of it, each to a frame from
/// `frame_allocator`, present and writable, and then gives the heap to
/// `heap`. The first page that cannot be mapped ends it, and `heap` stays
/// as it was. The pages are those of `heap_pages`; after a success the
/// caller invalidates them in the translation cache.
pub fn init_heap<A: FrameAllocator>(
    mapper: &mut OffsetPageTable,
    frame_allocator: &mut A,
    heap: &mut BumpAllocator,
) -> (r: Result<(), MapToError>)
    ensures
        ({
            let outcome = map_range(
                old(mapper).memory(),
                old(frame_allocator).pending(),
                old(mapper).root(),
                align_down_4k(HEAP_START),
                HEAP_PAGES as nat,
                heap_flags(),
            );
            &&& final(mapper).memory() == outcome.mem
            &&& final(frame_allocator).pending() == outcome.pending
            &&& r == outcome.result
        }),
        final(mapper).root() == old(mapper).root(),
        final(mapper).offset() == old(mapper).offset(),
        r is Ok ==> final(heap)@ == (HeapArena {
            start: HEAP_START as int,
            end: HEAP_START + HEAP_SIZE,
            next: HEAP_START as int,
            live_count: old(heap)@.live_count,
        }),
        r is Err ==> final(heap)@ == old(heap)@,
{
    let flags = PageTableFlags { present: true, writable: true, huge_page: false };
    match map_pages(mapper, frame_allocator, heap_pages(), flags) {
        Ok(()) => {
            heap.init(HEAP_START, HEAP_SIZE);
            Ok(())
        },
        Err(e) => Err(e),
    }
}

/// The start of the frame that page `k` of the row is mapped to: the
/// first frame that the allocator has when the pages before it are
/// mapped.
pub open spec fn frame_of_page(
    mem: Tables,
    pending: Seq<u64>,
    root: u64,
    first: u64,
    k: nat,
    flags: PageTableFlags,
) -> u64 {
    map_range(mem, pending, root, first, k, flags).pending[0]
}

/// Mapping a row of pages keeps unused what it has not taken: the frames
/// that the allocator still has afterwards are unused in the tables as
/// they are then.
pub proof fn lemma_map_range_keeps_unused(
    mem: Tables,
    pending: Seq<u64>,
    root: u64,
    first: u64,
    count: nat,
    flags: PageTableFlags,
)
    requires
        tables_are_whole(mem),
        frames_unused(mem, root, pending),
    ensures
        ({
            let outcome = map_range(mem, pending, root, first, count, flags);
            &&& tables_are_whole(outcome.mem)
            &&& frames_unused(outcome.mem, root, outcome.pending)
            &&& forall|frame: u64| #[trigger]
                outcome.pending.contains(frame) ==> pending.contains(frame)
        }),
    decreases count,
{
    if count > 0 {
        let before = map_range(mem, pending, root, first, (count - 1) as nat, flags);
        lemma_map_range_keeps_unused(mem, pending, root, first, (count - 1) as nat, flags);
        if before.result is Ok && before.pending.len() > 0 {
            lemma_unused_after_first(before.mem, root, before.pending);
            PhysFrame::lemma_at(before.pending[0]);
            lemma_map_to_keeps_unused(
                before.mem,
                before.pending.skip(1),
                root,
                (first + 4096 * (count - 1)) as u64,
                PhysFrame::at(before.pending[0]),
                flags,
            );
        }
    }
}

/// After a row of pages was mapped, every address of every page of the
/// row translates to the frame of its page, with the same page offset.
/// This holds where the frames of the allocator were unused, for a
/// mapping that is present and no huge page.
pub proof fn lemma_mapped_range_translates(
    mem: Tables,
    pending: Seq<u64>,
    root: u64,
    first: u64,
    count: nat,
    flags: PageTableFlags,
    k: nat,
    offset: u64,
)
    requires
        tables_are_whole(mem),
        frames_unused(mem, root, pending),
        first % 4096 == 0,
        first + 4096 * count <= u64::MAX + 1,
        flags.present,
        !flags.huge_page,
        map_range(mem, pending, root, first, count, flags).result is Ok,
        k < count,
        offset < 4096,
    ensures
        translate(
            map_range(mem, pending, root, first, count, flags).mem,
            root,
            (first + 4096 * k + offset) as u64,
        ) == Ok::<u64, TranslateError>(
            (frame_of_page(mem, pending, root, first, k, flags) + offset) as u64,
        ),
    decreases count,
{
    let before = map_range(mem, pending, root, first, (count - 1) as nat, flags);
    let page = (first + 4096 * (count - 1)) as u64;
    let frame = PhysFrame::at(before.pending[0]);
    let rest = before.pending.skip(1);
    lemma_map_range_keeps_unused(mem, pending, root, first, (count - 1) as nat, flags);
    lemma_unused_after_first(before.mem, root, before.pending);
    PhysFrame::lemma_at(before.pending[0]);
    if k == count - 1 {
        assert forall|i: int| 0 <= i < rest.len() implies is_frame_start(#[trigger] rest[i])
            && !is_walk_table(before.mem, root, page, rest[i]) by {
            assert(rest.contains(rest[i]));
            lemma_unused_frames_hold_no_walk_table(before.mem, root, rest, page, rest[i]);
        }
        lemma_map_then_translate(before.mem, rest, root, page, frame, flags, offset);
    } else {
        lemma_mapped_range_translates(
            mem,
            pending,
            root,
            first,
            (count - 1) as nat,
            flags,
            k,
            offset,
        );
        lemma_map_to_keeps_translation(
            before.mem,
            rest,
            root,
            page,
            frame,
            flags,
            (first + 4096 * k + offset) as u64,
        );
    }
}

/// Mapping more pages of a row leaves the allocator no frame that it did
/// not have after fewer.
pub proof fn lemma_map_range_takes_frames(
    mem: Tables,
    pending: Seq<u64>,
    root: u64,
    first: u64,
    earlier: nat,
    later: nat,
    flags: PageTableFlags,
)
    requires
        tables_are_whole(mem),
        frames_unused(mem, root, pending),
        earlier <= later,
    ensures
        forall|frame: u64| #[trigger]
            map_range(mem, pending, root, first, later, flags).pending.contains(frame)
                ==> map_range(mem, pending, root, first, earlier, flags).pending.contains(frame),
    decreases later,
{
    if earlier < later {
        let before = map_range(mem, pending, root, first, (later - 1) as nat, flags);
        lemma_map_range_takes_frames(mem, pending, root, first, earlier, (later - 1) as nat, flags);
        lemma_map_range_keeps_unused(mem, pending, root, first, (later - 1) as nat, flags);
        if before.result is Ok && before.pending.len() > 0 {
            lemma_unused_after_first(before.mem, root, before.pending);
            PhysFrame::lemma_at(before.pending[0]);
            lemma_map_to_keeps_unused(
                before.mem,
                before.pending.skip(1),
                root,
                (first + 4096 * (later - 1)) as u64,
                PhysFrame::at(before.pending[0]),
                flags,
            );
        }
    }
}

/// Every page of a row that was mapped has a frame of its own: no two
/// pages of the row are mapped to the same frame, where the frames of the
/// allocator were unused.
pub proof fn lemma_mapped_pages_share_no_frame(
    mem: Tables,
    pending: Seq<u64>,
    root: u64,
    first: u64,
    count: nat,
    flags: PageTableFlags,
    j: nat,
    k: nat,
)
    requires
        tables_are_whole(mem),
        frames_unused(mem, root, pending),
        map_range(mem, pending, root, first, count, flags).result is Ok,
        j < k < count,
    ensures
        frame_of_page(mem, pending, root, first, j, flags) != frame_of_page(
            mem,
            pending,
            root,
            first,
            k,
            flags,
        ),
{
    let at_j = map_range(mem, pending, root, first, j, flags);
    let after_j = map_range(mem, pending, root, first, j + 1, flags);
    let at_k = map_range(mem, pending, root, first, k, flags);
    let after_k = map_range(mem, pending, root, first, k + 1, flags);
    if after_j.result is Err {
        lemma_map_range_stays_failed(mem, pending, root, first, j + 1, count, flags);
    }
    if after_k.result is Err {
        lemma_map_range_stays_failed(mem, pending, root, first, k + 1, count, flags);
    }
    lemma_map_range_keeps_unused(mem, pending, root, first, j, flags);
    lemma_unused_after_first(at_j.mem, root, at_j.pending);
    PhysFrame::lemma_at(at_j.pending[0]);
    lemma_map_to_keeps_unused(
        at_j.mem,
        at_j.pending.skip(1),
        root,
        (first + 4096 * j) as u64,
        PhysFrame::at(at_j.pending[0]),
        flags,
    );
    lemma_map_range_takes_frames(mem, pending, root, first, j + 1, k, flags);
    assert(at_k.pending.contains(at_k.pending[0]));
    assert(after_j.pending.contains(at_k.pending[0]));
}

/// After the heap was set up, every address of the heap translates:
/// byte `offset` of page `k` of the heap lies at that offset in the frame
/// that the page was given. This holds where the frames of the allocator
/// were unused.
pub proof fn lemma_heap_is_mapped(
    mem: Tables,
    pending: Seq<u64>,
    root: u64,
    addr: u64,
)
    requires
        tables_are_whole(mem),
        frames_unused(mem, root, pending),
        map_range(
            mem,
            pending,
            root,
            align_down_4k(HEAP_START),
            HEAP_PAGES as nat,
            heap_flags(),
        ).result is Ok,
        HEAP_START <= addr < HEAP_START + HEAP_SIZE,
    ensures
        translate(
            map_range(
                mem,
                pending,
                root,
                align_down_4k(HEAP_START),
                HEAP_PAGES as nat,
                heap_flags(),
            ).mem,
            root,
            addr,
        ) is Ok,
{
    let first = align_down_4k(HEAP_START);
    let k = ((addr - first) / 4096) as nat;
    let offset = ((addr - first) % 4096) as u64;
    lemma_mapped_range_translates(
        mem,
        pending,
        root,
        first,
        HEAP_PAGES as nat,
        heap_flags(),
        k,
        offset,
    );
}

} // verus!
