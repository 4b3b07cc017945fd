//! What mapping a page keeps and what it brings about: proofs over the
//! tables as mathematical maps.

use vstd::prelude::*;
use crate::memory::mapper::Tables;
use crate::memory::addr::PHYS_ADDR_LIMIT;
use crate::memory::addr::PhysFrame;
use crate::memory::addr::lemma_address_in_page;
use crate::memory::addr::lemma_address_parts;
use crate::memory::addr::p1_index_of;
use crate::memory::addr::p2_index_of;
use crate::memory::addr::p3_index_of;
use crate::memory::addr::p4_index_of;
use crate::memory::mapper::MapToError;
use crate::memory::mapper::clear_table;
use crate::memory::mapper::create_next_table;
use crate::memory::mapper::map_to;
use crate::memory::mapper::parent_flags;
use crate::memory::mapper::read_entry;
use crate::memory::mapper::table_at;
use crate::memory::mapper::tables_are_whole;
use crate::memory::mapper::write_entry;
use crate::memory::page_table::FrameError;
use crate::memory::page_table::PageTableFlags;
use crate::memory::page_table::entry_bits;
use crate::memory::page_table::entry_frame;
use crate::memory::page_table::entry_is_present;
use crate::memory::page_table::lemma_entry_address_is_frame;
use crate::memory::page_table::lemma_entry_round_trip;
use crate::memory::translate::TranslateError;
use crate::memory::translate::is_walk_table;
use crate::memory::translate::table_index_of;
use crate::memory::translate::table_of_level;
use crate::memory::translate::translate;
use crate::memory::translate::walk;

verus! {

/// Whether a frame can start at `addr`.
pub open spec fn is_frame_start(addr: u64) -> bool {
    addr % 4096 == 0 && addr < PHYS_ADDR_LIMIT
}

/// What one step down keeps: the tables stay whole, the entry that the
/// step went through leads to the next table, and every entry that was
/// present before is as it was, unless it lies in the frame that the
/// step has taken for a new table.
pub proof fn lemma_create_next_table(
    mem: Tables,
    pending: Seq<u64>,
    table: u64,
    index: int,
)
    requires
        tables_are_whole(mem),
        0 <= index < 512,
        create_next_table(mem, pending, table, index).pending != pending ==> is_frame_start(
            pending[0],
        ),
    ensures
        ({
            let step = create_next_table(mem, pending, table, index);
            &&& tables_are_whole(step.mem)
            &&& step.next matches Ok(next) ==> entry_frame(read_entry(step.mem, table, index))
                == Ok::<u64, FrameError>(next)
            &&& step.mem == mem && step.pending == pending || pending.len() > 0 && step.pending
                == pending.skip(1) && step.next == Ok::<u64, MapToError>(pending[0])
            &&& forall|other: u64, i: int|
                0 <= i < 512 && entry_is_present(read_entry(mem, other, i)) && (step.mem != mem
                    ==> other != pending[0]) ==> #[trigger] read_entry(step.mem, other, i)
                    == read_entry(mem, other, i)
        }),
{
    let step = create_next_table(mem, pending, table, index);
    let bits = read_entry(mem, table, index);
    lemma_entry_address_is_frame(bits);
    if !entry_is_present(bits) && pending.len() > 0 {
        let new = pending[0];
        let cleared = clear_table(mem, new);
        let link = entry_bits(new, parent_flags());
        lemma_entry_round_trip(new, parent_flags());
        assert(tables_are_whole(cleared));
        assert(table_at(cleared, table).len() == 512);
        assert(tables_are_whole(step.mem));
        assert(read_entry(step.mem, table, index) == link);
        assert forall|other: u64, i: int|
            0 <= i < 512 && entry_is_present(read_entry(mem, other, i)) && (step.mem != mem
                ==> other != pending[0]) implies #[trigger] read_entry(step.mem, other, i)
            == read_entry(mem, other, i) by {
            if step.mem != mem {
                assert(read_entry(cleared, other, i) == read_entry(mem, other, i));
            }
        }
    }
}

/// The frames that mapping the page takes from the allocator for new
/// tables: the first of `pending`, as many as are gone afterwards.
pub open spec fn frames_taken(
    mem: Tables,
    pending: Seq<u64>,
    root: u64,
    page: u64,
    frame: PhysFrame,
    flags: PageTableFlags,
) -> Seq<u64> {
    pending.take(pending.len() - map_to(mem, pending, root, page, frame, flags).pending.len())
}

/// Translation round trip: after the page at `page` was mapped to
/// `frame`, every address of the page translates to the address of
/// `frame` with the same page offset. This holds for a mapping that is
/// present and no huge page, where the frames that the mapping took for
/// new tables were frames in which no table of the walk for the page
/// lay, and no two of them the same.
pub proof fn lemma_map_then_translate(
    mem: Tables,
    pending: Seq<u64>,
    root: u64,
    page: u64,
    frame: PhysFrame,
    flags: PageTableFlags,
    offset: u64,
)
    requires
        tables_are_whole(mem),
        page % 4096 == 0,
        offset < 4096,
        frame.aligned(),
        flags.present,
        !flags.huge_page,
        map_to(mem, pending, root, page, frame, flags).result is Ok,
        frames_taken(mem, pending, root, page, frame, flags).no_duplicates(),
        forall|i: int|
            0 <= i < frames_taken(mem, pending, root, page, frame, flags).len() ==> {
                &&& is_frame_start(#[trigger] frames_taken(mem, pending, root, page, frame, flags)[i])
                &&& !is_walk_table(
                    mem,
                    root,
                    page,
                    frames_taken(mem, pending, root, page, frame, flags)[i],
                )
            },
    ensures
        page + offset <= u64::MAX,
        frame@ + offset < PHYS_ADDR_LIMIT,
        translate(map_to(mem, pending, root, page, frame, flags).mem, root, (page + offset) as u64)
            == Ok::<u64, TranslateError>((frame@ + offset) as u64),
{
    let addr = (page + offset) as u64;
    lemma_address_in_page(page, offset);
    lemma_address_parts(page);
    let i4 = p4_index_of(page) as int;
    let i3 = p3_index_of(page) as int;
    let i2 = p2_index_of(page) as int;
    let i1 = p1_index_of(page) as int;
    assert(table_index_of(addr, 4) == i4 && table_index_of(addr, 3) == i3);
    assert(table_index_of(addr, 2) == i2 && table_index_of(addr, 1) == i1);

    let taken = frames_taken(mem, pending, root, page, frame, flags);
    let s3 = create_next_table(mem, pending, root, i4);
    let p3 = s3.next->Ok_0;
    let s2 = create_next_table(s3.mem, s3.pending, p3, i3);
    let p2 = s2.next->Ok_0;
    let s1 = create_next_table(s2.mem, s2.pending, p2, i2);
    let p1 = s1.next->Ok_0;
    // How many frames the steps have taken, one after the other.
    let n3 = pending.len() - s3.pending.len();
    let n2 = pending.len() - s2.pending.len();
    let n1 = pending.len() - s1.pending.len();
    assert(taken.len() == n1);
    assert(table_of_level(mem, root, page, 4) == Ok::<u64, FrameError>(root));
    assert(table_of_level(mem, root, page, 3) == entry_frame(read_entry(mem, root, i4)));

    // The first step: down from the level 4 table.
    if n3 > 0 {
        assert(taken[0] == pending[0]);
    }
    lemma_create_next_table(mem, pending, root, i4);
    assert(0 <= n3 <= 1);

    // The second step. A frame that it takes does not hold the level 4
    // table.
    if s2.pending != s3.pending {
        assert(s3.pending[0] == pending[n3] == taken[n3]);
        assert(!is_walk_table(mem, root, page, taken[n3]));
    }
    lemma_create_next_table(s3.mem, s3.pending, p3, i3);
    assert(n3 <= n2 <= n3 + 1);
    assert(read_entry(s2.mem, root, i4) == read_entry(s3.mem, root, i4));

    // The third step. A frame that it takes holds neither the level 4
    // table nor the level 3 table: that one was there before, or lies in
    // the first frame that was taken.
    if s1.pending != s2.pending {
        assert(s2.pending[0] == pending[n2] == taken[n2]);
        assert(!is_walk_table(mem, root, page, taken[n2]));
        if n3 > 0 {
            assert(p3 == taken[0]);
        }
    }
    lemma_create_next_table(s2.mem, s2.pending, p2, i2);
    assert(read_entry(s1.mem, root, i4) == read_entry(s2.mem, root, i4));
    assert(read_entry(s1.mem, p3, i3) == read_entry(s2.mem, p3, i3));

    // The entry of the page: it was not present, so it is none of the
    // entries that lead to it.
    let leaf = entry_bits(frame@, flags);
    let mapped = write_entry(s1.mem, p1, i1, leaf);
    assert(map_to(mem, pending, root, page, frame, flags).mem == mapped);
    lemma_entry_round_trip(frame@, flags);
    assert(table_at(s1.mem, p1).len() == 512);
    assert(read_entry(mapped, p1, i1) == leaf);
    assert(read_entry(mapped, p2, i2) == read_entry(s1.mem, p2, i2));
    assert(read_entry(mapped, p3, i3) == read_entry(s1.mem, p3, i3));
    assert(read_entry(mapped, root, i4) == read_entry(s1.mem, root, i4));

    assert(walk(mapped, frame@, addr, 0) == Ok::<u64, FrameError>(frame@));
    assert(walk(mapped, p1, addr, 1) == Ok::<u64, FrameError>(frame@));
    assert(walk(mapped, p2, addr, 2) == Ok::<u64, FrameError>(frame@));
    assert(walk(mapped, p3, addr, 3) == Ok::<u64, FrameError>(frame@));
    assert(walk(mapped, root, addr, 4) == Ok::<u64, FrameError>(frame@));
}

/// The frames of `frames` are unused: each can hold a table, none holds
/// the level 4 table, and no entry of a table leads to one of them. No
/// frame occurs twice.
pub open spec fn frames_unused(mem: Tables, root: u64, frames: Seq<u64>) -> bool {
    &&& frames.no_duplicates()
    &&& forall|frame: u64| #[trigger]
        frames.contains(frame) ==> is_frame_start(frame) && frame != root
    &&& forall|table: u64, index: int|
        mem.contains_key(table) && 0 <= index < 512 ==> (entry_frame(
            #[trigger] mem[table][index],
        ) matches Ok(frame) ==> !frames.contains(frame))
}

/// No walk reads a table in an unused frame.
pub proof fn lemma_unused_frames_hold_no_walk_table(
    mem: Tables,
    root: u64,
    frames: Seq<u64>,
    addr: u64,
    frame: u64,
)
    requires
        tables_are_whole(mem),
        frames_unused(mem, root, frames),
        frames.contains(frame),
    ensures
        !is_walk_table(mem, root, addr, frame),
{
    lemma_address_parts(addr);
    lemma_entry_address_is_frame(0);
    assert forall|level: nat| 1 <= level <= 4 implies #[trigger] table_of_level(
        mem,
        root,
        addr,
        level,
    ) != Ok::<u64, FrameError>(frame) by {
        if level < 4 {
            if let Ok(table) = table_of_level(mem, root, addr, level + 1) {
                let index = table_index_of(addr, level + 1) as int;
                if mem.contains_key(table) {
                    assert(read_entry(mem, table, index) == mem[table][index]);
                } else {
                    assert(read_entry(mem, table, index) == 0);
                }
            }
        }
    }
}

/// One step down keeps unused what it has not taken: as long as the table
/// that it starts from lies in no unused frame, the frames that the
/// allocator still has after the step are unused in the tables after it,
/// and the next table lies in none of them.
pub proof fn lemma_create_next_table_keeps_unused(
    mem: Tables,
    pending: Seq<u64>,
    root: u64,
    table: u64,
    index: int,
)
    requires
        tables_are_whole(mem),
        0 <= index < 512,
        frames_unused(mem, root, pending),
        !pending.contains(table),
    ensures
        ({
            let step = create_next_table(mem, pending, table, index);
            &&& frames_unused(step.mem, root, step.pending)
            &&& forall|frame: u64| #[trigger]
                step.pending.contains(frame) ==> pending.contains(frame)
            &&& step.next matches Ok(next) ==> !step.pending.contains(next)
        }),
{
    let step = create_next_table(mem, pending, table, index);
    let bits = read_entry(mem, table, index);
    lemma_entry_address_is_frame(0);
    if mem.contains_key(table) {
        assert(bits == mem[table][index]);
    }
    if !entry_is_present(bits) && pending.len() > 0 {
        let new = pending[0];
        let rest = pending.skip(1);
        let cleared = clear_table(mem, new);
        let link = entry_bits(new, parent_flags());
        assert(pending.contains(new));
        lemma_entry_round_trip(new, parent_flags());
        assert forall|frame: u64| #[trigger] rest.contains(frame) implies pending.contains(frame)
            && frame != new by {
            let i = choose|i: int| 0 <= i < rest.len() && rest[i] == frame;
            assert(pending[i + 1] == frame);
        }
        assert(rest.no_duplicates()) by {
            assert forall|i: int, j: int|
                0 <= i < rest.len() && 0 <= j < rest.len() && i != j implies rest[i] != rest[j] by {
                assert(rest[i] == pending[i + 1] && rest[j] == pending[j + 1]);
            }
        }
        assert forall|other: u64, i: int|
            step.mem.contains_key(other) && 0 <= i < 512 implies (entry_frame(
            #[trigger] step.mem[other][i],
        ) matches Ok(frame) ==> !rest.contains(frame)) by {
            if other == table {
                if i != index {
                    if table != new && mem.contains_key(table) {
                        assert(step.mem[other][i] == mem[table][i]);
                    } else {
                        assert(step.mem[other][i] == 0);
                    }
                }
            } else if other == new {
                assert(step.mem[other][i] == 0);
            } else {
                assert(step.mem[other][i] == mem[other][i]);
            }
        }
    }
}

/// Mapping a page keeps unused what it has not taken: the frames that the
/// allocator still has afterwards are unused in the tables as they are
/// then, whether the page was mapped or not.
pub proof fn lemma_map_to_keeps_unused(
    mem: Tables,
    pending: Seq<u64>,
    root: u64,
    page: u64,
    frame: PhysFrame,
    flags: PageTableFlags,
)
    requires
        tables_are_whole(mem),
        frames_unused(mem, root, pending),
        frame.aligned(),
        !pending.contains(frame@),
    ensures
        ({
            let outcome = map_to(mem, pending, root, page, frame, flags);
            &&& tables_are_whole(outcome.mem)
            &&& frames_unused(outcome.mem, root, outcome.pending)
            &&& forall|other: u64| #[trigger]
                outcome.pending.contains(other) ==> pending.contains(other)
        }),
{
    lemma_address_parts(page);
    let i4 = p4_index_of(page) as int;
    let i3 = p3_index_of(page) as int;
    let i2 = p2_index_of(page) as int;
    let i1 = p1_index_of(page) as int;
    assert(pending.len() > 0 ==> pending.contains(pending[0]));
    let s3 = create_next_table(mem, pending, root, i4);
    lemma_create_next_table(mem, pending, root, i4);
    lemma_create_next_table_keeps_unused(mem, pending, root, root, i4);
    if let Ok(p3) = s3.next {
        assert(s3.pending.len() > 0 ==> s3.pending.contains(s3.pending[0]));
        let s2 = create_next_table(s3.mem, s3.pending, p3, i3);
        lemma_create_next_table(s3.mem, s3.pending, p3, i3);
        lemma_create_next_table_keeps_unused(s3.mem, s3.pending, root, p3, i3);
        if let Ok(p2) = s2.next {
            assert(s2.pending.len() > 0 ==> s2.pending.contains(s2.pending[0]));
            let s1 = create_next_table(s2.mem, s2.pending, p2, i2);
            lemma_create_next_table(s2.mem, s2.pending, p2, i2);
            lemma_create_next_table_keeps_unused(s2.mem, s2.pending, root, p2, i2);
            if let Ok(p1) = s1.next {
                if !entry_is_present(read_entry(s1.mem, p1, i1)) {
                    let leaf = entry_bits(frame@, flags);
                    let mapped = write_entry(s1.mem, p1, i1, leaf);
                    lemma_entry_round_trip(frame@, flags);
                    lemma_entry_address_is_frame(0);
                    assert(table_at(s1.mem, p1).len() == 512);
                    assert(tables_are_whole(mapped));
                    assert forall|other: u64, i: int|
                        mapped.contains_key(other) && 0 <= i < 512 implies (entry_frame(
                        #[trigger] mapped[other][i],
                    ) matches Ok(target) ==> !s1.pending.contains(target)) by {
                        if other == p1 {
                            if i != i1 {
                                if s1.mem.contains_key(p1) {
                                    assert(mapped[other][i] == s1.mem[p1][i]);
                                } else {
                                    assert(mapped[other][i] == 0);
                                }
                            }
                        } else {
                            assert(mapped[other][i] == s1.mem[other][i]);
                        }
                    }
                }
            }
        }
    }
}

/// Mapping a page keeps what was mapped: an address that had a
/// translation has the same one afterwards, where the frames of the
/// allocator were unused.
pub proof fn lemma_map_to_keeps_translation(
    mem: Tables,
    pending: Seq<u64>,
    root: u64,
    page: u64,
    frame: PhysFrame,
    flags: PageTableFlags,
    addr: u64,
)
    requires
        tables_are_whole(mem),
        frames_unused(mem, root, pending),
        translate(mem, root, addr) is Ok,
    ensures
        translate(map_to(mem, pending, root, page, frame, flags).mem, root, addr) == translate(
            mem,
            root,
            addr,
        ),
{
    lemma_address_parts(page);
    lemma_address_parts(addr);
    let i4 = p4_index_of(page) as int;
    let i3 = p3_index_of(page) as int;
    let i2 = p2_index_of(page) as int;
    let i1 = p1_index_of(page) as int;
    let a4 = table_index_of(addr, 4) as int;
    let a3 = table_index_of(addr, 3) as int;
    let a2 = table_index_of(addr, 2) as int;
    let a1 = table_index_of(addr, 1) as int;
    // The tables that the walk for `addr` reads, and what their entries
    // lead to.
    let t4 = root;
    let t3 = entry_frame(read_entry(mem, t4, a4))->Ok_0;
    let t2 = entry_frame(read_entry(mem, t3, a3))->Ok_0;
    let t1 = entry_frame(read_entry(mem, t2, a2))->Ok_0;
    let t0 = entry_frame(read_entry(mem, t1, a1))->Ok_0;
    assert(walk(mem, t0, addr, 0) == Ok::<u64, FrameError>(t0));
    assert(walk(mem, t1, addr, 1) == Ok::<u64, FrameError>(t0));
    assert(walk(mem, t2, addr, 2) == Ok::<u64, FrameError>(t0));
    assert(walk(mem, t3, addr, 3) == Ok::<u64, FrameError>(t0));
    assert(walk(mem, t4, addr, 4) == Ok::<u64, FrameError>(t0));
    assert(table_of_level(mem, root, addr, 4) == Ok::<u64, FrameError>(t4));
    assert(table_of_level(mem, root, addr, 3) == Ok::<u64, FrameError>(t3));
    assert(table_of_level(mem, root, addr, 2) == Ok::<u64, FrameError>(t2));
    assert(table_of_level(mem, root, addr, 1) == Ok::<u64, FrameError>(t1));
    assert forall|other: u64| #[trigger] pending.contains(other) implies other != t4 && other
        != t3 && other != t2 && other != t1 by {
        lemma_unused_frames_hold_no_walk_table(mem, root, pending, addr, other);
    }
    assert(pending.len() > 0 ==> pending.contains(pending[0]));

    let s3 = create_next_table(mem, pending, root, i4);
    lemma_create_next_table(mem, pending, root, i4);
    lemma_create_next_table_keeps_unused(mem, pending, root, root, i4);
    assert(read_entry(s3.mem, t4, a4) == read_entry(mem, t4, a4));
    assert(read_entry(s3.mem, t3, a3) == read_entry(mem, t3, a3));
    assert(read_entry(s3.mem, t2, a2) == read_entry(mem, t2, a2));
    assert(read_entry(s3.mem, t1, a1) == read_entry(mem, t1, a1));
    let after = map_to(mem, pending, root, page, frame, flags).mem;
    if let Ok(p3) = s3.next {
        assert(s3.pending.len() > 0 ==> s3.pending.contains(s3.pending[0]));
        let s2 = create_next_table(s3.mem, s3.pending, p3, i3);
        lemma_create_next_table(s3.mem, s3.pending, p3, i3);
        lemma_create_next_table_keeps_unused(s3.mem, s3.pending, root, p3, i3);
        assert(read_entry(s2.mem, t4, a4) == read_entry(mem, t4, a4));
        assert(read_entry(s2.mem, t3, a3) == read_entry(mem, t3, a3));
        assert(read_entry(s2.mem, t2, a2) == read_entry(mem, t2, a2));
        assert(read_entry(s2.mem, t1, a1) == read_entry(mem, t1, a1));
        if let Ok(p2) = s2.next {
            assert(s2.pending.len() > 0 ==> s2.pending.contains(s2.pending[0]));
            let s1 = create_next_table(s2.mem, s2.pending, p2, i2);
            lemma_create_next_table(s2.mem, s2.pending, p2, i2);
            assert(read_entry(s1.mem, t4, a4) == read_entry(mem, t4, a4));
            assert(read_entry(s1.mem, t3, a3) == read_entry(mem, t3, a3));
            assert(read_entry(s1.mem, t2, a2) == read_entry(mem, t2, a2));
            assert(read_entry(s1.mem, t1, a1) == read_entry(mem, t1, a1));
            if let Ok(p1) = s1.next {
                assert(table_at(s1.mem, p1).len() == 512);
                assert(read_entry(after, t4, a4) == read_entry(mem, t4, a4));
                assert(read_entry(after, t3, a3) == read_entry(mem, t3, a3));
                assert(read_entry(after, t2, a2) == read_entry(mem, t2, a2));
                assert(read_entry(after, t1, a1) == read_entry(mem, t1, a1));
            }
        }
    }
    assert(walk(after, t0, addr, 0) == Ok::<u64, FrameError>(t0));
    assert(walk(after, t1, addr, 1) == Ok::<u64, FrameError>(t0));
    assert(walk(after, t2, addr, 2) == Ok::<u64, FrameError>(t0));
    assert(walk(after, t3, addr, 3) == Ok::<u64, FrameError>(t0));
    assert(walk(after, t4, addr, 4) == Ok::<u64, FrameError>(t0));
}

/// Taking the first of the unused frames leaves the others unused, and
/// the one taken is none of them.
pub proof fn lemma_unused_after_first(mem: Tables, root: u64, frames: Seq<u64>)
    requires
        frames_unused(mem, root, frames),
        frames.len() > 0,
    ensures
        frames_unused(mem, root, frames.skip(1)),
        is_frame_start(frames[0]),
        !frames.skip(1).contains(frames[0]),
        forall|frame: u64| #[trigger] frames.skip(1).contains(frame) ==> frames.contains(frame),
{
    let rest = frames.skip(1);
    assert(frames.contains(frames[0]));
    assert forall|frame: u64| #[trigger] rest.contains(frame) implies frames.contains(frame)
        && frame != frames[0] by {
        let i = choose|i: int| 0 <= i < rest.len() && rest[i] == frame;
        assert(frames[i + 1] == frame);
    }
    assert forall|i: int, j: int|
        0 <= i < rest.len() && 0 <= j < rest.len() && i != j implies rest[i] != rest[j] by {
        assert(rest[i] == frames[i + 1] && rest[j] == frames[j + 1]);
    }
}

} // verus!
