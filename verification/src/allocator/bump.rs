//! A bump allocator: every allocation moves one pointer forward, and the
//! memory comes back all at once when the last live allocation is freed.

use vstd::prelude::*;
use crate::allocator::align_up;
use crate::allocator::lemma_round_up;
use crate::allocator::round_up;

verus! {

/// The state of a bump allocator as plain numbers: the heap is
/// `[start, end)`, `next` is where the next allocation is tried, and
/// `live_count` counts the allocations handed out and not yet freed.
pub struct HeapArena {
    pub start: int,
    pub end: int,
    pub next: int,
    pub live_count: int,
}

/// One request to the allocator.
pub enum HeapOp {
    Alloc { size: int, align: int },
    Dealloc,
}

impl HeapArena {
    /// `start <= next <= end`, and no negative count.
    pub open spec fn wf(self) -> bool {
        &&& 0 <= self.start <= self.next <= self.end
        &&& 0 <= self.live_count
    }

    /// Where an allocation of alignment `align` would start.
    pub open spec fn alloc_start(self, align: int) -> int {
        round_up(self.next, align)
    }

    /// Whether `size` bytes at alignment `align` still fit before `end`.
    pub open spec fn fits(self, size: int, align: int) -> bool {
        self.alloc_start(align) + size <= self.end
    }

    /// The state after a request for `size` bytes at alignment `align`:
    /// unchanged when the request does not fit.
    pub open spec fn allocate(self, size: int, align: int) -> HeapArena {
        if self.fits(size, align) {
            HeapArena {
                next: self.alloc_start(align) + size,
                live_count: self.live_count + 1,
                ..self
            }
        } else {
            self
        }
    }

    /// The state after one allocation is freed: the last one to go takes
    /// `next` back to `start`.
    pub open spec fn deallocate(self) -> HeapArena {
        HeapArena {
            next: if self.live_count == 1 {
                self.start
            } else {
                self.next
            },
            live_count: self.live_count - 1,
            ..self
        }
    }

    /// The state after `op`.
    pub open spec fn apply(self, op: HeapOp) -> HeapArena {
        match op {
            HeapOp::Alloc { size, align } => self.allocate(size, align),
            HeapOp::Dealloc => self.deallocate(),
        }
    }

    /// The state after the requests `ops`, first to last.
    pub open spec fn run(self, ops: Seq<HeapOp>) -> HeapArena
        decreases ops.len(),
    {
        if ops.len() == 0 {
            self
        } else {
            self.run(ops.drop_last()).apply(ops.last())
        }
    }

    /// Whether `op` may be asked of this state: an allocation has a size
    /// and a positive alignment, a free has a live allocation to free.
    pub open spec fn admits(self, op: HeapOp) -> bool {
        match op {
            HeapOp::Alloc { size, align } => size >= 0 && align > 0,
            HeapOp::Dealloc => self.live_count > 0,
        }
    }

    /// Whether `op` frees the last live allocation.
    pub open spec fn resets_on(self, op: HeapOp) -> bool {
        op is Dealloc && self.live_count == 1
    }

    /// Every request of `ops` may be asked in its turn, and none of them
    /// frees the last live allocation.
    pub open spec fn runs_without_reset(self, ops: Seq<HeapOp>) -> bool
        decreases ops.len(),
    {
        ops.len() > 0 ==> {
            &&& self.runs_without_reset(ops.drop_last())
            &&& self.run(ops.drop_last()).admits(ops.last())
            &&& !self.run(ops.drop_last()).resets_on(ops.last())
        }
    }
}

/// A bump allocator over the heap `[heap_start, heap_end)`.
pub struct BumpAllocator {
    heap_start: u64,
    heap_end: u64,
    next: u64,
    allocations: usize,
}

impl View for BumpAllocator {
    type V = HeapArena;

    /// The state of the allocator.
    closed spec fn view(&self) -> HeapArena {
        HeapArena {
            start: self.heap_start as int,
            end: self.heap_end as int,
            next: self.next as int,
            live_count: self.allocations as int,
        }
    }
}

impl BumpAllocator {
    /// `next` lies in the heap, or at its end.
    #[verifier::type_invariant]
    spec fn in_bounds(self) -> bool {
        self.heap_start <= self.next <= self.heap_end
    }

    /// An allocator over the empty heap at address 0: every request with
    /// a size fails until `init` gives it a heap.
    pub fn new() -> (r: BumpAllocator)
        ensures
            r@ == (HeapArena { start: 0, end: 0, next: 0, live_count: 0 }),
    {
        BumpAllocator { heap_start: 0, heap_end: 0, next: 0, allocations: 0 }
    }

    /// Gives the allocator the heap `[heap_start, heap_start + heap_size)`,
    /// all of it free. The count of live allocations stays as it was.
    pub fn init(&mut self, heap_start: u64, heap_size: u64)
        requires
            heap_start + heap_size <= u64::MAX,
        ensures
            final(self)@ == (HeapArena {
                start: heap_start as int,
                end: heap_start + heap_size,
                next: heap_start as int,
                live_count: old(self)@.live_count,
            }),
            final(self)@.wf(),
    {
        *self = BumpAllocator {
            heap_start,
            heap_end: heap_start + heap_size,
            next: heap_start,
            allocations: self.allocations,
        };
    }

    /// Allocates `size` bytes at a multiple of `align`. Returns the start
    /// of the block, or `None` with the state unchanged when the block
    /// would end after the heap does.
    pub fn allocate(&mut self, size: u64, align: u64) -> (r: Option<u64>)
        requires
            align > 0,
            old(self)@.live_count < usize::MAX,
        ensures
            old(self)@.fits(size as int, align as int) ==> r == Some(
                old(self)@.alloc_start(align as int) as u64,
            ),
            !old(self)@.fits(size as int, align as int) ==> r is None,
            final(self)@ == old(self)@.allocate(size as int, align as int),
            final(self)@.wf(),
    {
        proof {
            use_type_invariant(&*self);
            lemma_round_up(self.next as int, align as int);
        }
        let alloc_start = match align_up(self.next, align) {
            Some(start) => start,
            None => {
                return None;
            },
        };
        let alloc_end = match alloc_start.checked_add(size) {
            Some(end) => end,
            None => {
                return None;
            },
        };
        if alloc_end > self.heap_end {
            None
        } else {
            self.next = alloc_end;
            self.allocations = self.allocations + 1;
            Some(alloc_start)
        }
    }

    /// The address at which the heap starts.
    pub fn heap_start(&self) -> (r: u64)
        ensures
            r == self@.start,
    {
        self.heap_start
    }

    /// The address at which the heap ends.
    pub fn heap_end(&self) -> (r: u64)
        ensures
            r == self@.end,
    {
        self.heap_end
    }

    /// The address at which the next allocation is tried.
    pub fn next(&self) -> (r: u64)
        ensures
            r == self@.next,
            self@.start <= r <= self@.end,
    {
        proof {
            use_type_invariant(self);
        }
        self.next
    }

    /// The number of allocations that were handed out and not yet freed.
    pub fn allocations(&self) -> (r: usize)
        ensures
            r == self@.live_count,
    {
        self.allocations
    }

    /// Frees the allocation at `ptr`. When it was the last live one, the
    /// whole heap is free again. The caller answers for freeing only
    /// what `allocate` returned, and that once: `ptr` is not looked at.
    pub fn deallocate(&mut self, ptr: u64)
        requires
            old(self)@.live_count > 0,
        ensures
            final(self)@ == old(self)@.deallocate(),
            final(self)@.wf(),
    {
        proof {
            use_type_invariant(&*self);
        }
        self.allocations = self.allocations - 1;
        if self.allocations == 0 {
            self.next = self.heap_start;
        }
    }
}

/// Between requests that never free the last live allocation, `next` does
/// not go down.
pub proof fn lemma_next_is_monotonic(arena: HeapArena, ops: Seq<HeapOp>)
    requires
        arena.wf(),
        arena.runs_without_reset(ops),
    ensures
        arena.run(ops).wf(),
        arena.next <= arena.run(ops).next,
    decreases ops.len(),
{
    if ops.len() > 0 {
        let before = arena.run(ops.drop_last());
        lemma_next_is_monotonic(arena, ops.drop_last());
        match ops.last() {
            HeapOp::Alloc { size, align } => {
                lemma_round_up(before.next, align);
            },
            HeapOp::Dealloc => {},
        }
    }
}

/// Two blocks do not overlap: when the first allocation returns `a1` for
/// `size1` bytes, and a later one returns `a2` with no free of the last
/// live allocation in between, then `a1 + size1 <= a2`.
pub proof fn lemma_allocations_do_not_overlap(
    arena: HeapArena,
    size1: int,
    align1: int,
    between: Seq<HeapOp>,
    size2: int,
    align2: int,
)
    requires
        arena.wf(),
        size1 >= 0,
        align1 > 0,
        size2 >= 0,
        align2 > 0,
        arena.fits(size1, align1),
        arena.allocate(size1, align1).runs_without_reset(between),
        arena.allocate(size1, align1).run(between).fits(size2, align2),
    ensures
        arena.alloc_start(align1) + size1 <= arena.allocate(size1, align1).run(
            between,
        ).alloc_start(align2),
{
    let first = arena.allocate(size1, align1);
    lemma_round_up(arena.next, align1);
    lemma_next_is_monotonic(first, between);
    lemma_round_up(first.run(between).next, align2);
}

/// Bulk reclamation: once the last live allocation is freed, the next
/// request that the heap can hold at its very start gets `start` again.
pub proof fn lemma_bulk_reclamation(arena: HeapArena, size: int, align: int)
    requires
        arena.wf(),
        arena.live_count == 1,
        size >= 0,
        align > 0,
        arena.start % align == 0,
        arena.start + size <= arena.end,
    ensures
        arena.deallocate().live_count == 0,
        arena.deallocate().next == arena.start,
        arena.deallocate().fits(size, align),
        arena.deallocate().alloc_start(align) == arena.start,
{
    lemma_round_up(arena.start, align);
}

/// The capacity boundary: a request that would end after the heap does
/// changes nothing.
pub proof fn lemma_capacity_boundary(arena: HeapArena, size: int, align: int)
    requires
        round_up(arena.next, align) + size > arena.end,
    ensures
        !arena.fits(size, align),
        arena.allocate(size, align) == arena,
{
}

} // verus!
