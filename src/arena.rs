use vstd::prelude::*;

use crate::align::{align_up, is_supported_align, lemma_address_aligned, lemma_round_up_bounds, round_up, MAX_ALIGN};

verus! {

/// The half-open byte range `[start, end)` of one allocation, as offsets into the buffer.
#[derive(Clone, Copy, Debug, PartialEq, Eq, Structural)]
pub struct Region {
    pub start: usize,
    pub end: usize,
}

impl Region {
    /// The number of bytes in the region.
    pub fn len(&self) -> (r: usize)
        requires
            self.start <= self.end,
        ensures
            r == self.end - self.start,
    {
        self.end - self.start
    }
}

/// The one way an allocation fails: the aligned request does not fit in what is left.
#[derive(Clone, Copy, Debug, PartialEq, Eq, Structural)]
pub struct AllocError;

/// What a request of `size` bytes aligned to `align` is granted when `offset` bytes of a
/// buffer of `capacity` bytes are committed: its start is `offset` rounded up to `align`,
/// and it is granted only if it ends within the buffer.
pub open spec fn grant(capacity: int, offset: int, size: int, align: int) -> Option<(int, int)> {
    let start = round_up(offset, align);
    if start + size <= capacity {
        Some((start, start + size))
    } else {
        None
    }
}

/// The committed offset after a request: the end of the granted range, or unchanged.
pub open spec fn offset_after(capacity: int, offset: int, size: int, align: int) -> int {
    match grant(capacity, offset, size, align) {
        Some((_, end)) => end,
        None => offset,
    }
}

/// The abstract state of an arena: its capacity and how many bytes are committed.
pub ghost struct ArenaView {
    pub capacity: nat,
    pub offset: nat,
}

/// Bump-allocation bookkeeping over a buffer of fixed capacity. Allocations advance the
/// offset and are never reclaimed one by one.
pub struct Arena {
    capacity: usize,
    offset: usize,
}

impl View for Arena {
    type V = ArenaView;

    closed spec fn view(&self) -> ArenaView {
        ArenaView { capacity: self.capacity as nat, offset: self.offset as nat }
    }
}

impl Arena {
    /// The committed offset never exceeds the capacity.
    pub open spec fn wf(&self) -> bool {
        self@.offset <= self@.capacity <= usize::MAX
    }

    /// An empty arena over a buffer of `capacity` bytes.
    pub fn new(capacity: usize) -> (r: Arena)
        ensures
            r.wf(),
            r@ == (ArenaView { capacity: capacity as nat, offset: 0 }),
    {
        Arena { capacity, offset: 0 }
    }

    pub fn capacity(&self) -> (r: usize)
        ensures
            r == self@.capacity,
    {
        self.capacity
    }

    pub fn offset(&self) -> (r: usize)
        ensures
            r == self@.offset,
    {
        self.offset
    }

    /// Grants `size` bytes starting at the committed offset rounded up to `align`, and
    /// commits the end of that range; fails, committing nothing, where the range would
    /// end beyond the capacity.
    pub fn allocate(&mut self, size: usize, align: usize) -> (r: Result<Region, AllocError>)
        requires
            old(self).wf(),
            is_supported_align(align),
        ensures
            final(self).wf(),
            final(self)@.capacity == old(self)@.capacity,
            final(self)@.offset == offset_after(
                old(self)@.capacity as int,
                old(self)@.offset as int,
                size as int,
                align as int,
            ),
            match grant(old(self)@.capacity as int, old(self)@.offset as int, size as int, align as int) {
                Some((start, end)) => r == Ok::<Region, AllocError>(
                    (Region { start: start as usize, end: end as usize }),
                ),
                None => r == Err::<Region, AllocError>(AllocError),
            },
            r matches Ok(region) ==> region.start as int % align as int == 0,
            final(self)@.offset >= old(self)@.offset,
            final(self)@.offset > old(self)@.offset ==> r is Ok,
            r is Err ==> final(self)@ == old(self)@,
    {
        proof {
            lemma_round_up_bounds(self.offset as int, align as int);
        }
        match align_up(self.offset, align) {
            None => Err(AllocError),
            Some(start) => {
                if size <= self.capacity && start <= self.capacity - size {
                    let end: usize = start + size;
                    self.offset = end;
                    Ok(Region { start, end })
                } else {
                    Err(AllocError)
                }
            },
        }
    }

    /// Releasing an allocation is a no-op: nothing is reclaimed before the arena goes.
    pub fn deallocate(&self, region: Region) {
    }

    /// Forgets every allocation: the whole capacity is free again. Every region granted
    /// before must be out of use.
    pub fn reset(&mut self)
        requires
            old(self).wf(),
        ensures
            final(self).wf(),
            final(self)@ == (ArenaView { capacity: old(self)@.capacity, offset: 0 }),
    {
        self.offset = 0;
    }

    /// The process-wide form of `allocate`: the address `base + start` of the granted
    /// range in a buffer placed at `base`, or `0` (null) where the request does not fit.
    pub fn alloc_at(&mut self, base: usize, size: usize, align: usize) -> (r: usize)
        requires
            old(self).wf(),
            is_supported_align(align),
            base != 0,
            base % MAX_ALIGN == 0,
            base + old(self)@.capacity <= usize::MAX,
        ensures
            final(self).wf(),
            final(self)@.capacity == old(self)@.capacity,
            final(self)@.offset == offset_after(
                old(self)@.capacity as int,
                old(self)@.offset as int,
                size as int,
                align as int,
            ),
            match grant(old(self)@.capacity as int, old(self)@.offset as int, size as int, align as int) {
                Some((start, _)) => r == base + start,
                None => r == 0,
            },
            r % align == 0,
    {
        match self.allocate(size, align) {
            Ok(region) => {
                proof {
                    lemma_address_aligned(base as int, region.start as int, align);
                }
                base + region.start
            },
            Err(_) => 0,
        }
    }

    /// The process-wide form of `deallocate`: a no-op for any address and size.
    pub fn dealloc_at(&self, ptr: usize, size: usize, align: usize) {
    }
}

} // verus!
