use vstd::prelude::*;

use crate::align::is_supported_align;
use crate::arena::{grant, offset_after, AllocError, Arena, Region};

verus! {

/// The capacity, in bytes, of an allocator made by `BumpAllocator::new`.
pub const BUFFER_SIZE: usize = 1024;

/// The abstract state of a bump allocator: the bytes of its buffer and how many of them
/// are committed.
pub ghost struct BumpView {
    pub bytes: Seq<u8>,
    pub offset: nat,
}

/// A bump allocator that owns its buffer. Allocations hand out regions of the buffer,
/// whose bytes are reached through bounds-checked accessors.
pub struct BumpAllocator {
    buffer: Vec<u8>,
    arena: Arena,
}

impl View for BumpAllocator {
    type V = BumpView;

    closed spec fn view(&self) -> BumpView {
        BumpView { bytes: self.buffer@, offset: self.arena@.offset }
    }
}

/// `region` is a well-formed range that lies within the first `offset` bytes.
pub open spec fn is_committed(region: Region, offset: nat) -> bool {
    region.start <= region.end <= offset
}

impl BumpAllocator {
    /// The committed offset never exceeds the buffer's length.
    pub closed spec fn wf(&self) -> bool {
        &&& self.arena.wf()
        &&& self.buffer@.len() == self.arena@.capacity
    }

    /// An allocator over a zeroed buffer of `BUFFER_SIZE` bytes.
    pub fn new() -> (r: BumpAllocator)
        ensures
            r.wf(),
            r@.bytes == Seq::new(BUFFER_SIZE as nat, |i: int| 0u8),
            r@.offset == 0,
    {
        BumpAllocator::with_capacity(BUFFER_SIZE)
    }

    /// An allocator over a zeroed buffer of `capacity` bytes.
    pub fn with_capacity(capacity: usize) -> (r: BumpAllocator)
        ensures
            r.wf(),
            r@.bytes == Seq::new(capacity as nat, |i: int| 0u8),
            r@.offset == 0,
    {
        let buffer: Vec<u8> = vec![0u8; capacity];
        assert(buffer@ =~= Seq::new(capacity as nat, |i: int| 0u8));
        BumpAllocator { buffer, arena: Arena::new(capacity) }
    }

    pub fn capacity(&self) -> (r: usize)
        requires
            self.wf(),
        ensures
            r == self@.bytes.len(),
    {
        self.arena.capacity()
    }

    pub fn offset(&self) -> (r: usize)
        ensures
            r == self@.offset,
    {
        self.arena.offset()
    }

    /// Grants `size` bytes starting at the committed offset rounded up to `align`, or
    /// fails with `AllocError`, committing nothing, where the range would not fit.
    pub fn allocate(&mut self, size: usize, align: usize) -> (r: Result<Region, AllocError>)
        requires
            old(self).wf(),
            is_supported_align(align),
        ensures
            final(self).wf(),
            final(self)@.bytes == old(self)@.bytes,
            final(self)@.offset == offset_after(
                old(self)@.bytes.len() as int,
                old(self)@.offset as int,
                size as int,
                align as int,
            ),
            match grant(old(self)@.bytes.len() as int, old(self)@.offset as int, size as int, align as int) {
                Some((start, end)) => r == Ok::<Region, AllocError>(
                    (Region { start: start as usize, end: end as usize }),
                ),
                None => r == Err::<Region, AllocError>(AllocError),
            },
            r matches Ok(region) ==> region.start as int % align as int == 0 && is_committed(
                region,
                final(self)@.offset,
            ),
            final(self)@.offset >= old(self)@.offset,
            final(self)@.offset > old(self)@.offset ==> r is Ok,
            r is Err ==> final(self)@ == old(self)@,
    {
        self.arena.allocate(size, align)
    }

    /// Releasing a region is a no-op: nothing is reclaimed while the allocator lives.
    pub fn deallocate(&self, region: Region) {
    }

    /// The byte at index `i` of `region`, or `None` where `i` lies outside the region or
    /// the region is not within the committed part of the buffer.
    pub fn read(&self, region: Region, i: usize) -> (r: Option<u8>)
        requires
            self.wf(),
        ensures
            r == if is_committed(region, self@.offset) && i < region.end - region.start {
                Some(self@.bytes[region.start + i])
            } else {
                None::<u8>
            },
    {
        if region.start <= region.end && region.end <= self.arena.offset() && i < region.end
            - region.start {
            Some(self.buffer[region.start + i])
        } else {
            None
        }
    }

    /// Stores `value` at index `i` of `region` and returns `true`, or returns `false` and
    /// changes nothing where `i` lies outside the region or the region is not within the
    /// committed part of the buffer.
    pub fn write(&mut self, region: Region, i: usize, value: u8) -> (r: bool)
        requires
            old(self).wf(),
        ensures
            final(self).wf(),
            final(self)@.offset == old(self)@.offset,
            r == (is_committed(region, old(self)@.offset) && i < region.end - region.start),
            final(self)@.bytes == if r {
                old(self)@.bytes.update(region.start + i, value)
            } else {
                old(self)@.bytes
            },
    {
        if region.start <= region.end && region.end <= self.arena.offset() && i < region.end
            - region.start {
            self.buffer[region.start + i] = value;
            true
        } else {
            false
        }
    }
}

impl Default for BumpAllocator {
    fn default() -> (r: BumpAllocator)
        ensures
            r.wf(),
            r@.bytes == Seq::new(BUFFER_SIZE as nat, |i: int| 0u8),
            r@.offset == 0,
    {
        BumpAllocator::new()
    }
}

} // verus!
