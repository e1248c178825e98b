//! Units of memory: a `Frame` is a 4096-byte unit of physical memory and a
//! `Page` a 4096-byte unit of virtual address space, each identified by its
//! index (`address / 4096`). A `FrameIterator` walks a contiguous run of
//! frames and can be restarted.

use vstd::prelude::*;

verus! {

use crate::addr::Address;
use crate::addr::Physical;
use crate::addr::Virtual;

/// Number of bytes in one frame or page.
pub const PAGE_SIZE: u64 = 0x1000;

/// Frame indices stop where 52-bit physical addresses stop.
pub const MAX_FRAME_INDEX: u64 = 0xF_FFFF_FFFF_F;

/// A 4096-byte unit of physical memory, identified by index.
#[derive(Clone, Copy, PartialEq, Eq, Structural, Debug)]
pub struct Frame {
    /// The frame's index.
    pub index: u64,
}

impl Frame {
    /// The frame's index.
    pub open spec fn view(self) -> u64 {
        self.index
    }

    /// The frame at physical address zero.
    pub fn null() -> (r: Self)
        ensures
            r@ == 0,
    {
        Self { index: 0 }
    }

    /// The frame with the given index.
    pub fn from_index(index: u64) -> (r: Self)
        ensures
            r@ == index,
    {
        Self { index }
    }

    /// The frame's index.
    pub fn index(&self) -> (r: u64)
        ensures
            r == self@,
    {
        self.index
    }

    /// The physical address of the frame's first byte.
    pub fn addr(&self) -> (r: Address<Physical>)
        requires
            self@ <= MAX_FRAME_INDEX,
        ensures
            r@ == self@ * PAGE_SIZE,
    {
        let a: u64 = self.index * PAGE_SIZE;
        proof {
            crate::addr::lemma_physical_canonical_iff(a);
        }
        Address::<Physical>::new(a)
    }

    /// The run of `count` frames beginning at physical address `phys_start`
    /// (taken at frame granularity).
    pub fn range_count(phys_start: Address<Physical>, count: u64) -> (r: FrameIterator)
        requires
            phys_start@ / PAGE_SIZE + count <= u64::MAX,
        ensures
            r.start() == phys_start@ / PAGE_SIZE,
            r.end() == phys_start@ / PAGE_SIZE + count,
            r.cur() == r.start(),
    {
        let start: u64 = phys_start.as_size() / PAGE_SIZE;
        FrameIterator::new(start, start + count)
    }
}

/// An ordered, restartable run of contiguous frames, walked front to back.
#[derive(Clone, Copy, PartialEq, Eq, Structural, Debug)]
pub struct FrameIterator {
    /// First frame index of the run.
    pub start: u64,
    /// The cursor: next frame index to yield.
    pub current: u64,
    /// One past the last frame index of the run.
    pub end: u64,
}

impl FrameIterator {
    /// First frame index of the run.
    pub open spec fn start(self) -> u64 {
        self.start
    }

    /// One past the last frame index of the run.
    pub open spec fn end(self) -> u64 {
        self.end
    }

    /// The next frame index the iterator will yield.
    pub open spec fn cur(self) -> u64 {
        self.current
    }

    /// A run is well formed when its cursor lies within it.
    pub open spec fn wf(self) -> bool {
        self.start <= self.current <= self.end
    }

    /// The run of frames `[start, end)`, cursor at the front.
    pub fn new(start: u64, end: u64) -> (r: Self)
        requires
            start <= end,
        ensures
            r.start() == start,
            r.end() == end,
            r.cur() == start,
            r.wf(),
    {
        Self { start, current: start, end }
    }

    /// The first frame of the run.
    pub fn start_frame(&self) -> (r: Frame)
        ensures
            r@ == self.start(),
    {
        Frame { index: self.start }
    }

    /// Yield the frame under the cursor and advance, or report the run
    /// exhausted.
    pub fn next(&mut self) -> (r: Option<Frame>)
        requires
            old(self).wf(),
        ensures
            final(self).start() == old(self).start(),
            final(self).end() == old(self).end(),
            old(self).cur() < old(self).end() ==> r is Some && r->Some_0@ == old(self).cur()
                && final(self).cur() == old(self).cur() + 1,
            old(self).cur() == old(self).end() ==> r is None && final(self).cur() == old(
                self,
            ).cur(),
            final(self).wf(),
    {
        if self.current < self.end {
            let frame = Frame { index: self.current };
            self.current = self.current + 1;
            Some(frame)
        } else {
            None
        }
    }

    /// Move the cursor back to the start of the run.
    pub fn reset(&mut self)
        requires
            old(self).wf(),
        ensures
            final(self).start() == old(self).start(),
            final(self).end() == old(self).end(),
            final(self).cur() == final(self).start(),
            final(self).wf(),
    {
        self.current = self.start;
    }

    /// How many frames are left from the cursor to the end.
    pub fn remaining(&self) -> (r: u64)
        requires
            self.wf(),
        ensures
            r == self.end() - self.cur(),
    {
        self.end - self.current
    }

    /// Total length of the run in frames.
    pub fn len(&self) -> (r: u64)
        requires
            self.wf(),
        ensures
            r == self.end() - self.start(),
    {
        self.end - self.start
    }
}

/// A 4096-byte unit of virtual address space, identified by index.
#[derive(Clone, Copy, PartialEq, Eq, Structural, Debug)]
pub struct Page {
    /// The page's index.
    pub index: u64,
}

impl Page {
    /// The page's index.
    pub open spec fn view(self) -> u64 {
        self.index
    }

    /// The page at virtual address zero.
    pub fn null() -> (r: Self)
        ensures
            r@ == 0,
    {
        Self { index: 0 }
    }

    /// The page with the given index.
    pub fn from_index(index: u64) -> (r: Self)
        ensures
            r@ == index,
    {
        Self { index }
    }

    /// The page containing the given virtual address.
    pub fn from_addr(addr: Address<Virtual>) -> (r: Self)
        ensures
            r@ == addr@ / PAGE_SIZE,
    {
        Self { index: addr.as_size() / PAGE_SIZE }
    }

    /// The page's index.
    pub fn index(&self) -> (r: u64)
        ensures
            r == self@,
    {
        self.index
    }

    /// The page `count` pages further on.
    pub fn offset(self, count: u64) -> (r: Self)
        requires
            self@ + count <= u64::MAX,
        ensures
            r@ == self@ + count,
    {
        Self { index: self.index + count }
    }
}

} // verus!
