//! Memory-mapped I/O regions: a run of physical frames that can be placed
//! into the heap's address space through `alloc_to` and then read at
//! checked offsets. An offset beyond the mapped region's bound is reported,
//! never silently truncated.

use vstd::prelude::*;

verus! {

use crate::addr::Address;
use crate::addr::Virtual;
use crate::block_allocator::AllocError;
use crate::block_allocator::BlockAllocator;
use crate::block_allocator::MAX_HEAP_PAGES;
use crate::frame::FrameIterator;
use crate::frame::PAGE_SIZE;
use crate::frame_allocator::FrameAllocator;

/// Why an MMIO access was rejected.
#[derive(Clone, Copy, PartialEq, Eq, Structural, Debug)]
pub enum MMIOError {
    /// The requested offset lies beyond the mapped region.
    OffsetOverrun,
}

/// Marker for whether an MMIO region has been mapped.
pub trait MMIOState {}

/// Marker type: not yet placed into the address space.
pub struct Unmapped;

impl MMIOState for Unmapped {}

/// Marker type: placed into the address space.
pub struct Mapped;

impl MMIOState for Mapped {}

/// A run of physical frames carrying device registers or other
/// memory-mapped I/O.
#[verifier::reject_recursive_types(S)]
pub struct MMIO<S: MMIOState> {
    frames: FrameIterator,
    mapped_addr: Address<Virtual>,
    phantom: core::marker::PhantomData<S>,
}

impl<S: MMIOState> MMIO<S> {
    /// The frames the region covers.
    pub closed spec fn spec_frames(self) -> FrameIterator {
        self.frames
    }

    /// The virtual address the region is mapped at (zero while unmapped).
    pub closed spec fn spec_mapped_addr(self) -> Address<Virtual> {
        self.mapped_addr
    }

    /// The frames the region covers.
    pub fn frames(&self) -> (r: &FrameIterator)
        ensures
            r == &self.spec_frames(),
    {
        &self.frames
    }
}

impl MMIO<Unmapped> {
    /// Place the region into the heap's address space: its pages are mapped
    /// page-for-page to the region's frames, in order, with nothing zeroed.
    pub fn map(self, ba: &mut BlockAllocator, fa: &mut FrameAllocator) -> (r: Result<
        MMIO<Mapped>,
        AllocError,
    >)
        requires
            old(ba).wf(),
            old(fa).wf(),
            old(ba).backing_wf(*old(fa)),
            self.spec_frames().wf(),
            1 <= self.spec_frames().end() - self.spec_frames().start() <= MAX_HEAP_PAGES,
            forall|i: int|
                self.spec_frames().start() <= i < self.spec_frames().end() ==> i < old(fa).frame_count() && old(fa).states()[i]
                    == crate::frame_allocator::FrameType::Allocated,
            forall|p: int|
                (#[trigger] old(ba).maps(p)) is Some ==> !(self.spec_frames().start() <= old(ba).maps(p)->Some_0 < self.spec_frames().end()),
        ensures
            final(ba).wf(),
            final(fa).wf(),
            final(ba).backing_wf(*final(fa)),
            ({
                let k = self.spec_frames().end() - self.spec_frames().start();
                let target = crate::block_allocator::spec_next_pow2(
                    old(ba).spec_metadata_frames().len() + (k * 256 + 32767) / 32768,
                );
                let added = target - old(ba).spec_metadata_frames().len();
                r is Ok <==> ((exists|u: int|
                    0 <= u && crate::block_allocator::empty_page_run(old(ba).pages(), u, k)) || (
                target * 128 <= MAX_HEAP_PAGES && old(fa).spec_free_memory() >= crate::frame::PAGE_SIZE
                    * added))
            }),
            r is Ok ==> ({
                let m = r->Ok_0;
                let pstart = m.spec_mapped_addr()@ as int / 4096;
                let k = self.spec_frames().end() - self.spec_frames().start();
                &&& m.spec_frames() == self.spec_frames()
                &&& m.spec_mapped_addr()@ == pstart * 4096
                &&& forall|j: int|
                    0 <= j < k ==> #[trigger] final(ba).maps(pstart + j) == Some(
                        (self.spec_frames().start() + j) as u64,
                    )
            }),
    {
        let placed = ba.alloc_to(fa, &self.frames);
        match placed {
            Ok(addr) => {
                proof {
                    ba.lemma_wf_bounds();
                    lemma_mmio_addr_canonical(addr);
                }
                Ok(
                    MMIO::<Mapped> {
                        frames: self.frames,
                        mapped_addr: Address::<Virtual>::new(addr),
                        phantom: core::marker::PhantomData,
                    },
                )
            },
            Err(e) => Err(e),
        }
    }
}

impl MMIO<Mapped> {
    /// One past the largest valid offset into the region.
    pub fn max_offset(&self) -> (r: u64)
        requires
            self.spec_frames().wf(),
            self.spec_frames().end() - self.spec_frames().start() <= MAX_HEAP_PAGES,
        ensures
            r == (self.spec_frames().end() - self.spec_frames().start()) * PAGE_SIZE,
    {
        self.frames.len() * PAGE_SIZE
    }

    /// The virtual address `offset` bytes into the region, or a report that
    /// the offset overruns the region's bound.
    pub fn mapped_offset(&self, offset: u64) -> (r: Result<Address<Virtual>, MMIOError>)
        requires
            self.spec_frames().wf(),
            self.spec_frames().end() - self.spec_frames().start() <= MAX_HEAP_PAGES,
            self.spec_mapped_addr()@ + (self.spec_frames().end() - self.spec_frames().start())
                * PAGE_SIZE < 0x800000000000,
        ensures
            r is Ok <==> offset < (self.spec_frames().end() - self.spec_frames().start())
                * PAGE_SIZE,
            r is Ok ==> r->Ok_0@ == self.spec_mapped_addr()@ + offset,
    {
        if offset < self.max_offset() {
            proof {
                lemma_mmio_addr_canonical((self.spec_mapped_addr()@ + offset) as u64);
            }
            Ok(self.mapped_addr.add(offset))
        } else {
            Err(MMIOError::OffsetOverrun)
        }
    }

    /// The virtual address the region is mapped at.
    pub fn mapped_addr(&self) -> (r: Address<Virtual>)
        ensures
            r == self.spec_mapped_addr(),
    {
        self.mapped_addr
    }
}

/// Wrap a run of frames as a not-yet-mapped MMIO region.
pub fn unmapped_mmio(frames: FrameIterator) -> (r: Result<MMIO<Unmapped>, MMIOError>)
    ensures
        r is Ok,
        r->Ok_0.spec_frames() == frames,
        r->Ok_0.spec_mapped_addr()@ == 0,
{
    Ok(
        MMIO::<Unmapped> {
            frames,
            mapped_addr: Address::zero(),
            phantom: core::marker::PhantomData,
        },
    )
}

proof fn lemma_mmio_addr_canonical(x: u64)
    by (bit_vector)
    ensures
        x < 0x800000000000 ==> x >> 47 == 0,
{
}

} // verus!
