//! The block allocator: the kernel's general-purpose heap. It owns one
//! [`BlockPage`] per virtual page of heap it has ever backed, hands out runs
//! of 16-byte blocks, and backs each page with a physical frame — obtained
//! from the [`FrameAllocator`] and recorded in the [`VirtualAddressor`] —
//! only while the page holds at least one occupied block. The page sequence
//! grows monotonically; its own storage is sized in whole metadata pages
//! whose backing frames come straight from the frame allocator, never from
//! the heap itself.

use vstd::prelude::*;

verus! {

use crate::addr::Address;
use crate::addr::Physical;
use crate::addr::Virtual;
use crate::addressor::VirtualAddressor;
use crate::block::BlockPage;
use crate::block::SectionState;
use crate::frame::Frame;
use crate::frame::FrameIterator;
use crate::frame::Page;
use crate::frame::PAGE_SIZE;
use crate::frame_allocator::FrameAllocator;
use crate::frame_allocator::FrameType;
use crate::spec_align_up;
use crate::frame_allocator::count_type;
use crate::frame_allocator::lemma_count_zero_if_absent;

/// Bytes per allocation block.
pub const BLOCK_SIZE: u64 = 16;

/// Heap blocks tracked by one page of allocator metadata
/// (4096 bytes of metadata at one bit per block).
pub const BLOCKS_PER_MAP_PAGE: u64 = 32768;

/// Block pages described by one page of allocator metadata.
pub const MAP_PAGES_PER_META_PAGE: u64 = 128;

/// Most heap pages the allocator will ever describe (a 128 GiB heap).
pub const MAX_HEAP_PAGES: u64 = 0x2000000;

/// Bytes of the relocated kernel stack.
pub const STACK_SIZE: u64 = 0x100000;

/// What the caller needs to finish relocating execution onto the new
/// stack: copy `stack_size` bytes from the old base to the new one and
/// shift the stack-pointer register by the signed difference of the bases.
#[derive(Clone, Copy, PartialEq, Eq, Structural, Debug)]
pub struct StackRelocation {
    /// Identity-mapped address of the boot stack's first byte.
    pub old_stack_base: u64,
    /// Heap address of the new stack's first byte.
    pub new_stack_base: u64,
    /// Bytes to copy.
    pub stack_size: u64,
}

impl StackRelocation {
    /// Whether the stack pointer must move down (the new stack lies below
    /// the old one).
    pub fn delta_is_downward(&self) -> (r: bool)
        ensures
            r == (self.new_stack_base < self.old_stack_base),
    {
        self.new_stack_base < self.old_stack_base
    }

    /// By how many bytes the stack pointer must move.
    pub fn delta_magnitude(&self) -> (r: u64)
        ensures
            self.new_stack_base < self.old_stack_base ==> r == self.old_stack_base
                - self.new_stack_base,
            self.new_stack_base >= self.old_stack_base ==> r == self.new_stack_base
                - self.old_stack_base,
    {
        if self.new_stack_base < self.old_stack_base {
            self.old_stack_base - self.new_stack_base
        } else {
            self.new_stack_base - self.old_stack_base
        }
    }
}

/// Why an allocation request failed.
#[derive(Clone, Copy, PartialEq, Eq, Structural, Debug)]
pub enum AllocError {
    /// The frame allocator has too few unallocated frames left.
    OutOfFrames,
    /// The request cannot fit the heap's virtual space.
    OutOfSpace,
}

/// Why a deallocation request was rejected.
#[derive(Clone, Copy, PartialEq, Eq, Structural, Debug)]
pub enum DeallocError {
    /// The range lies beyond the tracked heap.
    OutOfRange,
    /// A block in the range is already free: a double free, fatal to the
    /// caller.
    NotAllocated,
}

/// Smallest power of two at least `n` (and at least one).
pub open spec fn spec_next_pow2(n: int) -> int
    decreases n,
{
    if n <= 1 {
        1
    } else {
        2 * spec_next_pow2((n + 1) / 2)
    }
}

/// Smallest power of two at least `n`.
pub fn next_pow2(n: u64) -> (r: u64)
    requires
        n <= 0x2000000000000000,
    ensures
        r == spec_next_pow2(n as int),
        r >= n,
        r >= 1,
        n >= 1 ==> r < 2 * n,
    decreases n,
{
    if n <= 1 {
        1
    } else {
        2 * next_pow2((n + 1) / 2)
    }
}

/// Whether `count` blocks starting at `start` are all free in `bits`.
pub open spec fn free_window(bits: Seq<bool>, start: int, count: int) -> bool {
    &&& start + count <= bits.len()
    &&& forall|i: int| start <= i < start + count ==> !bits[i]
}

/// The alignment actually served: one that is not a multiple of 16 is
/// downgraded to 16, the allocator's natural granularity.
pub open spec fn spec_align_effective(align: u64) -> u64 {
    if align % 16 == 0 {
        align
    } else {
        16
    }
}

/// How many 16-byte blocks cover `size` bytes.
pub open spec fn spec_size_in_blocks(size: u64) -> int {
    (size + 15) / 16
}

/// Number of block pages in `[p0, p1)` that hold no occupied block.
pub open spec fn count_empty_pages(pages: Seq<BlockPage>, p0: int, p1: int) -> int
    decreases p1 - p0,
{
    if p0 >= p1 {
        0
    } else {
        count_empty_pages(pages, p0, p1 - 1) + if pages[p1 - 1].spec_is_empty() {
            1int
        } else {
            0int
        }
    }
}

/// Counting empty pages splits at any midpoint.
pub proof fn lemma_count_empty_split(pages: Seq<BlockPage>, p0: int, p: int, p1: int)
    requires
        p0 <= p <= p1,
    ensures
        count_empty_pages(pages, p0, p1) == count_empty_pages(pages, p0, p) + count_empty_pages(
            pages,
            p,
            p1,
        ),
    decreases p1 - p,
{
    if p < p1 {
        lemma_count_empty_split(pages, p0, p, p1 - 1);
    }
}

/// Empty-page counts are never negative.
pub proof fn lemma_count_empty_nonneg(pages: Seq<BlockPage>, p0: int, p1: int)
    ensures
        count_empty_pages(pages, p0, p1) >= 0,
    decreases p1 - p0,
{
    if p0 < p1 {
        lemma_count_empty_nonneg(pages, p0, p1 - 1);
    }
}

/// No more pages are counted empty than the range holds.
pub proof fn lemma_count_empty_le_range(pages: Seq<BlockPage>, p0: int, p1: int)
    requires
        p0 <= p1,
    ensures
        count_empty_pages(pages, p0, p1) <= p1 - p0,
    decreases p1 - p0,
{
    if p0 < p1 {
        lemma_count_empty_le_range(pages, p0, p1 - 1);
    }
}

/// Page sequences that agree on `[p0, p1)` count the same empty pages
/// there.
pub proof fn lemma_count_empty_congruence(a: Seq<BlockPage>, b: Seq<BlockPage>, p0: int, p1: int)
    requires
        forall|q: int| p0 <= q < p1 ==> #[trigger] a[q] == b[q],
    ensures
        count_empty_pages(a, p0, p1) == count_empty_pages(b, p0, p1),
    decreases p1 - p0,
{
    if p0 < p1 {
        lemma_count_empty_congruence(a, b, p0, p1 - 1);
    }
}

/// Whether `count` consecutive block pages starting at `t` are all empty.
pub open spec fn empty_page_run(pages: Seq<BlockPage>, t: int, count: int) -> bool {
    &&& t + count <= pages.len()
    &&& forall|q: int| t <= q < t + count ==> (#[trigger] pages[q]).spec_is_empty()
}

/// The kernel heap: an occupancy bit per 16-byte block, one [`BlockPage`]
/// per page of heap address space.
pub struct BlockAllocator {
    addressor: VirtualAddressor,
    map: Vec<BlockPage>,
    metadata_frames: Vec<u64>,
}

impl BlockAllocator {
    /// The per-page occupancy bitmaps.
    pub closed spec fn pages(self) -> Seq<BlockPage> {
        self.map@
    }

    /// Occupancy of every block the heap tracks, in block order.
    pub open spec fn bits(self) -> Seq<bool> {
        Seq::new((self.pages().len() * 256) as nat, |b: int| self.pages()[b / 256]@[b % 256])
    }

    /// The frame backing a heap page, if any.
    pub closed spec fn maps(self, page: int) -> Option<u64> {
        self.addressor.maps(page)
    }

    /// Base page of the physical-memory window.
    pub closed spec fn spec_mapped_page(self) -> Page {
        self.addressor.spec_mapped_page()
    }

    /// Frame indices that hold the allocator's own metadata.
    pub closed spec fn spec_metadata_frames(self) -> Seq<u64> {
        self.metadata_frames@
    }

    /// How the heap's mappings relate to the frame allocator's ledger:
    /// every mapped page is backed by a frame the allocator has handed out
    /// — allocated, or reserved for identity bookkeeping — a page that is
    /// not fully occupied is always backed by an allocated frame, a
    /// reserved frame backs only the page of its own index, and no two
    /// pages share a frame. Every state these operations produce keeps it.
    pub open spec fn backing_wf(self, fa: FrameAllocator) -> bool {
        &&& forall|p: int|
            (#[trigger] self.maps(p)) is Some ==> self.maps(p)->Some_0 < fa.frame_count() && (
            fa.states()[self.maps(p)->Some_0 as int] == FrameType::Allocated || fa.states()[self.maps(
                p,
            )->Some_0 as int] == FrameType::Reserved)
        &&& forall|p: int|
            0 <= p < self.pages().len() && (#[trigger] self.maps(p)) is Some && !self.pages()[
                p].spec_is_full() ==> fa.states()[self.maps(p)->Some_0 as int]
                == FrameType::Allocated
        &&& forall|p: int|
            (#[trigger] self.maps(p)) is Some && fa.states()[self.maps(p)->Some_0 as int]
                == FrameType::Reserved ==> self.maps(p) == Some(p as u64)
        &&& forall|p: int, q: int|
            p != q && (#[trigger] self.maps(p)) is Some && (#[trigger] self.maps(q)) is Some
                ==> self.maps(p)->Some_0 != self.maps(q)->Some_0
    }

    /// Structural soundness: the heap stays within its virtual-space cap,
    /// its storage is sized in whole metadata pages, and a page is backed by
    /// a frame exactly while it holds at least one occupied block.
    pub closed spec fn wf(self) -> bool {
        &&& self.map.len() <= MAX_HEAP_PAGES
        &&& self.map.len() == 128 * self.metadata_frames.len()
        &&& forall|p: int|
            0 <= p < self.pages().len() ==> (!(#[trigger] self.pages()[p]).spec_is_empty()
                <==> self.addressor.maps(p) is Some)
        &&& forall|p: int| p >= self.pages().len() ==> self.addressor.maps(p) is None
    }

    /// What well-formedness guarantees about the heap's extent: it stays
    /// within the virtual-space cap and tracks 256 blocks per page.
    pub proof fn lemma_wf_bounds(self)
        requires
            self.wf(),
        ensures
            self.pages().len() <= MAX_HEAP_PAGES,
            self.bits().len() == self.pages().len() * 256,
    {
    }

    /// How many heap pages the allocator tracks.
    pub fn page_count(&self) -> (r: u64)
        ensures
            r == self.pages().len(),
    {
        self.map.len() as u64
    }

    /// The frame backing a heap page, if any.
    pub fn translate_page(&self, page: &Page) -> (r: Option<Frame>)
        ensures
            r is Some <==> self.maps(page@ as int) is Some,
            r is Some ==> Some(r->Some_0@) == self.maps(page@ as int),
    {
        self.addressor.translate_page(page)
    }

    /// The heap's central safety property, exported from well-formedness:
    /// a block page is backed by a physical frame exactly while it holds at
    /// least one occupied block, and nothing beyond the tracked heap is
    /// mapped.
    pub proof fn lemma_wf_backing(self)
        requires
            self.wf(),
        ensures
            forall|p: int|
                0 <= p < self.pages().len() ==> (!(#[trigger] self.pages()[p]).spec_is_empty()
                    <==> self.maps(p) is Some),
            forall|p: int| p >= self.pages().len() ==> self.maps(p) is None,
    {
    }

    /// A fresh allocator: no heap pages tracked, nothing mapped.
    pub fn new() -> (r: Self)
        ensures
            r.wf(),
            r.pages().len() == 0,
            forall|p: int| r.maps(p) is None,
            r.spec_metadata_frames().len() == 0,
    {
        Self {
            addressor: VirtualAddressor::new(Page::null()),
            map: Vec::new(),
            metadata_frames: Vec::new(),
        }
    }

    /// The allocator's natural granularity: block size in bytes.
    pub fn minimum_alignment(&self) -> (r: u64)
        ensures
            r == BLOCK_SIZE,
    {
        BLOCK_SIZE
    }

    /// Translate a physical address through the always-mapped
    /// physical-memory window.
    pub fn physical_memory(&self, addr: Address<Physical>) -> (r: Address<Virtual>)
        requires
            self.spec_mapped_page()@ * PAGE_SIZE + addr@ < 0x800000000000,
        ensures
            r@ == self.spec_mapped_page()@ * PAGE_SIZE + addr@,
    {
        let base: u64 = self.addressor.mapped_page().index() * PAGE_SIZE;
        let sum: u64 = base + addr.as_size();
        proof {
            lemma_virtual_low_canonical(sum);
        }
        Address::<Virtual>::new(sum)
    }

    /// Grow the heap's metadata to the next power of two of metadata pages
    /// that makes room for `required_blocks` more blocks. Newly tracked heap
    /// pages start empty and unmapped; existing pages, their occupancy bits
    /// and their mappings are untouched. Each new metadata page is backed by
    /// a frame locked from the frame allocator; with too few free frames, or
    /// past the heap's virtual-space cap, nothing changes.
    #[verifier::loop_isolation(false)]
    pub fn grow(&mut self, fa: &mut FrameAllocator, required_blocks: u64) -> (r: Result<
        (),
        AllocError,
    >)
        requires
            old(self).wf(),
            old(fa).wf(),
            old(self).backing_wf(*old(fa)),
            1 <= required_blocks <= MAX_HEAP_PAGES * 256,
        ensures
            final(self).wf(),
            final(fa).wf(),
            final(self).backing_wf(*final(fa)),
            final(fa).frame_count() == old(fa).frame_count(),
            final(fa).spec_total_memory() == old(fa).spec_total_memory(),
            final(self).spec_mapped_page() == old(self).spec_mapped_page(),
            ({
                let target = spec_next_pow2(
                    old(self).spec_metadata_frames().len() + (required_blocks + 32767) / 32768,
                );
                let added = target - old(self).spec_metadata_frames().len();
                &&& (r is Ok <==> target * 128 <= MAX_HEAP_PAGES && old(fa).spec_free_memory()
                    >= PAGE_SIZE * added)
                &&& r is Ok ==> {
                    &&& final(self).pages().len() == 128 * target
                    &&& final(self).spec_metadata_frames().len() == target
                    &&& forall|p: int|
                        0 <= p < old(self).pages().len() ==> final(self).pages()[p] == old(self).pages()[p]
                    &&& forall|p: int|
                        old(self).pages().len() <= p < final(self).pages().len() ==> (
                        #[trigger] final(self).pages()[p]).spec_is_empty()
                    &&& forall|p: int| final(self).maps(p) == old(self).maps(p)
                    &&& final(self).spec_mapped_page() == old(self).spec_mapped_page()
                    &&& final(fa).spec_free_memory() == old(fa).spec_free_memory() - PAGE_SIZE
                        * added
                    &&& forall|f: int|
                        0 <= f < old(fa).frame_count() && final(fa).states()[f] != old(fa).states()[f] ==> old(fa).states()[f] == FrameType::Unallocated && final(fa).states()[f] == FrameType::Allocated
                }
                &&& r is Err ==> final(self).pages() == old(self).pages() && final(self).spec_metadata_frames() == old(self).spec_metadata_frames() && (forall|p: int|
                    final(self).maps(p) == old(self).maps(p)) && final(fa).states() == old(fa).states() && final(fa).spec_free_memory() == old(fa).spec_free_memory()
            }),
    {
        let cur_meta: u64 = self.metadata_frames.len() as u64;
        let add_pages: u64 = crate::align_up_div(required_blocks, BLOCKS_PER_MAP_PAGE);
        let target: u64 = next_pow2(cur_meta + add_pages);
        let added: u64 = target - cur_meta;
        if target > MAX_HEAP_PAGES / MAP_PAGES_PER_META_PAGE {
            return Err(AllocError::OutOfSpace);
        }
        if fa.free_memory() < PAGE_SIZE * added {
            return Err(AllocError::OutOfFrames);
        }
        let mut locked: u64 = 0;
        while locked < added
            invariant
                locked <= added,
                old(fa).spec_free_memory() >= PAGE_SIZE * added,
                self.map == old(self).map,
                self.addressor == old(self).addressor,
                self.metadata_frames.len() == cur_meta + locked,
                fa.wf(),
                fa.frame_count() == old(fa).frame_count(),
                fa.spec_total_memory() == old(fa).spec_total_memory(),
                fa.spec_free_memory() == old(fa).spec_free_memory() - PAGE_SIZE * locked,
                forall|f: int|
                    0 <= f < old(fa).frame_count() && fa.states()[f] != old(fa).states()[f]
                        ==> old(fa).states()[f] == FrameType::Unallocated && fa.states()[f]
                        == FrameType::Allocated,
            decreases added - locked,
        {
            let next = fa.lock_next();
            match next {
                Some(frame) => {
                    self.metadata_frames.push(frame.index());
                },
                None => {
                    proof {
                        fa.lemma_wf_counters();
                        lemma_count_zero_if_absent(fa.states(), FrameType::Unallocated);
                    }
                },
            }
            locked = locked + 1;
        }
        let ghost fa_done = *fa;
        let new_len: usize = (target * MAP_PAGES_PER_META_PAGE) as usize;
        while self.map.len() < new_len
            invariant
                self.map.len() <= new_len,
                old(self).map.len() <= self.map.len(),
                self.addressor == old(self).addressor,
                self.metadata_frames.len() == target,
                *fa == fa_done,
                fa.wf(),
                fa.frame_count() == old(fa).frame_count(),
                fa.spec_total_memory() == old(fa).spec_total_memory(),
                fa.spec_free_memory() == old(fa).spec_free_memory() - PAGE_SIZE * added,
                forall|f: int|
                    0 <= f < old(fa).frame_count() && fa.states()[f] != old(fa).states()[f]
                        ==> old(fa).states()[f] == FrameType::Unallocated && fa.states()[f]
                        == FrameType::Allocated,
                forall|p: int| 0 <= p < old(self).pages().len() ==> self.map[p] == old(self).map[p],
                forall|p: int|
                    old(self).pages().len() <= p < self.map.len() ==> (
                    #[trigger] self.map[p]).spec_is_empty(),
            decreases new_len - self.map.len(),
        {
            self.map.push(BlockPage::empty());
        }
        proof {
            assert forall|p: int| (#[trigger] self.maps(p)) is Some implies self.maps(
                p,
            )->Some_0 < fa.frame_count() && (fa.states()[self.maps(p)->Some_0 as int]
                == FrameType::Allocated || fa.states()[self.maps(p)->Some_0 as int]
                == FrameType::Reserved) by {
                assert(self.maps(p) == old(self).maps(p));
                let fr = self.maps(p)->Some_0 as int;
                assert(fa.states()[fr] == old(fa).states()[fr]);
            }
            assert forall|p: int|
                0 <= p < self.pages().len() && (#[trigger] self.maps(p)) is Some && !self.pages()[
                    p].spec_is_full() implies fa.states()[self.maps(p)->Some_0 as int]
                == FrameType::Allocated by {
                assert(self.maps(p) == old(self).maps(p));
                if p < old(self).pages().len() {
                    assert(self.pages()[p] == old(self).pages()[p]);
                } else {
                    assert(self.maps(p) is None);
                }
                let fr = self.maps(p)->Some_0 as int;
                assert(fa.states()[fr] == old(fa).states()[fr]);
            }
            assert forall|p: int|
                (#[trigger] self.maps(p)) is Some && fa.states()[self.maps(p)->Some_0 as int]
                    == FrameType::Reserved implies self.maps(p) == Some(p as u64) by {
                assert(self.maps(p) == old(self).maps(p));
                let fr = self.maps(p)->Some_0 as int;
                assert(fa.states()[fr] == old(fa).states()[fr]);
            }
            assert forall|p: int, q: int|
                p != q && (#[trigger] self.maps(p)) is Some && (#[trigger] self.maps(
                    q,
                )) is Some implies self.maps(p)->Some_0 != self.maps(q)->Some_0 by {
                assert(self.maps(p) == old(self).maps(p));
                assert(self.maps(q) == old(self).maps(q));
            }
        }
        Ok(())
    }

    /// One bit of the heap-wide occupancy sequence, read off its page.
    proof fn lemma_bits_index(s: BlockAllocator, page: int, j: int)
        requires
            0 <= page < s.pages().len(),
            0 <= j < 256,
        ensures
            s.bits()[page * 256 + j] == s.pages()[page]@[j],
    {
        vstd::arithmetic::div_mod::lemma_fundamental_div_mod_converse(page * 256 + j, 256, page, j);
    }

    /// Find the first run of `size_blocks` contiguous free blocks whose
    /// start index is a multiple of `align_blocks`: full pages are skipped
    /// whole, full 64-bit sections are skipped whole, and only a section
    /// with at least one free block is scanned bit by bit.
    #[verifier::loop_isolation(false)]
    fn find_free_run(&self, size_blocks: u64, align_blocks: u64) -> (r: Option<u64>)
        requires
            self.wf(),
            size_blocks >= 1,
            align_blocks >= 1,
        ensures
            r is Some ==> ({
                let s = r->Some_0 as int;
                &&& s % (align_blocks as int) == 0
                &&& free_window(self.bits(), s, size_blocks as int)
                &&& forall|t: int|
                    0 <= t < s && t % (align_blocks as int) == 0 ==> !free_window(
                        self.bits(),
                        t,
                        size_blocks as int,
                    )
            }),
            r is None ==> forall|t: int|
                0 <= t && t % (align_blocks as int) == 0 ==> !free_window(
                    self.bits(),
                    t,
                    size_blocks as int,
                ),
    {
        let n_pages: usize = self.map.len();
        let ghost ab = align_blocks as int;
        let ghost sz = size_blocks as int;
        let mut block_index: u64 = 0;
        let mut current_run: u64 = 0;
        let mut page: usize = 0;
        while page < n_pages
            invariant
                page <= n_pages,
                block_index == page * 256,
                current_run <= block_index,
                current_run < size_blocks,
                current_run > 0 ==> (block_index - current_run) % ab == 0,
                forall|i: int| block_index - current_run <= i < block_index ==> !self.bits()[i],
                forall|t: int|
                    0 <= t < block_index - current_run && t % ab == 0 ==> !free_window(
                        self.bits(),
                        t,
                        sz,
                    ),
            decreases n_pages - page,
        {
            let bp = self.map[page];
            if bp.is_full() {
                proof {
                    crate::block::lemma_full_all_bits(bp);
                    assert forall|t: int|
                        0 <= t < block_index + 256 - current_run + current_run && t % ab
                            == 0 implies !free_window(self.bits(), t, sz) by {
                        if t >= block_index - current_run {
                            if t < block_index {
                                Self::lemma_bits_index(*self, page as int, 0);
                                assert(self.bits()[block_index as int]);
                            } else {
                                Self::lemma_bits_index(*self, page as int, t - page * 256);
                                assert(self.bits()[t]);
                            }
                        }
                    }
                }
                current_run = 0;
                block_index = block_index + 256;
            } else {
                let mut w: usize = 0;
                while w < 4
                    invariant
                        w <= 4,
                        page < n_pages,
                        bp == self.pages()[page as int],
                        block_index == page * 256 + w * 64,
                        current_run <= block_index,
                        current_run < size_blocks,
                        current_run > 0 ==> (block_index - current_run) % ab == 0,
                        forall|i: int|
                            block_index - current_run <= i < block_index ==> !self.bits()[i],
                        forall|t: int|
                            0 <= t < block_index - current_run && t % ab == 0 ==> !free_window(
                                self.bits(),
                                t,
                                sz,
                            ),
                    decreases 4 - w,
                {
                    let word: u64 = bp.sections[w];
                    if word == u64::MAX {
                        proof {
                            crate::block::lemma_section_ones(bp, w as int);
                            assert forall|t: int|
                                0 <= t < block_index + 64 && t % ab == 0 implies !free_window(
                                self.bits(),
                                t,
                                sz,
                            ) by {
                                if t >= block_index - current_run {
                                    if t < block_index {
                                        assert(bp@[(w as int) * 64 + 0]);
                                        Self::lemma_bits_index(
                                            *self,
                                            page as int,
                                            (w as int) * 64,
                                        );
                                        assert(self.bits()[block_index as int]);
                                    } else {
                                        assert(bp@[(w as int) * 64 + (t - block_index)]);
                                        assert(t - page * 256 == (w as int) * 64 + (t
                                            - block_index));
                                        Self::lemma_bits_index(
                                            *self,
                                            page as int,
                                            t - page * 256,
                                        );
                                        assert(self.bits()[t]);
                                    }
                                }
                            }
                        }
                        current_run = 0;
                        block_index = block_index + 64;
                    } else {
                        let mut k: u64 = 0;
                        while k < 64
                            invariant
                                k <= 64,
                                page < n_pages,
                                w < 4,
                                bp == self.pages()[page as int],
                                block_index == page * 256 + w * 64 + k,
                                current_run <= block_index,
                                current_run < size_blocks,
                                current_run > 0 ==> (block_index - current_run) % ab == 0,
                                forall|i: int|
                                    block_index - current_run <= i < block_index
                                        ==> !self.bits()[i],
                                forall|t: int|
                                    0 <= t < block_index - current_run && t % ab == 0
                                        ==> !free_window(self.bits(), t, sz),
                            decreases 64 - k,
                        {
                            proof {
                                Self::lemma_bits_index(
                                    *self,
                                    page as int,
                                    (w as int) * 64 + k as int,
                                );
                            }
                            let bit = (word >> k) & 1 == 1;
                            if bit {
                                proof {
                                    assert(self.bits()[block_index as int]);
                                    assert forall|t: int|
                                        0 <= t < block_index + 1 && t % ab == 0
                                            implies !free_window(self.bits(), t, sz) by {
                                        if t >= block_index - current_run {
                                            assert(self.bits()[block_index as int]);
                                        }
                                    }
                                }
                                current_run = 0;
                            } else if current_run > 0 || block_index % align_blocks == 0 {
                                proof {
                                    assert(!self.bits()[block_index as int]);
                                }
                                current_run = current_run + 1;
                            } else {
                                proof {
                                    assert forall|t: int|
                                        0 <= t < block_index + 1 && t % ab == 0
                                            implies !free_window(self.bits(), t, sz) by {}
                                }
                            }
                            block_index = block_index + 1;
                            if current_run == size_blocks {
                                return Some(block_index - current_run);
                            }
                            k = k + 1;
                        }
                    }
                    w = w + 1;
                }
            }
            page = page + 1;
        }
        proof {
            assert forall|t: int| 0 <= t && t % ab == 0 implies !free_window(
                self.bits(),
                t,
                sz,
            ) by {
                if t >= block_index - current_run {
                    assert(t + sz > self.bits().len());
                }
            }
        }
        None
    }

    /// Mark every block of `[start, start + count)` occupied, and back each
    /// page of the run that was empty with a frame locked from the frame
    /// allocator. With too few free frames, nothing changes.
    #[verifier::loop_isolation(false)]
    #[verifier::rlimit(100)]
    #[verifier::spinoff_prover]
    fn mark_range(&mut self, fa: &mut FrameAllocator, start: u64, count: u64) -> (r: Result<
        (),
        AllocError,
    >)
        requires
            old(self).wf(),
            old(fa).wf(),
            old(self).backing_wf(*old(fa)),
            count >= 1,
            start + count <= old(self).bits().len(),
            forall|i: int| start <= i < start + count ==> !old(self).bits()[i],
            forall|p: int|
                start as int / 256 <= p < (start + count + 255) as int / 256 ==> !(#[trigger] old(self).pages()[p]).spec_is_full(),
        ensures
            final(self).wf(),
            final(fa).wf(),
            final(self).backing_wf(*final(fa)),
            final(fa).frame_count() == old(fa).frame_count(),
            final(fa).spec_total_memory() == old(fa).spec_total_memory(),
            final(self).pages().len() == old(self).pages().len(),
            final(self).spec_metadata_frames() == old(self).spec_metadata_frames(),
            final(self).spec_mapped_page() == old(self).spec_mapped_page(),
            ({
                let p0 = start as int / 256;
                let p1 = (start + count + 255) as int / 256;
                let needed = count_empty_pages(old(self).pages(), p0, p1);
                &&& (r is Ok <==> old(fa).spec_free_memory() >= PAGE_SIZE * needed)
                &&& r is Ok ==> {
                    &&& forall|i: int|
                        0 <= i < final(self).bits().len() ==> final(self).bits()[i] == (if start
                            <= i < start + count {
                            true
                        } else {
                            old(self).bits()[i]
                        })
                    &&& forall|p: int|
                        0 <= p < final(self).pages().len() && !(p0 <= p < p1) ==> final(self).pages()[p] == old(self).pages()[p]
                    &&& forall|p: int| !(p0 <= p < p1) ==> final(self).maps(p) == old(self).maps(p)
                    &&& forall|p: int| p0 <= p < p1 ==> final(self).maps(p) is Some
                    &&& forall|p: int|
                        p0 <= p < p1 && !(#[trigger] old(self).pages()[p]).spec_is_empty()
                            ==> final(self).maps(p) == old(self).maps(p)
                    &&& forall|p: int|
                        p0 <= p < p1 && (#[trigger] old(self).pages()[p]).spec_is_empty()
                            ==> final(self).maps(p)->Some_0 < old(fa).frame_count() && old(fa).states()[final(self).maps(p)->Some_0 as int] == FrameType::Unallocated
                    &&& forall|p: int|
                        p0 <= p < p1 ==> #[trigger] final(fa).states()[final(self).maps(
                            p,
                        )->Some_0 as int] == FrameType::Allocated
                    &&& final(fa).spec_free_memory() == old(fa).spec_free_memory() - PAGE_SIZE
                        * needed
                    &&& forall|f: int|
                        0 <= f < old(fa).frame_count() && final(fa).states()[f] != old(fa).states()[f] ==> old(fa).states()[f] == FrameType::Unallocated && final(fa).states()[f] == FrameType::Allocated
                }
                &&& r is Err ==> final(self).pages() == old(self).pages() && (forall|p: int|
                    final(self).maps(p) == old(self).maps(p)) && final(fa).states() == old(fa).states() && final(fa).spec_free_memory() == old(fa).spec_free_memory()
            }),
    {
        let p0: u64 = start / 256;
        let p1: u64 = (start + count + 255) / 256;
        let mut need: u64 = 0;
        let mut p: u64 = p0;
        while p < p1
            invariant
                p0 <= p <= p1,
                need == count_empty_pages(self.pages(), p0 as int, p as int),
                need <= p - p0,
            decreases p1 - p,
        {
            proof {
                lemma_count_empty_split(self.pages(), p0 as int, p as int, p as int + 1);
            }
            if self.map[p as usize].is_empty() {
                need = need + 1;
            }
            p = p + 1;
        }
        if fa.free_memory() < PAGE_SIZE * need {
            return Err(AllocError::OutOfFrames);
        }
        let mut p: u64 = p0;
        while p < p1
            invariant
                p0 <= p <= p1,
                self.wf(),
                fa.wf(),
                fa.frame_count() == old(fa).frame_count(),
                fa.spec_total_memory() == old(fa).spec_total_memory(),
                self.pages().len() == old(self).pages().len(),
                self.spec_metadata_frames() == old(self).spec_metadata_frames(),
                self.spec_mapped_page() == old(self).spec_mapped_page(),
                forall|q: int| p <= q < self.pages().len() ==> self.pages()[q] == old(self).pages()[q],
                forall|q: int| 0 <= q < p0 ==> self.pages()[q] == old(self).pages()[q],
                forall|i: int|
                    0 <= i < self.bits().len() ==> self.bits()[i] == (if start <= i < start + count
                        && i < p * 256 {
                        true
                    } else {
                        old(self).bits()[i]
                    }),
                forall|q: int| !(p0 <= q < p) ==> self.maps(q) == old(self).maps(q),
                forall|q: int| p0 <= q < p ==> self.maps(q) is Some,
                forall|q: int|
                    p0 <= q < p && !(#[trigger] old(self).pages()[q]).spec_is_empty()
                        ==> self.maps(q) == old(self).maps(q),
                self.backing_wf(*fa),
                forall|q: int|
                    p0 <= q < p && (#[trigger] old(self).pages()[q]).spec_is_empty() ==> self.maps(
                        q,
                    )->Some_0 < old(fa).frame_count() && old(fa).states()[self.maps(
                        q,
                    )->Some_0 as int] == FrameType::Unallocated,
                forall|q: int|
                    p0 <= q < p ==> #[trigger] fa.states()[self.maps(q)->Some_0 as int]
                        == FrameType::Allocated,
                fa.spec_free_memory() == old(fa).spec_free_memory() - PAGE_SIZE
                    * count_empty_pages(old(self).pages(), p0 as int, p as int),
                old(fa).spec_free_memory() >= PAGE_SIZE * count_empty_pages(
                    old(self).pages(),
                    p0 as int,
                    p1 as int,
                ),
                forall|f: int|
                    0 <= f < old(fa).frame_count() && fa.states()[f] != old(fa).states()[f]
                        ==> old(fa).states()[f] == FrameType::Unallocated && fa.states()[f]
                        == FrameType::Allocated,
            decreases p1 - p,
        {
            let ghost pre = *self;
            let ghost fa_pre = *fa;
            proof {
                lemma_count_empty_split(old(self).pages(), p0 as int, p as int, p as int + 1);
                lemma_count_empty_split(old(self).pages(), p0 as int, p as int + 1, p1 as int);
                lemma_count_empty_split(old(self).pages(), p0 as int, p as int, p1 as int);
                lemma_count_empty_nonneg(old(self).pages(), p as int + 1, p1 as int);
            }
            let lo: u64 = if start > p * 256 {
                start
            } else {
                p * 256
            };
            let hi: u64 = if start + count < (p + 1) * 256 {
                start + count
            } else {
                (p + 1) * 256
            };
            let mut bp = self.map[p as usize];
            let had = bp.sections;
            bp.set_range(lo - p * 256, hi - p * 256, true);
            self.map.set(p as usize, bp);
            let page_state: [SectionState; 4] = [
                SectionState { had_bits: had[0] != 0, has_bits: bp.sections[0] != 0 },
                SectionState { had_bits: had[1] != 0, has_bits: bp.sections[1] != 0 },
                SectionState { had_bits: had[2] != 0, has_bits: bp.sections[2] != 0 },
                SectionState { had_bits: had[3] != 0, has_bits: bp.sections[3] != 0 },
            ];
            let needs_backing = SectionState::should_alloc(page_state.as_slice());
            proof {
                assert(lo < hi);
                crate::block::lemma_bit_set_nonempty(bp, lo as int - p as int * 256);
                assert(needs_backing == pre.pages()[p as int].spec_is_empty());
            }
            if needs_backing {
                let next = fa.lock_next();
                match next {
                    Some(frame) => {
                        let page = Page::from_index(p);
                        self.addressor.map(&page, &frame);
                        proof {
                            let g = frame@ as int;
                            // A frame that is unallocated now was already
                            // unallocated when the call began: states only
                            // move away from unallocated here.
                            assert(old(fa).states()[g] == FrameType::Unallocated);
                            // No page was backed by the fresh frame: backed
                            // frames are allocated or reserved.
                            assert forall|q: int|
                                q != p as int implies self.maps(q) == pre.maps(q) by {}
                            assert forall|q: int|
                                (#[trigger] pre.maps(q)) is Some implies pre.maps(q)->Some_0
                                    as int != g by {
                                assert(fa_pre.states()[pre.maps(q)->Some_0 as int]
                                    == FrameType::Allocated || fa_pre.states()[pre.maps(
                                    q,
                                )->Some_0 as int] == FrameType::Reserved);
                            }
                        }
                    },
                    None => {
                        proof {
                            fa.lemma_wf_counters();
                            lemma_count_zero_if_absent(fa.states(), FrameType::Unallocated);
                        }
                    },
                }
            } else {
                proof {
                    assert(!old(self).pages()[p as int].spec_is_empty());
                    assert(old(self).maps(p as int) is Some);
                    assert(self.maps(p as int) is Some);
                    assert(!pre.pages()[p as int].spec_is_full());
                    assert(fa.states()[self.maps(p as int)->Some_0 as int]
                        == FrameType::Allocated);
                }
            }
            proof {
                assert(self.maps(p as int) is Some);
                assert(fa.states()[self.maps(p as int)->Some_0 as int] == FrameType::Allocated);
                assert forall|q: int|
                    p0 <= q < p + 1 && (#[trigger] old(self).pages()[q]).spec_is_empty()
                        implies self.maps(q)->Some_0 < old(fa).frame_count() && old(fa).states()[self.maps(q)->Some_0 as int] == FrameType::Unallocated by {
                    if q != p as int {
                        assert(self.maps(q) == pre.maps(q));
                    }
                }
                assert forall|q: int|
                    p0 <= q < p + 1 implies #[trigger] fa.states()[self.maps(q)->Some_0 as int]
                        == FrameType::Allocated by {
                    if q != p as int {
                        assert(self.maps(q) == pre.maps(q));
                        assert(fa_pre.states()[pre.maps(q)->Some_0 as int]
                            == FrameType::Allocated);
                    }
                }
                assert forall|q: int| (#[trigger] self.maps(q)) is Some implies self.maps(
                    q,
                )->Some_0 < fa.frame_count() && (fa.states()[self.maps(q)->Some_0 as int]
                    == FrameType::Allocated || fa.states()[self.maps(q)->Some_0 as int]
                    == FrameType::Reserved) by {
                    if q != p as int {
                        assert(self.maps(q) == pre.maps(q));
                        assert(fa_pre.states()[pre.maps(q)->Some_0 as int]
                            == FrameType::Allocated || fa_pre.states()[pre.maps(
                            q,
                        )->Some_0 as int] == FrameType::Reserved);
                    }
                }
                assert forall|q: int|
                    0 <= q < self.pages().len() && (#[trigger] self.maps(q)) is Some
                        && !self.pages()[q].spec_is_full() implies fa.states()[self.maps(
                        q,
                    )->Some_0 as int] == FrameType::Allocated by {
                    if q != p as int {
                        assert(self.maps(q) == pre.maps(q));
                        assert(self.pages()[q] == pre.pages()[q]);
                        assert(fa_pre.states()[pre.maps(q)->Some_0 as int]
                            == FrameType::Allocated);
                    }
                }
                assert forall|q: int|
                    (#[trigger] self.maps(q)) is Some && fa.states()[self.maps(q)->Some_0 as int]
                        == FrameType::Reserved implies self.maps(q) == Some(q as u64) by {
                    if q != p as int {
                        assert(self.maps(q) == pre.maps(q));
                        assert(fa_pre.states()[pre.maps(q)->Some_0 as int] == fa.states()[
                            pre.maps(q)->Some_0 as int]);
                    }
                }
                assert forall|q: int, q2: int|
                    q != q2 && (#[trigger] self.maps(q)) is Some && (#[trigger] self.maps(
                        q2,
                    )) is Some implies self.maps(q)->Some_0 != self.maps(q2)->Some_0 by {
                    if q != p as int && q2 != p as int {
                        assert(self.maps(q) == pre.maps(q));
                        assert(self.maps(q2) == pre.maps(q2));
                    } else if q == p as int {
                        assert(self.maps(q2) == pre.maps(q2));
                    } else {
                        assert(self.maps(q) == pre.maps(q));
                    }
                }
                assert forall|q: int| p0 <= q < p implies self.maps(q) is Some by {
                    assert(pre.maps(q) is Some);
                }
                assert forall|i: int|
                    0 <= i < self.bits().len() implies self.bits()[i] == (if start <= i < start
                    + count && i < (p + 1) * 256 {
                    true
                } else {
                    old(self).bits()[i]
                }) by {
                    vstd::arithmetic::div_mod::lemma_fundamental_div_mod(i, 256);
                    if i / 256 == p as int {
                        assert(self.pages()[i / 256]@[i % 256] == bp@[i % 256]);
                    } else {
                        assert(self.pages()[i / 256] == pre.pages()[i / 256]);
                        assert(self.bits()[i] == pre.bits()[i]);
                    }
                }
            }
            p = p + 1;
        }
        Ok(())
    }

    /// Serve `size` bytes at alignment `align` (downgraded to 16 unless a
    /// multiple of 16) and return the address of the run, a multiple of the
    /// block size. The first fitting run of free blocks whose start honours
    /// the alignment is taken; when none exists the heap grows and the
    /// search repeats. Every page of the run that was empty is backed by a
    /// freshly locked frame. The request fails only when the frame
    /// allocator cannot supply the frames, or the heap's virtual-space cap
    /// is exceeded; the heap's occupied blocks and its mappings are then
    /// unchanged.
    #[verifier::loop_isolation(false)]
    #[verifier::rlimit(100)]
    #[verifier::spinoff_prover]
    pub fn allocate(&mut self, fa: &mut FrameAllocator, size: u64, align: u64) -> (r: Result<
        u64,
        AllocError,
    >)
        requires
            old(self).wf(),
            old(fa).wf(),
            old(self).backing_wf(*old(fa)),
            align >= 1,
            size <= 0x2000000000,
        ensures
            final(self).wf(),
            final(fa).wf(),
            final(self).backing_wf(*final(fa)),
            final(fa).frame_count() == old(fa).frame_count(),
            final(fa).spec_total_memory() == old(fa).spec_total_memory(),
            final(self).spec_mapped_page() == old(self).spec_mapped_page(),
            old(self).pages().len() <= final(self).pages().len(),
            forall|f: int|
                0 <= f < old(fa).frame_count() && final(fa).states()[f] != old(fa).states()[f]
                    ==> old(fa).states()[f] == FrameType::Unallocated && final(fa).states()[f]
                    == FrameType::Allocated,
            size == 0 ==> r == Result::<u64, AllocError>::Ok(0u64) && final(self).bits() == old(self).bits() && (forall|p: int| final(self).maps(p) == old(self).maps(p)) && final(fa).states() == old(fa).states(),
            r is Ok && size > 0 ==> ({
                let ptr = r->Ok_0;
                let s = ptr as int / 16;
                let n = spec_size_in_blocks(size);
                let ab = spec_align_effective(align) as int / 16;
                &&& ptr == 16 * s
                &&& ptr as int % (spec_align_effective(align) as int) == 0
                &&& s % ab == 0
                &&& s + n <= final(self).bits().len()
                &&& forall|i: int|
                    s <= i < s + n && i < old(self).bits().len() ==> !old(self).bits()[i]
                &&& forall|i: int| s <= i < s + n ==> final(self).bits()[i]
                &&& forall|i: int|
                    0 <= i < old(self).bits().len() && !(s <= i < s + n) ==> final(self).bits()[i]
                        == old(self).bits()[i]
                &&& forall|i: int|
                    old(self).bits().len() <= i < final(self).bits().len() && !(s <= i < s + n)
                        ==> !final(self).bits()[i]
                &&& forall|p: int|
                    s / 256 <= p < (s + n + 255) / 256 ==> final(self).maps(p) is Some
                &&& forall|p: int|
                    s / 256 <= p < (s + n + 255) / 256 ==> #[trigger] final(fa).states()[final(self).maps(p)->Some_0 as int] == FrameType::Allocated
                &&& forall|p: int|
                    !(s / 256 <= p < (s + n + 255) / 256) ==> final(self).maps(p) == old(self).maps(p)
                &&& forall|p: int|
                    0 <= p < old(self).pages().len() && !(s / 256 <= p < (s + n + 255) / 256)
                        ==> final(self).pages()[p] == old(self).pages()[p]
                &&& forall|p: int|
                    old(self).pages().len() <= p < final(self).pages().len() && !(s / 256 <= p < (
                    s + n + 255) / 256) ==> (#[trigger] final(self).pages()[p]).spec_is_empty()
                &&& (exists|t: int|
                    0 <= t && #[trigger] (t % ab) == 0 && free_window(old(self).bits(), t, n))
                    ==> free_window(old(self).bits(), s, n) && (forall|t: int|
                    0 <= t < s && #[trigger] (t % ab) == 0 ==> !free_window(
                        old(self).bits(),
                        t,
                        n,
                    ))
                &&& forall|t: int|
                    0 <= t < s && #[trigger] (t % ab) == 0 && t + n <= final(self).bits().len()
                        ==> (exists|i: int|
                        t <= i < t + n && 0 <= i < old(self).bits().len() && old(self).bits()[i])
            }),
            r is Err ==> (forall|i: int|
                0 <= i < old(self).bits().len() ==> final(self).bits()[i] == old(self).bits()[i])
                && (forall|i: int|
                old(self).bits().len() <= i < final(self).bits().len() ==> !final(self).bits()[i])
                && (forall|p: int| final(self).maps(p) == old(self).maps(p)),
            size > 0 ==> ({
                let n = spec_size_in_blocks(size);
                let ab = spec_align_effective(align) as int / 16;
                ((exists|t: int|
                    0 <= t && #[trigger] (t % ab) == 0 && free_window(old(self).bits(), t, n))
                    && old(fa).spec_free_memory() >= PAGE_SIZE * (n / 256 + 2)) ==> r is Ok
            }),
            size > 0 ==> ({
                let n = spec_size_in_blocks(size);
                let ab = spec_align_effective(align) as int / 16;
                let required = spec_align_up(old(self).pages().len() as int * 256, ab) - old(self).pages().len() as int * 256 + n;
                let target = spec_next_pow2(
                    old(self).spec_metadata_frames().len() + (required + 32767) / 32768,
                );
                let added = target - old(self).spec_metadata_frames().len();
                (!(exists|t: int|
                    0 <= t && #[trigger] (t % ab) == 0 && free_window(old(self).bits(), t, n))
                    && required <= MAX_HEAP_PAGES * 256 && target * 128 <= MAX_HEAP_PAGES && old(fa).spec_free_memory() >= PAGE_SIZE * (added + n / 256 + 2)) ==> r is Ok
            }),
    {
        if size == 0 {
            return Ok(0u64);
        }
        let size_blocks: u64 = (size + 15) / 16;
        let align_eff: u64 = if align % 16 == 0 {
            align
        } else {
            16
        };
        let align_blocks: u64 = align_eff / 16;
        proof {
            vstd::arithmetic::div_mod::lemma_fundamental_div_mod(align as int, 16);
        }
        let first = self.find_free_run(size_blocks, align_blocks);
        match first {
            Some(start) => {
                proof {
                    lemma_count_empty_le_range(
                        self.pages(),
                        start as int / 256,
                        (start + size_blocks + 255) as int / 256,
                    );
                    assert forall|p: int|
                        start as int / 256 <= p < (start + size_blocks + 255) as int / 256
                            implies !(#[trigger] self.pages()[p]).spec_is_full() by {
                        let w = if start as int > p * 256 {
                            start as int
                        } else {
                            p * 256
                        };
                        vstd::arithmetic::div_mod::lemma_fundamental_div_mod(w, 256);
                        assert(start <= w < start + size_blocks && w / 256 == p);
                        assert(!self.bits()[w]);
                        crate::block::lemma_bit_clear_nonfull(self.pages()[p], w - p * 256);
                    }
                }
                let marked = self.mark_range(fa, start, size_blocks);
                match marked {
                    Ok(()) => {
                        proof {
                            lemma_scaled_alignment(start, align_blocks);
                            let ptr = start * 16;
                            let s = ptr as int / 16;
                            let n = spec_size_in_blocks(size);
                            let ab = spec_align_effective(align) as int / 16;
                            assert(s == start as int);
                            assert(n == size_blocks as int);
                            assert(ab == align_blocks as int);
                            assert(ptr as int % (spec_align_effective(align) as int) == 0);
                            assert(s % ab == 0);
                            assert(s + n <= self.bits().len());
                            assert(forall|i: int|
                                s <= i < s + n && i < old(self).bits().len() ==> !old(self).bits()[i]);
                            assert(forall|i: int| s <= i < s + n ==> self.bits()[i]);
                            assert(forall|i: int|
                                0 <= i < old(self).bits().len() && !(s <= i < s + n)
                                    ==> self.bits()[i] == old(self).bits()[i]);
                            assert(forall|p: int|
                                s / 256 <= p < (s + n + 255) / 256 ==> self.maps(p) is Some);
                            assert(forall|p: int|
                                !(s / 256 <= p < (s + n + 255) / 256) ==> self.maps(p) == old(self).maps(p));
                            assert(free_window(old(self).bits(), s, n));
                            assert(forall|t: int|
                                0 <= t < s && #[trigger] (t % ab) == 0 ==> !free_window(
                                    old(self).bits(),
                                    t,
                                    n,
                                ));
                            assert(self.bits().len() == old(self).bits().len());
                            assert forall|t: int|
                                0 <= t < s && #[trigger] (t % ab) == 0 && t + n
                                    <= self.bits().len() implies (exists|i: int|
                                t <= i < t + n && 0 <= i < old(self).bits().len() && old(self).bits()[i]) by {
                                assert(!free_window(old(self).bits(), t, n));
                            }
                        }
                        Ok(start * 16)
                    },
                    Err(e) => {
                        proof {
                            assert(forall|i: int|
                                0 <= i < old(self).bits().len() ==> self.bits()[i] == old(self).bits()[i]);
                            assert(forall|p: int| self.maps(p) == old(self).maps(p));
                        }
                        Err(e)
                    },
                }
            },
            None => {
                let cur_blocks: u64 = (self.map.len() as u64) * 256;
                let new_start: u64 = crate::align_up(cur_blocks, align_blocks);
                let required: u64 = (new_start - cur_blocks) + size_blocks;
                if required > MAX_HEAP_PAGES * 256 {
                    return Err(AllocError::OutOfSpace);
                }
                let ghost pre = *self;
                let grown = self.grow(fa, required);
                match grown {
                    Err(e) => Err(e),
                    Ok(()) => {
                        proof {
                            lemma_capacity_after_grow(
                                pre,
                                *self,
                                required as int,
                                cur_blocks as int,
                            );
                            assert forall|i: int|
                                pre.bits().len() <= i < self.bits().len()
                                    implies !self.bits()[i] by {
                                vstd::arithmetic::div_mod::lemma_fundamental_div_mod(i, 256);
                                assert(i / 256 >= pre.pages().len());
                                crate::block::lemma_empty_no_bits(self.pages()[i / 256]);
                            }
                            assert forall|i: int|
                                0 <= i < pre.bits().len() implies self.bits()[i] == pre.bits()[i] by {
                                vstd::arithmetic::div_mod::lemma_fundamental_div_mod(i, 256);
                                assert(self.pages()[i / 256] == pre.pages()[i / 256]);
                            }
                            assert(free_window(
                                self.bits(),
                                new_start as int,
                                size_blocks as int,
                            )) by {
                                assert forall|i: int|
                                    new_start <= i < new_start + size_blocks
                                        implies !self.bits()[i] by {
                                    vstd::arithmetic::div_mod::lemma_fundamental_div_mod(i, 256);
                                    assert(i / 256 >= pre.pages().len());
                                    crate::block::lemma_empty_no_bits(self.pages()[i / 256]);
                                }
                            }
                            assert(new_start as int % (align_blocks as int) == 0) by {
                                vstd::arithmetic::div_mod::lemma_mod_multiples_basic(
                                    (cur_blocks as int + align_blocks as int - 1) / (
                                    align_blocks as int),
                                    align_blocks as int,
                                );
                            }
                        }
                        let ghost mid = *self;
                        let second = self.find_free_run(size_blocks, align_blocks);
                        match second {
                            Some(start) => {
                                proof {
                                    lemma_count_empty_le_range(
                                        self.pages(),
                                        start as int / 256,
                                        (start + size_blocks + 255) as int / 256,
                                    );
                                    assert forall|p: int|
                                        start as int / 256 <= p < (start + size_blocks + 255) as int
                                            / 256 implies !(#[trigger] self.pages()[
                                        p]).spec_is_full() by {
                                        let w = if start as int > p * 256 {
                                            start as int
                                        } else {
                                            p * 256
                                        };
                                        vstd::arithmetic::div_mod::lemma_fundamental_div_mod(
                                            w,
                                            256,
                                        );
                                        assert(start <= w < start + size_blocks && w / 256 == p);
                                        assert(!self.bits()[w]);
                                        crate::block::lemma_bit_clear_nonfull(
                                            self.pages()[p],
                                            w - p * 256,
                                        );
                                    }
                                }
                                let marked = self.mark_range(fa, start, size_blocks);
                                match marked {
                                    Ok(()) => {
                                        proof {
                                            lemma_scaled_alignment(start, align_blocks);
                                            let ptr = start * 16;
                                            let s = start as int;
                                            let n = size_blocks as int;
                                            assert(forall|i: int|
                                                s <= i < s + n && i < old(self).bits().len()
                                                    ==> !old(self).bits()[i]);
                                            assert(forall|i: int| s <= i < s + n ==> self.bits()[i]);
                                            assert(forall|i: int|
                                                0 <= i < old(self).bits().len() && !(s <= i < s + n)
                                                    ==> self.bits()[i] == old(self).bits()[i]);
                                            assert(forall|i: int|
                                                old(self).bits().len() <= i < self.bits().len()
                                                    && !(s <= i < s + n) ==> !self.bits()[i]);
                                            assert forall|p: int|
                                                !(s / 256 <= p < (s + n + 255) / 256)
                                                    implies self.maps(p) == old(self).maps(p) by {
                                                assert(self.maps(p) == mid.maps(p));
                                            }
                                            assert(!(exists|t: int|
                                                0 <= t && #[trigger] (t % (align_blocks as int))
                                                    == 0 && free_window(
                                                    old(self).bits(),
                                                    t,
                                                    n,
                                                ))) by {
                                                assert forall|t: int|
                                                    0 <= t && #[trigger] (t % (align_blocks as int))
                                                        == 0 implies !free_window(
                                                    old(self).bits(),
                                                    t,
                                                    n,
                                                ) by {
                                                    assert(!free_window(pre.bits(), t, n));
                                                }
                                            }
                                            assert(self.bits().len() == mid.bits().len());
                                            assert forall|t: int|
                                                0 <= t < s && #[trigger] (t % (
                                                align_blocks as int)) == 0 && t + n
                                                    <= self.bits().len() implies (exists|i: int|
                                                t <= i < t + n && 0 <= i < old(self).bits().len()
                                                    && old(self).bits()[i]) by {
                                                assert(!free_window(mid.bits(), t, n));
                                                assert(exists|i: int|
                                                    t <= i < t + n && mid.bits()[i]);
                                                let w = choose|i: int|
                                                    t <= i < t + n && mid.bits()[i];
                                                assert(0 <= w < old(self).bits().len() && old(self).bits()[w]);
                                            }
                                        }
                                        Ok(start * 16)
                                    },
                                    Err(e) => {
                                        proof {
                                            assert(forall|i: int|
                                                0 <= i < old(self).bits().len() ==> self.bits()[i]
                                                    == old(self).bits()[i]);
                                            assert forall|i: int|
                                                old(self).bits().len() <= i < self.bits().len()
                                                    implies !self.bits()[i] by {
                                                assert(self.bits()[i] == mid.bits()[i]);
                                            }
                                            assert(forall|p: int|
                                                self.maps(p) == old(self).maps(p));
                                        }
                                        Err(e)
                                    },
                                }
                            },
                            None => {
                                proof {
                                    assert(false);
                                }
                                Err(AllocError::OutOfFrames)
                            },
                        }
                    },
                }
            },
        }
    }

    /// Release the run of blocks at `ptr` covering `size` bytes: the exact
    /// inverse of `allocate`. Every block of the run must currently be
    /// occupied; a run that reaches beyond the tracked heap, or holds an
    /// already-free block (a double free), is rejected with nothing changed.
    /// Each page of the run left without an occupied block is unmapped and
    /// its backing frame is freed to the frame allocator, whose free
    /// counter rises by exactly one page per such transition. The run's
    /// mapped pages must be backed the way the heap itself backs them —
    /// by distinct frames the frame allocator holds as allocated — which
    /// every state these operations produce satisfies.
    #[verifier::loop_isolation(false)]
    #[verifier::rlimit(100)]
    #[verifier::spinoff_prover]
    pub fn dealloc(&mut self, fa: &mut FrameAllocator, ptr: u64, size: u64) -> (r: Result<
        (),
        DeallocError,
    >)
        requires
            old(self).wf(),
            old(fa).wf(),
            old(self).backing_wf(*old(fa)),
            size <= 0x2000000000,
            forall|p: int|
                ptr as int / 4096 <= p < (ptr as int / 16 + spec_size_in_blocks(size) + 255) / 256
                    && (#[trigger] old(self).maps(p)) is Some ==> old(self).maps(p)->Some_0 < old(
                    fa,
                ).frame_count() && old(fa).states()[old(self).maps(p)->Some_0 as int]
                    == FrameType::Allocated,
        ensures
            final(self).wf(),
            final(fa).wf(),
            final(self).backing_wf(*final(fa)),
            final(fa).frame_count() == old(fa).frame_count(),
            final(fa).spec_total_memory() == old(fa).spec_total_memory(),
            final(self).pages().len() == old(self).pages().len(),
            final(self).spec_mapped_page() == old(self).spec_mapped_page(),
            size == 0 ==> r is Ok && final(self).bits() == old(self).bits() && (forall|p: int|
                final(self).maps(p) == old(self).maps(p)) && final(fa).states() == old(fa).states() && final(fa).spec_free_memory() == old(fa).spec_free_memory(),
            size > 0 ==> ({
                let s = ptr as int / 16;
                let n = spec_size_in_blocks(size);
                let p0 = s / 256;
                let p1 = (s + n + 255) / 256;
                &&& (r is Ok <==> s + n <= old(self).bits().len() && (forall|i: int|
                    s <= i < s + n ==> old(self).bits()[i]))
                &&& (r == Result::<(), DeallocError>::Err(DeallocError::OutOfRange) <==> s + n
                    > old(self).bits().len())
                &&& r is Err ==> final(self).bits() == old(self).bits() && (forall|p: int|
                    final(self).maps(p) == old(self).maps(p)) && final(fa).states() == old(fa).states() && final(fa).spec_free_memory() == old(fa).spec_free_memory()
                &&& r is Ok ==> {
                    &&& forall|i: int|
                        0 <= i < final(self).bits().len() ==> final(self).bits()[i] == (if s <= i
                            < s + n {
                            false
                        } else {
                            old(self).bits()[i]
                        })
                    &&& forall|p: int| !(p0 <= p < p1) ==> final(self).maps(p) == old(self).maps(p)
                    &&& forall|p: int|
                        p0 <= p < p1 && !(#[trigger] final(self).pages()[p]).spec_is_empty()
                            ==> final(self).maps(p) == old(self).maps(p)
                    &&& forall|p: int|
                        p0 <= p < p1 && (#[trigger] final(self).pages()[p]).spec_is_empty()
                            ==> final(self).maps(p) is None
                    &&& final(fa).spec_free_memory() == old(fa).spec_free_memory() + PAGE_SIZE
                        * count_empty_pages(final(self).pages(), p0, p1)
                    &&& forall|f: int|
                        0 <= f < old(fa).frame_count() && final(fa).states()[f] != old(fa).states()[f] ==> old(fa).states()[f] == FrameType::Allocated && final(fa).states()[f] == FrameType::Unallocated
                }
            }),
    {
        if size == 0 {
            return Ok(());
        }
        let start: u64 = ptr / BLOCK_SIZE;
        let count: u64 = (size + 15) / BLOCK_SIZE;
        let total_blocks: u64 = (self.map.len() as u64) * 256;
        if start + count > total_blocks {
            return Err(DeallocError::OutOfRange);
        }
        let p0: u64 = start / 256;
        let p1: u64 = (start + count + 255) / 256;
        proof {
            assert(p0 == ptr as int / 4096) by {
                vstd::arithmetic::div_mod::lemma_div_denominator(ptr as int, 16, 256);
            }
            assert(p1 - 1 <= (ptr + size) as int / 4096) by {
                vstd::arithmetic::div_mod::lemma_div_denominator((ptr + size) as int, 16, 256);
                vstd::arithmetic::div_mod::lemma_fundamental_div_mod(ptr as int, 16);
                vstd::arithmetic::div_mod::lemma_fundamental_div_mod(size as int, 16);
                assert((start + count) * 16 <= ptr + size + 31);
            }
        }
        let mut j: u64 = start;
        while j < start + count
            invariant
                start <= j <= start + count,
                forall|i: int| start <= i < j ==> self.bits()[i],
            decreases start + count - j,
        {
            let page_index: usize = (j / 256) as usize;
            if !self.map[page_index].get_block(j % 256) {
                proof {
                    vstd::arithmetic::div_mod::lemma_fundamental_div_mod(j as int, 256);
                    assert(!self.bits()[j as int]);
                }
                return Err(DeallocError::NotAllocated);
            }
            proof {
                vstd::arithmetic::div_mod::lemma_fundamental_div_mod(j as int, 256);
                assert(self.bits()[j as int]);
            }
            j = j + 1;
        }
        let mut p: u64 = p0;
        while p < p1
            invariant
                p0 <= p <= p1,
                self.wf(),
                fa.wf(),
                fa.frame_count() == old(fa).frame_count(),
                fa.spec_total_memory() == old(fa).spec_total_memory(),
                self.pages().len() == old(self).pages().len(),
                self.spec_metadata_frames() == old(self).spec_metadata_frames(),
                self.spec_mapped_page() == old(self).spec_mapped_page(),
                forall|q: int| p <= q < self.pages().len() ==> self.pages()[q] == old(self).pages()[q],
                forall|q: int| 0 <= q < p0 ==> self.pages()[q] == old(self).pages()[q],
                forall|i: int|
                    0 <= i < self.bits().len() ==> self.bits()[i] == (if start <= i < start + count
                        && i < p * 256 {
                        false
                    } else {
                        old(self).bits()[i]
                    }),
                forall|q: int| !(p0 <= q < p) ==> self.maps(q) == old(self).maps(q),
                forall|q: int|
                    p0 <= q < p && !(#[trigger] self.pages()[q]).spec_is_empty() ==> self.maps(q)
                        == old(self).maps(q),
                forall|q: int|
                    p0 <= q < p && (#[trigger] self.pages()[q]).spec_is_empty() ==> self.maps(
                        q,
                    ) is None,
                self.backing_wf(*fa),
                fa.spec_free_memory() == old(fa).spec_free_memory() + PAGE_SIZE
                    * count_empty_pages(self.pages(), p0 as int, p as int),
                forall|f: int|
                    0 <= f < old(fa).frame_count() && fa.states()[f] != old(fa).states()[f]
                        ==> old(fa).states()[f] == FrameType::Allocated && fa.states()[f]
                        == FrameType::Unallocated,
                forall|q: int|
                    p <= q < p1 && (#[trigger] old(self).maps(q)) is Some ==> fa.states()[old(self).maps(q)->Some_0 as int] == FrameType::Allocated,
            decreases p1 - p,
        {
            let ghost pre = *self;
            let ghost fa_pre = *fa;
            let lo: u64 = if start > p * 256 {
                start
            } else {
                p * 256
            };
            let hi: u64 = if start + count < (p + 1) * 256 {
                start + count
            } else {
                (p + 1) * 256
            };
            let mut bp = self.map[p as usize];
            let had = bp.sections;
            proof {
                assert(lo < hi);
                vstd::arithmetic::div_mod::lemma_fundamental_div_mod(lo as int, 256);
                assert(self.bits()[lo as int] == bp@[lo as int - p as int * 256]);
                crate::block::lemma_bit_set_nonempty(bp, lo as int - p as int * 256);
            }
            bp.set_range(lo - p * 256, hi - p * 256, false);
            self.map.set(p as usize, bp);
            let page_state: [SectionState; 4] = [
                SectionState { had_bits: had[0] != 0, has_bits: bp.sections[0] != 0 },
                SectionState { had_bits: had[1] != 0, has_bits: bp.sections[1] != 0 },
                SectionState { had_bits: had[2] != 0, has_bits: bp.sections[2] != 0 },
                SectionState { had_bits: had[3] != 0, has_bits: bp.sections[3] != 0 },
            ];
            let releases_backing = SectionState::should_dealloc(page_state.as_slice());
            proof {
                lemma_count_empty_split(self.pages(), p0 as int, p as int, p as int + 1);
                lemma_count_empty_congruence(self.pages(), pre.pages(), p0 as int, p as int);
                assert(releases_backing == bp.spec_is_empty());
            }
            if releases_backing {
                let page = Page::from_index(p);
                let translated = self.addressor.translate_page(&page);
                match translated {
                    Some(frame) => {
                        self.addressor.unmap(&page);
                        let freed = fa.free_frame(&frame);
                        proof {
                            assert(freed is Ok);
                            let g = frame@ as int;
                            assert forall|q: int|
                                q != p as int implies self.maps(q) == pre.maps(q) by {}
                            assert forall|q: int|
                                q != p as int && (#[trigger] pre.maps(q)) is Some
                                    implies pre.maps(q)->Some_0 as int != g by {}
                            assert forall|q: int| (#[trigger] self.maps(q)) is Some
                                implies self.maps(q)->Some_0 < fa.frame_count() && (fa.states()[
                                self.maps(q)->Some_0 as int] == FrameType::Allocated
                                || fa.states()[self.maps(q)->Some_0 as int]
                                == FrameType::Reserved) by {
                                assert(self.maps(q) == pre.maps(q));
                            }
                            assert forall|q: int|
                                0 <= q < self.pages().len() && (#[trigger] self.maps(
                                    q,
                                )) is Some && !self.pages()[q].spec_is_full() implies fa.states()[
                                self.maps(q)->Some_0 as int] == FrameType::Allocated by {
                                assert(self.maps(q) == pre.maps(q));
                                assert(self.pages()[q] == pre.pages()[q]);
                            }
                            assert forall|q: int|
                                (#[trigger] self.maps(q)) is Some && fa.states()[self.maps(
                                    q,
                                )->Some_0 as int] == FrameType::Reserved implies self.maps(q)
                                == Some(q as u64) by {
                                assert(self.maps(q) == pre.maps(q));
                                assert(fa.states()[pre.maps(q)->Some_0 as int] == fa_pre.states()[
                                    pre.maps(q)->Some_0 as int]);
                            }
                            assert forall|q: int, q2: int|
                                q != q2 && (#[trigger] self.maps(q)) is Some && (
                                #[trigger] self.maps(q2)) is Some implies self.maps(q)->Some_0
                                != self.maps(q2)->Some_0 by {
                                assert(self.maps(q) == pre.maps(q));
                                assert(self.maps(q2) == pre.maps(q2));
                            }
                        }
                    },
                    None => {
                        proof {
                            assert(!pre.pages()[p as int].spec_is_empty());
                            assert(false);
                        }
                    },
                }
            } else {
                proof {
                    assert(self.maps(p as int) == old(self).maps(p as int));
                    assert forall|q: int| (#[trigger] self.maps(q)) is Some implies self.maps(
                        q,
                    )->Some_0 < fa.frame_count() && (fa.states()[self.maps(q)->Some_0 as int]
                        == FrameType::Allocated || fa.states()[self.maps(q)->Some_0 as int]
                        == FrameType::Reserved) by {
                        assert(self.maps(q) == pre.maps(q));
                    }
                    assert forall|q: int|
                        0 <= q < self.pages().len() && (#[trigger] self.maps(q)) is Some
                            && !self.pages()[q].spec_is_full() implies fa.states()[self.maps(
                            q,
                        )->Some_0 as int] == FrameType::Allocated by {
                        assert(self.maps(q) == pre.maps(q));
                        if q != p as int {
                            assert(self.pages()[q] == pre.pages()[q]);
                        } else {
                            assert(pre.maps(p as int) == old(self).maps(p as int));
                        }
                    }
                    assert forall|q: int|
                        (#[trigger] self.maps(q)) is Some && fa.states()[self.maps(
                            q,
                        )->Some_0 as int] == FrameType::Reserved implies self.maps(q) == Some(
                        q as u64,
                    ) by {
                        assert(self.maps(q) == pre.maps(q));
                    }
                    assert forall|q: int, q2: int|
                        q != q2 && (#[trigger] self.maps(q)) is Some && (#[trigger] self.maps(
                            q2,
                        )) is Some implies self.maps(q)->Some_0 != self.maps(q2)->Some_0 by {
                        assert(self.maps(q) == pre.maps(q));
                        assert(self.maps(q2) == pre.maps(q2));
                    }
                }
            }
            proof {
                assert forall|i: int|
                    0 <= i < self.bits().len() implies self.bits()[i] == (if start <= i < start
                    + count && i < (p + 1) * 256 {
                    false
                } else {
                    old(self).bits()[i]
                }) by {
                    vstd::arithmetic::div_mod::lemma_fundamental_div_mod(i, 256);
                    if i / 256 == p as int {
                        assert(self.pages()[i / 256]@[i % 256] == bp@[i % 256]);
                    } else {
                        assert(self.pages()[i / 256] == pre.pages()[i / 256]);
                        assert(self.bits()[i] == pre.bits()[i]);
                    }
                }
            }
            p = p + 1;
        }
        proof {
            assert forall|i: int| start <= i < start + count implies old(self).bits()[i] by {}
        }
        Ok(())
    }

    /// Find the first run of `count` wholly empty block pages.
    #[verifier::loop_isolation(false)]
    fn find_empty_page_run(&self, count: u64) -> (r: Option<u64>)
        requires
            self.wf(),
            count >= 1,
        ensures
            r is Some ==> ({
                let t = r->Some_0 as int;
                &&& empty_page_run(self.pages(), t, count as int)
                &&& forall|u: int| 0 <= u < t ==> !empty_page_run(self.pages(), u, count as int)
            }),
            r is None ==> forall|u: int|
                0 <= u ==> !empty_page_run(self.pages(), u, count as int),
    {
        let n_pages: usize = self.map.len();
        let mut run: u64 = 0;
        let mut p: usize = 0;
        while p < n_pages
            invariant
                p <= n_pages,
                run <= p,
                run < count,
                forall|q: int| p - run <= q < p ==> (#[trigger] self.pages()[q]).spec_is_empty(),
                forall|u: int| 0 <= u < p - run ==> !empty_page_run(self.pages(), u, count as int),
            decreases n_pages - p,
        {
            if self.map[p].is_empty() {
                run = run + 1;
                if run == count {
                    return Some((p + 1) as u64 - count);
                }
            } else {
                proof {
                    assert forall|u: int| 0 <= u < p + 1 implies !empty_page_run(
                        self.pages(),
                        u,
                        count as int,
                    ) by {
                        if u >= p - run {
                            assert(!self.pages()[p as int].spec_is_empty());
                        }
                    }
                }
                run = 0;
            }
            p = p + 1;
        }
        proof {
            assert forall|u: int| 0 <= u implies !empty_page_run(
                self.pages(),
                u,
                count as int,
            ) by {
                if u >= p - run {
                    assert(u + count > n_pages);
                }
            }
        }
        None
    }

    /// Place a caller-owned run of physical frames into the heap's address
    /// space: the first run of wholly empty block pages of matching length
    /// is marked full, and page `i` of the run is mapped to frame `i` of
    /// `frames`, in order, with no new frames taken for the pages and no
    /// zeroing. The returned address is the first page's, a multiple of
    /// 4096. The heap grows if no run of empty pages exists; only that
    /// growth can fail, leaving the heap unchanged.
    #[verifier::loop_isolation(false)]
    pub fn alloc_to(&mut self, fa: &mut FrameAllocator, frames: &FrameIterator) -> (r: Result<
        u64,
        AllocError,
    >)
        requires
            old(self).wf(),
            old(fa).wf(),
            old(self).backing_wf(*old(fa)),
            frames.wf(),
            1 <= frames.end() - frames.start() <= MAX_HEAP_PAGES,
            forall|i: int|
                frames.start() <= i < frames.end() ==> i < old(fa).frame_count() && old(fa).states()[i] == FrameType::Allocated,
            forall|p: int|
                (#[trigger] old(self).maps(p)) is Some ==> !(frames.start() <= old(self).maps(
                    p,
                )->Some_0 < frames.end()),
        ensures
            final(self).wf(),
            final(fa).wf(),
            final(self).backing_wf(*final(fa)),
            final(fa).frame_count() == old(fa).frame_count(),
            final(fa).spec_total_memory() == old(fa).spec_total_memory(),
            final(self).spec_mapped_page() == old(self).spec_mapped_page(),
            old(self).pages().len() <= final(self).pages().len(),
            forall|f: int|
                0 <= f < old(fa).frame_count() && final(fa).states()[f] != old(fa).states()[f]
                    ==> old(fa).states()[f] == FrameType::Unallocated && final(fa).states()[f]
                    == FrameType::Allocated,
            r is Ok ==> ({
                let pstart = r->Ok_0 as int / 4096;
                let k = frames.end() - frames.start();
                &&& r->Ok_0 == pstart * 4096
                &&& pstart + k <= final(self).pages().len()
                &&& forall|q: int|
                    pstart <= q < pstart + k && q < old(self).pages().len() ==> (#[trigger] old(self).pages()[q]).spec_is_empty()
                &&& forall|q: int|
                    pstart <= q < pstart + k ==> (#[trigger] final(self).pages()[q]).spec_is_full()
                &&& forall|j: int|
                    0 <= j < k ==> #[trigger] final(self).maps(pstart + j) == Some(
                        (frames.start() + j) as u64,
                    )
                &&& forall|q: int|
                    !(pstart <= q < pstart + k) ==> final(self).maps(q) == old(self).maps(q)
                &&& forall|q: int|
                    0 <= q < old(self).pages().len() && !(pstart <= q < pstart + k) ==> final(self).pages()[q] == old(self).pages()[q]
                &&& (exists|u: int| 0 <= u && empty_page_run(old(self).pages(), u, k)) ==> (
                empty_page_run(old(self).pages(), pstart, k) && (forall|u: int|
                    0 <= u < pstart ==> !empty_page_run(old(self).pages(), u, k)))
            }),
            ({
                let k = frames.end() - frames.start();
                let target = spec_next_pow2(
                    old(self).spec_metadata_frames().len() + (k * 256 + 32767) / 32768,
                );
                let added = target - old(self).spec_metadata_frames().len();
                r is Ok <==> ((exists|u: int| 0 <= u && empty_page_run(old(self).pages(), u, k))
                    || (target * 128 <= MAX_HEAP_PAGES && old(fa).spec_free_memory() >= PAGE_SIZE
                    * added))
            }),
            r is Err ==> (forall|q: int|
                0 <= q < old(self).pages().len() ==> final(self).pages()[q] == old(self).pages()[q])
                && (forall|q: int|
                old(self).pages().len() <= q < final(self).pages().len() ==> (#[trigger] final(self).pages()[q]).spec_is_empty()) && (forall|p: int|
                final(self).maps(p) == old(self).maps(p)) && final(fa).states() == old(fa).states(),
    {
        let k: u64 = frames.len();
        let found = self.find_empty_page_run(k);
        let pstart: u64;
        match found {
            Some(t) => {
                pstart = t;
            },
            None => {
                let ghost pre = *self;
                let grown = self.grow(fa, k * 256);
                match grown {
                    Err(e) => {
                        return Err(e);
                    },
                    Ok(()) => {},
                }
                proof {
                    lemma_capacity_after_grow(
                        pre,
                        *self,
                        (k * 256) as int,
                        pre.pages().len() as int * 256,
                    );
                }
                let t2 = self.find_empty_page_run(k);
                match t2 {
                    Some(t) => {
                        pstart = t;
                    },
                    None => {
                        proof {
                            assert(empty_page_run(
                                self.pages(),
                                pre.pages().len() as int,
                                k as int,
                            ));
                            assert(false);
                        }
                        return Err(AllocError::OutOfFrames);
                    },
                }
            },
        }
        let ghost mid = *self;
        let base: u64 = frames.start_frame().index();
        let mut j: u64 = 0;
        while j < k
            invariant
                0 <= j <= k,
                pstart + k <= self.pages().len(),
                base == frames.start(),
                base + k <= u64::MAX,
                self.wf(),
                self.backing_wf(*fa),
                self.pages().len() == mid.pages().len(),
                self.spec_metadata_frames() == mid.spec_metadata_frames(),
                self.spec_mapped_page() == mid.spec_mapped_page(),
                *fa == *final(fa),
                fa.frame_count() == old(fa).frame_count(),
                forall|i: int|
                    frames.start() <= i < frames.end() ==> #[trigger] fa.states()[i]
                        == FrameType::Allocated,
                forall|p: int|
                    !(pstart <= p < pstart + j) && (#[trigger] self.maps(p)) is Some ==> !(
                    frames.start() <= self.maps(p)->Some_0 < frames.end()),
                empty_page_run(mid.pages(), pstart as int, k as int),
                forall|q: int|
                    0 <= q < self.pages().len() && !(pstart <= q < pstart + j) ==> self.pages()[q]
                        == mid.pages()[q],
                forall|q: int|
                    pstart <= q < pstart + j ==> (#[trigger] self.pages()[q]).spec_is_full(),
                forall|i: int|
                    0 <= i < j ==> #[trigger] self.maps(pstart + i) == Some((base + i) as u64),
                forall|q: int| !(pstart <= q < pstart + j) ==> self.maps(q) == mid.maps(q),
            decreases k - j,
        {
            let ghost before = *self;
            let p: u64 = pstart + j;
            let mut bp = self.map[p as usize];
            bp.set_full();
            self.map.set(p as usize, bp);
            let page = Page::from_index(p);
            let frame = Frame::from_index(base + j);
            self.addressor.map(&page, &frame);
            proof {
                assert forall|i: int| 0 <= i < j + 1 implies #[trigger] self.maps(pstart + i)
                    == Some((base + i) as u64) by {
                    if i == j as int {
                        assert(self.maps(p as int) == Some(frame@));
                        assert(p as int == pstart + i);
                    } else {
                        assert(pstart + i != p as int);
                        assert(self.maps(pstart + i) == before.maps(pstart + i));
                        assert(before.maps(pstart + i) == Some((base + i) as u64));
                    }
                }
                assert forall|q: int| (#[trigger] self.maps(q)) is Some implies self.maps(
                    q,
                )->Some_0 < fa.frame_count() && (fa.states()[self.maps(q)->Some_0 as int]
                    == FrameType::Allocated || fa.states()[self.maps(q)->Some_0 as int]
                    == FrameType::Reserved) by {
                    if q != p as int {
                        assert(self.maps(q) == before.maps(q));
                    }
                }
                assert forall|q: int|
                    0 <= q < self.pages().len() && (#[trigger] self.maps(q)) is Some
                        && !self.pages()[q].spec_is_full() implies fa.states()[self.maps(
                        q,
                    )->Some_0 as int] == FrameType::Allocated by {
                    if q != p as int {
                        assert(self.maps(q) == before.maps(q));
                        assert(self.pages()[q] == before.pages()[q]);
                    }
                }
                assert forall|q: int|
                    (#[trigger] self.maps(q)) is Some && fa.states()[self.maps(q)->Some_0 as int]
                        == FrameType::Reserved implies self.maps(q) == Some(q as u64) by {
                    if q != p as int {
                        assert(self.maps(q) == before.maps(q));
                    } else {
                        assert(fa.states()[frame@ as int] == FrameType::Allocated);
                    }
                }
                assert forall|q: int, q2: int|
                    q != q2 && (#[trigger] self.maps(q)) is Some && (#[trigger] self.maps(
                        q2,
                    )) is Some implies self.maps(q)->Some_0 != self.maps(q2)->Some_0 by {
                    if q != p as int && q2 != p as int {
                        assert(self.maps(q) == before.maps(q));
                        assert(self.maps(q2) == before.maps(q2));
                    } else {
                        let other = if q == p as int {
                            q2
                        } else {
                            q
                        };
                        assert(self.maps(p as int) == Some((base + j) as u64));
                        assert(frames.start() <= (base + j) as u64 && ((base + j) as u64)
                            < frames.end());
                        if pstart <= other < pstart + j {
                            assert(self.maps(pstart + (other - pstart)) == Some(
                                (base + (other - pstart)) as u64,
                            ));
                        } else {
                            assert(self.maps(other) == before.maps(other));
                            assert(!(frames.start() <= before.maps(other)->Some_0
                                < frames.end()));
                        }
                    }
                }
                assert forall|q: int|
                    !(pstart <= q < pstart + (j + 1)) && (#[trigger] self.maps(q)) is Some
                        implies !(frames.start() <= self.maps(q)->Some_0 < frames.end()) by {
                    assert(self.maps(q) == before.maps(q));
                }
            }
            j = j + 1;
        }
        Ok(pstart * 4096)
    }

    /// Force the block page of `frame`'s index to a fully occupied state and
    /// record the identity mapping for it; the page must not hold any
    /// previously occupied block. With `map` false only the bookkeeping is
    /// asked for — the mapping itself is already in place from early boot —
    /// and the recorded outcome is the same. The heap grows to cover the
    /// page if needed; only that growth can fail, leaving the heap
    /// unchanged.
    #[verifier::loop_isolation(false)]
    pub fn identity_map(&mut self, fa: &mut FrameAllocator, frame: &Frame, map: bool) -> (r:
        Result<(), AllocError>)
        requires
            old(self).wf(),
            old(fa).wf(),
            old(self).backing_wf(*old(fa)),
            frame@ < MAX_HEAP_PAGES,
            frame@ < old(fa).frame_count(),
            old(fa).states()[frame@ as int] == FrameType::Reserved,
            frame@ < old(self).pages().len() ==> old(self).pages()[frame@ as int].spec_is_empty(),
        ensures
            final(self).wf(),
            final(fa).wf(),
            final(self).backing_wf(*final(fa)),
            final(fa).frame_count() == old(fa).frame_count(),
            final(fa).spec_total_memory() == old(fa).spec_total_memory(),
            final(self).spec_mapped_page() == old(self).spec_mapped_page(),
            old(self).pages().len() <= final(self).pages().len(),
            forall|f: int|
                0 <= f < old(fa).frame_count() && final(fa).states()[f] != old(fa).states()[f]
                    ==> old(fa).states()[f] == FrameType::Unallocated && final(fa).states()[f]
                    == FrameType::Allocated,
            r is Ok ==> ({
                &&& frame@ < final(self).pages().len()
                &&& final(self).pages()[frame@ as int].spec_is_full()
                &&& final(self).maps(frame@ as int) == Some(frame@)
                &&& forall|q: int| q != frame@ as int ==> final(self).maps(q) == old(self).maps(q)
                &&& forall|q: int|
                    0 <= q < old(self).pages().len() && q != frame@ as int ==> final(self).pages()[q] == old(self).pages()[q]
                &&& forall|q: int|
                    old(self).pages().len() <= q < final(self).pages().len() && q != frame@ as int
                        ==> (#[trigger] final(self).pages()[q]).spec_is_empty()
            }),
            frame@ < old(self).pages().len() ==> r is Ok,
            final(self).spec_metadata_frames().len() >= old(self).spec_metadata_frames().len(),
            final(fa).spec_free_memory() == old(fa).spec_free_memory() - PAGE_SIZE * (final(self).spec_metadata_frames().len() - old(self).spec_metadata_frames().len()),
            frame@ < old(self).pages().len() ==> final(self).spec_metadata_frames().len() == old(self).spec_metadata_frames().len(),
            r is Ok && frame@ >= old(self).pages().len() ==> final(self).spec_metadata_frames().len() == spec_next_pow2(
                old(self).spec_metadata_frames().len() + (((frame@ - old(self).pages().len()) + 1)
                    * 256 + 32767) / 32768,
            ),
            r is Err ==> final(self).spec_metadata_frames() == old(self).spec_metadata_frames(),
            r is Err ==> frame@ >= old(self).pages().len() && ({
                let target = spec_next_pow2(
                    old(self).spec_metadata_frames().len() + (((frame@ - old(self).pages().len())
                        + 1) * 256 + 32767) / 32768,
                );
                !(target * 128 <= MAX_HEAP_PAGES && old(fa).spec_free_memory() >= PAGE_SIZE * (
                target - old(self).spec_metadata_frames().len()))
            }),
            r is Err ==> (forall|q: int|
                0 <= q < old(self).pages().len() ==> final(self).pages()[q] == old(self).pages()[q])
                && (forall|p: int| final(self).maps(p) == old(self).maps(p)) && final(fa).states()
                == old(fa).states(),
    {
        let index: u64 = frame.index();
        let map_len: u64 = self.map.len() as u64;
        if map_len <= index {
            let ghost pre = *self;
            let grown = self.grow(fa, ((index - map_len) + 1) * 256);
            match grown {
                Err(e) => {
                    return Err(e);
                },
                Ok(()) => {
                    proof {
                        lemma_capacity_after_grow(
                            pre,
                            *self,
                            (((index - map_len) + 1) * 256) as int,
                            pre.pages().len() as int * 256,
                        );
                    }
                },
            }
        }
        let ghost mid2 = *self;
        let ghost fa2 = *fa;
        let mut bp = self.map[index as usize];
        bp.set_full();
        self.map.set(index as usize, bp);
        self.addressor.identity_map(frame);
        let _ = map;
        proof {
            assert(mid2.backing_wf(fa2));
            // The reserved frame stayed reserved: growth only moves frames
            // out of the unallocated state.
            assert(fa.states()[index as int] == FrameType::Reserved);
            // Nothing was backed by it before: a reserved frame backs only
            // the page of its own index, and that page was empty, hence
            // unmapped.
            assert(mid2.maps(index as int) is None);
            assert forall|q: int|
                (#[trigger] mid2.maps(q)) is Some implies mid2.maps(q)->Some_0 as int
                    != index as int by {
                if mid2.maps(q)->Some_0 as int == index as int {
                    assert(fa2.states()[index as int] == FrameType::Reserved);
                    assert(mid2.maps(q) == Some(q as u64));
                    mid2.addressor.lemma_maps_in_range(q);
                    assert(q == index as int);
                }
            }
            assert forall|q: int| q != index as int implies self.maps(q) == mid2.maps(q) by {}
            assert forall|q: int| (#[trigger] self.maps(q)) is Some implies self.maps(
                q,
            )->Some_0 < fa.frame_count() && (fa.states()[self.maps(q)->Some_0 as int]
                == FrameType::Allocated || fa.states()[self.maps(q)->Some_0 as int]
                == FrameType::Reserved) by {
                if q != index as int {
                    assert(self.maps(q) == mid2.maps(q));
                }
            }
            assert forall|q: int|
                0 <= q < self.pages().len() && (#[trigger] self.maps(q)) is Some && !self.pages()[
                    q].spec_is_full() implies fa.states()[self.maps(q)->Some_0 as int]
                == FrameType::Allocated by {
                if q != index as int {
                    assert(self.maps(q) == mid2.maps(q));
                    assert(self.pages()[q] == mid2.pages()[q]);
                }
            }
            assert forall|q: int|
                (#[trigger] self.maps(q)) is Some && fa.states()[self.maps(q)->Some_0 as int]
                    == FrameType::Reserved implies self.maps(q) == Some(q as u64) by {
                if q != index as int {
                    assert(self.maps(q) == mid2.maps(q));
                }
            }
            assert forall|q: int, q2: int|
                q != q2 && (#[trigger] self.maps(q)) is Some && (#[trigger] self.maps(
                    q2,
                )) is Some implies self.maps(q)->Some_0 != self.maps(q2)->Some_0 by {
                if q != index as int {
                    assert(self.maps(q) == mid2.maps(q));
                }
                if q2 != index as int {
                    assert(self.maps(q2) == mid2.maps(q2));
                }
            }
        }
        Ok(())
    }

    /// Release every heap page of `[first, last)`: their blocks are cleared
    /// and their mappings removed, everything else untouched.
    #[verifier::loop_isolation(false)]
    #[verifier::rlimit(100)]
    #[verifier::spinoff_prover]
    fn release_range(&mut self, first: u64, last: u64)
        requires
            old(self).wf(),
            first <= last,
            last <= old(self).pages().len(),
        ensures
            final(self).wf(),
            final(self).pages().len() == old(self).pages().len(),
            final(self).spec_metadata_frames() == old(self).spec_metadata_frames(),
            final(self).spec_mapped_page() == old(self).spec_mapped_page(),
            forall|p: int|
                first <= p < last ==> (#[trigger] final(self).pages()[p]).spec_is_empty(),
            forall|p: int| first <= p < last ==> (#[trigger] final(self).maps(p)) is None,
            forall|p: int| !(first <= p < last) ==> final(self).maps(p) == old(self).maps(p),
            forall|p: int|
                0 <= p < old(self).pages().len() && !(first <= p < last) ==> final(self).pages()[p]
                    == old(self).pages()[p],
    {
        let mut p: u64 = first;
        while p < last
            invariant
                first <= p <= last,
                self.wf(),
                self.pages().len() == old(self).pages().len(),
                self.spec_metadata_frames() == old(self).spec_metadata_frames(),
                self.spec_mapped_page() == old(self).spec_mapped_page(),
                forall|q: int| first <= q < p ==> (#[trigger] self.pages()[q]).spec_is_empty(),
                forall|q: int| first <= q < p ==> (#[trigger] self.maps(q)) is None,
                forall|q: int| !(first <= q < p) ==> self.maps(q) == old(self).maps(q),
                forall|q: int|
                    0 <= q < old(self).pages().len() && !(first <= q < p) ==> self.pages()[q]
                        == old(self).pages()[q],
            decreases last - p,
        {
            let ghost step = *self;
            let mut bp = self.map[p as usize];
            bp.set_empty();
            self.map.set(p as usize, bp);
            let page = Page::from_index(p);
            self.addressor.unmap(&page);
            proof {
                assert forall|q: int|
                    first <= q < p + 1 implies (#[trigger] self.pages()[q]).spec_is_empty() by {
                    if q != p as int {
                        assert(self.pages()[q] == step.pages()[q]);
                    }
                }
                assert forall|q: int|
                    first <= q < p + 1 implies (#[trigger] self.maps(q)) is None by {
                    if q != p as int {
                        assert(self.maps(q) == step.maps(q));
                    }
                }
            }
            p = p + 1;
        }
    }

    /// Bring a fresh heap into service: point the physical-memory window
    /// just past the top of represented physical memory, record the
    /// identity mapping of every reserved frame, carve a new kernel stack
    /// out of the heap, and release the boot stack's pages from the heap's
    /// view. What remains —
    /// copying the stack bytes and moving the stack-pointer register — is
    /// machine work the caller performs with the returned relocation. A
    /// failure means the frame allocator could not back a growth step or
    /// the new stack; the heap is then still well formed but partially
    /// initialized, which at boot time is fatal.
    #[verifier::loop_isolation(false)]
    #[verifier::rlimit(100)]
    #[verifier::spinoff_prover]
    pub fn init(&mut self, fa: &mut FrameAllocator, stack_frames: &mut FrameIterator) -> (r:
        Result<StackRelocation, AllocError>)
        requires
            old(self).wf(),
            old(self).pages().len() == 0,
            forall|p: int| old(self).maps(p) is None,
            old(fa).wf(),
            old(fa).frame_count() <= MAX_HEAP_PAGES,
            old(stack_frames).wf(),
            old(stack_frames).cur() == old(stack_frames).start(),
            old(stack_frames).start() < old(stack_frames).end(),
            old(stack_frames).end() <= old(fa).frame_count(),
            forall|i: int|
                old(stack_frames).start() <= i < old(stack_frames).end() ==> old(fa).states()[i]
                    == FrameType::Reserved,
        ensures
            final(self).wf(),
            final(fa).wf(),
            final(fa).frame_count() == old(fa).frame_count(),
            final(fa).spec_total_memory() == old(fa).spec_total_memory(),
            final(stack_frames).start() == old(stack_frames).start(),
            final(stack_frames).end() == old(stack_frames).end(),
            forall|f: int|
                0 <= f < old(fa).frame_count() && final(fa).states()[f] != old(fa).states()[f]
                    ==> old(fa).states()[f] == FrameType::Unallocated && final(fa).states()[f]
                    == FrameType::Allocated,
            final(self).spec_mapped_page()@ == old(fa).frame_count(),
            r is Ok ==> r->Ok_0.old_stack_base == old(stack_frames).start() * PAGE_SIZE,
            r is Ok ==> r->Ok_0.stack_size == STACK_SIZE,
            r is Ok ==> r->Ok_0.new_stack_base % 16 == 0,
            r is Ok ==> r->Ok_0.new_stack_base as int + STACK_SIZE <= final(self).bits().len()
                * 16,
            r is Ok ==> forall|i: int|
                r->Ok_0.new_stack_base as int / 16 <= i < r->Ok_0.new_stack_base as int / 16
                    + STACK_SIZE / 16 ==> final(self).bits()[i],
            r is Ok ==> forall|p: int|
                old(stack_frames).start() <= p < old(stack_frames).end() ==> (#[trigger] final(self).pages()[p]).spec_is_empty(),
            r is Ok ==> forall|p: int|
                old(stack_frames).start() <= p < old(stack_frames).end()
                    ==> #[trigger] final(self).maps(p) is None,
            r is Ok ==> forall|f: int|
                0 <= f < old(fa).frame_count() && old(fa).states()[f] == FrameType::Reserved && !(
                old(stack_frames).start() <= f < old(stack_frames).end())
                    ==> #[trigger] final(self).maps(f) == Some(f as u64),
            r is Ok ==> final(self).backing_wf(*final(fa)),
            ({
                let cap = spec_next_pow2(
                    spec_next_pow2((old(fa).frame_count() + 127) / 128) + 2,
                );
                (cap * 128 <= MAX_HEAP_PAGES && old(fa).spec_free_memory() >= PAGE_SIZE * (cap
                    + 258)) ==> r is Ok
            }),
            r is Err ==> forall|p: int|
                (#[trigger] final(self).maps(p)) is Some ==> 0 <= p < old(fa).frame_count() && old(fa).states()[p] == FrameType::Reserved && final(self).maps(p) == Some(p as u64),
    {
        let n: u64 = fa.frame_count_exec();
        let ghost sf0 = stack_frames.start() as int;
        let ghost sf1 = stack_frames.end() as int;

        // Page-table modification works through physical-offset mapping:
        // the window onto physical memory sits just past the memory it
        // shows.
        self.addressor.modify_mapped_page(Page::from_index(n));
        proof {
            assert forall|p: int| !((#[trigger] self.maps(p)) is Some) by {
                assert(self.maps(p) == old(self).maps(p));
            }
            assert(self.backing_wf(*fa));
        }

        // Record the identity mapping of every reserved frame; the heap's
        // own map grows to cover them. The heap's metadata never outgrows
        // the next power of two of the metadata pages that `n` heap pages
        // need, and every frame taken so far went into that metadata.
        let ghost np_cap = spec_next_pow2((n as int + 127) / 128);
        proof {
            assert(self.spec_metadata_frames().len() == 0);
            lemma_next_pow2_ge((n as int + 127) / 128);
        }
        let mut f: u64 = 0;
        while f < n
            invariant
                0 <= f <= n,
                self.wf(),
                fa.wf(),
                fa.frame_count() == old(fa).frame_count(),
                fa.spec_total_memory() == old(fa).spec_total_memory(),
                self.spec_mapped_page()@ == old(fa).frame_count(),
                self.spec_metadata_frames().len() <= np_cap,
                self.backing_wf(*fa),
                fa.spec_free_memory() == old(fa).spec_free_memory() - PAGE_SIZE * self.spec_metadata_frames().len(),
                forall|g: int|
                    0 <= g < old(fa).frame_count() && fa.states()[g] != old(fa).states()[g]
                        ==> old(fa).states()[g] == FrameType::Unallocated && fa.states()[g]
                        == FrameType::Allocated,
                forall|g: int|
                    0 <= g < f && old(fa).states()[g] == FrameType::Reserved
                        ==> #[trigger] self.maps(g) == Some(g as u64) && g < self.pages().len()
                        && self.pages()[g].spec_is_full(),
                forall|p: int|
                    0 <= p < self.pages().len() && !(#[trigger] self.pages()[p]).spec_is_empty()
                        ==> 0 <= p < f && old(fa).states()[p] == FrameType::Reserved,
                forall|p: int|
                    (#[trigger] self.maps(p)) is Some ==> 0 <= p < f && old(fa).states()[p]
                        == FrameType::Reserved,
            decreases n - f,
        {
            let state = fa.get(f);
            if state == FrameType::Reserved {
                proof {
                    assert(old(fa).states()[f as int] == FrameType::Reserved);
                }
                let frame = Frame::from_index(f);
                let ghost snap = *self;
                let done = self.identity_map(fa, &frame, false);
                match done {
                    Ok(()) => {
                        proof {
                            assert forall|p: int|
                                0 <= p < self.pages().len()
                                    && !(#[trigger] self.pages()[p]).spec_is_empty()
                                    implies 0 <= p < f + 1 && old(fa).states()[p]
                                == FrameType::Reserved by {
                                if p != f as int {
                                    if p < snap.pages().len() {
                                        assert(self.pages()[p] == snap.pages()[p]);
                                    } else {
                                        assert(self.pages()[p].spec_is_empty());
                                    }
                                }
                            }
                            if f as int >= snap.pages().len() {
                                lemma_identity_growth_target(
                                    f as int,
                                    snap.spec_metadata_frames().len() as int,
                                );
                                vstd::arithmetic::div_mod::lemma_div_is_ordered(
                                    f as int + 128,
                                    n as int + 127,
                                    128,
                                );
                                lemma_next_pow2_monotone(
                                    (f as int + 128) / 128,
                                    (n as int + 127) / 128,
                                );
                            }
                        }
                    },
                    Err(e) => {
                        proof {
                            let cap = spec_next_pow2(np_cap + 2);
                            if cap * 128 <= MAX_HEAP_PAGES && old(fa).spec_free_memory()
                                >= PAGE_SIZE * (cap + 258) {
                                let meta0 = snap.spec_metadata_frames().len() as int;
                                assert(snap.wf());
                                assert(snap.pages().len() == 128 * meta0);
                                assert(f as int >= snap.pages().len());
                                lemma_identity_growth_target(f as int, meta0);
                                assert(meta0 + (((f as int - snap.pages().len()) + 1) * 256
                                    + 32767) / 32768 == (f as int + 128) / 128);
                                let target = spec_next_pow2((f as int + 128) / 128);
                                vstd::arithmetic::div_mod::lemma_div_is_ordered(
                                    f as int + 128,
                                    n as int + 127,
                                    128,
                                );
                                lemma_next_pow2_monotone(
                                    (f as int + 128) / 128,
                                    (n as int + 127) / 128,
                                );
                                lemma_next_pow2_ge(np_cap + 2);
                                assert(target <= np_cap);
                                assert(target * 128 <= MAX_HEAP_PAGES);
                                assert(fa.spec_free_memory() == old(fa).spec_free_memory()
                                    - PAGE_SIZE * meta0);
                                assert(fa.spec_free_memory() >= PAGE_SIZE * (target - meta0));
                                assert(false);
                            }
                            assert forall|p: int| (#[trigger] self.maps(p)) is Some implies 0 <= p
                                < old(fa).frame_count() && old(fa).states()[p]
                                == FrameType::Reserved && self.maps(p) == Some(p as u64) by {
                                assert(self.maps(p) == snap.maps(p));
                                assert(snap.maps(p) == Some(p as u64));
                            }
                        }
                        return Err(e);
                    },
                }
            }
            f = f + 1;
        }

        // Carve the new stack out of the heap.
        let ghost mid = *self;
        let ghost fa1 = *fa;
        let allocated = self.allocate(fa, STACK_SIZE, 16);
        let new_stack_base: u64;
        match allocated {
            Ok(base) => {
                new_stack_base = base;
            },
            Err(e) => {
                proof {
                    let cap = spec_next_pow2(np_cap + 2);
                    if cap * 128 <= MAX_HEAP_PAGES && old(fa).spec_free_memory() >= PAGE_SIZE * (
                    cap + 258) {
                        let meta1 = mid.spec_metadata_frames().len() as int;
                        let nblk = spec_size_in_blocks(STACK_SIZE);
                        assert(nblk == 65536);
                        assert(spec_align_effective(16) as int / 16 == 1);
                        lemma_next_pow2_ge(np_cap + 2);
                        assert(fa1.spec_free_memory() == old(fa).spec_free_memory() - PAGE_SIZE
                            * meta1);
                        assert(fa1.spec_free_memory() >= PAGE_SIZE * (cap + 258 - meta1));
                        if exists|t: int|
                            0 <= t && #[trigger] (t % (spec_align_effective(16) as int / 16)) == 0
                                && free_window(mid.bits(), t, spec_size_in_blocks(STACK_SIZE)) {
                            assert(fa1.spec_free_memory() >= PAGE_SIZE * (nblk / 256 + 2));
                            assert(false);
                        } else {
                            assert(spec_align_up(mid.pages().len() as int * 256, 1)
                                == mid.pages().len() as int * 256);
                            assert((nblk + 32767) / 32768 == 2);
                            let target2 = spec_next_pow2(meta1 + 2);
                            lemma_next_pow2_monotone(meta1 + 2, np_cap + 2);
                            assert(target2 <= cap);
                            assert(target2 * 128 <= MAX_HEAP_PAGES);
                            assert(fa1.spec_free_memory() >= PAGE_SIZE * ((target2 - meta1) + nblk
                                / 256 + 2));
                            assert(false);
                        }
                    }
                    assert forall|p: int| (#[trigger] self.maps(p)) is Some implies 0 <= p < old(fa).frame_count() && old(fa).states()[p] == FrameType::Reserved && self.maps(p)
                        == Some(p as u64) by {
                        assert(self.maps(p) == mid.maps(p));
                        assert(mid.maps(p) == Some(p as u64));
                    }
                }
                return Err(e);
            },
        }
        let ghost s = new_stack_base as int / 16;
        let ghost nblocks = STACK_SIZE as int / 16;
        proof {
            assert(spec_size_in_blocks(STACK_SIZE) == nblocks);
            // A page of the new stack's run holds one of the run's blocks,
            // which was free, so no fully occupied page is part of the run:
            // every identity mapping recorded so far survives.
            assert forall|p: int|
                0 <= p < mid.pages().len() && (#[trigger] mid.pages()[p]).spec_is_full()
                    implies self.maps(p) == mid.maps(p) && self.pages()[p] == mid.pages()[p] by {
                if s / 256 <= p < (s + nblocks + 255) / 256 {
                    let w = if s > p * 256 {
                        s
                    } else {
                        p * 256
                    };
                    vstd::arithmetic::div_mod::lemma_fundamental_div_mod(w, 256);
                    assert(s <= w < s + nblocks && w / 256 == p);
                    crate::block::lemma_full_all_bits(mid.pages()[p]);
                    assert(mid.pages()[p]@[w % 256]);
                    assert(w < mid.bits().len());
                    assert(mid.bits()[w]);
                    assert(!mid.bits()[w]);
                } else {
                    assert(allocated is Ok && STACK_SIZE > 0);
                    assert(new_stack_base == allocated->Ok_0);
                    assert(!(s / 256 <= p < (s + nblocks + 255) / 256));
                    assert(self.pages()[p] == mid.pages()[p]);
                    assert(self.maps(p) == mid.maps(p));
                }
            }
            assert(sf1 - 1 < old(fa).frame_count());
            assert(old(fa).states()[sf1 - 1] == FrameType::Reserved);
            assert(mid.maps(sf1 - 1) == Some((sf1 - 1) as u64));
            assert forall|p: int| sf0 <= p < sf1 implies (#[trigger] mid.pages()[p]).spec_is_full()
                && p < mid.pages().len() by {
                assert(old(fa).states()[p] == FrameType::Reserved);
                assert(mid.maps(p) == Some(p as u64));
            }
            assert(sf1 <= self.pages().len());
        }

        let old_stack_base: u64 = stack_frames.start_frame().index() * PAGE_SIZE;

        // Release the boot stack's pages from the heap: they are no longer
        // backed once execution moves off them.
        stack_frames.reset();
        let ghost before_release = *self;
        let release_first: u64 = stack_frames.start_frame().index();
        let release_count: u64 = stack_frames.len();
        self.release_range(release_first, release_first + release_count);
        stack_frames.reset();
        proof {
            assert(release_first as int == sf0 && release_first + release_count == sf1);
            assert forall|q: int| (#[trigger] self.maps(q)) is Some implies !(sf0 <= q
                < sf1) && self.maps(q) == before_release.maps(q) by {
                if sf0 <= q < sf1 {
                    assert(self.pages()[q].spec_is_empty() && self.maps(q) is None);
                }
            }
            assert forall|q: int| (#[trigger] self.maps(q)) is Some implies self.maps(
                q,
            )->Some_0 < fa.frame_count() && (fa.states()[self.maps(q)->Some_0 as int]
                == FrameType::Allocated || fa.states()[self.maps(q)->Some_0 as int]
                == FrameType::Reserved) by {
                assert(self.maps(q) == before_release.maps(q));
            }
            assert forall|q: int|
                0 <= q < self.pages().len() && (#[trigger] self.maps(q)) is Some && !self.pages()[
                    q].spec_is_full() implies fa.states()[self.maps(q)->Some_0 as int]
                == FrameType::Allocated by {
                assert(self.maps(q) == before_release.maps(q));
                assert(self.pages()[q] == before_release.pages()[q]);
            }
            assert forall|q: int|
                (#[trigger] self.maps(q)) is Some && fa.states()[self.maps(q)->Some_0 as int]
                    == FrameType::Reserved implies self.maps(q) == Some(q as u64) by {
                assert(self.maps(q) == before_release.maps(q));
            }
            assert forall|q: int, q2: int|
                q != q2 && (#[trigger] self.maps(q)) is Some && (#[trigger] self.maps(
                    q2,
                )) is Some implies self.maps(q)->Some_0 != self.maps(q2)->Some_0 by {
                assert(self.maps(q) == before_release.maps(q));
                assert(self.maps(q2) == before_release.maps(q2));
            }
            assert(self.backing_wf(*fa));
            assert(new_stack_base as int == 16 * s);
            assert(old_stack_base == sf0 * PAGE_SIZE);
            assert(new_stack_base as int % 16 == 0) by {
                assert(spec_align_effective(16) == 16);
            }
            assert(s + nblocks <= self.bits().len());
            assert(self.bits().len() == self.pages().len() * 256);
            assert(new_stack_base as int + STACK_SIZE <= self.bits().len() * 16);
            assert(new_stack_base as int / 16 == s);
            assert forall|p: int|
                old(stack_frames).start() <= p < old(stack_frames).end() implies (
            #[trigger] self.pages()[p]).spec_is_empty() && self.maps(p) is None by {
                assert(sf0 <= p < sf1);
            }
            assert forall|p: int|
                old(stack_frames).start() <= p < old(stack_frames).end()
                    implies #[trigger] self.maps(p) is None by {
                assert(sf0 <= p < sf1);
                assert((self.pages()[p]).spec_is_empty() && self.maps(p) is None);
            }
            assert forall|i: int| s <= i < s + nblocks implies self.bits()[i] by {
                vstd::arithmetic::div_mod::lemma_fundamental_div_mod(i, 256);
                if sf0 <= i / 256 < sf1 {
                    crate::block::lemma_full_all_bits(mid.pages()[i / 256]);
                    assert(mid.bits()[i]);
                    assert(!mid.bits()[i]);
                } else {
                    assert(self.pages()[i / 256] == before_release.pages()[i / 256]);
                    assert(self.bits()[i] == before_release.bits()[i]);
                }
            }
            assert forall|f2: int|
                0 <= f2 < old(fa).frame_count() && old(fa).states()[f2] == FrameType::Reserved
                    && !(sf0 <= f2 < sf1) implies #[trigger] self.maps(f2) == Some(f2 as u64) by {
                assert(mid.maps(f2) == Some(f2 as u64));
                assert(mid.pages()[f2].spec_is_full());
                assert(before_release.maps(f2) == mid.maps(f2));
                assert(self.maps(f2) == before_release.maps(f2));
            }
        }
        Ok(
            StackRelocation {
                old_stack_base,
                new_stack_base,
                stack_size: STACK_SIZE,
            },
        )
    }
}

/// A block index that honours the block-level alignment gives a byte
/// address that honours the byte-level alignment.
proof fn lemma_scaled_alignment(start: u64, align_blocks: u64)
    requires
        align_blocks >= 1,
        start as int % (align_blocks as int) == 0,
    ensures
        (start as int * 16) % (align_blocks as int * 16) == 0,
        (16 * (start as int * 16 / 16)) == start as int * 16,
        (start as int * 16) / 16 == start as int,
{
    let ab = align_blocks as int;
    let st = start as int;
    vstd::arithmetic::div_mod::lemma_fundamental_div_mod(st, ab);
    let q = st / ab;
    assert(st == ab * q);
    assert(st * 16 == q * (ab * 16)) by (nonlinear_arith)
        requires
            st == ab * q,
    ;
    vstd::arithmetic::div_mod::lemma_mod_multiples_basic(q, ab * 16);
}

/// After a successful grow for `required` more blocks, the heap's capacity
/// covers the old capacity plus the requirement.
proof fn lemma_capacity_after_grow(pre: BlockAllocator, post: BlockAllocator, required: int, cur_blocks: int)
    requires
        pre.wf(),
        1 <= required,
        cur_blocks == pre.pages().len() as int * 256,
        post.pages().len() == 128 * spec_next_pow2(
            pre.spec_metadata_frames().len() + (required + 32767) / 32768,
        ),
    ensures
        post.pages().len() * 256 >= cur_blocks + required,
{
    let meta = pre.spec_metadata_frames().len() as int;
    let add = (required + 32767) / 32768;
    lemma_next_pow2_ge(meta + add);
    vstd::arithmetic::div_mod::lemma_fundamental_div_mod(required + 32767, 32768);
    vstd::arithmetic::div_mod::lemma_mod_bound(required + 32767, 32768);
}

/// The next power of two is at least its argument.
proof fn lemma_next_pow2_ge(n: int)
    ensures
        spec_next_pow2(n) >= n,
        spec_next_pow2(n) >= 1,
    decreases n,
{
    if n > 1 {
        lemma_next_pow2_ge((n + 1) / 2);
    }
}

/// The next power of two is monotone.
proof fn lemma_next_pow2_monotone(a: int, b: int)
    requires
        a <= b,
    ensures
        spec_next_pow2(a) <= spec_next_pow2(b),
    decreases b,
{
    if b <= 1 {
    } else if a <= 1 {
        lemma_next_pow2_ge(b);
    } else {
        lemma_next_pow2_monotone((a + 1) / 2, (b + 1) / 2);
    }
}

/// Growing the heap to cover frame `f`, starting from `meta` metadata pages
/// (tracking `128 * meta` heap pages), asks for exactly the metadata pages
/// that `f + 1` heap pages need.
proof fn lemma_identity_growth_target(f: int, meta: int)
    requires
        0 <= meta,
        128 * meta <= f,
    ensures
        meta + ((f - 128 * meta + 1) * 256 + 32767) / 32768 == (f + 128) / 128,
{
    let x = f + 1 - 128 * meta;
    vstd::arithmetic::div_mod::lemma_fundamental_div_mod(x, 128);
    let q = x / 128;
    let rm = x % 128;
    if rm == 0 {
        vstd::arithmetic::div_mod::lemma_fundamental_div_mod_converse(
            256 * x + 32767,
            32768,
            q,
            32767,
        );
        vstd::arithmetic::div_mod::lemma_fundamental_div_mod_converse(x + 127, 128, q, 127);
    } else {
        vstd::arithmetic::div_mod::lemma_fundamental_div_mod_converse(
            256 * x + 32767,
            32768,
            q + 1,
            256 * rm - 1,
        );
        vstd::arithmetic::div_mod::lemma_fundamental_div_mod_converse(
            x + 127,
            128,
            q + 1,
            rm - 1,
        );
    }
    vstd::arithmetic::div_mod::lemma_fundamental_div_mod(f + 128, 128);
    vstd::arithmetic::div_mod::lemma_fundamental_div_mod_converse(
        x + 127,
        128,
        (f + 128) / 128 - meta,
        (f + 128) % 128,
    );
}

proof fn lemma_virtual_low_canonical(x: u64)
    by (bit_vector)
    ensures
        x < 0x800000000000 ==> (x >> 47 == 0),
{
}

} // verus!
