//! The physical frame allocator: ground truth of physical-memory ownership.
//! It keeps one [`FrameType`] per frame, packed two bits per frame in an
//! owned word array, plus aggregate byte counters. Every change of ownership
//! is a compare-and-set against the expected prior state: no frame is freed
//! unless currently allocated, locked unless currently unallocated, reserved
//! unless currently unallocated.

use vstd::prelude::*;

verus! {

use crate::frame::Frame;
use crate::frame::FrameIterator;
use crate::frame::PAGE_SIZE;
use crate::addr::Address;
use crate::addr::Physical;

/// The ownership state of one physical frame.
#[derive(Clone, Copy, PartialEq, Eq, Structural, Debug)]
pub enum FrameType {
    /// Free for allocation.
    Unallocated,
    /// Handed out by `lock_frame` / `lock_next` / `lock_next_count`.
    Allocated,
    /// Permanently claimed (firmware regions, the state map itself).
    Reserved,
    /// Known-bad memory; never handed out.
    Corrupted,
}

impl FrameType {
    /// The two-bit encoding of this state.
    pub open spec fn as_spec(self) -> u64 {
        match self {
            FrameType::Unallocated => 0,
            FrameType::Allocated => 1,
            FrameType::Reserved => 2,
            FrameType::Corrupted => 3,
        }
    }

    /// Decode a two-bit field.
    pub open spec fn from_spec(value: u64) -> FrameType {
        if value == 0 {
            FrameType::Unallocated
        } else if value == 1 {
            FrameType::Allocated
        } else if value == 2 {
            FrameType::Reserved
        } else {
            FrameType::Corrupted
        }
    }

    /// Decode a two-bit field; only the four encodings are meaningful.
    pub fn from_u64(value: u64) -> (r: Self)
        requires
            value < 4,
        ensures
            r == FrameType::from_spec(value),
    {
        if value == 0 {
            FrameType::Unallocated
        } else if value == 1 {
            FrameType::Allocated
        } else if value == 2 {
            FrameType::Reserved
        } else {
            FrameType::Corrupted
        }
    }

    /// The two-bit encoding of this state.
    pub fn as_u64(&self) -> (r: u64)
        ensures
            r == self.as_spec(),
            r < 4,
    {
        match self {
            FrameType::Unallocated => 0,
            FrameType::Allocated => 1,
            FrameType::Reserved => 2,
            FrameType::Corrupted => 3,
        }
    }
}

/// The two-bit field holding frame `k` of a packed word (`k < 32`).
pub open spec fn field_of(word: u64, k: u64) -> u64 {
    (word >> (2 * k)) & 3
}

/// How often `t` occurs in `s`.
pub open spec fn count_type(s: Seq<FrameType>, t: FrameType) -> int
    decreases s.len(),
{
    if s.len() == 0 {
        0
    } else {
        count_type(s.drop_last(), t) + if s.last() == t {
            1int
        } else {
            0int
        }
    }
}

/// Updating one element moves one unit of count between the old and the new
/// state.
pub proof fn lemma_count_update(s: Seq<FrameType>, i: int, u: FrameType)
    requires
        0 <= i < s.len(),
    ensures
        forall|v: FrameType|
            #[trigger] count_type(s.update(i, u), v) == count_type(s, v) - (if s[i] == v {
                1int
            } else {
                0int
            }) + (if u == v {
                1int
            } else {
                0int
            }),
    decreases s.len(),
{
    let su = s.update(i, u);
    assert forall|v: FrameType|
        #[trigger] count_type(s.update(i, u), v) == count_type(s, v) - (if s[i] == v {
            1int
        } else {
            0int
        }) + (if u == v {
            1int
        } else {
            0int
        }) by {
        if i == s.len() - 1 {
            assert(su.drop_last() =~= s.drop_last());
            assert(su.last() == u);
        } else {
            lemma_count_update(s.drop_last(), i, u);
            assert(s.drop_last()[i] == s[i]);
            assert(su.drop_last() =~= s.drop_last().update(i, u));
            assert(su.last() == s.last());
            assert(count_type(su, v) == count_type(s.drop_last().update(i, u), v) + (if su.last()
                == v {
                1int
            } else {
                0int
            }));
        }
    }
}

/// The per-state counts sum to the sequence's length.
pub proof fn lemma_count_total(s: Seq<FrameType>)
    ensures
        count_type(s, FrameType::Unallocated) + count_type(s, FrameType::Allocated) + count_type(
            s,
            FrameType::Reserved,
        ) + count_type(s, FrameType::Corrupted) == s.len(),
    decreases s.len(),
{
    if s.len() > 0 {
        lemma_count_total(s.drop_last());
    }
}

/// A state that occurs nowhere is counted zero times.
pub proof fn lemma_count_zero_if_absent(s: Seq<FrameType>, t: FrameType)
    requires
        forall|i: int| 0 <= i < s.len() ==> s[i] != t,
    ensures
        count_type(s, t) == 0,
    decreases s.len(),
{
    if s.len() > 0 {
        lemma_count_zero_if_absent(s.drop_last(), t);
    }
}

/// Counts are never negative.
pub proof fn lemma_count_nonneg(s: Seq<FrameType>, t: FrameType)
    ensures
        count_type(s, t) >= 0,
    decreases s.len(),
{
    if s.len() > 0 {
        lemma_count_nonneg(s.drop_last(), t);
    }
}

/// Classification of one firmware memory-map descriptor.
#[derive(Clone, Copy, PartialEq, Eq, Structural, Debug)]
pub enum MemoryType {
    /// Usable general-purpose memory.
    Conventional,
    /// Firmware-reserved memory.
    Reserved,
    /// Memory holding the kernel's code.
    KernelCode,
    /// Memory holding the kernel's data.
    KernelData,
}

/// One entry of the firmware memory map.
#[derive(Clone, Copy)]
pub struct UEFIMemoryDescriptor {
    /// What the region holds.
    pub ty: MemoryType,
    /// First byte of the region.
    pub phys_start: Address<Physical>,
    /// Length of the region in 4096-byte pages.
    pub page_count: u64,
}

/// Whether a region of this type must stay out of the allocator's hands.
pub open spec fn spec_is_reserved_memory_type(ty: MemoryType) -> bool {
    ty != MemoryType::Conventional
}

/// Whether a region of this type must stay out of the allocator's hands.
pub fn is_uefi_reserved_memory_type(ty: MemoryType) -> (r: bool)
    ensures
        r == spec_is_reserved_memory_type(ty),
{
    match ty {
        MemoryType::Conventional => false,
        _ => true,
    }
}

/// One past the last byte a descriptor covers.
pub open spec fn spec_descriptor_end(d: UEFIMemoryDescriptor) -> int {
    d.phys_start@ + d.page_count * PAGE_SIZE
}

/// Total representable physical memory: the largest end over the map.
pub open spec fn spec_total_memory_of(m: Seq<UEFIMemoryDescriptor>) -> int
    decreases m.len(),
{
    if m.len() == 0 {
        0
    } else {
        let rest = spec_total_memory_of(m.drop_last());
        if spec_descriptor_end(m.last()) > rest {
            spec_descriptor_end(m.last())
        } else {
            rest
        }
    }
}

/// A memory map the allocator can be built over: page-aligned descriptors
/// that stay within 52-bit physical space.
pub open spec fn mmap_wf(m: Seq<UEFIMemoryDescriptor>) -> bool {
    &&& m.len() >= 1
    &&& forall|j: int| 0 <= j < m.len() ==> (#[trigger] m[j]).phys_start@ % PAGE_SIZE == 0
    &&& forall|j: int| 0 <= j < m.len() ==> spec_descriptor_end(#[trigger] m[j]) <= 0x10000000000000
}

/// The total is at least every descriptor's end.
pub proof fn lemma_total_memory_ge(m: Seq<UEFIMemoryDescriptor>, j: int)
    requires
        0 <= j < m.len(),
    ensures
        spec_total_memory_of(m) >= spec_descriptor_end(m[j]),
    decreases m.len(),
{
    if j < m.len() - 1 {
        lemma_total_memory_ge(m.drop_last(), j);
    }
}

/// Over a well-formed map the total is page-aligned and fits 52-bit space.
pub proof fn lemma_total_memory_props(m: Seq<UEFIMemoryDescriptor>)
    requires
        forall|j: int| 0 <= j < m.len() ==> (#[trigger] m[j]).phys_start@ % PAGE_SIZE == 0,
        forall|j: int|
            0 <= j < m.len() ==> spec_descriptor_end(#[trigger] m[j]) <= 0x10000000000000,
    ensures
        spec_total_memory_of(m) % (PAGE_SIZE as int) == 0,
        0 <= spec_total_memory_of(m) <= 0x10000000000000,
    decreases m.len(),
{
    if m.len() > 0 {
        lemma_total_memory_props(m.drop_last());
        let d = m.last();
        assert(d.phys_start@ % PAGE_SIZE == 0);
        assert(spec_descriptor_end(d) % (PAGE_SIZE as int) == 0) by {
            assert(d.phys_start@ + d.page_count * PAGE_SIZE == d.phys_start@ + (
            d.page_count as int) * 4096);
            vstd::arithmetic::div_mod::lemma_add_mod_noop(
                d.phys_start@ as int,
                d.page_count as int * 4096,
                4096,
            );
            vstd::arithmetic::div_mod::lemma_mod_multiples_basic(d.page_count as int, 4096);
        }
    }
}

/// Pages of bitmap storage needed to describe `total` bytes of memory, two
/// bits per frame.
pub open spec fn spec_bitmap_pages(total: int) -> int {
    ((total / 4096) * 2 / 8 + 4095) / 4096
}

/// Index of the first descriptor whose page count can hold the bitmap.
pub open spec fn spec_first_fit(m: Seq<UEFIMemoryDescriptor>, pages: int) -> int
    decreases m.len(),
{
    if m.len() == 0 {
        0
    } else if m[0].page_count >= pages {
        0
    } else {
        1 + spec_first_fit(m.subrange(1, m.len() as int), pages)
    }
}

/// When some descriptor fits, `spec_first_fit` names the first that does.
pub proof fn lemma_first_fit_props(m: Seq<UEFIMemoryDescriptor>, pages: int)
    requires
        exists|k: int| 0 <= k < m.len() && (#[trigger] m[k]).page_count >= pages,
    ensures
        0 <= spec_first_fit(m, pages) < m.len(),
        m[spec_first_fit(m, pages)].page_count >= pages,
        forall|k: int|
            0 <= k < spec_first_fit(m, pages) ==> (#[trigger] m[k]).page_count < pages,
    decreases m.len(),
{
    if m[0].page_count >= pages {
    } else {
        let sub = m.subrange(1, m.len() as int);
        let k = choose|k: int| 0 <= k < m.len() && (#[trigger] m[k]).page_count >= pages;
        assert(sub[k - 1] == m[k]);
        lemma_first_fit_props(sub, pages);
        let f = spec_first_fit(sub, pages);
        assert(m[1 + f] == sub[f]);
        assert forall|q: int| 0 <= q < 1 + f implies (#[trigger] m[q]).page_count < pages by {
            if q >= 1 {
                assert(sub[q - 1] == m[q]);
            }
        }
    }
}

/// Which frames initialization reserves: the null frame, the frames storing
/// the state bitmap, and every frame of a firmware-reserved descriptor.
pub open spec fn spec_reserved_frame(
    m: Seq<UEFIMemoryDescriptor>,
    bstart: int,
    bpages: int,
    i: int,
) -> bool {
    ||| i == 0
    ||| bstart <= i < bstart + bpages
    ||| exists|j: int|
        0 <= j < m.len() && spec_is_reserved_memory_type((#[trigger] m[j]).ty)
            && m[j].phys_start@ / PAGE_SIZE <= i < m[j].phys_start@ / PAGE_SIZE + m[j].page_count
}

/// A constant sequence counts its element everywhere and others nowhere.
pub proof fn lemma_count_constant(s: Seq<FrameType>, u: FrameType)
    requires
        forall|i: int| 0 <= i < s.len() ==> s[i] == u,
    ensures
        count_type(s, u) == s.len(),
        forall|v: FrameType| v != u ==> #[trigger] count_type(s, v) == 0,
    decreases s.len(),
{
    if s.len() > 0 {
        lemma_count_constant(s.drop_last(), u);
        assert forall|v: FrameType| v != u implies #[trigger] count_type(s, v) == 0 by {
            assert(count_type(s, v) == count_type(s.drop_last(), v) + (if s.last() == v {
                1int
            } else {
                0int
            }));
        }
    }
}

/// Why a frame-state request was rejected.
#[derive(Clone, Copy, PartialEq, Eq, Structural, Debug)]
pub enum FrameError {
    /// The frame was not in the state the transition expects: a double free,
    /// a double allocation, or corruption. Callers treat this as fatal.
    StateMismatch,
}

/// The aggregate byte counters of a [`FrameAllocator`].
pub struct FrameAllocatorMemory {
    /// Bytes of physical memory the allocator represents.
    pub total_memory: u64,
    /// Bytes in unallocated frames.
    pub free_memory: u64,
    /// Bytes in allocated frames.
    pub used_memory: u64,
    /// Bytes in reserved frames.
    pub reserved_memory: u64,
}

impl FrameAllocatorMemory {
    /// Fresh counters: everything free.
    pub fn new(total_memory: u64) -> (r: Self)
        ensures
            r.total_memory == total_memory,
            r.free_memory == total_memory,
            r.used_memory == 0,
            r.reserved_memory == 0,
    {
        Self { total_memory, free_memory: total_memory, used_memory: 0, reserved_memory: 0 }
    }
}

/// Tracks the state of every physical frame, two bits per frame.
pub struct FrameAllocator {
    map: Vec<u64>,
    n_frames: u64,
    memory: FrameAllocatorMemory,
}

impl FrameAllocator {
    /// The state of every frame, in index order.
    pub closed spec fn states(self) -> Seq<FrameType> {
        Seq::new(
            self.n_frames as nat,
            |i: int| FrameType::from_spec(field_of(self.map[i / 32], (i % 32) as u64)),
        )
    }

    /// How many frames the allocator represents.
    pub open spec fn frame_count(self) -> int {
        self.states().len() as int
    }

    /// Bytes of physical memory represented.
    pub closed spec fn spec_total_memory(self) -> u64 {
        self.memory.total_memory
    }

    /// Bytes in unallocated frames.
    pub closed spec fn spec_free_memory(self) -> u64 {
        self.memory.free_memory
    }

    /// Bytes in allocated frames.
    pub closed spec fn spec_used_memory(self) -> u64 {
        self.memory.used_memory
    }

    /// Bytes in reserved frames.
    pub closed spec fn spec_reserved_memory(self) -> u64 {
        self.memory.reserved_memory
    }

    /// Structural soundness: the packed map covers exactly the represented
    /// frames, and the counters agree with the per-frame states.
    pub closed spec fn wf(self) -> bool {
        &&& self.map.len() == (self.n_frames + 31) / 32
        &&& self.n_frames * PAGE_SIZE <= 0x10000000000000
        &&& self.memory.total_memory == self.n_frames * PAGE_SIZE
        &&& self.memory.free_memory == PAGE_SIZE * count_type(
            self.states(),
            FrameType::Unallocated,
        )
        &&& self.memory.used_memory == PAGE_SIZE * count_type(self.states(), FrameType::Allocated)
        &&& self.memory.reserved_memory == PAGE_SIZE * count_type(
            self.states(),
            FrameType::Reserved,
        )
        &&& count_type(self.states(), FrameType::Corrupted) == 0
        &&& self.memory.free_memory + self.memory.used_memory + self.memory.reserved_memory
            == self.memory.total_memory
    }

    /// What well-formedness guarantees about the counters: each one counts
    /// its frames at 4096 bytes apiece, no frame is corrupted, and the three
    /// together exhaust the represented memory.
    pub proof fn lemma_wf_counters(self)
        requires
            self.wf(),
        ensures
            self.spec_free_memory() == PAGE_SIZE * count_type(
                self.states(),
                FrameType::Unallocated,
            ),
            self.spec_used_memory() == PAGE_SIZE * count_type(self.states(), FrameType::Allocated),
            self.spec_reserved_memory() == PAGE_SIZE * count_type(
                self.states(),
                FrameType::Reserved,
            ),
            count_type(self.states(), FrameType::Corrupted) == 0,
            self.spec_free_memory() + self.spec_used_memory() + self.spec_reserved_memory()
                == self.spec_total_memory(),
            self.spec_total_memory() == self.frame_count() * PAGE_SIZE,
            self.frame_count() * PAGE_SIZE <= 0x10000000000000,
    {
    }

    /// Bytes of physical memory represented.
    pub fn total_memory(&self) -> (r: u64)
        ensures
            r == self.spec_total_memory(),
    {
        self.memory.total_memory
    }

    /// Bytes in unallocated frames.
    pub fn free_memory(&self) -> (r: u64)
        ensures
            r == self.spec_free_memory(),
    {
        self.memory.free_memory
    }

    /// Bytes in allocated frames.
    pub fn locked_memory(&self) -> (r: u64)
        ensures
            r == self.spec_used_memory(),
    {
        self.memory.used_memory
    }

    /// Bytes in reserved frames.
    pub fn reserved_memory(&self) -> (r: u64)
        ensures
            r == self.spec_reserved_memory(),
    {
        self.memory.reserved_memory
    }

    /// How many frames the allocator represents.
    pub fn frame_count_exec(&self) -> (r: u64)
        ensures
            r == self.frame_count(),
    {
        self.n_frames
    }

    /// The recorded state of one frame.
    pub fn get(&self, index: u64) -> (r: FrameType)
        requires
            self.wf(),
            index < self.frame_count(),
        ensures
            r == self.states()[index as int],
    {
        let word: u64 = self.map[(index / 32) as usize];
        proof {
            lemma_field_bound(word, index % 32);
        }
        FrameType::from_u64((word >> (2 * (index % 32))) & 3)
    }

    /// Write one frame's state and move its page of bytes between the
    /// matching counters.
    fn transition(&mut self, index: u64, to: FrameType)
        requires
            old(self).wf(),
            index < old(self).frame_count(),
            to != FrameType::Corrupted,
            old(self).states()[index as int] != FrameType::Corrupted,
        ensures
            final(self).wf(),
            final(self).states() == old(self).states().update(index as int, to),
            final(self).spec_total_memory() == old(self).spec_total_memory(),
    {
        proof {
            lemma_count_nonneg(self.states(), FrameType::Unallocated);
            lemma_count_nonneg(self.states(), FrameType::Allocated);
            lemma_count_nonneg(self.states(), FrameType::Reserved);
            lemma_count_nonneg(self.states(), FrameType::Corrupted);
            lemma_count_total(self.states());
            lemma_count_update(self.states(), index as int, to);
            lemma_count_pos(self.states(), index as int);
        }
        let from = self.get(index);
        let word_index: usize = (index / 32) as usize;
        let shift: u64 = 2 * (index % 32);
        let word: u64 = self.map[word_index];
        let new_word: u64 = (word & !(3u64 << shift)) | (to.as_u64() << shift);
        proof {
            lemma_field_update(word, index % 32, to.as_spec());
        }
        self.map.set(word_index, new_word);
        assert(self.states() =~= old(self).states().update(index as int, to)) by {
            assert forall|i: int| 0 <= i < old(self).states().len() implies self.states()[i]
                == old(self).states().update(index as int, to)[i] by {
                vstd::arithmetic::div_mod::lemma_fundamental_div_mod(i, 32);
                vstd::arithmetic::div_mod::lemma_fundamental_div_mod(index as int, 32);
                if i / 32 == index as int / 32 && i != index as int {
                    assert((i % 32) as u64 != index % 32);
                }
            }
        }
        match from {
            FrameType::Unallocated => {
                self.memory.free_memory = self.memory.free_memory - PAGE_SIZE;
            },
            FrameType::Allocated => {
                self.memory.used_memory = self.memory.used_memory - PAGE_SIZE;
            },
            FrameType::Reserved => {
                self.memory.reserved_memory = self.memory.reserved_memory - PAGE_SIZE;
            },
            FrameType::Corrupted => {},
        }
        match to {
            FrameType::Unallocated => {
                self.memory.free_memory = self.memory.free_memory + PAGE_SIZE;
            },
            FrameType::Allocated => {
                self.memory.used_memory = self.memory.used_memory + PAGE_SIZE;
            },
            FrameType::Reserved => {
                self.memory.reserved_memory = self.memory.reserved_memory + PAGE_SIZE;
            },
            FrameType::Corrupted => {},
        }
    }

    /// Free one frame: it must currently be allocated, else the request is
    /// rejected and nothing changes (a rejected free is a double-free, fatal
    /// to the caller).
    pub fn free_frame(&mut self, frame: &Frame) -> (r: Result<(), FrameError>)
        requires
            old(self).wf(),
            frame@ < old(self).frame_count(),
        ensures
            final(self).wf(),
            final(self).frame_count() == old(self).frame_count(),
            final(self).spec_total_memory() == old(self).spec_total_memory(),
            old(self).states()[frame@ as int] == FrameType::Allocated ==> r is Ok && final(self).states() == old(self).states().update(frame@ as int, FrameType::Unallocated) && final(self).spec_free_memory() == old(self).spec_free_memory() + PAGE_SIZE && final(self).spec_used_memory() == old(self).spec_used_memory() - PAGE_SIZE && final(self).spec_reserved_memory() == old(self).spec_reserved_memory(),
            old(self).states()[frame@ as int] != FrameType::Allocated ==> r is Err && final(self).states() == old(self).states() && final(self).spec_free_memory() == old(self).spec_free_memory() && final(self).spec_used_memory() == old(self).spec_used_memory()
                && final(self).spec_reserved_memory() == old(self).spec_reserved_memory(),
    {
        let r = self.set_eq(frame.index(), FrameType::Unallocated, FrameType::Allocated);
        proof {
            lemma_count_update(old(self).states(), frame@ as int, FrameType::Unallocated);
        }
        r
    }

    /// Lock (allocate) one frame: it must currently be unallocated, else the
    /// request is rejected and nothing changes (a rejected lock denotes
    /// corrupted kernel invariants, fatal to the caller).
    pub fn lock_frame(&mut self, frame: &Frame) -> (r: Result<(), FrameError>)
        requires
            old(self).wf(),
            frame@ < old(self).frame_count(),
        ensures
            final(self).wf(),
            final(self).frame_count() == old(self).frame_count(),
            final(self).spec_total_memory() == old(self).spec_total_memory(),
            old(self).states()[frame@ as int] == FrameType::Unallocated ==> r is Ok && final(self).states() == old(self).states().update(frame@ as int, FrameType::Allocated) && final(self).spec_free_memory() == old(self).spec_free_memory() - PAGE_SIZE && final(self).spec_used_memory() == old(self).spec_used_memory() + PAGE_SIZE && final(self).spec_reserved_memory() == old(self).spec_reserved_memory(),
            old(self).states()[frame@ as int] != FrameType::Unallocated ==> r is Err && final(self).states() == old(self).states() && final(self).spec_free_memory() == old(self).spec_free_memory() && final(self).spec_used_memory() == old(self).spec_used_memory()
                && final(self).spec_reserved_memory() == old(self).spec_reserved_memory(),
    {
        let r = self.set_eq(frame.index(), FrameType::Allocated, FrameType::Unallocated);
        proof {
            lemma_count_update(old(self).states(), frame@ as int, FrameType::Allocated);
        }
        r
    }

    /// Reserve one frame: it must currently be unallocated, else the request
    /// is rejected and nothing changes (a rejected reservation denotes
    /// corrupted kernel invariants, fatal to the caller).
    pub fn reserve_frame(&mut self, frame: &Frame) -> (r: Result<(), FrameError>)
        requires
            old(self).wf(),
            frame@ < old(self).frame_count(),
        ensures
            final(self).wf(),
            final(self).frame_count() == old(self).frame_count(),
            final(self).spec_total_memory() == old(self).spec_total_memory(),
            old(self).states()[frame@ as int] == FrameType::Unallocated ==> r is Ok && final(self).states() == old(self).states().update(frame@ as int, FrameType::Reserved) && final(self).spec_free_memory() == old(self).spec_free_memory() - PAGE_SIZE && final(self).spec_used_memory() == old(self).spec_used_memory() && final(self).spec_reserved_memory() == old(self).spec_reserved_memory() + PAGE_SIZE,
            old(self).states()[frame@ as int] != FrameType::Unallocated ==> r is Err && final(self).states() == old(self).states() && final(self).spec_free_memory() == old(self).spec_free_memory() && final(self).spec_used_memory() == old(self).spec_used_memory()
                && final(self).spec_reserved_memory() == old(self).spec_reserved_memory(),
    {
        let r = self.set_eq(frame.index(), FrameType::Reserved, FrameType::Unallocated);
        proof {
            lemma_count_update(old(self).states(), frame@ as int, FrameType::Reserved);
        }
        r
    }

    /// Compare-and-set: move the frame at `index` to `to` only if it is
    /// currently `expected`.
    fn set_eq(&mut self, index: u64, to: FrameType, expected: FrameType) -> (r: Result<
        (),
        FrameError,
    >)
        requires
            old(self).wf(),
            index < old(self).frame_count(),
            to != FrameType::Corrupted,
            expected != FrameType::Corrupted,
        ensures
            final(self).wf(),
            final(self).frame_count() == old(self).frame_count(),
            final(self).spec_total_memory() == old(self).spec_total_memory(),
            old(self).states()[index as int] == expected ==> r is Ok && final(self).states() == old(self).states().update(index as int, to),
            old(self).states()[index as int] != expected ==> r is Err && final(self).states()
                == old(self).states() && final(self).spec_free_memory() == old(self).spec_free_memory() && final(self).spec_used_memory() == old(self).spec_used_memory()
                && final(self).spec_reserved_memory() == old(self).spec_reserved_memory(),
            final(self).spec_free_memory() as int == PAGE_SIZE * count_type(
                final(self).states(),
                FrameType::Unallocated,
            ),
            final(self).spec_used_memory() as int == PAGE_SIZE * count_type(
                final(self).states(),
                FrameType::Allocated,
            ),
            final(self).spec_reserved_memory() as int == PAGE_SIZE * count_type(
                final(self).states(),
                FrameType::Reserved,
            ),
    {
        if self.get(index) == expected {
            proof {
                lemma_count_update(self.states(), index as int, to);
            }
            self.transition(index, to);
            Ok(())
        } else {
            Err(FrameError::StateMismatch)
        }
    }

    /// Free every frame of the run; each must currently be allocated.
    #[verifier::loop_isolation(false)]
    pub fn free_frames(&mut self, frames: FrameIterator)
        requires
            old(self).wf(),
            frames.wf(),
            frames.cur() == frames.start(),
            frames.end() <= old(self).frame_count(),
            forall|i: int|
                frames.start() <= i < frames.end() ==> old(self).states()[i]
                    == FrameType::Allocated,
        ensures
            final(self).wf(),
            final(self).frame_count() == old(self).frame_count(),
            final(self).spec_total_memory() == old(self).spec_total_memory(),
            forall|i: int|
                0 <= i < final(self).frame_count() ==> final(self).states()[i] == (if frames.start()
                    <= i < frames.end() {
                    FrameType::Unallocated
                } else {
                    old(self).states()[i]
                }),
            final(self).spec_free_memory() == old(self).spec_free_memory() + PAGE_SIZE * (
            frames.end() - frames.start()),
            final(self).spec_used_memory() == old(self).spec_used_memory() - PAGE_SIZE * (
            frames.end() - frames.start()),
            final(self).spec_reserved_memory() == old(self).spec_reserved_memory(),
    {
        let mut it = frames;
        loop
            invariant
                self.wf(),
                it.wf(),
                it.start() == frames.start(),
                it.end() == frames.end(),
                self.frame_count() == old(self).frame_count(),
                self.spec_total_memory() == old(self).spec_total_memory(),
                it.end() <= self.frame_count(),
                forall|i: int|
                    0 <= i < self.frame_count() ==> self.states()[i] == (if frames.start() <= i
                        < it.cur() {
                        FrameType::Unallocated
                    } else {
                        old(self).states()[i]
                    }),
                self.spec_free_memory() == old(self).spec_free_memory() + PAGE_SIZE * (it.cur()
                    - it.start()),
                self.spec_used_memory() == old(self).spec_used_memory() - PAGE_SIZE * (it.cur()
                    - it.start()),
                self.spec_reserved_memory() == old(self).spec_reserved_memory(),
            decreases it.end() - it.cur(),
        {
            let next = it.next();
            match next {
                Some(f) => {
                    let _ = self.free_frame(&f);
                },
                None => {
                    break ;
                },
            }
        }
    }

    /// Lock every frame of the run; each must currently be unallocated.
    #[verifier::loop_isolation(false)]
    pub fn lock_frames(&mut self, frames: FrameIterator)
        requires
            old(self).wf(),
            frames.wf(),
            frames.cur() == frames.start(),
            frames.end() <= old(self).frame_count(),
            forall|i: int|
                frames.start() <= i < frames.end() ==> old(self).states()[i]
                    == FrameType::Unallocated,
        ensures
            final(self).wf(),
            final(self).frame_count() == old(self).frame_count(),
            final(self).spec_total_memory() == old(self).spec_total_memory(),
            forall|i: int|
                0 <= i < final(self).frame_count() ==> final(self).states()[i] == (if frames.start()
                    <= i < frames.end() {
                    FrameType::Allocated
                } else {
                    old(self).states()[i]
                }),
            final(self).spec_free_memory() == old(self).spec_free_memory() - PAGE_SIZE * (
            frames.end() - frames.start()),
            final(self).spec_used_memory() == old(self).spec_used_memory() + PAGE_SIZE * (
            frames.end() - frames.start()),
            final(self).spec_reserved_memory() == old(self).spec_reserved_memory(),
    {
        let mut it = frames;
        loop
            invariant
                self.wf(),
                it.wf(),
                it.start() == frames.start(),
                it.end() == frames.end(),
                self.frame_count() == old(self).frame_count(),
                self.spec_total_memory() == old(self).spec_total_memory(),
                it.end() <= self.frame_count(),
                forall|i: int|
                    0 <= i < self.frame_count() ==> self.states()[i] == (if frames.start() <= i
                        < it.cur() {
                        FrameType::Allocated
                    } else {
                        old(self).states()[i]
                    }),
                self.spec_free_memory() == old(self).spec_free_memory() - PAGE_SIZE * (it.cur()
                    - it.start()),
                self.spec_used_memory() == old(self).spec_used_memory() + PAGE_SIZE * (it.cur()
                    - it.start()),
                self.spec_reserved_memory() == old(self).spec_reserved_memory(),
            decreases it.end() - it.cur(),
        {
            let next = it.next();
            match next {
                Some(f) => {
                    let _ = self.lock_frame(&f);
                },
                None => {
                    break ;
                },
            }
        }
    }

    /// Reserve every frame of the run; each must currently be unallocated.
    #[verifier::loop_isolation(false)]
    pub fn reserve_frames(&mut self, frames: FrameIterator)
        requires
            old(self).wf(),
            frames.wf(),
            frames.cur() == frames.start(),
            frames.end() <= old(self).frame_count(),
            forall|i: int|
                frames.start() <= i < frames.end() ==> old(self).states()[i]
                    == FrameType::Unallocated,
        ensures
            final(self).wf(),
            final(self).frame_count() == old(self).frame_count(),
            final(self).spec_total_memory() == old(self).spec_total_memory(),
            forall|i: int|
                0 <= i < final(self).frame_count() ==> final(self).states()[i] == (if frames.start()
                    <= i < frames.end() {
                    FrameType::Reserved
                } else {
                    old(self).states()[i]
                }),
            final(self).spec_free_memory() == old(self).spec_free_memory() - PAGE_SIZE * (
            frames.end() - frames.start()),
            final(self).spec_used_memory() == old(self).spec_used_memory(),
            final(self).spec_reserved_memory() == old(self).spec_reserved_memory() + PAGE_SIZE * (
            frames.end() - frames.start()),
    {
        let mut it = frames;
        loop
            invariant
                self.wf(),
                it.wf(),
                it.start() == frames.start(),
                it.end() == frames.end(),
                self.frame_count() == old(self).frame_count(),
                self.spec_total_memory() == old(self).spec_total_memory(),
                it.end() <= self.frame_count(),
                forall|i: int|
                    0 <= i < self.frame_count() ==> self.states()[i] == (if frames.start() <= i
                        < it.cur() {
                        FrameType::Reserved
                    } else {
                        old(self).states()[i]
                    }),
                self.spec_free_memory() == old(self).spec_free_memory() - PAGE_SIZE * (it.cur()
                    - it.start()),
                self.spec_used_memory() == old(self).spec_used_memory(),
                self.spec_reserved_memory() == old(self).spec_reserved_memory() + PAGE_SIZE * (
                it.cur() - it.start()),
            decreases it.end() - it.cur(),
        {
            let next = it.next();
            match next {
                Some(f) => {
                    let _ = self.reserve_frame(&f);
                },
                None => {
                    break ;
                },
            }
        }
    }

    /// Lock the first unallocated frame, scanning from index zero, or report
    /// that none is free.
    #[verifier::loop_isolation(false)]
    pub fn lock_next(&mut self) -> (r: Option<Frame>)
        requires
            old(self).wf(),
        ensures
            final(self).wf(),
            final(self).frame_count() == old(self).frame_count(),
            final(self).spec_total_memory() == old(self).spec_total_memory(),
            r is Some ==> {
                let f = r->Some_0@ as int;
                &&& 0 <= f < old(self).frame_count()
                &&& old(self).states()[f] == FrameType::Unallocated
                &&& forall|j: int| 0 <= j < f ==> old(self).states()[j] != FrameType::Unallocated
                &&& final(self).states() == old(self).states().update(f, FrameType::Allocated)
                &&& final(self).spec_free_memory() == old(self).spec_free_memory() - PAGE_SIZE
                &&& final(self).spec_used_memory() == old(self).spec_used_memory() + PAGE_SIZE
                &&& final(self).spec_reserved_memory() == old(self).spec_reserved_memory()
            },
            r is None ==> final(self).states() == old(self).states() && final(self).spec_free_memory() == old(self).spec_free_memory() && (forall|j: int|
                0 <= j < old(self).frame_count() ==> old(self).states()[j]
                    != FrameType::Unallocated),
    {
        let n: u64 = self.n_frames;
        let mut index: u64 = 0;
        while index < n
            invariant
                self.wf(),
                *self == *old(self),
                n == self.frame_count(),
                index <= n,
                forall|j: int| 0 <= j < index ==> self.states()[j] != FrameType::Unallocated,
            decreases n - index,
        {
            if self.get(index) == FrameType::Unallocated {
                let frame = Frame::from_index(index);
                let _ = self.lock_frame(&frame);
                proof {
                    lemma_count_update(old(self).states(), index as int, FrameType::Allocated);
                }
                return Some(frame);
            }
            index = index + 1;
        }
        None
    }

    /// Whether `count` frames starting at `start` are all unallocated.
    pub open spec fn window_free(s: Seq<FrameType>, start: int, count: int) -> bool {
        &&& start + count <= s.len()
        &&& forall|i: int| start <= i < start + count ==> s[i] == FrameType::Unallocated
    }

    /// Lock the first run of `count` contiguous unallocated frames and hand
    /// it back as a restartable iterator, or report that no such run exists.
    /// The returned run is exactly `count` frames, all previously
    /// unallocated, now allocated; no other frame changes.
    #[verifier::loop_isolation(false)]
    pub fn lock_next_count(&mut self, count: u64) -> (r: Option<FrameIterator>)
        requires
            old(self).wf(),
            count >= 1,
        ensures
            final(self).wf(),
            final(self).frame_count() == old(self).frame_count(),
            final(self).spec_total_memory() == old(self).spec_total_memory(),
            r is Some ==> {
                let it = r->Some_0;
                &&& it.wf()
                &&& it.cur() == it.start()
                &&& it.end() - it.start() == count
                &&& it.end() <= old(self).frame_count()
                &&& Self::window_free(old(self).states(), it.start() as int, count as int)
                &&& forall|s: int|
                    0 <= s < it.start() ==> !Self::window_free(
                        old(self).states(),
                        s,
                        count as int,
                    )
                &&& forall|i: int|
                    0 <= i < final(self).frame_count() ==> final(self).states()[i] == (if it.start()
                        <= i < it.end() {
                        FrameType::Allocated
                    } else {
                        old(self).states()[i]
                    })
                &&& final(self).spec_free_memory() == old(self).spec_free_memory() - PAGE_SIZE
                    * count
                &&& final(self).spec_used_memory() == old(self).spec_used_memory() + PAGE_SIZE
                    * count
                &&& final(self).spec_reserved_memory() == old(self).spec_reserved_memory()
            },
            r is None ==> final(self).states() == old(self).states() && final(self).spec_free_memory() == old(self).spec_free_memory() && (forall|s: int|
                0 <= s ==> !Self::window_free(old(self).states(), s, count as int)),
    {
        let n: u64 = self.n_frames;
        let mut start: u64 = 0;
        let mut index: u64 = 0;
        while index < n
            invariant
                self.wf(),
                *self == *old(self),
                n == self.frame_count(),
                count >= 1,
                start <= index <= n,
                index - start < count,
                forall|j: int| start <= j < index ==> self.states()[j] == FrameType::Unallocated,
                forall|s: int|
                    0 <= s < start ==> !Self::window_free(self.states(), s, count as int),
            decreases n - index,
        {
            if self.get(index) == FrameType::Unallocated {
                if index + 1 - start == count {
                    let run = FrameIterator::new(start, start + count);
                    self.lock_frames(run);
                    return Some(run);
                }
                index = index + 1;
            } else {
                index = index + 1;
                start = index;
            }
        }
        proof {
            assert forall|s: int| 0 <= s implies !Self::window_free(
                self.states(),
                s,
                count as int,
            ) by {
                if s >= start {
                    assert(s + count > n);
                }
            }
        }
        None
    }

    /// Reserve every still-unallocated frame in `[start, start + count)`;
    /// frames already reserved are left as they are. Used only while
    /// initializing, where a region may overlap one reserved before it.
    #[verifier::loop_isolation(false)]
    fn reserve_range_tolerant(&mut self, start: u64, count: u64)
        requires
            old(self).wf(),
            start + count <= old(self).frame_count(),
            forall|i: int|
                0 <= i < old(self).frame_count() ==> old(self).states()[i]
                    != FrameType::Corrupted,
        ensures
            final(self).wf(),
            final(self).frame_count() == old(self).frame_count(),
            final(self).spec_total_memory() == old(self).spec_total_memory(),
            final(self).spec_used_memory() == old(self).spec_used_memory(),
            forall|i: int|
                0 <= i < final(self).frame_count() ==> final(self).states()[i] == (if start <= i
                    < start + count && old(self).states()[i] == FrameType::Unallocated {
                    FrameType::Reserved
                } else {
                    old(self).states()[i]
                }),
    {
        let mut i: u64 = start;
        while i < start + count
            invariant
                start <= i <= start + count,
                self.wf(),
                self.frame_count() == old(self).frame_count(),
                self.spec_total_memory() == old(self).spec_total_memory(),
                self.spec_used_memory() == old(self).spec_used_memory(),
                forall|j: int|
                    0 <= j < self.frame_count() ==> self.states()[j] == (if start <= j < i && old(
                        self,
                    ).states()[j] == FrameType::Unallocated {
                        FrameType::Reserved
                    } else {
                        old(self).states()[j]
                    }),
            decreases start + count - i,
        {
            if self.get(i) == FrameType::Unallocated {
                proof {
                    lemma_count_update(self.states(), i as int, FrameType::Reserved);
                }
                self.transition(i, FrameType::Reserved);
            }
            i = i + 1;
        }
    }

    /// Build the allocator from the firmware memory map. Total representable
    /// memory is the largest descriptor end; the two-bit state map is sized
    /// to cover it and placed in the first descriptor large enough to hold
    /// it. The null frame, the state map's frames and every frame of a
    /// firmware-reserved descriptor are reserved; everything else starts
    /// unallocated. A map with no descriptor large enough for the state map
    /// is a boot-time fatal condition and is excluded up front.
    #[verifier::loop_isolation(false)]
    pub fn from_mmap(uefi_memory_map: &Vec<UEFIMemoryDescriptor>) -> (r: Self)
        requires
            mmap_wf(uefi_memory_map@),
            spec_total_memory_of(uefi_memory_map@) >= PAGE_SIZE,
            (spec_total_memory_of(uefi_memory_map@) / (PAGE_SIZE as int) + 31) / 32
                <= usize::MAX,
            exists|k: int|
                0 <= k < uefi_memory_map@.len() && (#[trigger] uefi_memory_map@[k]).page_count
                    >= spec_bitmap_pages(spec_total_memory_of(uefi_memory_map@)),
        ensures
            r.wf(),
            r.spec_total_memory() == spec_total_memory_of(uefi_memory_map@),
            r.frame_count() == spec_total_memory_of(uefi_memory_map@) / (PAGE_SIZE as int),
            r.spec_used_memory() == 0,
            r.spec_free_memory() == r.spec_total_memory() - r.spec_reserved_memory(),
            ({
                let m = uefi_memory_map@;
                let total = spec_total_memory_of(m);
                let bpages = spec_bitmap_pages(total);
                let di = spec_first_fit(m, bpages);
                let bstart = m[di].phys_start@ as int / (PAGE_SIZE as int);
                forall|i: int|
                    0 <= i < r.frame_count() ==> r.states()[i] == (if spec_reserved_frame(
                        m,
                        bstart,
                        bpages,
                        i,
                    ) {
                        FrameType::Reserved
                    } else {
                        FrameType::Unallocated
                    })
            }),
    {
        let ghost mspec = uefi_memory_map@;
        let m_len: usize = uefi_memory_map.len();
        proof {
            lemma_total_memory_props(mspec);
        }

        // Total representable physical memory: the largest descriptor end.
        let mut total: u64 = 0;
        let mut j: usize = 0;
        while j < m_len
            invariant
                j <= m_len,
                total == spec_total_memory_of(mspec.subrange(0, j as int)),
                0 <= total <= 0x10000000000000,
            decreases m_len - j,
        {
            let d = uefi_memory_map[j];
            proof {
                assert(mspec.subrange(0, j + 1).drop_last() =~= mspec.subrange(0, j as int));
                assert(mspec.subrange(0, j + 1).last() == mspec[j as int]);
                lemma_total_memory_props(mspec.subrange(0, j + 1));
                assert(forall|q: int|
                    0 <= q < mspec.subrange(0, j + 1).len() ==> mspec.subrange(0, j + 1)[q]
                        == mspec[q]);
            }
            let end: u64 = d.phys_start.as_size() + d.page_count * PAGE_SIZE;
            if end > total {
                total = end;
            }
            j = j + 1;
        }
        proof {
            assert(mspec.subrange(0, m_len as int) =~= mspec);
        }

        // Size the two-bit-per-frame state map.
        let n: u64 = total / PAGE_SIZE;
        let memory_size: u64 = (n * 2) / 8;
        let memory_pages: u64 = crate::align_up_div(memory_size, PAGE_SIZE);
        assert(memory_pages == spec_bitmap_pages(total as int));

        // The state map lives in the first descriptor that can hold it.
        let ghost ff = spec_first_fit(mspec, memory_pages as int);
        proof {
            lemma_first_fit_props(mspec, memory_pages as int);
        }
        let mut di: usize = 0;
        while uefi_memory_map[di].page_count < memory_pages
            invariant
                0 <= di <= ff,
                forall|k: int| 0 <= k < di ==> (#[trigger] mspec[k]).page_count < memory_pages,
            decreases m_len - di,
        {
            di = di + 1;
        }
        proof {
            assert(di as int == ff);
        }
        let bstart: u64 = uefi_memory_map[di].phys_start.as_size() / PAGE_SIZE;

        // Fresh state: every represented frame unallocated.
        let words: usize = ((n + 31) / 32) as usize;
        let mut map: Vec<u64> = Vec::new();
        while map.len() < words
            invariant
                map.len() <= words,
                forall|q: int| 0 <= q < map.len() ==> map[q] == 0,
            decreases words - map.len(),
        {
            map.push(0);
        }
        let mut this = FrameAllocator { map, n_frames: n, memory: FrameAllocatorMemory::new(total) };
        proof {
            vstd::arithmetic::div_mod::lemma_fundamental_div_mod(total as int, PAGE_SIZE as int);
            assert forall|i: int| 0 <= i < this.states().len() implies this.states()[i]
                == FrameType::Unallocated by {
                lemma_zero_field((i % 32) as u64);
            }
            lemma_count_constant(this.states(), FrameType::Unallocated);
            assert(this.wf());
        }

        // Reserve the null frame, the state map's frames, and every frame of
        // a firmware-reserved descriptor; overlaps are tolerated.
        this.reserve_range_tolerant(0, 1);
        proof {
            assert(mspec[ff].phys_start@ % PAGE_SIZE == 0);
            vstd::arithmetic::div_mod::lemma_fundamental_div_mod(
                mspec[ff].phys_start@ as int,
                PAGE_SIZE as int,
            );
            lemma_total_memory_ge(mspec, ff);
        }
        this.reserve_range_tolerant(bstart, memory_pages);
        let ghost bpages = memory_pages;
        let mut k: usize = 0;
        while k < m_len
            invariant
                k <= m_len,
                this.wf(),
                this.frame_count() == n,
                this.spec_total_memory() == total,
                this.spec_used_memory() == 0,
                forall|i: int|
                    0 <= i < this.frame_count() ==> this.states()[i] == (if i == 0 || (
                    bstart <= i < bstart + bpages) || (exists|q: int|
                        0 <= q < k && spec_is_reserved_memory_type((#[trigger] mspec[q]).ty)
                            && mspec[q].phys_start@ / PAGE_SIZE <= i < mspec[q].phys_start@
                            / PAGE_SIZE + mspec[q].page_count) {
                        FrameType::Reserved
                    } else {
                        FrameType::Unallocated
                    }),
            decreases m_len - k,
        {
            let d = uefi_memory_map[k];
            if is_uefi_reserved_memory_type(d.ty) {
                proof {
                    assert(mspec[k as int].phys_start@ % PAGE_SIZE == 0);
                    vstd::arithmetic::div_mod::lemma_fundamental_div_mod(
                        mspec[k as int].phys_start@ as int,
                        PAGE_SIZE as int,
                    );
                    lemma_total_memory_ge(mspec, k as int);
                }
                let dstart: u64 = d.phys_start.as_size() / PAGE_SIZE;
                this.reserve_range_tolerant(dstart, d.page_count);
            }
            k = k + 1;
        }
        proof {
            lemma_count_total(this.states());
            lemma_count_nonneg(this.states(), FrameType::Allocated);
        }
        this
    }
}

/// A state that occurs at some index is counted at least once.
pub proof fn lemma_count_pos(s: Seq<FrameType>, i: int)
    requires
        0 <= i < s.len(),
    ensures
        count_type(s, s[i]) >= 1,
    decreases s.len(),
{
    lemma_count_nonneg(s.drop_last(), s[i]);
    if i < s.len() - 1 {
        lemma_count_pos(s.drop_last(), i);
    }
}

proof fn lemma_zero_field(k: u64)
    by (bit_vector)
    ensures
        (0u64 >> (2 * k)) & 3 == 0,
{
}

proof fn lemma_field_bound(word: u64, k: u64)
    by (bit_vector)
    ensures
        (word >> (2 * k)) & 3 < 4,
{
}

proof fn lemma_field_update(word: u64, k: u64, x: u64)
    by (bit_vector)
    requires
        k < 32,
        x < 4,
    ensures
        (((word & !(3u64 << (2 * k))) | (x << (2 * k))) >> (2 * k)) & 3 == x,
        forall|j: u64|
            j < 32 && j != k ==> (((word & !(3u64 << (2 * k))) | (x << (2 * k))) >> (2 * j)) & 3
                == #[trigger] ((word >> (2 * j)) & 3),
{
}

/// Two successive successful `lock_next_count` calls hand out disjoint
/// frame ranges: the first call leaves its range allocated, and the second
/// call's range was entirely unallocated when it began, so the ranges cannot
/// overlap.
pub proof fn lemma_lock_next_count_disjoint(
    mid: Seq<FrameType>,
    a_start: int,
    a_end: int,
    b_start: int,
    b_end: int,
)
    requires
        a_start < a_end,
        b_start < b_end,
        0 <= a_start,
        0 <= b_start,
        a_end <= mid.len(),
        b_end <= mid.len(),
        forall|i: int| a_start <= i < a_end ==> mid[i] == FrameType::Allocated,
        forall|i: int| b_start <= i < b_end ==> mid[i] == FrameType::Unallocated,
    ensures
        a_end <= b_start || b_end <= a_start,
{
    if !(a_end <= b_start || b_end <= a_start) {
        let i = if a_start >= b_start {
            a_start
        } else {
            b_start
        };
        assert(mid[i] == FrameType::Allocated);
        assert(mid[i] == FrameType::Unallocated);
    }
}

} // verus!
