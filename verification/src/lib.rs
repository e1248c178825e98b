//! Memory-management core of a freestanding operating-system kernel: typed
//! physical/virtual addresses, a physical frame allocator over a packed
//! 2-bit-per-frame state map, and a block allocator (the kernel heap) that
//! subdivides virtual-memory-backed pages into 16-byte blocks.
//!
//! Byte counts, addresses and frame/page indices are carried as `u64`
//! throughout: physical addresses span 52 bits, more than a 32-bit `usize`
//! holds.
//!
//! - [`addr`]: addresses tagged physical or virtual, validated canonical.
//! - [`frame`]: frames, pages and restartable runs of frames.
//! - [`frame_allocator`]: the packed per-frame state map and its
//!   compare-and-set ownership discipline.
//! - [`block`]: the 256-bit occupancy bitmap of one heap page.
//! - [`addressor`]: which page is backed by which frame.
//! - [`block_allocator`]: the heap itself — search, growth, backing.
//! - [`boot`], [`program_header`], [`mmio`], [`rdsp`]: the boot handoff and
//!   the structures read from it.
//!
//! Boot-time fatal conditions that a caller can rule out up front —
//! non-canonical addresses, a memory map with no room for the frame
//! bitmap, bulk transitions over frames in the wrong state — appear as
//! `requires` on the functions that would halt on them. The single-frame
//! compare-and-set and the heap's release, whose halts guard against
//! corruption discovered only at the call, instead reject the request with
//! an exact error and nothing changed: the detectable form of the halt.
//! Such a rejection still denotes corrupted kernel invariants and callers
//! treat it as fatal, as the shell around this library does; only "no
//! frame available" is an ordinary outcome.

use vstd::prelude::*;

pub mod addr;
pub mod frame;
pub mod frame_allocator;
pub mod block;
pub mod addressor;
pub mod block_allocator;
pub mod boot;
pub mod program_header;
pub mod mmio;
pub mod rdsp;

verus! {

/// Number of bytes in one kibibyte.
pub const KIBIBYTE: u64 = 0x400;

/// Number of bytes in one mibibyte.
pub const MIBIBYTE: u64 = 0x100000;

/// Smallest multiple of `align` that is at least `value`.
pub open spec fn spec_align_up(value: int, align: int) -> int {
    ((value + align - 1) / align) * align
}

/// Largest multiple of `align` that is at most `value`.
pub open spec fn spec_align_down(value: int, align: int) -> int {
    (value / align) * align
}

/// Round `value` up to the next multiple of `alignment`.
pub fn align_up(value: u64, alignment: u64) -> (r: u64)
    requires
        alignment > 0,
        value + alignment - 1 <= u64::MAX,
    ensures
        r == spec_align_up(value as int, alignment as int),
        value <= r,
        r <= value + (alignment - 1),
{
    let sum: u64 = value + (alignment - 1);
    let q: u64 = sum / alignment;
    proof {
        vstd::arithmetic::div_mod::lemma_fundamental_div_mod(sum as int, alignment as int);
        vstd::arithmetic::div_mod::lemma_mod_bound(sum as int, alignment as int);
        vstd::arithmetic::div_mod::lemma_fundamental_div_mod(value as int, alignment as int);
        vstd::arithmetic::div_mod::lemma_mod_bound(value as int, alignment as int);
        assert(q as int * alignment as int == alignment as int * q as int) by (nonlinear_arith);
    }
    q * alignment
}

/// Round `value` down to a multiple of `alignment`.
pub fn align_down(value: u64, alignment: u64) -> (r: u64)
    requires
        alignment > 0,
    ensures
        r == spec_align_down(value as int, alignment as int),
        r <= value,
{
    let q: u64 = value / alignment;
    proof {
        vstd::arithmetic::div_mod::lemma_fundamental_div_mod(value as int, alignment as int);
        vstd::arithmetic::div_mod::lemma_mod_bound(value as int, alignment as int);
        assert(q as int * alignment as int == alignment as int * q as int) by (nonlinear_arith);
    }
    q * alignment
}

/// How many `alignment`-sized chunks cover `value` bytes (division, rounding
/// up).
pub fn align_up_div(value: u64, alignment: u64) -> (r: u64)
    requires
        alignment > 0,
        value + alignment - 1 <= u64::MAX,
    ensures
        r == (value + alignment - 1) / alignment as int,
{
    (value + (alignment - 1)) / alignment
}

/// Division of `value` by `alignment`, rounding down.
pub fn align_down_div(value: u64, alignment: u64) -> (r: u64)
    requires
        alignment > 0,
    ensures
        r == value as int / alignment as int,
{
    value / alignment
}

pub fn to_kibibytes(value: u64) -> (r: u64)
    ensures
        r == value as int / KIBIBYTE as int,
{
    value / KIBIBYTE
}

pub fn to_mibibytes(value: u64) -> (r: u64)
    ensures
        r == value as int / MIBIBYTE as int,
{
    value / MIBIBYTE
}

} // verus!
