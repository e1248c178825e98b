//! Typed addresses: an integer offset tagged as physical or virtual at the
//! type level. A physical address keeps its top 12 bits zero; a virtual
//! address is sign-extended-canonical (top 17 bits equal).

use vstd::prelude::*;

verus! {

use crate::spec_align_up;
use crate::spec_align_down;

/// Marker for the kind of memory an [`Address`] points into.
pub trait AddressType {}

/// Marker type: physical memory.
pub struct Physical;

impl AddressType for Physical {}

/// Marker type: virtual memory.
pub struct Virtual;

impl AddressType for Virtual {}

/// An address, tagged by kind with no runtime cost.
#[verifier::reject_recursive_types(T)]
pub struct Address<T: AddressType> {
    value: u64,
    phantom: core::marker::PhantomData<T>,
}

/// A physical address is canonical when bits 52..64 are clear.
pub open spec fn physical_canonical(addr: u64) -> bool {
    addr >> 52 == 0
}

/// A virtual address is canonical when bits 47..64 are all equal
/// (sign-extended).
pub open spec fn virtual_canonical(addr: u64) -> bool {
    addr >> 47 == 0 || addr >> 47 == 0x1FFFF
}

/// Result of sign-extending bit 47 over the top 16 bits.
pub open spec fn spec_sign_extend(addr: u64) -> u64 {
    (((addr << 16) as i64) >> 16) as u64
}

impl<T: AddressType> Address<T> {
    /// The numeric offset this address stands for.
    pub closed spec fn view(self) -> u64 {
        self.value
    }

    /// The null address.
    pub fn zero() -> (r: Self)
        ensures
            r@ == 0,
    {
        Self { value: 0, phantom: core::marker::PhantomData }
    }

    /// The address as a plain size (offset from zero).
    pub fn as_size(&self) -> (r: u64)
        ensures
            r == self@,
    {
        self.value
    }

    /// Whether this is the null address.
    pub fn is_null(&self) -> (r: bool)
        ensures
            r == (self@ == 0),
    {
        self.value == 0
    }

    /// Round up to the next multiple of `alignment`.
    pub fn align_up(self, alignment: u64) -> (r: Self)
        requires
            alignment > 0,
            self@ + alignment - 1 <= u64::MAX,
        ensures
            r@ == spec_align_up(self@ as int, alignment as int),
    {
        Self { value: crate::align_up(self.value, alignment), phantom: core::marker::PhantomData }
    }

    /// Round down to a multiple of `alignment`.
    pub fn align_down(self, alignment: u64) -> (r: Self)
        requires
            alignment > 0,
        ensures
            r@ == spec_align_down(self@ as int, alignment as int),
    {
        Self { value: crate::align_down(self.value, alignment), phantom: core::marker::PhantomData }
    }
}

impl Address<Physical> {
    /// Make a physical address; the offset must be canonical (bits 52..64
    /// clear).
    pub fn new(addr: u64) -> (r: Self)
        requires
            physical_canonical(addr),
        ensures
            r@ == addr,
    {
        Self { value: addr, phantom: core::marker::PhantomData }
    }

    /// The address `rhs` bytes further on; the sum is re-validated, so it
    /// must stay canonical.
    pub fn add(self, rhs: u64) -> (r: Self)
        requires
            self@ + rhs < 0x10000000000000,
        ensures
            r@ == self@ + rhs,
    {
        let sum: u64 = self.value + rhs;
        proof {
            lemma_physical_canonical_iff(sum);
        }
        Self::new(sum)
    }

    /// The address `rhs` bytes back; what remains of a canonical address is
    /// canonical.
    pub fn sub(self, rhs: u64) -> (r: Self)
        requires
            rhs <= self@,
            self@ < 0x10000000000000,
        ensures
            r@ == self@ - rhs,
    {
        let diff: u64 = self.value - rhs;
        proof {
            lemma_physical_canonical_iff(diff);
        }
        Self::new(diff)
    }

    /// Make a physical address, discarding bits 52..64.
    pub fn new_truncate(addr: u64) -> (r: Self)
        ensures
            r@ == addr & 0xFFFFFFFFFFFFF,
            physical_canonical(r@),
    {
        proof {
            lemma_truncate_physical(addr);
        }
        Self { value: addr & 0xFFFFFFFFFFFFF, phantom: core::marker::PhantomData }
    }
}

impl Address<Virtual> {
    /// Make a virtual address. A canonical offset is kept; one whose bits
    /// 48..64 are clear but whose bit 47 is set is sign-extended.
    pub fn new(addr: u64) -> (r: Self)
        requires
            addr >> 47 == 0 || addr >> 47 == 1 || addr >> 47 == 0x1FFFF,
        ensures
            addr >> 47 == 0 || addr >> 47 == 0x1FFFF ==> r@ == addr,
            addr >> 47 == 1 ==> r@ == spec_sign_extend(addr),
            virtual_canonical(r@),
    {
        let shifted: u64 = addr >> 47;
        if shifted == 0 || shifted == 0x1FFFF {
            Self { value: addr, phantom: core::marker::PhantomData }
        } else {
            Self::new_truncate(addr)
        }
    }

    /// The address `rhs` bytes further on; the sum is re-validated against
    /// the canonical forms, sign-extending where only bit 47 spills.
    pub fn add(self, rhs: u64) -> (r: Self)
        requires
            self@ + rhs <= u64::MAX,
            ((self@ + rhs) as u64) >> 47 == 0 || ((self@ + rhs) as u64) >> 47 == 1 || ((self@
                + rhs) as u64) >> 47 == 0x1FFFF,
        ensures
            ((self@ + rhs) as u64) >> 47 == 0 || ((self@ + rhs) as u64) >> 47 == 0x1FFFF ==> r@
                == self@ + rhs,
            ((self@ + rhs) as u64) >> 47 == 1 ==> r@ == spec_sign_extend((self@ + rhs) as u64),
            virtual_canonical(r@),
    {
        Self::new(self.value + rhs)
    }

    /// The address `rhs` bytes back, re-validated the same way.
    pub fn sub(self, rhs: u64) -> (r: Self)
        requires
            rhs <= self@,
            ((self@ - rhs) as u64) >> 47 == 0 || ((self@ - rhs) as u64) >> 47 == 1 || ((self@
                - rhs) as u64) >> 47 == 0x1FFFF,
        ensures
            ((self@ - rhs) as u64) >> 47 == 0 || ((self@ - rhs) as u64) >> 47 == 0x1FFFF ==> r@
                == self@ - rhs,
            ((self@ - rhs) as u64) >> 47 == 1 ==> r@ == spec_sign_extend((self@ - rhs) as u64),
            virtual_canonical(r@),
    {
        Self::new(self.value - rhs)
    }

    /// Make a virtual address by sign-extending bit 47 over the top bits.
    pub fn new_truncate(addr: u64) -> (r: Self)
        ensures
            r@ == spec_sign_extend(addr),
            virtual_canonical(r@),
    {
        proof {
            lemma_sign_extend_canonical(addr);
        }
        Self {
            value: (((addr << 16) as i64) >> 16) as u64,
            phantom: core::marker::PhantomData,
        }
    }

    /// Offset of this address within its 4096-byte page.
    pub fn page_offset(&self) -> (r: u64)
        ensures
            r == self@ & 0xFFF,
    {
        self.value & 0xFFF
    }

    /// Index into the level-1 page table.
    pub fn p1_index(&self) -> (r: u64)
        ensures
            r == (self@ >> 12) & 0x1FF,
    {
        (self.value >> 12) & 0x1FF
    }

    /// Index into the level-2 page table.
    pub fn p2_index(&self) -> (r: u64)
        ensures
            r == (self@ >> 21) & 0x1FF,
    {
        proof { lemma_shift_chain(self.value); }
        (self.value >> 12 >> 9) & 0x1FF
    }

    /// Index into the level-3 page table.
    pub fn p3_index(&self) -> (r: u64)
        ensures
            r == (self@ >> 30) & 0x1FF,
    {
        proof { lemma_shift_chain(self.value); }
        (self.value >> 12 >> 9 >> 9) & 0x1FF
    }

    /// Index into the level-4 page table.
    pub fn p4_index(&self) -> (r: u64)
        ensures
            r == (self@ >> 39) & 0x1FF,
    {
        proof { lemma_shift_chain(self.value); }
        (self.value >> 12 >> 9 >> 9 >> 9) & 0x1FF
    }
}

impl<T: AddressType> PartialEq for Address<T> {
    fn eq(&self, other: &Self) -> (r: bool)
        ensures
            r == (self@ == other@),
    {
        self.value == other.value
    }
}

impl<T: AddressType> vstd::std_specs::cmp::PartialEqSpecImpl for Address<T> {
    open spec fn obeys_eq_spec() -> bool {
        true
    }

    open spec fn eq_spec(&self, other: &Self) -> bool {
        self@ == other@
    }
}

impl<T: AddressType> Eq for Address<T> {}

impl<T: AddressType> Clone for Address<T> {
    fn clone(&self) -> (r: Self)
        ensures
            r@ == self@,
    {
        Self { value: self.value, phantom: core::marker::PhantomData }
    }
}

impl<T: AddressType> Copy for Address<T> {}

proof fn lemma_shift_chain(x: u64)
    by (bit_vector)
    ensures
        x >> 12 >> 9 == x >> 21,
        x >> 12 >> 9 >> 9 == x >> 30,
        x >> 12 >> 9 >> 9 >> 9 == x >> 39,
{
}

/// A physical address is canonical exactly when it lies below 2^52.
pub proof fn lemma_physical_canonical_iff(addr: u64)
    by (bit_vector)
    ensures
        (addr >> 52 == 0) <==> addr < 0x10000000000000,
{
}

proof fn lemma_truncate_physical(addr: u64)
    by (bit_vector)
    ensures
        (addr & 0xFFFFFFFFFFFFF) >> 52 == 0,
{
}

proof fn lemma_sign_extend_canonical(addr: u64)
    by (bit_vector)
    ensures
        ((((addr << 16) as i64) >> 16) as u64) >> 47 == 0 || ((((addr << 16) as i64)
            >> 16) as u64) >> 47 == 0x1FFFF,
{
}

} // verus!
