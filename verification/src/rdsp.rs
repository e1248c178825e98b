//! The root system description pointer of the ACPI tables: the two
//! revisions of its on-disk layout, with accessors for the fields the
//! kernel reads. Signature and OEM identifier are handed out as the raw
//! ASCII bytes they are stored as.

use vstd::prelude::*;

verus! {

use crate::addr::Address;
use crate::addr::Physical;

/// The descriptor's text fields hold printable ASCII, as the tables store
/// them; bytes outside that range would make the original text accessors
/// halt.
pub open spec fn spec_is_ascii(bytes: Seq<u8>) -> bool {
    forall|i: int| 0 <= i < bytes.len() ==> bytes[i] < 0x80
}

/// The first-revision root system description pointer.
#[derive(Clone, Copy)]
pub struct RDSPDescriptor {
    /// The table's ASCII signature.
    pub signature: [u8; 8],
    /// Sums the table's bytes to zero.
    pub checksum: u8,
    /// The vendor's ASCII identifier.
    pub oem_id: [u8; 6],
    /// The layout revision.
    pub revision: u8,
    /// Physical address of the root system description table.
    pub rsdt_addr: u32,
}

impl RDSPDescriptor {
    /// The table's ASCII signature bytes.
    pub fn signature(&self) -> (r: [u8; 8])
        requires
            spec_is_ascii(self.signature@),
        ensures
            r == self.signature,
    {
        self.signature
    }

    /// The vendor's ASCII identifier bytes.
    pub fn oem_id(&self) -> (r: [u8; 6])
        requires
            spec_is_ascii(self.oem_id@),
        ensures
            r == self.oem_id,
    {
        self.oem_id
    }
}

/// The second-revision root system description pointer, extending the
/// first with a 64-bit table address.
#[derive(Clone, Copy)]
pub struct RDSPDescriptor2 {
    /// The first-revision fields.
    pub base: RDSPDescriptor,
    /// The table's length in bytes.
    pub len: u32,
    /// Physical address of the extended system description table.
    pub xsdt_addr: Address<Physical>,
    /// Sums the extended fields' bytes to zero.
    pub ext_checksum: u8,
    /// Unused padding.
    pub reserved: [u8; 3],
}

impl RDSPDescriptor2 {
    /// The table's ASCII signature bytes.
    pub fn signature(&self) -> (r: [u8; 8])
        requires
            spec_is_ascii(self.base.signature@),
        ensures
            r == self.base.signature,
    {
        self.base.signature()
    }

    /// The vendor's ASCII identifier bytes.
    pub fn oem_id(&self) -> (r: [u8; 6])
        requires
            spec_is_ascii(self.base.oem_id@),
        ensures
            r == self.base.oem_id,
    {
        self.base.oem_id()
    }

    /// Physical address of the extended system description table.
    pub fn xsdt_addr(&self) -> (r: Address<Physical>)
        ensures
            r@ == self.xsdt_addr@,
    {
        self.xsdt_addr
    }
}

} // verus!
