//! ELF program headers, read field by field out of a little-endian byte
//! buffer: the segment type, its flags, and where the segment lives on disk
//! and in memory.

use vstd::prelude::*;

verus! {

/// Size in bytes of one 64-bit ELF program header.
pub const PROGRAM_HEADER_SIZE: u64 = 56;

/// The type of an ELF segment.
#[allow(non_camel_case_types)]
#[derive(Clone, Copy, PartialEq, Eq, Structural, Debug)]
pub enum ProgramHeaderType {
    /// Unused entry.
    PT_NULL,
    /// Loadable segment.
    PT_LOAD,
    /// Dynamic-linking tables.
    PT_DYNAMIC,
    /// Interpreter path.
    PT_INTERP,
    /// Auxiliary notes.
    PT_NOTE,
    /// Reserved.
    PT_SHLIB,
    /// The program-header table itself.
    PT_PHDR,
    /// Thread-local storage template.
    PT_TLS,
    /// First OS-specific value.
    PT_LOOS,
    /// Last OS-specific value.
    PT_HIOS,
    /// First processor-specific value.
    PT_LOPROC,
    /// Last processor-specific value.
    PT_HIPROC,
}

impl ProgramHeaderType {
    /// The header type a raw value encodes, if any.
    pub open spec fn spec_from_u32(value: u32) -> Option<ProgramHeaderType> {
        if value == 0 {
            Some(ProgramHeaderType::PT_NULL)
        } else if value == 1 {
            Some(ProgramHeaderType::PT_LOAD)
        } else if value == 2 {
            Some(ProgramHeaderType::PT_DYNAMIC)
        } else if value == 3 {
            Some(ProgramHeaderType::PT_INTERP)
        } else if value == 4 {
            Some(ProgramHeaderType::PT_NOTE)
        } else if value == 5 {
            Some(ProgramHeaderType::PT_SHLIB)
        } else if value == 6 {
            Some(ProgramHeaderType::PT_PHDR)
        } else if value == 7 {
            Some(ProgramHeaderType::PT_TLS)
        } else if value == 0x60000000 {
            Some(ProgramHeaderType::PT_LOOS)
        } else if value == 0x6FFFFFFF {
            Some(ProgramHeaderType::PT_HIOS)
        } else if value == 0x70000000 {
            Some(ProgramHeaderType::PT_LOPROC)
        } else if value == 0x7FFFFFFF {
            Some(ProgramHeaderType::PT_HIPROC)
        } else {
            None
        }
    }

    /// Decode a raw segment-type value.
    pub fn from_u32(value: u32) -> (r: Option<ProgramHeaderType>)
        ensures
            r == Self::spec_from_u32(value),
    {
        if value == 0 {
            Some(ProgramHeaderType::PT_NULL)
        } else if value == 1 {
            Some(ProgramHeaderType::PT_LOAD)
        } else if value == 2 {
            Some(ProgramHeaderType::PT_DYNAMIC)
        } else if value == 3 {
            Some(ProgramHeaderType::PT_INTERP)
        } else if value == 4 {
            Some(ProgramHeaderType::PT_NOTE)
        } else if value == 5 {
            Some(ProgramHeaderType::PT_SHLIB)
        } else if value == 6 {
            Some(ProgramHeaderType::PT_PHDR)
        } else if value == 7 {
            Some(ProgramHeaderType::PT_TLS)
        } else if value == 0x60000000 {
            Some(ProgramHeaderType::PT_LOOS)
        } else if value == 0x6FFFFFFF {
            Some(ProgramHeaderType::PT_HIOS)
        } else if value == 0x70000000 {
            Some(ProgramHeaderType::PT_LOPROC)
        } else if value == 0x7FFFFFFF {
            Some(ProgramHeaderType::PT_HIPROC)
        } else {
            None
        }
    }
}

/// Little-endian 32-bit value at `off`.
pub open spec fn spec_le_u32(b: Seq<u8>, off: int) -> int {
    b[off] + 256 * b[off + 1] + 65536 * b[off + 2] + 16777216 * b[off + 3]
}

/// Little-endian 64-bit value at `off`.
pub open spec fn spec_le_u64(b: Seq<u8>, off: int) -> int {
    spec_le_u32(b, off) + 0x100000000 * spec_le_u32(b, off + 4)
}

/// Little-endian 32-bit read.
pub fn le_u32(bytes: &Vec<u8>, off: usize) -> (r: u32)
    requires
        off + 4 <= bytes@.len(),
    ensures
        r == spec_le_u32(bytes@, off as int),
{
    let n: usize = bytes.len();
    bytes[off] as u32 + 256 * (bytes[off + 1] as u32) + 65536 * (bytes[off + 2] as u32) + 16777216
        * (bytes[off + 3] as u32)
}

/// Little-endian 64-bit read.
pub fn le_u64(bytes: &Vec<u8>, off: usize) -> (r: u64)
    requires
        off + 8 <= bytes@.len(),
    ensures
        r == spec_le_u64(bytes@, off as int),
{
    let n: usize = bytes.len();
    le_u32(bytes, off) as u64 + 0x100000000 * (le_u32(bytes, off + 4) as u64)
}

/// One 64-bit ELF program header.
#[derive(Clone, Copy, PartialEq, Eq, Structural, Debug)]
pub struct ProgramHeader {
    /// The segment's type.
    pub ph_type: ProgramHeaderType,
    /// The segment's flags.
    pub flags: u32,
    /// Offset of the segment in the file image.
    pub offset: u64,
    /// Where the segment is loaded in virtual memory.
    pub vaddr: u64,
    /// Where the segment is loaded in physical memory.
    pub paddr: u64,
    /// Bytes the segment occupies in the file image.
    pub disk_size: u64,
    /// Bytes the segment occupies in memory.
    pub mem_size: u64,
    /// The segment's required alignment.
    pub alignment: u64,
}

impl ProgramHeader {
    /// Read a program header off the front of `bytes`: the buffer must hold
    /// a whole header and its type field must carry a known value.
    pub fn parse(bytes: &Vec<u8>) -> (r: Option<ProgramHeader>)
        ensures
            r is Some <==> bytes@.len() >= PROGRAM_HEADER_SIZE
                && ProgramHeaderType::spec_from_u32(spec_le_u32(bytes@, 0) as u32) is Some,
            r is Some ==> ({
                let h = r->Some_0;
                &&& Some(h.ph_type) == ProgramHeaderType::spec_from_u32(
                    spec_le_u32(bytes@, 0) as u32,
                )
                &&& h.flags == spec_le_u32(bytes@, 4)
                &&& h.offset == spec_le_u64(bytes@, 8)
                &&& h.vaddr == spec_le_u64(bytes@, 16)
                &&& h.paddr == spec_le_u64(bytes@, 24)
                &&& h.disk_size == spec_le_u64(bytes@, 32)
                &&& h.mem_size == spec_le_u64(bytes@, 40)
                &&& h.alignment == spec_le_u64(bytes@, 48)
            }),
    {
        if bytes.len() < 56 {
            return None;
        }
        let raw_type: u32 = le_u32(bytes, 0);
        let decoded = ProgramHeaderType::from_u32(raw_type);
        match decoded {
            None => None,
            Some(ph_type) => Some(
                ProgramHeader {
                    ph_type,
                    flags: le_u32(bytes, 4),
                    offset: le_u64(bytes, 8),
                    vaddr: le_u64(bytes, 16),
                    paddr: le_u64(bytes, 24),
                    disk_size: le_u64(bytes, 32),
                    mem_size: le_u64(bytes, 40),
                    alignment: le_u64(bytes, 48),
                },
            ),
        }
    }

    /// The segment's flags.
    pub fn flags(&self) -> (r: u32)
        ensures
            r == self.flags,
    {
        self.flags
    }

    /// The segment's type.
    pub fn ph_type(&self) -> (r: ProgramHeaderType)
        ensures
            r == self.ph_type,
    {
        self.ph_type
    }

    /// Offset of the segment in the file image.
    pub fn offset(&self) -> (r: u64)
        ensures
            r == self.offset,
    {
        self.offset
    }

    /// Where the segment is loaded in virtual memory.
    pub fn virtual_address(&self) -> (r: u64)
        ensures
            r == self.vaddr,
    {
        self.vaddr
    }

    /// Where the segment is loaded in physical memory.
    pub fn physical_address(&self) -> (r: u64)
        ensures
            r == self.paddr,
    {
        self.paddr
    }

    /// Bytes the segment occupies in the file image.
    pub fn disk_size(&self) -> (r: u64)
        ensures
            r == self.disk_size,
    {
        self.disk_size
    }

    /// Bytes the segment occupies in memory.
    pub fn memory_size(&self) -> (r: u64)
        ensures
            r == self.mem_size,
    {
        self.mem_size
    }

    /// The segment's required alignment.
    pub fn alignment(&self) -> (r: u64)
        ensures
            r == self.alignment,
    {
        self.alignment
    }
}

} // verus!
