//! The boot-info block the loader hands to the kernel: the firmware memory
//! map, the firmware configuration table, an optional framebuffer
//! description, and a magic constant that must check out before anything
//! else is believed — a mismatch means the loader and the kernel disagree
//! about their ABI, which is fatal.

use vstd::prelude::*;

verus! {

use crate::addr::Address;
use crate::addr::Virtual;

/// The expected tag of a well-formed boot-info block.
pub const BOOT_INFO_MAGIC: u32 = 0xAABB11FF;

/// A width and height in pixels.
#[derive(Clone, Copy, PartialEq, Eq, Structural, Debug)]
pub struct Size {
    /// Horizontal extent.
    pub width: u64,
    /// Vertical extent.
    pub height: u64,
}

/// Where the firmware put the framebuffer, and how large it is.
#[derive(Clone, Copy)]
pub struct FramebufferPointer {
    /// First byte of the framebuffer.
    pub pointer: Address<Virtual>,
    /// The framebuffer's dimensions.
    pub size: Size,
}

/// The boot-time handoff: memory map, configuration table, optional
/// framebuffer, all tagged by the magic constant.
#[verifier::reject_recursive_types(MM)]
#[verifier::reject_recursive_types(CTE)]
pub struct BootInfo<MM, CTE> {
    memory_map: Vec<MM>,
    config_table: Vec<CTE>,
    magic: u32,
    framebuffer: Option<FramebufferPointer>,
}

impl<MM, CTE> BootInfo<MM, CTE> {
    /// The memory map's entries.
    pub closed spec fn spec_memory_map(self) -> Seq<MM> {
        self.memory_map@
    }

    /// The configuration table's entries.
    pub closed spec fn spec_config_table(self) -> Seq<CTE> {
        self.config_table@
    }

    /// The tag the block carries.
    pub closed spec fn spec_magic(self) -> u32 {
        self.magic
    }

    /// The framebuffer description, if the firmware provided one.
    pub closed spec fn spec_framebuffer(self) -> Option<FramebufferPointer> {
        self.framebuffer
    }

    /// Assemble a boot-info block; it carries the expected magic.
    pub fn new(
        memory_map: Vec<MM>,
        config_table: Vec<CTE>,
        framebuffer: Option<FramebufferPointer>,
    ) -> (r: Self)
        ensures
            r.spec_memory_map() == memory_map@,
            r.spec_config_table() == config_table@,
            r.spec_framebuffer() == framebuffer,
            r.spec_magic() == BOOT_INFO_MAGIC,
    {
        Self { memory_map, config_table, magic: BOOT_INFO_MAGIC, framebuffer }
    }

    /// The memory map.
    pub fn memory_map(&self) -> (r: &Vec<MM>)
        ensures
            r@ == self.spec_memory_map(),
    {
        &self.memory_map
    }

    /// The configuration table.
    pub fn config_table(&self) -> (r: &Vec<CTE>)
        ensures
            r@ == self.spec_config_table(),
    {
        &self.config_table
    }

    /// The framebuffer description, if any.
    pub fn framebuffer_pointer(&self) -> (r: &Option<FramebufferPointer>)
        ensures
            r == &self.spec_framebuffer(),
    {
        &self.framebuffer
    }

    /// Whether the block carries the expected magic; a mismatch means the
    /// block is misaligned or corrupted, fatal to the caller.
    pub fn validate_magic(&self) -> (r: bool)
        ensures
            r == (self.spec_magic() == BOOT_INFO_MAGIC),
    {
        self.magic == BOOT_INFO_MAGIC
    }
}

} // verus!
