use kernel_mm::addr::Address;
use kernel_mm::addr::Physical;
use kernel_mm::addr::Virtual;
use kernel_mm::block::BlockPage;
use kernel_mm::block::SectionState;
use kernel_mm::boot::BootInfo;
use kernel_mm::boot::FramebufferPointer;
use kernel_mm::boot::Size;
use kernel_mm::program_header::ProgramHeader;
use kernel_mm::program_header::ProgramHeaderType;
use kernel_mm::program_header::le_u32;
use kernel_mm::program_header::le_u64;
use kernel_mm::rdsp::RDSPDescriptor;
use kernel_mm::rdsp::RDSPDescriptor2;

#[test]
fn boot_info_carries_the_magic() {
    let info: BootInfo<u64, u32> = BootInfo::new(vec![1, 2, 3], vec![7], None);
    assert!(info.validate_magic());
    assert_eq!(info.memory_map().len(), 3);
    assert_eq!(info.memory_map()[1], 2);
    assert_eq!(info.config_table().len(), 1);
    assert!(info.framebuffer_pointer().is_none());
}

#[test]
fn boot_info_keeps_the_framebuffer() {
    let fb = FramebufferPointer {
        pointer: Address::<Virtual>::new(0xB8000),
        size: Size { width: 640, height: 480 },
    };
    let info: BootInfo<u64, u32> = BootInfo::new(vec![], vec![], Some(fb));
    let got = info.framebuffer_pointer().as_ref().unwrap();
    assert_eq!(got.size, Size { width: 640, height: 480 });
    assert_eq!(got.pointer.as_size(), 0xB8000);
}

#[test]
fn little_endian_reads_exact_values() {
    let bytes = vec![0x78, 0x56, 0x34, 0x12, 0xEF, 0xCD, 0xAB, 0x89];
    assert_eq!(le_u32(&bytes, 0), 0x12345678);
    assert_eq!(le_u32(&bytes, 4), 0x89ABCDEF);
    assert_eq!(le_u64(&bytes, 0), 0x89ABCDEF_12345678);
}

fn header_bytes() -> Vec<u8> {
    let mut b = vec![0u8; 56];
    b[0] = 1; // PT_LOAD
    b[4] = 5; // flags: readable, executable
    b[8] = 0x00;
    b[9] = 0x10; // offset 0x1000
    b[16] = 0x00;
    b[18] = 0x40; // vaddr 0x400000
    b[24] = 0x00;
    b[26] = 0x20; // paddr 0x200000
    b[32] = 0x34;
    b[33] = 0x12; // disk size 0x1234
    b[40] = 0x78;
    b[41] = 0x56; // memory size 0x5678
    b[48] = 0x00;
    b[49] = 0x10; // alignment 0x1000
    b
}

#[test]
fn program_header_parse_reads_every_field() {
    let b = header_bytes();
    let h = ProgramHeader::parse(&b).unwrap();
    assert_eq!(h.ph_type(), ProgramHeaderType::PT_LOAD);
    assert_eq!(h.flags(), 5);
    assert_eq!(h.offset(), 0x1000);
    assert_eq!(h.virtual_address(), 0x400000);
    assert_eq!(h.physical_address(), 0x200000);
    assert_eq!(h.disk_size(), 0x1234);
    assert_eq!(h.memory_size(), 0x5678);
    assert_eq!(h.alignment(), 0x1000);
}

#[test]
fn program_header_parse_rejects_bad_input() {
    let short = vec![0u8; 55];
    assert!(ProgramHeader::parse(&short).is_none());
    let mut unknown = header_bytes();
    unknown[0] = 99;
    assert!(ProgramHeader::parse(&unknown).is_none());
}

#[test]
fn program_header_type_decoding() {
    assert_eq!(ProgramHeaderType::from_u32(0), Some(ProgramHeaderType::PT_NULL));
    assert_eq!(ProgramHeaderType::from_u32(7), Some(ProgramHeaderType::PT_TLS));
    assert_eq!(ProgramHeaderType::from_u32(0x60000000), Some(ProgramHeaderType::PT_LOOS));
    assert_eq!(ProgramHeaderType::from_u32(0x7FFFFFFF), Some(ProgramHeaderType::PT_HIPROC));
    assert_eq!(ProgramHeaderType::from_u32(42), None);
}

#[test]
fn rdsp_descriptors_hand_back_their_fields() {
    let base = RDSPDescriptor {
        signature: *b"RSD PTR ",
        checksum: 0,
        oem_id: *b"ACMEOS",
        revision: 2,
        rsdt_addr: 0x1000,
    };
    assert_eq!(&base.signature(), b"RSD PTR ");
    assert_eq!(&base.oem_id(), b"ACMEOS");
    let v2 = RDSPDescriptor2 {
        base,
        len: 36,
        xsdt_addr: Address::<Physical>::new(0x7FE0000),
        ext_checksum: 0,
        reserved: [0; 3],
    };
    assert_eq!(&v2.signature(), b"RSD PTR ");
    assert_eq!(&v2.oem_id(), b"ACMEOS");
    assert_eq!(v2.xsdt_addr().as_size(), 0x7FE0000);
}

#[test]
fn block_page_bit_operations() {
    let mut bp = BlockPage::empty();
    assert!(bp.is_empty());
    assert!(!bp.is_full());
    bp.set_block(5, true);
    assert!(bp.get_block(5));
    assert!(!bp.get_block(4));
    assert!(!bp.is_empty());
    bp.set_full();
    assert!(bp.is_full());
    assert!(bp.get_block(255));
    bp.set_empty();
    assert!(bp.is_empty());
    bp.set_range(10, 20, true);
    for i in 0..256 {
        assert_eq!(bp.get_block(i), (10..20).contains(&i));
    }
}

#[test]
fn section_state_hysteresis() {
    let empty = SectionState::empty();
    assert!(empty.is_empty());
    let alloc = SectionState { had_bits: false, has_bits: true };
    assert!(alloc.is_alloc());
    let dealloc = SectionState { had_bits: true, has_bits: false };
    assert!(dealloc.is_dealloc());
    assert!(SectionState::should_alloc(&[alloc, empty, empty, empty]));
    assert!(!SectionState::should_alloc(&[alloc, dealloc, empty, empty]));
    assert!(!SectionState::should_alloc(&[empty, empty, empty, empty]));
    assert!(SectionState::should_dealloc(&[dealloc, empty, empty, empty]));
    assert!(!SectionState::should_dealloc(&[dealloc, alloc, empty, empty]));
    assert!(!SectionState::should_dealloc(&[empty, empty, empty, empty]));
}
