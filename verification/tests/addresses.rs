use kernel_mm::addr::Address;
use kernel_mm::addr::Physical;
use kernel_mm::addr::Virtual;
use kernel_mm::align_down;
use kernel_mm::align_down_div;
use kernel_mm::align_up;
use kernel_mm::align_up_div;
use kernel_mm::frame::Frame;
use kernel_mm::frame::FrameIterator;
use kernel_mm::frame::Page;
use kernel_mm::to_kibibytes;
use kernel_mm::to_mibibytes;

#[test]
fn physical_address_basics() {
    let a = Address::<Physical>::new(0x1234);
    assert_eq!(a.as_size(), 0x1234);
    assert!(!a.is_null());
    let z = Address::<Physical>::zero();
    assert!(z.is_null());
    assert_eq!(z.as_size(), 0);
}

#[test]
fn address_equality_compares_offsets() {
    let a = Address::<Physical>::new(0x1234);
    let b = Address::<Physical>::new(0x1234);
    let c = Address::<Physical>::new(0x1235);
    assert!(a == b);
    assert!(a != c);
}

#[test]
fn address_arithmetic_revalidates() {
    let a = Address::<Physical>::new(0x1000);
    assert_eq!(a.add(0x234).as_size(), 0x1234);
    assert_eq!(a.sub(0x800).as_size(), 0x800);
    let v = Address::<Virtual>::new(0x7FFF_FFFF_FFFF);
    // Crossing bit 47 sign-extends, as construction does.
    assert_eq!(v.add(1).as_size(), 0xFFFF_8000_0000_0000);
    assert_eq!(v.sub(0xFFF).as_size(), 0x7FFF_FFFF_F000);
}

#[test]
fn physical_new_truncate_masks_high_bits() {
    let a = Address::<Physical>::new_truncate(u64::MAX);
    assert_eq!(a.as_size(), 0xF_FFFF_FFFF_FFFF);
    let b = Address::<Physical>::new_truncate(0x5555);
    assert_eq!(b.as_size(), 0x5555);
}

#[test]
fn virtual_new_sign_extends_bit_47() {
    let a = Address::<Virtual>::new(0x0000_8000_0000_0000);
    assert_eq!(a.as_size(), 0xFFFF_8000_0000_0000);
    let b = Address::<Virtual>::new(0x0000_7FFF_FFFF_FFFF);
    assert_eq!(b.as_size(), 0x0000_7FFF_FFFF_FFFF);
    let c = Address::<Virtual>::new(0xFFFF_FFFF_FFFF_FFFF);
    assert_eq!(c.as_size(), 0xFFFF_FFFF_FFFF_FFFF);
}

#[test]
fn virtual_page_table_indices() {
    let raw: u64 = (3u64 << 39) | (5u64 << 30) | (7u64 << 21) | (9u64 << 12) | 0xABC;
    let a = Address::<Virtual>::new(raw);
    assert_eq!(a.page_offset(), 0xABC);
    assert_eq!(a.p1_index(), 9);
    assert_eq!(a.p2_index(), 7);
    assert_eq!(a.p3_index(), 5);
    assert_eq!(a.p4_index(), 3);
}

#[test]
fn address_align_round_trips() {
    let a = Address::<Physical>::new(0x1001);
    assert_eq!(a.align_up(0x1000).as_size(), 0x2000);
    assert_eq!(a.align_down(0x1000).as_size(), 0x1000);
    let b = Address::<Physical>::new(0x2000);
    assert_eq!(b.align_up(0x1000).as_size(), 0x2000);
    assert_eq!(b.align_down(0x1000).as_size(), 0x2000);
}

#[test]
fn alignment_helpers_exact_values() {
    assert_eq!(align_up(5, 16), 16);
    assert_eq!(align_up(16, 16), 16);
    assert_eq!(align_up(0, 16), 0);
    assert_eq!(align_down(31, 16), 16);
    assert_eq!(align_up_div(100, 16), 7);
    assert_eq!(align_up_div(96, 16), 6);
    assert_eq!(align_down_div(100, 16), 6);
}

#[test]
fn unit_conversions_exact_values() {
    assert_eq!(to_kibibytes(2048), 2);
    assert_eq!(to_mibibytes(3 * 0x100000), 3);
    assert_eq!(to_kibibytes(1023), 0);
}

#[test]
fn frame_identity_and_address() {
    let f = Frame::from_index(7);
    assert_eq!(f.index(), 7);
    assert_eq!(f.addr().as_size(), 7 * 4096);
    assert_eq!(Frame::null().index(), 0);
}

#[test]
fn frame_iterator_walks_and_restarts() {
    let mut it = FrameIterator::new(2, 5);
    assert_eq!(it.len(), 3);
    assert_eq!(it.remaining(), 3);
    assert_eq!(it.next().unwrap().index(), 2);
    assert_eq!(it.next().unwrap().index(), 3);
    assert_eq!(it.remaining(), 1);
    assert_eq!(it.next().unwrap().index(), 4);
    assert!(it.next().is_none());
    assert_eq!(it.remaining(), 0);
    it.reset();
    assert_eq!(it.remaining(), 3);
    assert_eq!(it.next().unwrap().index(), 2);
    assert_eq!(it.start_frame().index(), 2);
}

#[test]
fn frame_range_count_from_address() {
    let base = Address::<Physical>::new(0x10000);
    let it = Frame::range_count(base, 4);
    assert_eq!(it.len(), 4);
    assert_eq!(it.start_frame().index(), 16);
}

#[test]
fn page_identity_and_offset() {
    let p = Page::from_index(3);
    assert_eq!(p.index(), 3);
    assert_eq!(p.offset(2).index(), 5);
    assert_eq!(Page::null().index(), 0);
    let a = Address::<Virtual>::new(0x5432);
    assert_eq!(Page::from_addr(a).index(), 5);
}
