use kernel_mm::addr::Address;
use kernel_mm::addr::Physical;
use kernel_mm::frame::Frame;
use kernel_mm::frame_allocator::FrameAllocator;
use kernel_mm::frame_allocator::FrameError;
use kernel_mm::frame_allocator::FrameType;
use kernel_mm::frame_allocator::MemoryType;
use kernel_mm::frame_allocator::UEFIMemoryDescriptor;
use kernel_mm::frame_allocator::is_uefi_reserved_memory_type;

fn descriptor(ty: MemoryType, start: u64, pages: u64) -> UEFIMemoryDescriptor {
    UEFIMemoryDescriptor { ty, phys_start: Address::<Physical>::new(start), page_count: pages }
}

/// One usable region only: the allocator reserves the null frame, which
/// also carries its own state bitmap.
fn simple_allocator(pages: u64) -> FrameAllocator {
    let mmap = vec![descriptor(MemoryType::Conventional, 0, pages)];
    FrameAllocator::from_mmap(&mmap)
}

#[test]
fn init_over_reserved_and_usable_regions() {
    // A 64 KiB firmware-reserved region at the start of memory, then 1 MiB
    // of usable memory: exactly the 16 reserved frames (the null frame
    // among them) plus one frame for the allocator's own bitmap end up
    // reserved, and the counters balance.
    let mmap = vec![
        descriptor(MemoryType::Conventional, 0x10000, 256),
        descriptor(MemoryType::Reserved, 0x0, 16),
    ];
    let fa = FrameAllocator::from_mmap(&mmap);
    assert_eq!(fa.total_memory(), 0x110000);
    assert_eq!(fa.frame_count_exec(), 272);
    assert_eq!(fa.reserved_memory(), 17 * 4096);
    assert_eq!(fa.locked_memory(), 0);
    assert_eq!(fa.free_memory(), fa.total_memory() - fa.reserved_memory());
    // The null frame, the firmware region, and the bitmap frame itself.
    assert_eq!(fa.get(0), FrameType::Reserved);
    assert_eq!(fa.get(15), FrameType::Reserved);
    assert_eq!(fa.get(16), FrameType::Reserved);
    assert_eq!(fa.get(17), FrameType::Unallocated);
}

#[test]
fn reserved_memory_type_classification() {
    assert!(!is_uefi_reserved_memory_type(MemoryType::Conventional));
    assert!(is_uefi_reserved_memory_type(MemoryType::Reserved));
    assert!(is_uefi_reserved_memory_type(MemoryType::KernelCode));
    assert!(is_uefi_reserved_memory_type(MemoryType::KernelData));
}

#[test]
fn lock_and_free_move_counters() {
    let mut fa = simple_allocator(64);
    let free0 = fa.free_memory();
    let frame = Frame::from_index(5);
    assert!(fa.lock_frame(&frame).is_ok());
    assert_eq!(fa.get(5), FrameType::Allocated);
    assert_eq!(fa.free_memory(), free0 - 4096);
    assert_eq!(fa.locked_memory(), 4096);
    assert!(fa.free_frame(&frame).is_ok());
    assert_eq!(fa.get(5), FrameType::Unallocated);
    assert_eq!(fa.free_memory(), free0);
    assert_eq!(fa.locked_memory(), 0);
}

#[test]
fn double_lock_is_rejected() {
    let mut fa = simple_allocator(64);
    let frame = Frame::from_index(5);
    assert!(fa.lock_frame(&frame).is_ok());
    assert_eq!(fa.lock_frame(&frame), Err(FrameError::StateMismatch));
    assert_eq!(fa.get(5), FrameType::Allocated);
}

#[test]
fn double_free_is_rejected() {
    let mut fa = simple_allocator(64);
    let frame = Frame::from_index(5);
    assert!(fa.lock_frame(&frame).is_ok());
    assert!(fa.free_frame(&frame).is_ok());
    let free_before = fa.free_memory();
    assert_eq!(fa.free_frame(&frame), Err(FrameError::StateMismatch));
    // A rejected free never silently succeeds: nothing moved.
    assert_eq!(fa.free_memory(), free_before);
    assert_eq!(fa.get(5), FrameType::Unallocated);
}

#[test]
fn freeing_a_reserved_frame_is_rejected() {
    let mut fa = simple_allocator(64);
    // Frame 0 is reserved at initialization.
    assert_eq!(fa.free_frame(&Frame::null()), Err(FrameError::StateMismatch));
    assert_eq!(fa.get(0), FrameType::Reserved);
}

#[test]
fn reserve_frame_requires_unallocated() {
    let mut fa = simple_allocator(64);
    let frame = Frame::from_index(9);
    assert!(fa.reserve_frame(&frame).is_ok());
    assert_eq!(fa.get(9), FrameType::Reserved);
    assert_eq!(fa.reserve_frame(&frame), Err(FrameError::StateMismatch));
}

#[test]
fn lock_next_takes_first_free_frame() {
    let mut fa = simple_allocator(64);
    // Frame 0 holds the bitmap and is reserved; frame 1 is the first free.
    let f = fa.lock_next().unwrap();
    assert_eq!(f.index(), 1);
    assert_eq!(fa.get(1), FrameType::Allocated);
    let g = fa.lock_next().unwrap();
    assert_eq!(g.index(), 2);
}

#[test]
fn lock_next_count_returns_exact_run() {
    let mut fa = simple_allocator(64);
    // Occupy frame 2 so the first run of three whole frames starts at 3.
    assert!(fa.lock_frame(&Frame::from_index(2)).is_ok());
    let mut run = fa.lock_next_count(3).unwrap();
    assert_eq!(run.len(), 3);
    assert_eq!(run.start_frame().index(), 3);
    let mut yielded = 0;
    while let Some(f) = run.next() {
        assert_eq!(fa.get(f.index()), FrameType::Allocated);
        yielded += 1;
    }
    assert_eq!(yielded, 3);
}

#[test]
fn lock_next_count_runs_never_overlap() {
    let mut fa = simple_allocator(64);
    let a = fa.lock_next_count(4).unwrap();
    let b = fa.lock_next_count(4).unwrap();
    let a_start = a.start_frame().index();
    let b_start = b.start_frame().index();
    assert!(a_start + 4 <= b_start || b_start + 4 <= a_start);
}

#[test]
fn lock_next_count_exhaustion_returns_none() {
    let mut fa = simple_allocator(8);
    // 8 frames total, frame 0 reserved: no run of 8 free frames exists.
    assert!(fa.lock_next_count(8).is_none());
    // But a run of 7 does.
    assert!(fa.lock_next_count(7).is_some());
    assert!(fa.lock_next().is_none());
}

#[test]
fn frame_iterator_bulk_transitions() {
    let mut fa = simple_allocator(64);
    let run = fa.lock_next_count(5).unwrap();
    let used_before = fa.locked_memory();
    fa.free_frames(run);
    assert_eq!(fa.locked_memory(), used_before - 5 * 4096);
    for i in run.start_frame().index()..run.start_frame().index() + 5 {
        assert_eq!(fa.get(i), FrameType::Unallocated);
    }
}

#[test]
fn frame_type_encoding_round_trip() {
    assert_eq!(FrameType::Unallocated.as_u64(), 0);
    assert_eq!(FrameType::Allocated.as_u64(), 1);
    assert_eq!(FrameType::Reserved.as_u64(), 2);
    assert_eq!(FrameType::Corrupted.as_u64(), 3);
    assert_eq!(FrameType::from_u64(0), FrameType::Unallocated);
    assert_eq!(FrameType::from_u64(1), FrameType::Allocated);
    assert_eq!(FrameType::from_u64(2), FrameType::Reserved);
    assert_eq!(FrameType::from_u64(3), FrameType::Corrupted);
}
