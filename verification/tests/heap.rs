use kernel_mm::addr::Address;
use kernel_mm::addr::Physical;
use kernel_mm::block_allocator::AllocError;
use kernel_mm::block_allocator::BlockAllocator;
use kernel_mm::block_allocator::DeallocError;
use kernel_mm::block_allocator::STACK_SIZE;
use kernel_mm::block_allocator::StackRelocation;
use kernel_mm::frame::Frame;
use kernel_mm::frame::FrameIterator;
use kernel_mm::frame::Page;
use kernel_mm::frame_allocator::FrameAllocator;
use kernel_mm::frame_allocator::MemoryType;
use kernel_mm::frame_allocator::UEFIMemoryDescriptor;
use kernel_mm::mmio::MMIOError;
use kernel_mm::mmio::unmapped_mmio;

fn usable_memory(pages: u64) -> FrameAllocator {
    let mmap = vec![UEFIMemoryDescriptor {
        ty: MemoryType::Conventional,
        phys_start: Address::<Physical>::new(0),
        page_count: pages,
    }];
    FrameAllocator::from_mmap(&mmap)
}

#[test]
fn alloc_returns_block_aligned_pointers() {
    let mut fa = usable_memory(64);
    let mut ba = BlockAllocator::new();
    let p1 = ba.allocate(&mut fa, 100, 16).unwrap();
    assert_eq!(p1 % 16, 0);
    let p2 = ba.allocate(&mut fa, 64, 32).unwrap();
    assert_eq!(p2 % 32, 0);
    // An alignment that is not a multiple of 16 is served at 16.
    let p3 = ba.allocate(&mut fa, 10, 7).unwrap();
    assert_eq!(p3 % 16, 0);
    assert_eq!(ba.minimum_alignment(), 16);
}

#[test]
fn alloc_allocations_do_not_overlap() {
    let mut fa = usable_memory(64);
    let mut ba = BlockAllocator::new();
    let p1 = ba.allocate(&mut fa, 100, 16).unwrap();
    let p2 = ba.allocate(&mut fa, 100, 16).unwrap();
    assert!(p1 + 100 <= p2 || p2 + 100 <= p1);
}

#[test]
fn alloc_then_dealloc_frees_the_backing_frame() {
    let mut fa = usable_memory(64);
    let mut ba = BlockAllocator::new();
    let free_start = fa.free_memory();
    let p = ba.allocate(&mut fa, 100, 16).unwrap();
    // One frame backs the touched page; one frame backs the map's own
    // metadata page.
    assert_eq!(fa.free_memory(), free_start - 2 * 4096);
    assert!(ba.translate_page(&Page::from_index(p / 4096)).is_some());
    assert!(ba.dealloc(&mut fa, p, 100).is_ok());
    // The page went empty, so exactly its one frame came back.
    assert_eq!(fa.free_memory(), free_start - 4096);
    assert!(ba.translate_page(&Page::from_index(p / 4096)).is_none());
}

#[test]
fn double_dealloc_is_rejected() {
    let mut fa = usable_memory(64);
    let mut ba = BlockAllocator::new();
    let p = ba.allocate(&mut fa, 100, 16).unwrap();
    assert!(ba.dealloc(&mut fa, p, 100).is_ok());
    let free_before = fa.free_memory();
    assert_eq!(ba.dealloc(&mut fa, p, 100), Err(DeallocError::NotAllocated));
    // Never silently succeeds: nothing changed.
    assert_eq!(fa.free_memory(), free_before);
}

#[test]
fn dealloc_beyond_the_heap_is_rejected() {
    let mut fa = usable_memory(64);
    let mut ba = BlockAllocator::new();
    let _ = ba.allocate(&mut fa, 100, 16).unwrap();
    assert_eq!(ba.dealloc(&mut fa, 0x4000_0000, 16), Err(DeallocError::OutOfRange));
}

#[test]
fn partial_dealloc_keeps_page_mapped() {
    // alloc(100, 16), alloc(16, 16), dealloc of the first: the second
    // allocation's blocks stay set, and the page keeps its backing frame.
    let mut fa = usable_memory(64);
    let mut ba = BlockAllocator::new();
    let a = ba.allocate(&mut fa, 100, 16).unwrap();
    let b = ba.allocate(&mut fa, 16, 16).unwrap();
    assert_eq!(a / 4096, b / 4096);
    let frame_before = ba.translate_page(&Page::from_index(a / 4096)).unwrap();
    let free_before = fa.free_memory();
    assert!(ba.dealloc(&mut fa, a, 100).is_ok());
    // Page still nonempty: no unmap, no frame freed.
    assert_eq!(fa.free_memory(), free_before);
    let frame_after = ba.translate_page(&Page::from_index(a / 4096)).unwrap();
    assert_eq!(frame_before.index(), frame_after.index());
    // The second allocation is still deallocatable; the first is gone.
    assert!(ba.dealloc(&mut fa, b, 16).is_ok());
    assert_eq!(ba.dealloc(&mut fa, a, 100), Err(DeallocError::NotAllocated));
}

#[test]
fn growth_preserves_existing_allocations() {
    let mut fa = usable_memory(256);
    let mut ba = BlockAllocator::new();
    let a = ba.allocate(&mut fa, 16, 16).unwrap();
    let frame_before = ba.translate_page(&Page::from_index(a / 4096)).unwrap();
    let pages_before = ba.page_count();
    // Large enough to force the map to grow past its current capacity.
    let b = ba.allocate(&mut fa, 600_000, 16).unwrap();
    assert!(ba.page_count() > pages_before);
    // The earlier allocation's page still maps to the same frame, and its
    // blocks are still allocated: deallocating them succeeds exactly once.
    let frame_after = ba.translate_page(&Page::from_index(a / 4096)).unwrap();
    assert_eq!(frame_before.index(), frame_after.index());
    assert!(ba.dealloc(&mut fa, a, 16).is_ok());
    assert!(ba.dealloc(&mut fa, b, 600_000).is_ok());
}

#[test]
fn grow_extends_map_and_takes_metadata_frames() {
    let mut fa = usable_memory(64);
    let mut ba = BlockAllocator::new();
    assert_eq!(ba.page_count(), 0);
    let free0 = fa.free_memory();
    assert!(ba.grow(&mut fa, 1).is_ok());
    assert_eq!(ba.page_count(), 128);
    assert_eq!(fa.free_memory(), free0 - 4096);
    // Doubling: the next growth step goes to two metadata pages.
    assert!(ba.grow(&mut fa, 32768).is_ok());
    assert_eq!(ba.page_count(), 256);
}

#[test]
fn alloc_exhaustion_reports_out_of_frames() {
    // Three frames of memory, one reserved for the bitmap: a request that
    // needs more backing than exists must fail and leave the heap's
    // mappings unchanged.
    let mut fa = usable_memory(3);
    let mut ba = BlockAllocator::new();
    let r = ba.allocate(&mut fa, 3 * 4096, 16);
    assert_eq!(r, Err(AllocError::OutOfFrames));
}

#[test]
fn dealloc_zero_bytes_is_trivial() {
    let mut fa = usable_memory(64);
    let mut ba = BlockAllocator::new();
    let p = ba.allocate(&mut fa, 100, 16).unwrap();
    let free_before = fa.free_memory();
    assert!(ba.dealloc(&mut fa, p, 0).is_ok());
    assert_eq!(fa.free_memory(), free_before);
    // The allocation itself is untouched and still releasable.
    assert!(ba.dealloc(&mut fa, p, 100).is_ok());
}

#[test]
fn alloc_zero_bytes_is_trivial() {
    let mut fa = usable_memory(64);
    let mut ba = BlockAllocator::new();
    let free0 = fa.free_memory();
    assert_eq!(ba.allocate(&mut fa, 0, 16), Ok(0));
    assert_eq!(fa.free_memory(), free0);
}

#[test]
fn alloc_to_maps_the_given_frames_in_order() {
    let mut fa = usable_memory(64);
    let mut ba = BlockAllocator::new();
    let run = fa.lock_next_count(3).unwrap();
    let base = run.start_frame().index();
    let ptr = ba.alloc_to(&mut fa, &run).unwrap();
    assert_eq!(ptr % 4096, 0);
    let pstart = ptr / 4096;
    for j in 0..3 {
        let mapped = ba.translate_page(&Page::from_index(pstart + j)).unwrap();
        assert_eq!(mapped.index(), base + j);
    }
    // No frame was consumed for the pages themselves beyond the metadata:
    // the caller already owned the run.
    assert!(ba.translate_page(&Page::from_index(pstart + 3)).is_none());
}

#[test]
fn identity_map_records_the_identity() {
    let mut fa = usable_memory(64);
    let mut ba = BlockAllocator::new();
    // Identity bookkeeping is for reserved memory.
    assert!(fa.reserve_frame(&Frame::from_index(5)).is_ok());
    assert!(fa.reserve_frame(&Frame::from_index(9)).is_ok());
    assert!(ba.identity_map(&mut fa, &Frame::from_index(5), true).is_ok());
    let mapped = ba.translate_page(&Page::from_index(5)).unwrap();
    assert_eq!(mapped.index(), 5);
    assert!(ba.identity_map(&mut fa, &Frame::from_index(9), false).is_ok());
    let mapped2 = ba.translate_page(&Page::from_index(9)).unwrap();
    assert_eq!(mapped2.index(), 9);
}

#[test]
fn init_relocates_the_stack_and_releases_boot_frames() {
    let mmap = vec![
        UEFIMemoryDescriptor {
            ty: MemoryType::Conventional,
            phys_start: Address::<Physical>::new(0),
            page_count: 2048,
        },
        UEFIMemoryDescriptor {
            ty: MemoryType::Reserved,
            phys_start: Address::<Physical>::new(0x20000),
            page_count: 4,
        },
    ];
    let mut fa = FrameAllocator::from_mmap(&mmap);
    let mut ba = BlockAllocator::new();
    let mut stack_frames = FrameIterator::new(32, 36);
    let info = ba.init(&mut fa, &mut stack_frames).unwrap();
    assert_eq!(info.stack_size, STACK_SIZE);
    assert_eq!(info.old_stack_base, 32 * 4096);
    assert_eq!(info.new_stack_base % 16, 0);
    // The boot stack's pages are released from the heap's view.
    for p in 32..36 {
        assert!(ba.translate_page(&Page::from_index(p)).is_none());
    }
    // Other reserved frames stay identity-mapped (the null frame holds the
    // frame allocator's bitmap and is reserved).
    let nullmap = ba.translate_page(&Page::from_index(0)).unwrap();
    assert_eq!(nullmap.index(), 0);
    // The iterator is handed back restartable.
    assert_eq!(stack_frames.remaining(), 4);
    // The physical-memory window sits just past the represented memory.
    let window = ba.physical_memory(Address::<Physical>::new(0x10));
    assert_eq!(window.as_size(), 2048 * 4096 + 0x10);
}

#[test]
fn stack_relocation_signed_delta() {
    let down = StackRelocation { old_stack_base: 0x8000, new_stack_base: 0x3000, stack_size: 16 };
    assert!(down.delta_is_downward());
    assert_eq!(down.delta_magnitude(), 0x5000);
    let up = StackRelocation { old_stack_base: 0x3000, new_stack_base: 0x8000, stack_size: 16 };
    assert!(!up.delta_is_downward());
    assert_eq!(up.delta_magnitude(), 0x5000);
}

#[test]
fn physical_memory_window_translation() {
    let ba = BlockAllocator::new();
    // The window starts at page zero until it is moved.
    let v = ba.physical_memory(Address::<Physical>::new(0x1234));
    assert_eq!(v.as_size(), 0x1234);
}

#[test]
fn mmio_round_trip_through_the_heap() {
    let mut fa = usable_memory(64);
    let mut ba = BlockAllocator::new();
    let run = fa.lock_next_count(2).unwrap();
    let base = run.start_frame().index();
    let unmapped = unmapped_mmio(run).unwrap();
    assert_eq!(unmapped.frames().len(), 2);
    let mapped = unmapped.map(&mut ba, &mut fa).unwrap();
    assert_eq!(mapped.max_offset(), 2 * 4096);
    // The region's pages map to exactly the region's frames, in order.
    let pstart = mapped.mapped_addr().as_size() / 4096;
    for j in 0..2 {
        let f = ba.translate_page(&Page::from_index(pstart + j)).unwrap();
        assert_eq!(f.index(), base + j);
    }
    let inside = mapped.mapped_offset(8191).unwrap();
    assert_eq!(inside.as_size(), mapped.mapped_addr().as_size() + 8191);
    let overrun = mapped.mapped_offset(8192);
    assert!(matches!(overrun, Err(MMIOError::OffsetOverrun)));
}
