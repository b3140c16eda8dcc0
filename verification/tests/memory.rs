use bootloader::memory::{EarlyFrameAllocator, MemoryRegion, CONVENTIONAL_MEMORY};

fn region(ty: u32, phys_start: u64, page_count: u64) -> MemoryRegion {
    MemoryRegion { ty, phys_start, page_count }
}

#[test]
fn allocates_frames_in_map_order() {
    let map = vec![
        region(CONVENTIONAL_MEMORY, 0x1000, 4),
        region(2, 0x0, 100),
        region(CONVENTIONAL_MEMORY, 0x0, 2),
    ];
    let mut alloc = EarlyFrameAllocator::new(map);
    assert_eq!(alloc.next_index(), 0);
    assert_eq!(alloc.allocate_frame(), Some(0x1000));
    assert_eq!(alloc.allocate_frame(), Some(0x2000));
    assert_eq!(alloc.allocate_frame(), Some(0x3000));
    assert_eq!(alloc.allocate_frame(), Some(0x0));
    assert_eq!(alloc.allocate_frame(), Some(0x1000));
    assert_eq!(alloc.allocate_frame(), None);
    assert_eq!(alloc.next_index(), 6);
}

#[test]
fn region_steps_end_at_page_count_times_page_size() {
    // The stepped range of a region runs from its start up to
    // `page_count * 4096`, so a region starting above that gives nothing.
    let map = vec![region(CONVENTIONAL_MEMORY, 0x10_0000, 16), region(CONVENTIONAL_MEMORY, 0x3000, 5)];
    let mut alloc = EarlyFrameAllocator::new(map);
    assert_eq!(alloc.allocate_frame(), Some(0x3000));
    assert_eq!(alloc.allocate_frame(), Some(0x4000));
    assert_eq!(alloc.allocate_frame(), None);
    assert_eq!(alloc.allocate_frame(), None);
    assert_eq!(alloc.next_index(), 4);
}

#[test]
fn unaligned_start_yields_containing_frames() {
    let map = vec![region(CONVENTIONAL_MEMORY, 0x1800, 3)];
    let mut alloc = EarlyFrameAllocator::new(map);
    assert_eq!(alloc.allocate_frame(), Some(0x1000));
    assert_eq!(alloc.allocate_frame(), Some(0x2000));
    assert_eq!(alloc.allocate_frame(), None);
}

#[test]
fn non_conventional_memory_is_never_handed_out() {
    let map = vec![region(1, 0, 8), region(4, 0, 8), region(3, 0x1000, 8)];
    let mut alloc = EarlyFrameAllocator::new(map);
    assert_eq!(alloc.allocate_frame(), None);
}

#[test]
fn empty_map_has_no_frames() {
    let mut alloc = EarlyFrameAllocator::new(Vec::new());
    assert_eq!(alloc.allocate_frame(), None);
    assert_eq!(alloc.next_index(), 1);
}

#[test]
fn max_phys_addr_is_largest_region_end() {
    let map = vec![region(CONVENTIONAL_MEMORY, 0x1000, 4), region(2, 0x10_0000, 16), region(7, 0x8000, 1)];
    let alloc = EarlyFrameAllocator::new(map);
    assert_eq!(alloc.max_phys_addr(), 0x11_0000);
}

#[test]
fn max_phys_addr_drops_high_bits() {
    // An end of 2^52 + 0x2000 loses bit 52 and counts as 0x2000.
    let map = vec![region(2, 0x0010_0000_0000_0000, 2), region(2, 0x0, 1)];
    let alloc = EarlyFrameAllocator::new(map);
    assert_eq!(alloc.max_phys_addr(), 0x2000);
}

#[test]
fn next_allocation_safe_checks_only_reached_regions() {
    // The second region steps up to 2^52 + 4096: the frame at 2^52 is reached
    // only by the third request.
    let map = vec![region(CONVENTIONAL_MEMORY, 0x1000, 2), region(CONVENTIONAL_MEMORY, 0x000f_ffff_ffff_f000, 0x1_0000_0000_0001)];
    let mut alloc = EarlyFrameAllocator::new(map);
    assert!(alloc.next_allocation_safe());
    assert_eq!(alloc.allocate_frame(), Some(0x1000));
    assert!(alloc.next_allocation_safe());
    assert_eq!(alloc.allocate_frame(), Some(0x000f_ffff_ffff_f000));
    assert!(!alloc.next_allocation_safe());
}

#[test]
fn next_allocation_safe_rejects_overflowing_size() {
    let map = vec![region(CONVENTIONAL_MEMORY, 0x0, 0x0010_0000_0000_0000)];
    let alloc = EarlyFrameAllocator::new(map);
    assert!(!alloc.next_allocation_safe());
    let map = vec![region(2, 0x0, 0x0010_0000_0000_0000)];
    let alloc = EarlyFrameAllocator::new(map);
    assert!(alloc.next_allocation_safe());
}

#[test]
fn disjoint_regions_never_repeat_a_frame() {
    let map = vec![region(CONVENTIONAL_MEMORY, 0x0, 2), region(CONVENTIONAL_MEMORY, 0x2000, 4)];
    let mut alloc = EarlyFrameAllocator::new(map);
    let mut seen = Vec::new();
    while let Some(f) = alloc.allocate_frame() {
        assert!(!seen.contains(&f));
        seen.push(f);
    }
    assert_eq!(seen, vec![0x0, 0x1000, 0x2000, 0x3000]);
}

#[test]
fn exhausted_allocator_stays_exhausted() {
    let mut alloc = EarlyFrameAllocator::new(vec![region(CONVENTIONAL_MEMORY, 0x0, 1)]);
    assert_eq!(alloc.allocate_frame(), Some(0x0));
    for _ in 0..5 {
        assert_eq!(alloc.allocate_frame(), None);
    }
}
