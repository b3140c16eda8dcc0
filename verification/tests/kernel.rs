use bootloader::kernel::{
    calc_memory_requirements, load_kernel, plan_load_segment, private_copy_flags, private_copy_step, CopyError, CopyStep, Translation, BssPlan, KernelImage,
    LoadError, PartialZero, SegmentHeader, SegmentKind, SegmentPlan, ELF_TYPE_EXECUTABLE,
};

fn seg(kind: SegmentKind, offset: u64, virtual_addr: u64, file_size: u64, mem_size: u64) -> SegmentHeader {
    SegmentHeader { kind, offset, virtual_addr, file_size, mem_size }
}

fn image(segments: Vec<SegmentHeader>) -> KernelImage {
    KernelImage { elf_type: ELF_TYPE_EXECUTABLE, entry_point: 0xffff_8000_0000_1000, segments }
}

#[test]
fn load_segment_without_bss() {
    let s = seg(SegmentKind::Load, 0x1000, 0xffff_8000_0000_0000, 0x2000, 0x2000);
    let plan = plan_load_segment(0x20_0000, &s).unwrap();
    assert_eq!(
        plan,
        SegmentPlan { first_frame: 0x20_1000, last_frame: 0x20_2000, first_page: 0xffff_8000_0000_0000, bss: None }
    );
}

#[test]
fn load_segment_with_partial_and_fresh_bss() {
    // File data ends at 0x...1800; memory ends at 0x...4000.
    let s = seg(SegmentKind::Load, 0x1000, 0xffff_8000_0000_1000, 0x800, 0x3000);
    let plan = plan_load_segment(0x20_0000, &s).unwrap();
    assert_eq!(plan.first_frame, 0x20_1000);
    assert_eq!(plan.last_frame, 0x20_1000);
    assert_eq!(plan.first_page, 0xffff_8000_0000_1000);
    assert_eq!(
        plan.bss,
        Some(BssPlan {
            partial: Some(PartialZero { page: 0xffff_8000_0000_1000, offset: 0x800 }),
            first_page: 0xffff_8000_0000_2000,
            last_page: 0xffff_8000_0000_3000,
        })
    );
}

#[test]
fn bss_starting_on_page_boundary_has_no_partial_page() {
    let s = seg(SegmentKind::Load, 0x0, 0x40_0000, 0x1000, 0x1800);
    let plan = plan_load_segment(0x10_0000, &s).unwrap();
    assert_eq!(plan.bss, Some(BssPlan { partial: None, first_page: 0x40_1000, last_page: 0x40_1000 }));
}

#[test]
fn empty_file_data_at_unaligned_offset_still_covers_one_frame() {
    let s = seg(SegmentKind::Load, 0x1234, 0x40_0000, 0, 0);
    let plan = plan_load_segment(0x10_0000, &s).unwrap();
    assert_eq!(plan.first_frame, 0x10_1000);
    assert_eq!(plan.last_frame, 0x10_1000);
}

#[test]
fn physical_address_past_52_bits_is_rejected() {
    let s = seg(SegmentKind::Load, 0x10, 0x40_0000, 0x10, 0x10);
    assert_eq!(plan_load_segment(0x000f_ffff_ffff_fff8, &s), None);
    let r = load_kernel(&image(vec![s]), 0x000f_ffff_ffff_fff8);
    assert_eq!(r.err(), Some(LoadError::AddressOutOfRange));
}

#[test]
fn non_canonical_segment_address_is_rejected() {
    let s = seg(SegmentKind::Load, 0, 0x0000_8000_0000_0000, 0x10, 0x10);
    assert_eq!(plan_load_segment(0x10_0000, &s), None);
}

#[test]
fn segment_crossing_out_of_lower_half_is_rejected() {
    let s = seg(SegmentKind::Load, 0, 0x0000_7fff_ffff_f000, 0x2000, 0x2000);
    assert_eq!(plan_load_segment(0x10_0000, &s), None);
}

#[test]
fn bss_ending_at_lower_half_limit_is_rejected() {
    // Stepping past the last fresh page would leave the canonical lower half.
    let s = seg(SegmentKind::Load, 0, 0x0000_7fff_ffff_e000, 0x1000, 0x2000);
    assert_eq!(plan_load_segment(0x10_0000, &s), None);
}

#[test]
fn load_kernel_plans_load_segments_in_order() {
    let segs = vec![
        seg(SegmentKind::Other, 0, 0, 0, 0),
        seg(SegmentKind::Load, 0x1000, 0xffff_8000_0000_0000, 0x1000, 0x1000),
        seg(SegmentKind::Load, 0x2000, 0xffff_8000_0000_1000, 0x1000, 0x2000),
    ];
    let plan = load_kernel(&image(segs), 0x20_0000).unwrap();
    assert_eq!(plan.entry_point, 0xffff_8000_0000_1000);
    assert_eq!(plan.segments.len(), 2);
    assert_eq!(plan.segments[0].first_frame, 0x20_1000);
    assert_eq!(plan.segments[1].first_frame, 0x20_2000);
    assert_eq!(plan.segments[1].first_page, 0xffff_8000_0000_1000);
    assert_eq!(
        plan.segments[1].bss,
        Some(BssPlan { partial: None, first_page: 0xffff_8000_0000_2000, last_page: 0xffff_8000_0000_2000 })
    );
}

#[test]
fn load_kernel_requires_executable() {
    let mut img = image(vec![]);
    img.elf_type = 3;
    assert_eq!(load_kernel(&img, 0x20_0000).err(), Some(LoadError::NotExecutable));
}

#[test]
fn load_kernel_rejects_dynamic_segment() {
    let segs = vec![seg(SegmentKind::Load, 0, 0x40_0000, 0x10, 0x10), seg(SegmentKind::Dynamic, 0, 0, 0, 0)];
    assert_eq!(load_kernel(&image(segs), 0x20_0000).err(), Some(LoadError::DynamicSegment));
}

#[test]
fn load_kernel_rejects_invalid_segment_type() {
    let segs = vec![seg(SegmentKind::Invalid, 0, 0, 0, 0), seg(SegmentKind::Dynamic, 0, 0, 0, 0)];
    assert_eq!(load_kernel(&image(segs), 0x20_0000).err(), Some(LoadError::InvalidSegmentType));
}

#[test]
fn load_kernel_rejects_non_canonical_entry_point() {
    let mut img = image(vec![]);
    img.entry_point = 0x1234_0000_0000_0000;
    assert_eq!(load_kernel(&img, 0x20_0000).err(), Some(LoadError::NonCanonicalEntryPoint));
}

#[test]
fn memory_requirements_span_load_segments() {
    let segs = vec![
        seg(SegmentKind::Load, 0, 0x20_0000, 0x100, 0x3000),
        seg(SegmentKind::Other, 0, 0x1000, 0, 0x10_0000),
        seg(SegmentKind::Load, 0, 0x10_0000, 0x100, 0x100),
        seg(SegmentKind::Invalid, 0, 0x0, 0, 0x100_0000),
    ];
    assert_eq!(calc_memory_requirements(&image(segs)), (0x10_3000, 0x10_0000));
}

#[test]
fn memory_requirements_without_load_segments_are_zero() {
    let segs = vec![seg(SegmentKind::Other, 0, 0x1000, 0, 0x2000)];
    assert_eq!(calc_memory_requirements(&image(segs)), (0, 0));
}

#[test]
fn private_copy_marks_and_stops_copying() {
    assert_eq!(private_copy_flags(0x3), Some(0x203));
    assert_eq!(private_copy_flags(0x203), None);
}

#[test]
fn memory_requirements_ignore_order_and_other_headers() {
    let a = vec![
        seg(SegmentKind::Load, 0, 0x20_0000, 0x100, 0x3000),
        seg(SegmentKind::Load, 0, 0x10_0000, 0x100, 0x100),
    ];
    let b = vec![
        seg(SegmentKind::Other, 0, 0x0, 0, 0x1000_0000),
        seg(SegmentKind::Load, 0x40, 0x10_0000, 0x80, 0x100),
        seg(SegmentKind::Invalid, 0, 0x0, 0, 0x1000_0000),
        seg(SegmentKind::Load, 0x10, 0x20_0000, 0x200, 0x3000),
    ];
    assert_eq!(calc_memory_requirements(&image(a)), calc_memory_requirements(&image(b)));
}

#[test]
fn private_copy_step_decides_by_translation() {
    assert_eq!(
        private_copy_step(Translation::Mapped4KiB { frame: 0x5000, flags: 0x3 }),
        Ok(CopyStep::CopyFrame { frame: 0x5000, flags: 0x203 })
    );
    assert_eq!(private_copy_step(Translation::Mapped4KiB { frame: 0x5000, flags: 0x203 }), Ok(CopyStep::UseFrame(0x5000)));
    assert_eq!(private_copy_step(Translation::NotMapped), Err(CopyError::NotMapped));
    assert_eq!(private_copy_step(Translation::MappedHuge), Err(CopyError::Unexpected));
    assert_eq!(private_copy_step(Translation::InvalidFrameAddress), Err(CopyError::Unexpected));
}
