use bootloader::firmware::{find_rsdp, ConfigEntry, ConfigKind};
use bootloader::addr::page_start;
use bootloader::display::paint_pixels;
use bootloader::mappings::{
    boot_info_pages, context_switch_frames, framebuffer_mapping, identity_page, mapped_page, stack_pages, FrameMapping, Mappings, PageRange,
};
use bootloader::paging::p4_entries_to_copy;
use bootloader::{Framebuffer, PixelFormat, BOOT_INFO_ADDR, FRAMEBUFFER_ADDR, KERNEL_STACK_TOP};

#[test]
fn page_start_rounds_down() {
    assert_eq!(page_start(0x1fff), 0x1000);
    assert_eq!(page_start(0x2000), 0x2000);
}

#[test]
fn stack_spans_sixteen_pages_below_top() {
    let r = stack_pages();
    assert_eq!(r, PageRange { start: 0xFFFF_817F_FFFF_0000, end: 0xFFFF_817F_FFFF_F000 });
    assert_eq!((r.end - r.start) / 4096 + 1, 16);
}

#[test]
fn stack_top_is_start_of_last_stack_page() {
    let m = Mappings::new(0xffff_8000_0010_0000);
    assert_eq!(m.stack_top, KERNEL_STACK_TOP - 4096);
    assert_eq!(m.entry_point, 0xffff_8000_0010_0000);
}

#[test]
fn framebuffer_frames_cover_its_bytes() {
    let fb = Framebuffer {
        virt_addr: FRAMEBUFFER_ADDR,
        phys_addr: 0x8000_0000,
        byte_len: 800 * 600 * 4,
        width: 800,
        height: 600,
        stride: 800,
        bpp: 4,
        pixel_format: PixelFormat::Bgr,
    };
    let m = framebuffer_mapping(&fb);
    assert_eq!(
        m,
        FrameMapping { frames: PageRange { start: 0x8000_0000, end: 0x8000_0000 + 0x1d4000 }, first_page: FRAMEBUFFER_ADDR }
    );
}

#[test]
fn context_switch_maps_two_frames() {
    assert_eq!(context_switch_frames(0x12_3456), PageRange { start: 0x12_3000, end: 0x12_4000 });
}

#[test]
fn boot_info_pages_hold_the_structure() {
    assert_eq!(boot_info_pages(48), PageRange { start: BOOT_INFO_ADDR, end: BOOT_INFO_ADDR });
    assert_eq!(boot_info_pages(4097), PageRange { start: BOOT_INFO_ADDR, end: BOOT_INFO_ADDR + 4096 });
}

#[test]
fn shared_p4_entries_cover_physical_memory() {
    assert_eq!(p4_entries_to_copy(0x1_0000_0000), 1);
    assert_eq!(p4_entries_to_copy(0x80_0000_0001), 2);
    assert_eq!(p4_entries_to_copy(0x80_0000_0000), 1);
}

#[test]
fn paint_fills_whole_pixels_only() {
    let mut buf = vec![7u8; 10];
    paint_pixels(&mut buf);
    assert_eq!(buf, vec![255, 0, 0, 0, 255, 0, 0, 0, 7, 7]);
}

#[test]
fn rsdp_prefers_acpi2_then_acpi1() {
    let e = |kind, address| ConfigEntry { kind, address };
    let entries = vec![e(ConfigKind::Other, 1), e(ConfigKind::Acpi1, 0x100), e(ConfigKind::Acpi2, 0x200), e(ConfigKind::Acpi2, 0x300)];
    assert_eq!(find_rsdp(&entries), Some(0x200));
    let entries = vec![e(ConfigKind::Other, 1), e(ConfigKind::Acpi1, 0x100), e(ConfigKind::Acpi1, 0x180)];
    assert_eq!(find_rsdp(&entries), Some(0x100));
    assert_eq!(find_rsdp(&vec![e(ConfigKind::Other, 1)]), None);
}

#[test]
fn mapped_page_steps_with_frames() {
    assert_eq!(mapped_page(0x10_0000, 0xffff_8000_0000_0000, 0x10_3000), Some(0xffff_8000_0000_3000));
    assert_eq!(mapped_page(0x10_0000, 0x0000_7fff_ffff_f000, 0x10_1000), None);
    assert_eq!(mapped_page(0x10_0000, 0xffff_ffff_ffff_f000, 0x10_1000), None);
}

#[test]
fn identity_page_needs_canonical_frame() {
    assert_eq!(identity_page(0x12_3000), Some(0x12_3000));
    assert_eq!(identity_page(0x0008_0000_0000_0000), None);
}
