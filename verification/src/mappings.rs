//! Where the kernel's stack, the framebuffer, the context-switch code and the
//! boot information are mapped in the kernel's address space.
use vstd::prelude::*;

use crate::addr::{
    align_down, canonical, checked_virt_addr, lemma_page_floor_monotone, lemma_page_size_power_of_two, page_floor, page_start, valid_phys, PAGE_BYTES,
    PHYS_ADDR_LIMIT,
};
use crate::{Framebuffer, BOOT_INFO_ADDR, KERNEL_STACK_SIZE, KERNEL_STACK_TOP};

verus! {

/// An inclusive run of 4 KiB pages or frames, given by the start addresses of
/// the first and the last one; it is empty when `end < start`.
#[derive(Clone, Copy, Debug, PartialEq, Eq, Structural)]
pub struct PageRange {
    pub start: u64,
    pub end: u64,
}

impl PageRange {
    /// Number of pages in the run.
    pub open spec fn count(self) -> int {
        if self.end >= self.start {
            (self.end - self.start) / 4096 + 1
        } else {
            0
        }
    }

    /// The run holds the page or frame that contains `a`.
    pub open spec fn holds(self, a: int) -> bool {
        self.start <= page_floor(a) <= self.end
    }
}

/// Frames mapped one after the other at consecutive pages: the frame
/// `first_frame + i * 4096` is mapped at `first_page + i * 4096`.
#[derive(Clone, Copy, Debug, PartialEq, Eq, Structural)]
pub struct FrameMapping {
    pub frames: PageRange,
    pub first_page: u64,
}

/// The addresses the kernel starts with.
pub struct Mappings {
    /// Initial stack pointer of the kernel.
    pub stack_top: u64,
    /// The kernel's entry point.
    pub entry_point: u64,
}

/// The pages of the kernel stack: from the page holding
/// `KERNEL_STACK_TOP - KERNEL_STACK_SIZE` to the page holding
/// `KERNEL_STACK_TOP - 1`.
pub fn stack_pages() -> (r: PageRange)
    ensures
        r.start == page_floor(KERNEL_STACK_TOP - KERNEL_STACK_SIZE),
        r.end == page_floor(KERNEL_STACK_TOP - 1),
{
    PageRange { start: page_start(KERNEL_STACK_TOP - KERNEL_STACK_SIZE), end: page_start(KERNEL_STACK_TOP - 1) }
}

impl Mappings {
    /// The kernel's initial addresses once its stack is mapped: the stack
    /// pointer starts at the start of the last stack page, aligned down to 16
    /// bytes.
    pub fn new(entry_point: u64) -> (r: Mappings)
        ensures
            r.stack_top == page_floor(KERNEL_STACK_TOP - 1) - page_floor(KERNEL_STACK_TOP - 1) % 16,
            r.entry_point == entry_point,
    {
        let pages = stack_pages();
        proof {
            lemma_page_size_power_of_two();
        }
        Mappings { stack_top: align_down(pages.end, 16), entry_point }
    }
}

/// Stack law: the stack pages are exactly the pages of
/// `[KERNEL_STACK_TOP - KERNEL_STACK_SIZE, KERNEL_STACK_TOP)`, sixteen of them,
/// and the initial stack pointer is 16-byte aligned and lies in the last one.
pub proof fn lemma_stack_layout()
    ensures
        page_floor(KERNEL_STACK_TOP - KERNEL_STACK_SIZE) == KERNEL_STACK_TOP - KERNEL_STACK_SIZE,
        page_floor(KERNEL_STACK_TOP - 1) + 4096 == KERNEL_STACK_TOP,
        (PageRange {
            start: page_floor(KERNEL_STACK_TOP - KERNEL_STACK_SIZE) as u64,
            end: page_floor(KERNEL_STACK_TOP - 1) as u64,
        }).count() == 16,
        ({
            let top = page_floor(KERNEL_STACK_TOP - 1) - page_floor(KERNEL_STACK_TOP - 1) % 16;
            &&& top % 16 == 0
            &&& page_floor(KERNEL_STACK_TOP - 1) <= top < KERNEL_STACK_TOP
        }),
{
}

/// The frames of the framebuffer, from the frame holding its first byte to the
/// frame holding its last byte, mapped from the page holding its virtual
/// address on.
pub fn framebuffer_mapping(framebuffer: &Framebuffer) -> (r: FrameMapping)
    requires
        valid_phys(framebuffer.phys_addr),
        canonical(framebuffer.virt_addr),
        1 <= framebuffer.phys_addr + framebuffer.byte_len < PHYS_ADDR_LIMIT,
    ensures
        r.frames.start == page_floor(framebuffer.phys_addr as int),
        r.frames.end == page_floor(framebuffer.phys_addr + framebuffer.byte_len - 1),
        r.first_page == page_floor(framebuffer.virt_addr as int),
{
    let last = framebuffer.phys_addr + framebuffer.byte_len as u64 - 1;
    FrameMapping {
        frames: PageRange { start: page_start(framebuffer.phys_addr), end: page_start(last) },
        first_page: page_start(framebuffer.virt_addr),
    }
}

/// Framebuffer law: every byte of the framebuffer lies in one of the mapped
/// frames.
pub proof fn lemma_framebuffer_bytes_mapped(phys_addr: u64, byte_len: int, o: int)
    requires
        0 <= o < byte_len,
        phys_addr + byte_len < PHYS_ADDR_LIMIT,
    ensures
        (PageRange {
            start: page_floor(phys_addr as int) as u64,
            end: page_floor(phys_addr + byte_len - 1) as u64,
        }).holds(phys_addr + o),
{
    lemma_page_floor_monotone(phys_addr as int, phys_addr + o);
    lemma_page_floor_monotone(phys_addr + o, phys_addr + byte_len - 1);
}

/// The two frames from the one holding the context-switch code on, which are
/// mapped at the identical virtual addresses.
pub fn context_switch_frames(code_addr: u64) -> (r: PageRange)
    requires
        valid_phys(code_addr),
        page_floor(code_addr as int) + 4096 < PHYS_ADDR_LIMIT,
    ensures
        r.start == page_floor(code_addr as int),
        r.end == r.start + 4096,
        r.count() == 2,
{
    let start = page_start(code_addr);
    PageRange { start, end: start + PAGE_BYTES }
}

/// The pages that hold a boot information structure of `size` bytes placed at
/// `BOOT_INFO_ADDR`.
pub fn boot_info_pages(size: u64) -> (r: PageRange)
    requires
        BOOT_INFO_ADDR + size <= u64::MAX,
    ensures
        r.start == BOOT_INFO_ADDR,
        r.end == page_floor(BOOT_INFO_ADDR + size - 1),
{
    PageRange { start: page_start(BOOT_INFO_ADDR), end: page_start(BOOT_INFO_ADDR + size - 1) }
}

/// Boot information law: the pages hold every byte of the structure and number
/// `size / 4096` rounded up.
pub proof fn lemma_boot_info_pages_cover(size: int, o: int)
    requires
        0 <= o < size,
        BOOT_INFO_ADDR + size <= u64::MAX,
    ensures
        ({
            let r = PageRange { start: BOOT_INFO_ADDR, end: page_floor(BOOT_INFO_ADDR + size - 1) as u64 };
            &&& r.holds(BOOT_INFO_ADDR + o)
            &&& r.count() == (size + 4095) / 4096
        }),
{
    lemma_page_floor_monotone(BOOT_INFO_ADDR as int, BOOT_INFO_ADDR + o);
    lemma_page_floor_monotone(BOOT_INFO_ADDR + o, BOOT_INFO_ADDR + size - 1);
}

/// The page at which `frame` is mapped in a run of frames mapped one after the
/// other from `first_frame` at `first_page` on: `first_page` moved up by as
/// many whole pages as `frame` lies above `first_frame`, or `None` when that
/// address leaves the canonical address space.
pub fn mapped_page(first_frame: u64, first_page: u64, frame: u64) -> (r: Option<u64>)
    requires
        first_frame <= frame,
    ensures
        r == ({
            let p = first_page + (frame - first_frame) / 4096 * 4096;
            if p <= u64::MAX && canonical(p as u64) {
                Some(page_floor(p) as u64)
            } else {
                None::<u64>
            }
        }),
{
    let offset = (frame - first_frame) / PAGE_BYTES;
    assert(offset * 4096 <= frame - first_frame) by (nonlinear_arith)
        requires
            offset == (frame - first_frame) / 4096,
            frame - first_frame >= 0,
    ;
    let page = match first_page.checked_add(offset * PAGE_BYTES) {
        Some(p) => p,
        None => return None,
    };
    match checked_virt_addr(page) {
        Some(p) => Some(page_start(p)),
        None => None,
    }
}

/// The page at the same address as `frame`, or `None` when that address is
/// not canonical.
pub fn identity_page(frame: u64) -> (r: Option<u64>)
    ensures
        r == (if canonical(frame) {
            Some(page_floor(frame as int) as u64)
        } else {
            None::<u64>
        }),
{
    match checked_virt_addr(frame) {
        Some(p) => Some(page_start(p)),
        None => None,
    }
}

/// Mapping law of a run of frames: when the run starts on page boundaries,
/// frame `first_frame + i * 4096` is mapped at `first_page + i * 4096`
/// whenever that page is canonical.
pub proof fn lemma_mapped_page_steps(first_frame: u64, first_page: u64, i: int)
    requires
        0 <= i,
        first_frame + i * 4096 <= u64::MAX,
        first_page % 4096 == 0,
        first_page + i * 4096 <= u64::MAX,
        canonical((first_page + i * 4096) as u64),
    ensures
        ({
            let frame = first_frame + i * 4096;
            let p = first_page + (frame - first_frame) / 4096 * 4096;
            &&& p == first_page + i * 4096
            &&& page_floor(p) == p
        }),
{
    assert((i * 4096) / 4096 == i) by (nonlinear_arith)
        requires
            i >= 0,
    ;
    assert((first_page + i * 4096) % 4096 == 0) by (nonlinear_arith)
        requires
            first_page % 4096 == 0,
            i >= 0,
    ;
}

} // verus!
