//! A UEFI bootloader for an x86_64 kernel: the planning and bookkeeping half.
//!
//! The library decides which frames the early allocator hands out, which pages
//! and frames the kernel, its stack, the framebuffer and the boot information
//! occupy, and which level 4 entries the bootloader shares; the firmware calls,
//! page table writes and register loads that carry those decisions out live
//! around it.
use vstd::prelude::*;

pub mod addr;
pub mod memory;
pub mod kernel;
pub mod mappings;
pub mod paging;
pub mod interrupts;
pub mod display;
pub mod firmware;

verus! {

/// Size of a page as a `usize`.
pub const PAGE_SIZE: usize = 4096;

/// Size of the kernel stack in bytes.
pub const KERNEL_STACK_SIZE: u64 = 64 * 1024;

/// Virtual address one past the top of the kernel stack.
pub const KERNEL_STACK_TOP: u64 = 0xFFFF_8180_0000_0000;

/// Virtual address at which the boot information is placed.
pub const BOOT_INFO_ADDR: u64 = 0xFFFF_8180_2000_0000;

/// Virtual address at which the framebuffer is mapped for the kernel.
pub const FRAMEBUFFER_ADDR: u64 = 0xFFFF_8180_2020_0000;

/// Layout of the pixels of the framebuffer.
#[derive(Debug, Clone, Copy, PartialEq, Eq, Structural)]
#[non_exhaustive]
pub enum PixelFormat {
    Rgb,
    Bgr,
}

/// The framebuffer the firmware set up, as handed to the kernel.
#[derive(Debug, Clone, Copy)]
pub struct Framebuffer {
    /// Virtual address at which the kernel sees the framebuffer.
    pub virt_addr: u64,
    /// Physical address of the framebuffer.
    pub phys_addr: u64,
    pub byte_len: usize,
    pub width: usize,
    pub height: usize,
    pub stride: usize,
    pub bpp: usize,
    pub pixel_format: PixelFormat,
}

/// What the bootloader hands to the kernel.
#[derive(Debug)]
pub struct BootInfo {
    /// Physical address of the ACPI root system description pointer.
    pub rsdp_addr: Option<u64>,
    pub framebuffer: Option<Framebuffer>,
}

} // verus!
