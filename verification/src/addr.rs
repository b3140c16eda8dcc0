//! Address arithmetic of the x86_64 four-level paging scheme.
//!
//! Physical and virtual addresses are carried as plain `u64` values; the spec
//! functions below state what the `x86_64` crate's address types guarantee of
//! them, and the few calls into that crate are wrapped with their documented
//! behaviour.
use vstd::prelude::*;

verus! {

/// Size of a 4 KiB page or frame.
pub const PAGE_BYTES: u64 = 4096;

/// First address that is not a valid physical address (bits 52..64 must be zero).
pub const PHYS_ADDR_LIMIT: u64 = 0x0010_0000_0000_0000;

/// A power of two, tested the way `u64::is_power_of_two` does.
pub open spec fn is_power_of_two(a: u64) -> bool {
    a != 0 && a & ((a - 1) as u64) == 0
}

/// A canonical virtual address: bits 48..64 are copies of bit 47, which holds
/// exactly of the lower half below 2^47 and of the upper half from 2^64 - 2^47.
pub open spec fn canonical(a: u64) -> bool {
    a < 0x0000_8000_0000_0000 || a >= 0xffff_8000_0000_0000
}

/// The two addresses lie in the same canonical half.
pub open spec fn same_half(a: u64, b: u64) -> bool {
    canonical(a) && canonical(b) && ((a < 0x0000_8000_0000_0000) == (b < 0x0000_8000_0000_0000))
}

/// A valid physical address: no bit in 52..64 is set.
pub open spec fn valid_phys(a: u64) -> bool {
    a < PHYS_ADDR_LIMIT
}

/// Start of the 4 KiB page or frame that contains `a`.
pub open spec fn page_floor(a: int) -> int {
    a - a % 4096
}

/// Start of the first 4 KiB page at or above `a`.
pub open spec fn page_ceil(a: int) -> int {
    if a % 4096 == 0 {
        a
    } else {
        a - a % 4096 + 4096
    }
}

/// `x86_64::align_down`: documented to return the greatest `x` with alignment
/// `align` such that `x <= addr`, and to panic unless `align` is a power of two.
#[verifier::external_body]
pub(crate) fn align_down(addr: u64, align: u64) -> (r: u64)
    requires
        is_power_of_two(align),
    ensures
        r == addr - addr % align,
{
    x86_64::align_down(addr, align)
}

/// `x86_64::align_up`: documented to return the smallest `x` with alignment
/// `align` such that `x >= addr`, and to panic unless `align` is a power of two
/// or when that `x` does not fit in a `u64`.
#[verifier::external_body]
pub(crate) fn align_up(addr: u64, align: u64) -> (r: u64)
    requires
        is_power_of_two(align),
        addr % align == 0 || addr - addr % align + align <= u64::MAX,
    ensures
        r == (if addr % align == 0 {
            addr as int
        } else {
            addr - addr % align + align
        }),
{
    x86_64::align_up(addr, align)
}

/// `x86_64::VirtAddr::try_new`: documented to accept an address exactly when
/// bits 48..64 are a sign extension of bit 47, and to keep it unchanged.
#[verifier::external_body]
pub(crate) fn checked_virt_addr(addr: u64) -> (r: Option<u64>)
    ensures
        r == (if canonical(addr) {
            Some(addr)
        } else {
            None::<u64>
        }),
{
    match x86_64::VirtAddr::try_new(addr) {
        Ok(v) => Some(v.as_u64()),
        Err(_) => None,
    }
}

/// `x86_64::PhysAddr::try_new`: documented to accept an address exactly when no
/// bit in 52..64 is set, and to keep it unchanged.
#[verifier::external_body]
pub(crate) fn checked_phys_addr(addr: u64) -> (r: Option<u64>)
    ensures
        r == (if valid_phys(addr) {
            Some(addr)
        } else {
            None::<u64>
        }),
{
    match x86_64::PhysAddr::try_new(addr) {
        Ok(p) => Some(p.as_u64()),
        Err(_) => None,
    }
}

/// `x86_64::PhysAddr::new_truncate`: documented to throw bits 52..64 away.
#[verifier::external_body]
pub(crate) fn truncate_phys_addr(addr: u64) -> (r: u64)
    ensures
        r == addr % PHYS_ADDR_LIMIT,
{
    x86_64::PhysAddr::new_truncate(addr).as_u64()
}

/// `x86_64::VirtAddr::p4_index`: the source takes the address shifted right by
/// 39 bits and keeps the low 9 bits of it; `VirtAddr::new` panics on a
/// non-canonical address.
#[verifier::external_body]
pub(crate) fn p4_index(addr: u64) -> (r: u16)
    requires
        canonical(addr),
    ensures
        r == (addr / 0x80_0000_0000) % 512,
{
    u16::from(x86_64::VirtAddr::new(addr).p4_index())
}

/// `4096` is a power of two.
pub proof fn lemma_page_size_power_of_two()
    ensures
        is_power_of_two(4096),
        is_power_of_two(16),
{
    assert(4096u64 & 4095u64 == 0) by (bit_vector);
    assert(16u64 & 15u64 == 0) by (bit_vector);
}

/// A containing page never lies above the containing page of a higher address.
pub proof fn lemma_page_floor_monotone(a: int, b: int)
    requires
        0 <= a <= b,
    ensures
        page_floor(a) <= page_floor(b),
{
}

/// Start of the page that contains `addr`, through `x86_64::align_down`.
pub fn page_start(addr: u64) -> (r: u64)
    ensures
        r == page_floor(addr as int),
        r % 4096 == 0,
        r <= addr,
        addr - r < 4096,
{
    proof {
        lemma_page_size_power_of_two();
    }
    align_down(addr, PAGE_BYTES)
}

} // verus!
