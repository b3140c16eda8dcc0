//! The level 4 page table the bootloader switches to while it works.
use vstd::prelude::*;

use crate::addr::{canonical, p4_index};

verus! {

/// Bytes mapped by one level 4 entry.
pub const P4_ENTRY_SPAN: u64 = 0x80_0000_0000;

/// Number of leading level 4 entries the bootloader's new table shares with the
/// firmware's identity-mapping table: entries `0..=i`, where `i` is the level 4
/// index of the last physical address `max_phys_addr - 1`.
pub fn p4_entries_to_copy(max_phys_addr: u64) -> (r: usize)
    requires
        1 <= max_phys_addr,
        canonical((max_phys_addr - 1) as u64),
    ensures
        r == (max_phys_addr - 1) / (P4_ENTRY_SPAN as int) % 512 + 1,
{
    let index = p4_index(max_phys_addr - 1);
    index as usize + 1
}

/// Identity-map law: when physical memory lies in the lower canonical half,
/// the level 4 entry through which the firmware maps any physical address
/// below `max_phys_addr` is among the shared ones.
pub proof fn lemma_shared_entries_cover_memory(max_phys_addr: u64, a: u64)
    requires
        1 <= max_phys_addr <= 0x0000_8000_0000_0000,
        a < max_phys_addr,
    ensures
        (a as int) / (P4_ENTRY_SPAN as int) % 512 < (max_phys_addr - 1) / (P4_ENTRY_SPAN as int) % 512 + 1,
{
    let m = (max_phys_addr - 1) as int;
    assert((a as int) / 0x80_0000_0000int <= m / 0x80_0000_0000int) by (nonlinear_arith)
        requires
            0 <= a <= m,
    ;
    assert(m / 0x80_0000_0000int < 256) by (nonlinear_arith)
        requires
            0 <= m < 0x0000_8000_0000_0000,
    ;
}

} // verus!
