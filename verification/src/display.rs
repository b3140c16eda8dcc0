//! Painting the framebuffer the kernel receives.
use vstd::prelude::*;

verus! {

/// Value of byte `i` of a buffer after `paint_pixels`: every complete 4-byte
/// pixel becomes `[255, 0, 0, 0]`; bytes past the last complete pixel keep
/// their value.
pub open spec fn painted_byte(old_bytes: Seq<u8>, i: int) -> u8 {
    if i < old_bytes.len() - old_bytes.len() % 4 {
        if i % 4 == 0 { 255 } else { 0 }
    } else {
        old_bytes[i]
    }
}

/// Sets every complete 4-byte pixel of `buffer` to `[255, 0, 0, 0]`.
pub fn paint_pixels(buffer: &mut [u8])
    ensures
        final(buffer)@.len() == old(buffer)@.len(),
        forall|i: int| 0 <= i < old(buffer)@.len() ==> final(buffer)@[i] == #[trigger] painted_byte(old(buffer)@, i),
{
    let ghost original = buffer@;
    let len = buffer.len();
    let pixels = len / 4;
    let mut p: usize = 0;
    while p < pixels
        invariant
            0 <= p <= pixels,
            pixels == len / 4,
            len == original.len(),
            buffer@.len() == original.len(),
            forall|i: int| 0 <= i < 4 * p ==> buffer@[i] == #[trigger] painted_byte(original, i),
            forall|i: int| 4 * p <= i < original.len() ==> buffer@[i] == original[i],
        decreases pixels - p,
    {
        let base = 4 * p;
        buffer[base] = 255;
        buffer[base + 1] = 0;
        buffer[base + 2] = 0;
        buffer[base + 3] = 0;
        p = p + 1;
    }
}

} // verus!
