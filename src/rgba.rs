//! Packing of four 8-bit channels into one 32-bit word, red in the highest byte.

use vstd::prelude::*;

verus! {

/// The word whose bytes, from the highest down, are `r`, `g`, `b` and `a`.
pub open spec fn rgba_word(r: u8, g: u8, b: u8, a: u8) -> u32 {
    (r as int * 0x100_0000 + g as int * 0x1_0000 + b as int * 0x100 + a as int) as u32
}

/// Splits a word into its four bytes, highest first: `[r, g, b, a]`.
pub fn u32_rgba_to_u8_rgba(num: u32) -> (r: [u8; 4])
    ensures
        r@ == seq![(num / 0x100_0000) as u8, ((num / 0x1_0000) % 0x100) as u8, ((num / 0x100) % 0x100) as u8, (num % 0x100) as u8],
        rgba_word(r[0], r[1], r[2], r[3]) == num,
{
    let a = num & 255;
    let b = (num >> 8) & 255;
    let g = (num >> 16) & 255;
    let r = (num >> 24) & 255;
    assert(a == num % 0x100 && b == (num / 0x100) % 0x100 && g == (num / 0x1_0000) % 0x100
        && r == num / 0x100_0000) by (bit_vector)
        requires
            a == num & 255,
            b == (num >> 8) & 255,
            g == (num >> 16) & 255,
            r == (num >> 24) & 255,
    ;
    let out = [r as u8, g as u8, b as u8, a as u8];
    assert(out@ =~= seq![(num / 0x100_0000) as u8, ((num / 0x1_0000) % 0x100) as u8, ((num / 0x100) % 0x100) as u8, (num % 0x100) as u8]);
    out
}

/// Joins four bytes, highest first, into one word.
pub fn u8_rgba_to_u32_rgba(r: u8, g: u8, b: u8, a: u8) -> (w: u32)
    ensures
        w == rgba_word(r, g, b, a),
        w / 0x100_0000 == r,
        (w / 0x1_0000) % 0x100 == g,
        (w / 0x100) % 0x100 == b,
        w % 0x100 == a,
{
    let w = ((r as u32) << 24) | ((g as u32) << 16) | ((b as u32) << 8) | (a as u32 & 255);
    assert(w == (r as u32) * 0x100_0000 + (g as u32) * 0x1_0000 + (b as u32) * 0x100 + (a as u32)
        && w / 0x100_0000 == r as u32 && (w / 0x1_0000) % 0x100 == g as u32
        && (w / 0x100) % 0x100 == b as u32 && w % 0x100 == a as u32) by (bit_vector)
        requires
            w == ((r as u32) << 24) | ((g as u32) << 16) | ((b as u32) << 8) | (a as u32 & 255),
    ;
    w
}

} // verus!
