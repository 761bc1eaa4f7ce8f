//! The luminance ramp: from a luminance value to a glyph.
use vstd::prelude::*;
use vstd::arithmetic::power2::{pow2, lemma_pow2_pos, lemma_pow2_strictly_increases, lemma2_to64};
use vstd::bits::lemma_u32_shr_is_div;
use crate::binary32::{eighths_floor, exponent_field, fraction_field, is_positive, scale, significand};

verus! {

/// The glyph of a cell that nothing was drawn on.
pub const BACKGROUND: u8 = 0x20;

/// Number of glyphs in the ramp.
pub const RAMP_LEN: usize = 12;

/// The ramp, from the dimmest glyph to the brightest: `.,-~:;=!*#$@`.
pub open spec fn ramp() -> Seq<u8> {
    seq![0x2e, 0x2c, 0x2d, 0x7e, 0x3a, 0x3b, 0x3d, 0x21, 0x2a, 0x23, 0x24, 0x40]
}

/// Position in the ramp for a luminance: `floor(8 * luminance)`, clamped to the last entry.
pub open spec fn ramp_index(luminance: u32) -> nat {
    if eighths_floor(luminance) < RAMP_LEN {
        eighths_floor(luminance)
    } else {
        (RAMP_LEN - 1) as nat
    }
}

/// The glyph that a cell lit with this luminance shows.
pub open spec fn glyph_of(luminance: u32) -> u8 {
    ramp()[ramp_index(luminance) as int]
}

/// A glyph that may appear in a rendered grid: the background or one of the ramp.
pub open spec fn is_glyph(g: u8) -> bool {
    g == BACKGROUND || ramp().contains(g)
}

/// The ramp entry at position `i`.
pub fn ramp_glyph(i: usize) -> (g: u8)
    requires
        i < RAMP_LEN,
    ensures
        g == ramp()[i as int],
{
    match i {
        0 => 0x2e,
        1 => 0x2c,
        2 => 0x2d,
        3 => 0x7e,
        4 => 0x3a,
        5 => 0x3b,
        6 => 0x3d,
        7 => 0x21,
        8 => 0x2a,
        9 => 0x23,
        10 => 0x24,
        _ => 0x40,
    }
}

/// `floor(8 * luminance)` clamped to the last ramp position, for a luminance
/// given by its binary32 bit pattern.
pub fn luminance_index(luminance: u32) -> (r: usize)
    ensures
        r == ramp_index(luminance),
        r < RAMP_LEN,
{
    let e: u32 = (luminance / 0x80_0000) % 0x100;
    let f: u32 = luminance % 0x80_0000;
    let sig: u32 = if e == 0 { f } else { f + 0x80_0000 };
    let sc: u32 = if e == 0 { 1 } else { e };
    assert(e == exponent_field(luminance) && f == fraction_field(luminance));
    assert(sig == significand(luminance) && sc == scale(luminance));
    if sc >= 147 {
        proof {
            let p: nat = pow2((sc - 147) as nat);
            lemma_pow2_pos((sc - 147) as nat);
            assert(sig >= 0x80_0000);
            assert(sig * p >= sig) by (nonlinear_arith)
                requires
                    p > 0,
            ;
        }
        RAMP_LEN - 1
    } else {
        let k: u32 = 147 - sc;
        if k >= 24 {
            proof {
                lemma2_to64();
                if k > 24 {
                    lemma_pow2_strictly_increases(24, k as nat);
                }
                assert(sig < pow2(k as nat));
                assert(sig as nat / pow2(k as nat) == 0) by (nonlinear_arith)
                    requires
                        sig < pow2(k as nat),
                ;
            }
            0
        } else {
            let level: u32 = sig >> k;
            proof {
                lemma_u32_shr_is_div(sig, k);
            }
            if level >= 11 {
                RAMP_LEN - 1
            } else {
                level as usize
            }
        }
    }
}

/// The glyph for a cell lit with the given luminance (a binary32 bit pattern).
pub fn glyph_for(luminance: u32) -> (g: u8)
    ensures
        g == glyph_of(luminance),
        is_glyph(g),
{
    let i: usize = luminance_index(luminance);
    let g: u8 = ramp_glyph(i);
    assert(ramp()[i as int] == g);
    g
}

/// A luminance at or above 1.5 (`floor(8 * l) >= 12`) shows the brightest
/// glyph, `@`; the ramp is never read past its end.
pub proof fn lemma_bright_luminance_clamps(luminance: u32)
    requires
        is_positive(luminance),
        eighths_floor(luminance) >= 12,
    ensures
        glyph_of(luminance) == 0x40u8,
{
}

} // verus!
