//! Packed `0xRRGGBB` colours and the per-channel operations on them.

use vstd::prelude::*;
use crate::fixed::FIX_ONE;

verus! {

/// The packed colour with channels `r`, `g`, `b` (each in `0..256`).
pub open spec fn pack(r: int, g: int, b: int) -> int {
    r * 65536 + g * 256 + b
}

pub open spec fn red(c: u32) -> int {
    ((c >> 16u32) & 0xFFu32) as int
}

pub open spec fn green(c: u32) -> int {
    ((c >> 8u32) & 0xFFu32) as int
}

pub open spec fn blue(c: u32) -> int {
    (c & 0xFFu32) as int
}

/// One channel of `fg` laid over `bg` with opacity `a / 255`.
pub open spec fn blend_channel(f: int, b: int, a: int) -> int {
    (f * a + b * (255 - a)) / 255
}

/// One channel scaled by a fixed-point light factor.
pub open spec fn shade_channel(c: int, factor: int) -> int {
    c * factor / (FIX_ONE as int)
}

/// The "over" blend of the whole colours; opaque and transparent texels are
/// exact.
pub open spec fn blend_spec(bg: u32, fg: u32, a: u8) -> int {
    if a == 255 {
        fg as int
    } else if a == 0 {
        bg as int
    } else {
        pack(
            blend_channel(red(fg), red(bg), a as int),
            blend_channel(green(fg), green(bg), a as int),
            blend_channel(blue(fg), blue(bg), a as int),
        )
    }
}

pub open spec fn shade_spec(c: u32, factor: int) -> int {
    pack(
        shade_channel(red(c), factor),
        shade_channel(green(c), factor),
        shade_channel(blue(c), factor),
    )
}

pub proof fn lemma_channels_of_pack(r: u32, g: u32, b: u32)
    requires
        r < 256,
        g < 256,
        b < 256,
    ensures
        (r << 16u32) | (g << 8u32) | b == r * 65536 + g * 256 + b,
        red(((r << 16u32) | (g << 8u32) | b)) == r,
        green(((r << 16u32) | (g << 8u32) | b)) == g,
        blue(((r << 16u32) | (g << 8u32) | b)) == b,
{
    assert((r << 16u32) | (g << 8u32) | b == r * 65536 + g * 256 + b) by (bit_vector)
        requires
            r < 256,
            g < 256,
            b < 256,
    ;
    assert(((((r << 16u32) | (g << 8u32) | b) >> 16u32) & 0xFFu32) == r) by (bit_vector)
        requires
            r < 256,
            g < 256,
            b < 256,
    ;
    assert(((((r << 16u32) | (g << 8u32) | b) >> 8u32) & 0xFFu32) == g) by (bit_vector)
        requires
            r < 256,
            g < 256,
            b < 256,
    ;
    assert((((r << 16u32) | (g << 8u32) | b) & 0xFFu32) == b) by (bit_vector)
        requires
            r < 256,
            g < 256,
            b < 256,
    ;
}

pub proof fn lemma_channel_bounds(c: u32)
    ensures
        0 <= red(c) < 256,
        0 <= green(c) < 256,
        0 <= blue(c) < 256,
{
    assert((c >> 16u32) & 0xFFu32 < 256) by (bit_vector);
    assert((c >> 8u32) & 0xFFu32 < 256) by (bit_vector);
    assert(c & 0xFFu32 < 256) by (bit_vector);
}

/// Packs three channels into `0xRRGGBB`.
pub fn rgb(r: u8, g: u8, b: u8) -> (c: u32)
    ensures
        c == pack(r as int, g as int, b as int),
        red(c) == r,
        green(c) == g,
        blue(c) == b,
{
    proof {
        lemma_channels_of_pack(r as u32, g as u32, b as u32);
    }
    ((r as u32) << 16u32) | ((g as u32) << 8u32) | (b as u32)
}

/// Packs a sprite pixel `0xAARRGGBB`.
pub fn argb(a: u8, r: u8, g: u8, b: u8) -> (c: u32)
    ensures
        c == a * 0x100_0000 + pack(r as int, g as int, b as int),
{
    let low = rgb(r, g, b);
    proof {
        assert((a as u32) << 24u32 == a * 0x100_0000) by (bit_vector)
            requires
                a < 256,
        ;
        assert(((a as u32) << 24u32) | low == ((a as u32) << 24u32) + low) by (bit_vector)
            requires
                low < 0x100_0000,
        ;
    }
    ((a as u32) << 24u32) | low
}

/// The red, green and blue channels of a packed colour.
pub fn unpack_rgb(px: u32) -> (r: (u8, u8, u8))
    ensures
        r.0 == red(px),
        r.1 == green(px),
        r.2 == blue(px),
{
    proof {
        lemma_channel_bounds(px);
    }
    (((px >> 16u32) & 0xFFu32) as u8, ((px >> 8u32) & 0xFFu32) as u8, (px & 0xFFu32) as u8)
}

/// Scales each channel of `color` by the fixed-point factor `factor`
/// (`0 ..= FIX_ONE`), truncating.
pub fn shade(color: u32, factor: u32) -> (c: u32)
    requires
        factor <= FIX_ONE,
    ensures
        c == shade_spec(color, factor as int),
        red(c) == shade_channel(red(color), factor as int),
        green(c) == shade_channel(green(color), factor as int),
        blue(c) == shade_channel(blue(color), factor as int),
{
    let (r, g, b) = unpack_rgb(color);
    let sr = scale_channel(r, factor);
    let sg = scale_channel(g, factor);
    let sb = scale_channel(b, factor);
    rgb(sr, sg, sb)
}

fn scale_channel(c: u8, factor: u32) -> (r: u8)
    requires
        factor <= FIX_ONE,
    ensures
        r == shade_channel(c as int, factor as int),
{
    proof {
        assert(c as int * factor as int <= 255 * 65536) by (nonlinear_arith)
            requires
                c <= 255,
                factor <= 65536,
        ;
        assert(c as int * factor as int / 65536 <= 255) by (nonlinear_arith)
            requires
                c <= 255,
                factor <= 65536,
                c as int * factor as int <= 255 * 65536,
        ;
    }
    ((c as u32 * factor) / 65536u32) as u8
}

fn blend_one(f: u8, b: u8, a: u8) -> (r: u8)
    ensures
        r == blend_channel(f as int, b as int, a as int),
{
    proof {
        assert(f as int * a as int + b as int * (255 - a as int) <= 255 * 255) by (nonlinear_arith)
            requires
                f <= 255,
                b <= 255,
                a <= 255,
        ;
        assert(0 <= f as int * a as int + b as int * (255 - a as int)) by (nonlinear_arith)
            requires
                f <= 255,
                b <= 255,
                a <= 255,
        ;
    }
    let ar = a as u32;
    ((f as u32 * ar + b as u32 * (255 - ar)) / 255) as u8
}

/// Lays `fg` over `bg` with opacity `a / 255` ("over" compositing per
/// channel). A fully opaque texel gives `fg` and a fully transparent one
/// leaves `bg` as it was.
pub fn alpha_blend(bg: u32, fg: u32, a: u8) -> (c: u32)
    ensures
        c == blend_spec(bg, fg, a),
        a == 255 ==> c == fg,
        a == 0 ==> c == bg,
{
    if a == 255 {
        return fg;
    }
    if a == 0 {
        return bg;
    }
    let (fr, fg_g, fb) = unpack_rgb(fg);
    let (br, bg_g, bb) = unpack_rgb(bg);
    let r = blend_one(fr, br, a);
    let g = blend_one(fg_g, bg_g, a);
    let b = blend_one(fb, bb, a);
    rgb(r, g, b)
}

} // verus!
