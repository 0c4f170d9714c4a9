//! Procedural textures, and the choice between a decoded image and a
//! procedural fallback when a level's textures are put together.

use vstd::prelude::*;
use crate::color::{blue, green, pack, red, rgb, unpack_rgb};
use crate::fixed::FIX_ONE;
use crate::texture::{MAX_TEX_DIM, Texture, TextureSet};

verus! {

/// Element `(x, y)` of a row-major array of width `w`.
pub open spec fn at(s: Seq<u32>, w: int, x: int, y: int) -> u32 {
    s[y * w + x]
}

pub proof fn lemma_row_major_before(xx: int, yy: int, x: int, y: int, w: int)
    requires
        0 <= xx < w,
        0 <= x < w,
        0 <= yy,
        yy < y || (yy == y && xx < x),
    ensures
        yy * w + xx < y * w + x,
{
    if yy < y {
        assert(yy * w + xx < y * w + x) by (nonlinear_arith)
            requires
                yy < y,
                0 <= xx < w,
                0 <= x,
        ;
    }
}

proof fn lemma_dims(w: int, h: int)
    requires
        0 < w <= MAX_TEX_DIM,
        0 < h <= MAX_TEX_DIM,
    ensures
        w * h <= MAX_TEX_DIM * MAX_TEX_DIM,
        forall|y: int| 0 <= y < h ==> #[trigger] (y * w) + w <= w * h,
{
    assert(w * h <= 16384 * 16384) by (nonlinear_arith)
        requires
            0 < w <= 16384,
            0 < h <= 16384,
    ;
    assert forall|y: int| 0 <= y < h implies #[trigger] (y * w) + w <= w * h by {
        assert(y * w + w <= w * h) by (nonlinear_arith)
            requires
                0 <= y < h,
                0 < w,
        ;
    }
}

/// The fire pattern: an orange-to-red gradient from top to bottom, with the
/// red channel raised by 20 (up to 255) in alternate six-pixel stripes.
pub open spec fn fire_texel(w: int, h: int, x: int, y: int) -> u32 {
    let r0 = 220 + 35 * (h - y) / h;
    let r = if (x / 6) % 2 == 0 {
        if r0 + 20 > 255 {
            255
        } else {
            r0 + 20
        }
    } else {
        r0
    };
    pack(r, 60 + 80 * (h - y) / h, 30 + 10 * (h - y) / h) as u32
}

/// The sky fallback: a light-blue gradient, brighter at the top.
pub open spec fn sky_texel(h: int, y: int) -> u32 {
    let d = h - 1;
    pack(110 + 20 * (d - y) / d, 150 + 40 * (d - y) / d, 220 + 35 * (d - y) / d) as u32
}

/// A decoded texture is at hand and well formed.
pub open spec fn usable(o: Option<Texture>) -> bool {
    o is Some && o.unwrap().wf()
}

pub open spec fn max_spec(a: int, b: int) -> int {
    if a > b {
        a
    } else {
        b
    }
}

/// A procedural fire texture of at least 16 by 16 pixels.
pub fn fire_texture(w_fallback: usize, h_fallback: usize) -> (t: Texture)
    requires
        w_fallback <= MAX_TEX_DIM,
        h_fallback <= MAX_TEX_DIM,
    ensures
        t.wf(),
        t.w == max_spec(w_fallback as int, 16),
        t.h == max_spec(h_fallback as int, 16),
        forall|x: int, y: int|
            0 <= x < t.w && 0 <= y < t.h ==> #[trigger] t.texel(x, y) == fire_texel(
                t.w as int,
                t.h as int,
                x,
                y,
            ),
{
    let w = if w_fallback > 16 { w_fallback } else { 16 };
    let h = if h_fallback > 16 { h_fallback } else { 16 };
    proof {
        lemma_dims(w as int, h as int);
    }
    let mut data: Vec<u32> = Vec::new();
    let mut y: usize = 0;
    while y < h
        invariant
            16 <= w <= MAX_TEX_DIM,
            16 <= h <= MAX_TEX_DIM,
            y <= h,
            data@.len() == y * w,
            w * h <= MAX_TEX_DIM * MAX_TEX_DIM,
            forall|yy: int| 0 <= yy < h ==> #[trigger] (yy * w) + w <= w * h,
            forall|xx: int, yy: int|
                0 <= xx < w && 0 <= yy < y ==> #[trigger] at(data@, w as int, xx, yy) == fire_texel(
                    w as int,
                    h as int,
                    xx,
                    yy,
                ),
        decreases h - y,
    {
        let d = (h - y) as u32;
        let hh = h as u32;
        proof {
            assert(35 * d / (hh as int) <= 35 && 80 * d / (hh as int) <= 80 && 10 * d / (hh as int) <= 10) by (nonlinear_arith)
                requires
                    d <= hh,
                    hh > 0,
            ;
        }
        let r0 = (220 + 35 * d / hh) as u8;
        let g = (60 + 80 * d / hh) as u8;
        let b = (30 + 10 * d / hh) as u8;
        let mut x: usize = 0;
        while x < w
            invariant
                16 <= w <= MAX_TEX_DIM,
                16 <= h <= MAX_TEX_DIM,
                y < h,
                x <= w,
                data@.len() == y * w + x,
                y * w + w <= w * h,
                w * h <= MAX_TEX_DIM * MAX_TEX_DIM,
                r0 == 220 + 35 * (h - y) / (h as int),
                g == 60 + 80 * (h - y) / (h as int),
                b == 30 + 10 * (h - y) / (h as int),
                forall|xx: int, yy: int|
                    0 <= xx < w && 0 <= yy && (yy < y || (yy == y && xx < x)) ==> #[trigger] at(
                        data@,
                        w as int,
                        xx,
                        yy,
                    ) == fire_texel(w as int, h as int, xx, yy),
            decreases w - x,
        {
            let stripe = (x / 6) % 2;
            let r: u8 = if stripe == 0 {
                if r0 as u16 + 20 > 255 { 255 } else { r0 + 20 }
            } else {
                r0
            };
            let c = rgb(r, g, b);
            let ghost d0 = data@;
            data.push(c);
            proof {
                assert forall|xx: int, yy: int|
                    0 <= xx < w && 0 <= yy && (yy < y || (yy == y && xx < x + 1)) implies #[trigger] at(
                        data@,
                        w as int,
                        xx,
                        yy,
                    ) == fire_texel(w as int, h as int, xx, yy) by {
                    if yy == y && xx == x {
                    } else {
                        lemma_row_major_before(xx, yy, x as int, y as int, w as int);
                        assert(at(data@, w as int, xx, yy) == at(d0, w as int, xx, yy));
                    }
                }
            }
            x = x + 1;
        }
        proof {
            assert((y + 1) * w == y * w + w) by (nonlinear_arith);
        }
        y = y + 1;
    }
    proof {
        assert(data@.len() == w * h) by (nonlinear_arith)
            requires
                data@.len() == y * w,
                y == h,
        ;
    }
    let t = Texture { w, h, data };
    assert forall|x: int, y: int| 0 <= x < t.w && 0 <= y < t.h implies #[trigger] t.texel(x, y)
        == fire_texel(t.w as int, t.h as int, x, y) by {
        assert(at(t.data@, w as int, x, y) == fire_texel(w as int, h as int, x, y));
    }
    t
}

/// A procedural sky gradient of at least 64 by 32 pixels.
pub fn sky_texture(w_fallback: usize, h_fallback: usize) -> (t: Texture)
    requires
        w_fallback <= MAX_TEX_DIM,
        h_fallback <= MAX_TEX_DIM,
    ensures
        t.wf(),
        t.w == max_spec(w_fallback as int, 64),
        t.h == max_spec(h_fallback as int, 32),
        forall|x: int, y: int|
            0 <= x < t.w && 0 <= y < t.h ==> #[trigger] t.texel(x, y) == sky_texel(t.h as int, y),
{
    let w = if w_fallback > 64 { w_fallback } else { 64 };
    let h = if h_fallback > 32 { h_fallback } else { 32 };
    proof {
        lemma_dims(w as int, h as int);
    }
    let mut data: Vec<u32> = Vec::new();
    let mut y: usize = 0;
    while y < h
        invariant
            64 <= w <= MAX_TEX_DIM,
            32 <= h <= MAX_TEX_DIM,
            y <= h,
            data@.len() == y * w,
            w * h <= MAX_TEX_DIM * MAX_TEX_DIM,
            forall|yy: int| 0 <= yy < h ==> #[trigger] (yy * w) + w <= w * h,
            forall|xx: int, yy: int|
                0 <= xx < w && 0 <= yy < y ==> #[trigger] at(data@, w as int, xx, yy) == sky_texel(
                    h as int,
                    yy,
                ),
        decreases h - y,
    {
        let d = (h - 1 - y) as u32;
        let hh = (h - 1) as u32;
        proof {
            assert(20 * d / (hh as int) <= 20 && 40 * d / (hh as int) <= 40 && 35 * d / (hh as int) <= 35) by (nonlinear_arith)
                requires
                    d <= hh,
                    hh > 0,
            ;
        }
        let c = rgb((110 + 20 * d / hh) as u8, (150 + 40 * d / hh) as u8, (220 + 35 * d / hh) as u8);
        let mut x: usize = 0;
        while x < w
            invariant
                64 <= w <= MAX_TEX_DIM,
                32 <= h <= MAX_TEX_DIM,
                y < h,
                x <= w,
                data@.len() == y * w + x,
                y * w + w <= w * h,
                w * h <= MAX_TEX_DIM * MAX_TEX_DIM,
                c == sky_texel(h as int, y as int),
                forall|xx: int, yy: int|
                    0 <= xx < w && 0 <= yy && (yy < y || (yy == y && xx < x)) ==> #[trigger] at(
                        data@,
                        w as int,
                        xx,
                        yy,
                    ) == sky_texel(h as int, yy),
            decreases w - x,
        {
            let ghost d0 = data@;
            data.push(c);
            proof {
                assert forall|xx: int, yy: int|
                    0 <= xx < w && 0 <= yy && (yy < y || (yy == y && xx < x + 1)) implies #[trigger] at(
                        data@,
                        w as int,
                        xx,
                        yy,
                    ) == sky_texel(h as int, yy) by {
                    if yy == y && xx == x {
                    } else {
                        lemma_row_major_before(xx, yy, x as int, y as int, w as int);
                        assert(at(data@, w as int, xx, yy) == at(d0, w as int, xx, yy));
                    }
                }
            }
            x = x + 1;
        }
        proof {
            assert((y + 1) * w == y * w + w) by (nonlinear_arith);
        }
        y = y + 1;
    }
    proof {
        assert(data@.len() == w * h) by (nonlinear_arith)
            requires
                data@.len() == y * w,
                y == h,
        ;
    }
    let t = Texture { w, h, data };
    assert forall|x: int, y: int| 0 <= x < t.w && 0 <= y < t.h implies #[trigger] t.texel(x, y)
        == sky_texel(t.h as int, y) by {
        assert(at(t.data@, w as int, x, y) == sky_texel(h as int, y));
    }
    t
}

/// A decoded image where one was loaded and is well formed, else the fire
/// pattern.
pub fn load_or_fire(loaded: Option<Texture>, w_fallback: usize, h_fallback: usize) -> (t: Texture)
    requires
        w_fallback <= MAX_TEX_DIM,
        h_fallback <= MAX_TEX_DIM,
    ensures
        t.wf(),
        usable(loaded) ==> t == loaded.unwrap(),
        !usable(loaded) ==> t.w == max_spec(w_fallback as int, 16) && t.h
            == max_spec(h_fallback as int, 16) && forall|x: int, y: int|
            0 <= x < t.w && 0 <= y < t.h ==> #[trigger] t.texel(x, y) == fire_texel(
                t.w as int,
                t.h as int,
                x,
                y,
            ),
{
    match loaded {
        Some(l) => {
            if texture_ok(&l) {
                return l;
            }
        },
        None => {},
    }
    fire_texture(w_fallback, h_fallback)
}

/// A decoded image where one was loaded and is well formed, else the sky
/// gradient.
pub fn load_or_sky(loaded: Option<Texture>, w: usize, h: usize) -> (t: Texture)
    requires
        w <= MAX_TEX_DIM,
        h <= MAX_TEX_DIM,
    ensures
        t.wf(),
        usable(loaded) ==> t == loaded.unwrap(),
        !usable(loaded) ==> t.w == max_spec(w as int, 64) && t.h == max_spec(
            h as int,
            32,
        ) && forall|x: int, y: int|
            0 <= x < t.w && 0 <= y < t.h ==> #[trigger] t.texel(x, y) == sky_texel(t.h as int, y),
{
    match loaded {
        Some(l) => {
            if texture_ok(&l) {
                return l;
            }
        },
        None => {},
    }
    sky_texture(w, h)
}

/// Whether a texture's dimensions agree with its pixels.
pub fn texture_ok(t: &Texture) -> (r: bool)
    ensures
        r == t.wf(),
{
    if t.w == 0 || t.h == 0 || t.w > MAX_TEX_DIM || t.h > MAX_TEX_DIM {
        return false;
    }
    proof {
        assert(t.w * t.h <= 16384 * 16384) by (nonlinear_arith)
            requires
                0 < t.w <= 16384,
                0 < t.h <= 16384,
        ;
    }
    t.data.len() == t.w * t.h
}

impl TextureSet {
    /// The fire level's textures: the two brick images and the sky image
    /// where they were decoded, else the procedural fire (128 by 128) and
    /// sky (1024 by 256).
    pub fn load(fire_brick: Option<Texture>, magma: Option<Texture>, sky: Option<Texture>) -> (ts: TextureSet)
        ensures
            ts.wf(),
            usable(fire_brick) ==> ts.wall_fire_a == fire_brick.unwrap(),
            usable(magma) ==> ts.wall_fire_b == magma.unwrap(),
            usable(sky) ==> ts.sky == sky.unwrap(),
            !usable(fire_brick) ==> ts.wall_fire_a.w == 128 && ts.wall_fire_a.h == 128,
            !usable(magma) ==> ts.wall_fire_b.w == 128 && ts.wall_fire_b.h == 128,
            !usable(sky) ==> ts.sky.w == 1024 && ts.sky.h == 256,
    {
        TextureSet {
            wall_fire_a: load_or_fire(fire_brick, 128, 128),
            wall_fire_b: load_or_fire(magma, 128, 128),
            sky: load_or_sky(sky, 1024, 256),
        }
    }
}

/// A channel value cut to `0 ..= 255`.
pub open spec fn clamp8(v: int) -> int {
    if v < 0 {
        0
    } else if v > 255 {
        255
    } else {
        v
    }
}

/// A pixel with each channel scaled by its own fixed-point factor, cut at 255.
pub open spec fn tint_px(px: u32, r_mul: int, g_mul: int, b_mul: int) -> u32 {
    pack(
        clamp8(red(px) * r_mul / (FIX_ONE as int)),
        clamp8(green(px) * g_mul / (FIX_ONE as int)),
        clamp8(blue(px) * b_mul / (FIX_ONE as int)),
    ) as u32
}

/// The largest tint factor (4, fixed point).
pub const MAX_TINT: i64 = 262144;

fn scale8(c: u8, mul: i64) -> (r: u8)
    requires
        0 <= mul <= MAX_TINT,
    ensures
        r == clamp8(c * mul / (FIX_ONE as int)),
{
    proof {
        assert(0 <= c * mul <= 255 * 262144) by (nonlinear_arith)
            requires
                c <= 255,
                0 <= mul <= 262144,
        ;
        vstd::arithmetic::div_mod::lemma_div_pos_is_pos(c * mul, 65536);
    }
    let v = c as i64 * mul / FIX_ONE;
    if v > 255 {
        255
    } else {
        v as u8
    }
}

/// Scales the channels of every pixel by fixed-point factors (a colour
/// cast, such as cooling an image towards blue).
pub fn tint_cool_blue(data: &mut Vec<u32>, r_mul: i64, g_mul: i64, b_mul: i64)
    requires
        0 <= r_mul <= MAX_TINT,
        0 <= g_mul <= MAX_TINT,
        0 <= b_mul <= MAX_TINT,
    ensures
        final(data)@.len() == old(data)@.len(),
        forall|i: int|
            0 <= i < old(data)@.len() ==> #[trigger] final(data)@[i] == tint_px(
                old(data)@[i],
                r_mul as int,
                g_mul as int,
                b_mul as int,
            ),
{
    let ghost d0 = data@;
    let mut i: usize = 0;
    while i < data.len()
        invariant
            data@.len() == d0.len(),
            0 <= r_mul <= MAX_TINT,
            0 <= g_mul <= MAX_TINT,
            0 <= b_mul <= MAX_TINT,
            i <= data@.len(),
            forall|j: int| i <= j < d0.len() ==> #[trigger] data@[j] == d0[j],
            forall|j: int|
                0 <= j < i ==> #[trigger] data@[j] == tint_px(
                    d0[j],
                    r_mul as int,
                    g_mul as int,
                    b_mul as int,
                ),
        decreases data@.len() - i,
    {
        let (r, g, b) = unpack_rgb(data[i]);
        let v = rgb(scale8(r, r_mul), scale8(g, g_mul), scale8(b, b_mul));
        data.set(i, v);
        i = i + 1;
    }
}

/// `a + (b - a) * t` for a fixed-point `t` in `0 ..= 1`, rounded down.
pub open spec fn lerp_spec(a: int, b: int, t: int) -> int {
    clamp8(a + (b - a) * t / (FIX_ONE as int))
}

/// Interpolates between two channel values.
pub fn lerp_u8(a: u8, b: u8, t: i64) -> (r: u8)
    requires
        0 <= t <= FIX_ONE,
    ensures
        r == lerp_spec(a as int, b as int, t as int),
{
    proof {
        assert(-255 * 65536 <= (b - a) * t <= 255 * 65536) by (nonlinear_arith)
            requires
                a <= 255,
                b <= 255,
                0 <= t <= 65536,
        ;
    }
    let d = (b as i64 - a as i64) * t;
    let q = crate::fixed::floor_div(d, FIX_ONE);
    let v = a as i64 + q;
    if v < 0 {
        0
    } else if v > 255 {
        255
    } else {
        v as u8
    }
}

/// The colour a fraction `t` (fixed point) of the way from `a` to `b`.
pub open spec fn mix_spec(a: (u8, u8, u8), b: (u8, u8, u8), t: int) -> u32 {
    pack(
        lerp_spec(a.0 as int, b.0 as int, t),
        lerp_spec(a.1 as int, b.1 as int, t),
        lerp_spec(a.2 as int, b.2 as int, t),
    ) as u32
}

/// Interpolates between two colours given as channels.
pub fn mix_rgb(a: (u8, u8, u8), b: (u8, u8, u8), t: i64) -> (c: u32)
    requires
        0 <= t <= FIX_ONE,
    ensures
        c == mix_spec(a, b, t as int),
{
    rgb(lerp_u8(a.0, b.0, t), lerp_u8(a.1, b.1, t), lerp_u8(a.2, b.2, t))
}

/// A texture `w` wide whose row `y` is all `rows[y]`.
pub fn fill_rows(w: usize, rows: &Vec<u32>) -> (t: Texture)
    requires
        0 < w <= MAX_TEX_DIM,
        0 < rows@.len() <= MAX_TEX_DIM,
    ensures
        t.wf(),
        t.w == w,
        t.h == rows@.len(),
        forall|x: int, y: int| 0 <= x < t.w && 0 <= y < t.h ==> #[trigger] t.texel(x, y) == rows@[y],
        (forall|j: int| 0 <= j < rows@.len() ==> #[trigger] rows@[j] <= 0xFF_FFFFu32) ==> t.rgb_only(),
{
    let h = rows.len();
    let ghost narrow = forall|j: int| 0 <= j < rows@.len() ==> #[trigger] rows@[j] <= 0xFF_FFFFu32;
    proof {
        lemma_dims(w as int, h as int);
    }
    let mut data: Vec<u32> = Vec::new();
    let mut y: usize = 0;
    while y < h
        invariant
            0 < w <= MAX_TEX_DIM,
            0 < h <= MAX_TEX_DIM,
            h == rows@.len(),
            y <= h,
            data@.len() == y * w,
            w * h <= MAX_TEX_DIM * MAX_TEX_DIM,
            forall|yy: int| 0 <= yy < h ==> #[trigger] (yy * w) + w <= w * h,
            forall|xx: int, yy: int|
                0 <= xx < w && 0 <= yy < y ==> #[trigger] at(data@, w as int, xx, yy) == rows@[yy],
            narrow == forall|j: int| 0 <= j < rows@.len() ==> #[trigger] rows@[j] <= 0xFF_FFFFu32,
            narrow ==> forall|i: int| 0 <= i < data@.len() ==> #[trigger] data@[i] <= 0xFF_FFFFu32,
        decreases h - y,
    {
        let c = rows[y];
        let mut x: usize = 0;
        while x < w
            invariant
                0 < w <= MAX_TEX_DIM,
                0 < h <= MAX_TEX_DIM,
                h == rows@.len(),
                y < h,
                x <= w,
                data@.len() == y * w + x,
                y * w + w <= w * h,
                w * h <= MAX_TEX_DIM * MAX_TEX_DIM,
                c == rows@[y as int],
                narrow == forall|j: int| 0 <= j < rows@.len() ==> #[trigger] rows@[j] <= 0xFF_FFFFu32,
                narrow ==> forall|i: int| 0 <= i < data@.len() ==> #[trigger] data@[i] <= 0xFF_FFFFu32,
                forall|xx: int, yy: int|
                    0 <= xx < w && 0 <= yy && (yy < y || (yy == y && xx < x)) ==> #[trigger] at(
                        data@,
                        w as int,
                        xx,
                        yy,
                    ) == rows@[yy],
            decreases w - x,
        {
            let ghost d0 = data@;
            data.push(c);
            proof {
                assert forall|xx: int, yy: int|
                    0 <= xx < w && 0 <= yy && (yy < y || (yy == y && xx < x + 1)) implies #[trigger] at(
                        data@,
                        w as int,
                        xx,
                        yy,
                    ) == rows@[yy] by {
                    if yy == y && xx == x {
                    } else {
                        lemma_row_major_before(xx, yy, x as int, y as int, w as int);
                        assert(at(data@, w as int, xx, yy) == at(d0, w as int, xx, yy));
                    }
                }
            }
            x = x + 1;
        }
        proof {
            assert((y + 1) * w == y * w + w) by (nonlinear_arith);
        }
        y = y + 1;
    }
    proof {
        assert(data@.len() == w * h) by (nonlinear_arith)
            requires
                data@.len() == y * w,
                y == h,
        ;
    }
    let t = Texture { w, h, data };
    assert forall|x: int, y: int| 0 <= x < t.w && 0 <= y < t.h implies #[trigger] t.texel(x, y)
        == rows@[y] by {
        assert(at(t.data@, w as int, x, y) == rows@[y]);
    }
    t
}

/// Colour at the top of the water level's sky.
pub open spec fn sky_top() -> (u8, u8, u8) {
    (10u8, 32u8, 80u8)
}

/// Colour at the horizon of the water level's sky.
pub open spec fn sky_bottom() -> (u8, u8, u8) {
    (120u8, 185u8, 255u8)
}

/// The water level's sky fallback at row `y` of `h`: deep blue at the top
/// to light blue at the horizon.
pub open spec fn sky_blue_texel(h: int, y: int) -> u32 {
    mix_spec(sky_top(), sky_bottom(), y * FIX_ONE / (h - 1))
}

/// A procedural sky gradient for the water level, at least 64 by 32.
pub fn sky_blue_texture(w: usize, h: usize) -> (t: Texture)
    requires
        w <= MAX_TEX_DIM,
        h <= MAX_TEX_DIM,
    ensures
        t.wf(),
        t.w == max_spec(w as int, 64),
        t.h == max_spec(h as int, 32),
        forall|x: int, y: int|
            0 <= x < t.w && 0 <= y < t.h ==> #[trigger] t.texel(x, y) == sky_blue_texel(t.h as int, y),
        t.rgb_only(),
{
    let w = if w > 64 { w } else { 64 };
    let h = if h > 32 { h } else { 32 };
    let mut rows: Vec<u32> = Vec::new();
    let mut y: usize = 0;
    while y < h
        invariant
            32 <= h <= MAX_TEX_DIM,
            y <= h,
            rows@.len() == y,
            forall|j: int| 0 <= j < y ==> #[trigger] rows@[j] == sky_blue_texel(h as int, j),
            forall|j: int| 0 <= j < y ==> #[trigger] rows@[j] <= 0xFF_FFFFu32,
        decreases h - y,
    {
        proof {
            assert(0 <= y * 65536 / ((h - 1) as int) <= 65536) by (nonlinear_arith)
                requires
                    0 <= y <= h - 1,
                    h >= 2,
            ;
        }
        let t = (y as i64 * FIX_ONE) / ((h - 1) as i64);
        let c = mix_rgb((10u8, 32u8, 80u8), (120u8, 185u8, 255u8), t);
        rows.push(c);
        y = y + 1;
    }
    fill_rows(w, &rows)
}

/// Tint factors that cool wall images towards blue (0.65, 0.9, 1.25).
pub const WATER_TINT: (i64, i64, i64) = (42598, 58982, 81920);
/// Tint factors that cool a sky image towards blue (0.85, 0.95, 1.10).
pub const SKY_TINT: (i64, i64, i64) = (55705, 62259, 72090);

proof fn lemma_tint_narrow(px: u32, r_mul: int, g_mul: int, b_mul: int)
    ensures
        tint_px(px, r_mul, g_mul, b_mul) <= 0xFF_FFFFu32,
{
    let r = clamp8(red(px) * r_mul / (FIX_ONE as int));
    let g = clamp8(green(px) * g_mul / (FIX_ONE as int));
    let b = clamp8(blue(px) * b_mul / (FIX_ONE as int));
    assert(0 <= pack(r, g, b) <= 0xFF_FFFF);
}

/// A decoded image cooled towards blue where one is at hand.
fn tinted(l: Texture, m: (i64, i64, i64)) -> (t: Texture)
    requires
        l.wf(),
        0 <= m.0 <= MAX_TINT,
        0 <= m.1 <= MAX_TINT,
        0 <= m.2 <= MAX_TINT,
    ensures
        t.wf(),
        t.rgb_only(),
        t.w == l.w,
        t.h == l.h,
        forall|i: int|
            0 <= i < l.data@.len() ==> #[trigger] t.data@[i] == tint_px(
                l.data@[i],
                m.0 as int,
                m.1 as int,
                m.2 as int,
            ),
{
    let Texture { w, h, mut data } = l;
    tint_cool_blue(&mut data, m.0, m.1, m.2);
    let t = Texture { w, h, data };
    assert forall|i: int| 0 <= i < t.data@.len() implies #[trigger] t.data@[i] <= 0xFF_FFFFu32 by {
        lemma_tint_narrow(l.data@[i], m.0 as int, m.1 as int, m.2 as int);
    }
    t
}

/// The water walls: a decoded image cooled towards blue where one is at
/// hand, else the procedural `fallback`.
pub fn load_or_water(loaded: Option<Texture>, fallback: Texture) -> (t: Texture)
    requires
        fallback.wf(),
        fallback.rgb_only(),
    ensures
        t.wf(),
        t.rgb_only(),
        usable(loaded) ==> t.w == loaded.unwrap().w && t.h == loaded.unwrap().h && forall|i: int|
            0 <= i < t.data@.len() ==> #[trigger] t.data@[i] == tint_px(
                loaded.unwrap().data@[i],
                WATER_TINT.0 as int,
                WATER_TINT.1 as int,
                WATER_TINT.2 as int,
            ),
        !usable(loaded) ==> t == fallback,
{
    match loaded {
        Some(l) => {
            if texture_ok(&l) {
                return tinted(l, WATER_TINT);
            }
        },
        None => {},
    }
    fallback
}

/// The water sky: a decoded image cooled towards blue where one is at hand,
/// else the blue gradient.
pub fn load_or_sky_blue(loaded: Option<Texture>, w: usize, h: usize) -> (t: Texture)
    requires
        w <= MAX_TEX_DIM,
        h <= MAX_TEX_DIM,
    ensures
        t.wf(),
        t.rgb_only(),
        usable(loaded) ==> t.w == loaded.unwrap().w && t.h == loaded.unwrap().h && forall|i: int|
            0 <= i < t.data@.len() ==> #[trigger] t.data@[i] == tint_px(
                loaded.unwrap().data@[i],
                SKY_TINT.0 as int,
                SKY_TINT.1 as int,
                SKY_TINT.2 as int,
            ),
        !usable(loaded) ==> t.w == max_spec(w as int, 64) && t.h == max_spec(h as int, 32)
            && forall|x: int, y: int|
            0 <= x < t.w && 0 <= y < t.h ==> #[trigger] t.texel(x, y) == sky_blue_texel(t.h as int, y),
{
    match loaded {
        Some(l) => {
            if texture_ok(&l) {
                return tinted(l, SKY_TINT);
            }
        },
        None => {},
    }
    sky_blue_texture(w, h)
}

impl TextureSet {
    /// The water level's textures: the two wall images cooled towards blue
    /// where they were decoded, else the procedural waves (128 by 128,
    /// made by the caller, whose pattern needs trigonometry); the sky image
    /// cooled likewise, else the blue gradient (1024 by 256).
    pub fn load_water(
        tiles: Option<Texture>,
        bricks: Option<Texture>,
        sky: Option<Texture>,
        waves_a: Texture,
        waves_b: Texture,
    ) -> (ts: TextureSet)
        requires
            waves_a.wf(),
            waves_b.wf(),
            waves_a.rgb_only(),
            waves_b.rgb_only(),
            waves_a.w == 128 && waves_a.h == 128,
            waves_b.w == 128 && waves_b.h == 128,
        ensures
            ts.wf(),
            ts.wall_fire_a.rgb_only(),
            ts.wall_fire_b.rgb_only(),
            ts.sky.rgb_only(),
            !usable(tiles) ==> ts.wall_fire_a.w == 128 && ts.wall_fire_a.h == 128,
            !usable(bricks) ==> ts.wall_fire_b.w == 128 && ts.wall_fire_b.h == 128,
            !usable(tiles) ==> ts.wall_fire_a == waves_a,
            !usable(bricks) ==> ts.wall_fire_b == waves_b,
            !usable(sky) ==> ts.sky.w == 1024 && ts.sky.h == 256,
            usable(tiles) ==> ts.wall_fire_a.w == tiles.unwrap().w,
            usable(bricks) ==> ts.wall_fire_b.w == bricks.unwrap().w,
            usable(sky) ==> ts.sky.w == sky.unwrap().w,
    {
        TextureSet {
            wall_fire_a: load_or_water(tiles, waves_a),
            wall_fire_b: load_or_water(bricks, waves_b),
            sky: load_or_sky_blue(sky, 1024, 256),
        }
    }
}

} // verus!
