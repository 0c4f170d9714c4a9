//! Textures and sprite frames: dense pixel arrays sampled by wrapped
//! fixed-point coordinates.

use vstd::prelude::*;
use crate::fixed::{FIX_ONE, frac, frac_spec};

verus! {

/// The largest width or height of a texture.
pub const MAX_TEX_DIM: usize = 16384;

/// An opaque `0xRRGGBB` texture, `w` by `h`, stored row by row.
pub struct Texture {
    pub w: usize,
    pub h: usize,
    pub data: Vec<u32>,
}

/// A sprite frame, `w` by `h`, stored row by row as `0xAARRGGBB`.
pub struct SpriteFrame {
    pub w: usize,
    pub h: usize,
    pub rgba: Vec<u32>,
}

/// Column (or row) of a texture of extent `n` that a fixed-point
/// coordinate lands on once wrapped into `[0, 1)`.
pub open spec fn texel_index(u: int, n: int) -> int {
    frac_spec(u) * n / (FIX_ONE as int)
}

/// Dimensions that a texture of `len` pixels can have.
pub open spec fn dims_ok(w: usize, h: usize, len: int) -> bool {
    &&& 0 < w <= MAX_TEX_DIM
    &&& 0 < h <= MAX_TEX_DIM
    &&& len == w * h
}

proof fn lemma_texel_index_bounds(u: int, n: int)
    requires
        0 < n <= MAX_TEX_DIM,
    ensures
        0 <= texel_index(u, n) < n,
{
    let f = frac_spec(u);
    assert(0 <= f < 65536);
    assert(0 <= f * n < 65536 * n) by (nonlinear_arith)
        requires
            0 <= f < 65536,
            n > 0,
    ;
    vstd::arithmetic::div_mod::lemma_multiply_divide_lt(f * n, 65536, n);
    vstd::arithmetic::div_mod::lemma_div_pos_is_pos(f * n, 65536);
}

proof fn lemma_row_major_index(x: int, y: int, w: int, h: int)
    requires
        0 <= x < w <= MAX_TEX_DIM,
        0 <= y < h <= MAX_TEX_DIM,
    ensures
        0 <= y * w + x < w * h,
        w * h <= MAX_TEX_DIM * MAX_TEX_DIM,
{
    assert(w * h <= 16384 * 16384) by (nonlinear_arith)
        requires
            0 < w <= 16384,
            0 < h <= 16384,
    ;
    assert(y * w + x < w * h) by (nonlinear_arith)
        requires
            0 <= x < w,
            0 <= y < h,
    ;
    assert(0 <= y * w) by (nonlinear_arith)
        requires
            0 <= y,
            0 <= x < w,
    ;
}

/// Index of the pixel that a wrapped coordinate selects.
fn wrapped_index(u: i64, n: usize) -> (r: usize)
    requires
        0 < n <= MAX_TEX_DIM,
    ensures
        r == texel_index(u as int, n as int),
        r < n,
{
    proof {
        lemma_texel_index_bounds(u as int, n as int);
    }
    let f = frac(u) as usize;
    proof {
        assert(f * n <= 65536 * 16384) by (nonlinear_arith)
            requires
                f < 65536,
                n <= 16384,
        ;
    }
    f * n / (FIX_ONE as usize)
}

impl Texture {
    /// Its dimensions agree with its pixel array.
    pub open spec fn wf(&self) -> bool {
        dims_ok(self.w, self.h, self.data@.len() as int)
    }

    /// The pixel at column `x`, row `y`.
    pub open spec fn texel(&self, x: int, y: int) -> u32 {
        self.data@[y * self.w + x]
    }

    /// Every pixel is a 24-bit colour (nothing above `0xFFFFFF`).
    pub open spec fn rgb_only(&self) -> bool {
        forall|i: int| 0 <= i < self.data@.len() ==> #[trigger] self.data@[i] <= 0xFF_FFFFu32
    }

    /// The colour that sampling at `(u, v)` gives: both coordinates are
    /// wrapped into `[0, 1)` (tiling) and scaled to a pixel.
    pub open spec fn sample_spec(&self, u: int, v: int) -> u32 {
        self.texel(texel_index(u, self.w as int), texel_index(v, self.h as int))
    }

    /// A texture of `w` by `h` pixels, or `None` where `data` does not hold
    /// exactly `w * h` of them or a dimension is zero or above `MAX_TEX_DIM`.
    pub fn new(w: usize, h: usize, data: Vec<u32>) -> (r: Option<Texture>)
        ensures
            r.is_some() <==> dims_ok(w, h, data@.len() as int),
            r matches Some(t) ==> t.w == w && t.h == h && t.data@ == data@ && t.wf(),
    {
        if w == 0 || h == 0 || w > MAX_TEX_DIM || h > MAX_TEX_DIM {
            return None;
        }
        if data.len() / w != h || data.len() % w != 0 {
            proof {
                if data@.len() == w * h {
                    vstd::arithmetic::div_mod::lemma_div_multiples_vanish(h as int, w as int);
                    vstd::arithmetic::div_mod::lemma_mod_multiples_basic(h as int, w as int);
                    assert(h * w == w * h) by (nonlinear_arith);
                }
            }
            return None;
        }
        proof {
            vstd::arithmetic::div_mod::lemma_fundamental_div_mod(data@.len() as int, w as int);
            assert(w * h == h * w) by (nonlinear_arith);
        }
        Some(Texture { w, h, data })
    }

    /// The pixel at column `x`, row `y`.
    pub fn texel_at(&self, x: usize, y: usize) -> (c: u32)
        requires
            self.wf(),
            x < self.w,
            y < self.h,
        ensures
            c == self.texel(x as int, y as int),
    {
        proof {
            lemma_row_major_index(x as int, y as int, self.w as int, self.h as int);
        }
        self.data[y * self.w + x]
    }

    /// Samples at fixed-point `(u, v)`, wrapping both coordinates.
    pub fn sample(&self, u: i64, v: i64) -> (c: u32)
        requires
            self.wf(),
        ensures
            c == self.sample_spec(u as int, v as int),
    {
        let x = wrapped_index(u, self.w);
        let y = wrapped_index(v, self.h);
        proof {
            lemma_row_major_index(x as int, y as int, self.w as int, self.h as int);
        }
        self.data[y * self.w + x]
    }
}

/// The colour part of a sprite pixel.
pub open spec fn rgb_part(px: u32) -> u32 {
    px & 0x00FF_FFFFu32
}

/// The alpha part of a sprite pixel.
pub open spec fn alpha_part(px: u32) -> u8 {
    ((px >> 24u32) & 0xFFu32) as u8
}

impl SpriteFrame {
    pub open spec fn wf(&self) -> bool {
        dims_ok(self.w, self.h, self.rgba@.len() as int)
    }

    pub open spec fn texel(&self, x: int, y: int) -> u32 {
        self.rgba@[y * self.w + x]
    }

    /// The pixel that sampling at `(u, v)` selects, coordinates wrapped.
    pub open spec fn sample_pixel(&self, u: int, v: int) -> u32 {
        self.texel(texel_index(u, self.w as int), texel_index(v, self.h as int))
    }

    /// A frame of `w` by `h` pixels, or `None` where `rgba` does not hold
    /// exactly `w * h` of them or a dimension is zero or above `MAX_TEX_DIM`.
    pub fn new(w: usize, h: usize, rgba: Vec<u32>) -> (r: Option<SpriteFrame>)
        ensures
            r.is_some() <==> dims_ok(w, h, rgba@.len() as int),
            r matches Some(f) ==> f.w == w && f.h == h && f.rgba@ == rgba@ && f.wf(),
    {
        match Texture::new(w, h, rgba) {
            Some(t) => Some(SpriteFrame { w: t.w, h: t.h, rgba: t.data }),
            None => None,
        }
    }

    /// Samples at fixed-point `(u, v)`, wrapping both coordinates; gives the
    /// `0xRRGGBB` colour and the alpha apart.
    pub fn sample(&self, u: i64, v: i64) -> (r: (u32, u8))
        requires
            self.wf(),
        ensures
            r.0 == rgb_part(self.sample_pixel(u as int, v as int)),
            r.1 == alpha_part(self.sample_pixel(u as int, v as int)),
    {
        let x = wrapped_index(u, self.w);
        let y = wrapped_index(v, self.h);
        proof {
            lemma_row_major_index(x as int, y as int, self.w as int, self.h as int);
        }
        let px = self.rgba[y * self.w + x];
        (px & 0x00FF_FFFFu32, ((px >> 24u32) & 0xFFu32) as u8)
    }

    /// The pixel at column `x`, row `y`, split into colour and alpha.
    pub fn texel_at(&self, x: usize, y: usize) -> (r: (u32, u8))
        requires
            self.wf(),
            x < self.w,
            y < self.h,
        ensures
            r.0 == rgb_part(self.texel(x as int, y as int)),
            r.1 == alpha_part(self.texel(x as int, y as int)),
    {
        proof {
            lemma_row_major_index(x as int, y as int, self.w as int, self.h as int);
        }
        let px = self.rgba[y * self.w + x];
        (px & 0x00FF_FFFFu32, ((px >> 24u32) & 0xFFu32) as u8)
    }
}

/// Sampling is periodic: moving a coordinate by a whole texture width (one
/// unit) selects the same pixel.
pub proof fn lemma_sample_wraps(t: &Texture, u: int, v: int)
    ensures
        t.sample_spec(u + FIX_ONE, v) == t.sample_spec(u, v),
        t.sample_spec(u, v + FIX_ONE) == t.sample_spec(u, v),
{
    vstd::arithmetic::div_mod::lemma_mod_add_multiples_vanish(u, 65536);
    vstd::arithmetic::div_mod::lemma_mod_add_multiples_vanish(v, 65536);
}

/// The textures of one level: two wall variants and a panoramic sky.
pub struct TextureSet {
    pub wall_fire_a: Texture,
    pub wall_fire_b: Texture,
    pub sky: Texture,
}

impl TextureSet {
    pub open spec fn wf(&self) -> bool {
        self.wall_fire_a.wf() && self.wall_fire_b.wf() && self.sky.wf()
    }
}

} // verus!
