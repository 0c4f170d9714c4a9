//! Turning the bytes of an image file into textures and sprite frames.
//!
//! Decoding is left to the `image` crate; the packing of its raw 8-bit
//! channels into `0xRRGGBB` and `0xAARRGGBB` pixels is done and proved here.

use vstd::prelude::*;
use crate::color::{argb, pack, rgb};
use crate::texture::{dims_ok, SpriteFrame, Texture, MAX_TEX_DIM};

verus! {

/// What decoding an image file's bytes and converting the picture to 8-bit
/// RGB gives: width, height and the channels row by row, three bytes a
/// pixel; `None` where the bytes are not an image the crate can read.
pub uninterp spec fn rgb8_decoded(bytes: Seq<u8>) -> Option<(u32, u32, Seq<u8>)>;

/// The same with 8-bit RGBA: four bytes a pixel, alpha last.
pub uninterp spec fn rgba8_decoded(bytes: Seq<u8>) -> Option<(u32, u32, Seq<u8>)>;

/// Relies on `image::load_from_memory` (guesses the format from the bytes
/// and decodes), `DynamicImage::to_rgb8` and `ImageBuffer::dimensions` /
/// `into_raw`: an image buffer's raw data holds at least three bytes for
/// each of its `width * height` pixels.
#[verifier::external_body]
fn decode_rgb8(bytes: &Vec<u8>) -> (r: Option<(u32, u32, Vec<u8>)>)
    ensures
        r is Some <==> rgb8_decoded(bytes@) is Some,
        r matches Some(d) ==> rgb8_decoded(bytes@) == Some((d.0, d.1, d.2@)),
        r matches Some(d) ==> d.2@.len() >= 3 * d.0 * d.1,
{
    match image::load_from_memory(bytes) {
        Ok(img) => {
            let buf = img.to_rgb8();
            let (w, h) = buf.dimensions();
            Some((w, h, buf.into_raw()))
        },
        Err(_) => None,
    }
}

/// Relies on `image::load_from_memory`, `DynamicImage::to_rgba8` and
/// `ImageBuffer::dimensions` / `into_raw`: at least four bytes for each of
/// the `width * height` pixels.
#[verifier::external_body]
fn decode_rgba8(bytes: &Vec<u8>) -> (r: Option<(u32, u32, Vec<u8>)>)
    ensures
        r is Some <==> rgba8_decoded(bytes@) is Some,
        r matches Some(d) ==> rgba8_decoded(bytes@) == Some((d.0, d.1, d.2@)),
        r matches Some(d) ==> d.2@.len() >= 4 * d.0 * d.1,
{
    match image::load_from_memory(bytes) {
        Ok(img) => {
            let buf = img.to_rgba8();
            let (w, h) = buf.dimensions();
            Some((w, h, buf.into_raw()))
        },
        Err(_) => None,
    }
}

/// Pixel `i` of an RGB raster.
pub open spec fn rgb8_pixel(raw: Seq<u8>, i: int) -> u32 {
    pack(raw[3 * i] as int, raw[3 * i + 1] as int, raw[3 * i + 2] as int) as u32
}

/// Pixel `i` of an RGBA raster, alpha moved to the top byte.
pub open spec fn rgba8_pixel(raw: Seq<u8>, i: int) -> u32 {
    (raw[4 * i + 3] * 0x100_0000 + pack(raw[4 * i] as int, raw[4 * i + 1] as int, raw[4 * i + 2] as int)) as u32
}

/// A raster of `w` by `h` pixels of `k` bytes each can become a texture.
pub open spec fn raster_ok(w: u32, h: u32, k: int, len: int) -> bool {
    dims_ok(w as usize, h as usize, (w * h) as int) && len >= k * w * h
}

proof fn lemma_raster_index(i: int, k: int, n: int, len: int)
    requires
        0 <= i < n,
        1 <= k <= 4,
        len >= k * n,
    ensures
        k * i + k <= len,
{
    assert(k * i + k <= k * n) by (nonlinear_arith)
        requires
            0 <= i < n,
            k >= 1,
    ;
}

/// Packs an 8-bit RGB raster into a texture; `None` where its dimensions
/// are zero or above `MAX_TEX_DIM`.
pub fn texture_from_rgb8(w: u32, h: u32, raw: &Vec<u8>) -> (t: Option<Texture>)
    requires
        raw@.len() >= 3 * w * h,
    ensures
        t is Some <==> raster_ok(w, h, 3, raw@.len() as int),
        t matches Some(tx) ==> tx.wf() && tx.w == w && tx.h == h && forall|i: int|
            0 <= i < w * h ==> #[trigger] tx.data@[i] == rgb8_pixel(raw@, i),
{
    if w == 0 || h == 0 || w as usize > MAX_TEX_DIM || h as usize > MAX_TEX_DIM {
        return None;
    }
    proof {
        assert(w * h <= 16384 * 16384) by (nonlinear_arith)
            requires
                0 < w <= 16384,
                0 < h <= 16384,
        ;
    }
    let n = w as usize * h as usize;
    assert(3 * w * h == 3 * (w * h)) by (nonlinear_arith);
    let mut data: Vec<u32> = Vec::new();
    let mut i: usize = 0;
    while i < n
        invariant
            n == w * h,
            n <= 16384 * 16384,
            raw@.len() >= 3 * n,
            i <= n,
            data@.len() == i,
            forall|j: int| 0 <= j < i ==> #[trigger] data@[j] == rgb8_pixel(raw@, j),
        decreases n - i,
    {
        proof {
            lemma_raster_index(i as int, 3, n as int, raw@.len() as int);
        }
        data.push(rgb(raw[3 * i], raw[3 * i + 1], raw[3 * i + 2]));
        i = i + 1;
    }
    Some(Texture { w: w as usize, h: h as usize, data })
}

/// Packs an 8-bit RGBA raster into a sprite frame; `None` where its
/// dimensions are zero or above `MAX_TEX_DIM`.
pub fn frame_from_rgba8(w: u32, h: u32, raw: &Vec<u8>) -> (f: Option<SpriteFrame>)
    requires
        raw@.len() >= 4 * w * h,
    ensures
        f is Some <==> raster_ok(w, h, 4, raw@.len() as int),
        f matches Some(fr) ==> fr.wf() && fr.w == w && fr.h == h && forall|i: int|
            0 <= i < w * h ==> #[trigger] fr.rgba@[i] == rgba8_pixel(raw@, i),
{
    if w == 0 || h == 0 || w as usize > MAX_TEX_DIM || h as usize > MAX_TEX_DIM {
        return None;
    }
    proof {
        assert(w * h <= 16384 * 16384) by (nonlinear_arith)
            requires
                0 < w <= 16384,
                0 < h <= 16384,
        ;
    }
    let n = w as usize * h as usize;
    assert(4 * w * h == 4 * (w * h)) by (nonlinear_arith);
    let mut data: Vec<u32> = Vec::new();
    let mut i: usize = 0;
    while i < n
        invariant
            n == w * h,
            n <= 16384 * 16384,
            raw@.len() >= 4 * n,
            i <= n,
            data@.len() == i,
            forall|j: int| 0 <= j < i ==> #[trigger] data@[j] == rgba8_pixel(raw@, j),
        decreases n - i,
    {
        proof {
            lemma_raster_index(i as int, 4, n as int, raw@.len() as int);
        }
        data.push(argb(raw[4 * i + 3], raw[4 * i], raw[4 * i + 1], raw[4 * i + 2]));
        i = i + 1;
    }
    Some(SpriteFrame { w: w as usize, h: h as usize, rgba: data })
}

/// The texture that an image file's bytes hold: `None` where they are not
/// an image or its size is out of range.
pub fn decode_texture(bytes: &Vec<u8>) -> (t: Option<Texture>)
    ensures
        rgb8_decoded(bytes@) is None ==> t is None,
        rgb8_decoded(bytes@) matches Some(d) ==> {
            &&& (t is Some <==> dims_ok(d.0 as usize, d.1 as usize, (d.0 * d.1) as int))
            &&& t matches Some(tx) ==> tx.wf() && tx.w == d.0 && tx.h == d.1 && forall|i: int|
                0 <= i < d.0 * d.1 ==> #[trigger] tx.data@[i] == rgb8_pixel(d.2, i)
        },
{
    match decode_rgb8(bytes) {
        Some((w, h, raw)) => texture_from_rgb8(w, h, &raw),
        None => None,
    }
}

/// The sprite frame that an image file's bytes hold, with its alpha:
/// `None` where they are not an image or its size is out of range.
pub fn decode_frame(bytes: &Vec<u8>) -> (f: Option<SpriteFrame>)
    ensures
        rgba8_decoded(bytes@) is None ==> f is None,
        rgba8_decoded(bytes@) matches Some(d) ==> {
            &&& (f is Some <==> dims_ok(d.0 as usize, d.1 as usize, (d.0 * d.1) as int))
            &&& f matches Some(fr) ==> fr.wf() && fr.w == d.0 && fr.h == d.1 && forall|i: int|
                0 <= i < d.0 * d.1 ==> #[trigger] fr.rgba@[i] == rgba8_pixel(d.2, i)
        },
{
    match decode_rgba8(bytes) {
        Some((w, h, raw)) => frame_from_rgba8(w, h, &raw),
        None => None,
    }
}

} // verus!
