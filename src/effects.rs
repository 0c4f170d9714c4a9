//! Full-frame passes: the sky/floor background before the walls, and the
//! damage vignette after the sprites.

use vstd::prelude::*;
use crate::color::{blue, green, pack, red, rgb, unpack_rgb};
use crate::fixed::{FIX_ONE, isqrt, sqrt_floor};
use crate::render::{HEIGHT, WIDTH, on_screen, pix};
use crate::texture::Texture;

verus! {

/// The largest magnitude of a sky offset (fixed point).
pub const MAX_SKY_OFFSET: i64 = 0x0100_0000_0000;

/// Colour of a floor row: a gradient from dark red at the horizon to a
/// warmer glow at the bottom edge.
pub open spec fn floor_color(row: int) -> int {
    let half = (HEIGHT / 2) as int;
    let d = row - half;
    pack(100 + 100 * d / half, 40 + 40 * d / half, 30 + 10 * d / half)
}

/// The background's pixel: the upper half samples the panoramic sky, shifted
/// horizontally by `u_off` (the view angle as a fraction of a turn), the
/// lower half is the floor gradient.
pub open spec fn bg_pixel(sky: Texture, u_off: int, col: int, row: int) -> int {
    let half = (HEIGHT / 2) as int;
    if row < half {
        sky.sample_spec(col * FIX_ONE / (WIDTH as int) + u_off, row * FIX_ONE / half) as int
    } else {
        floor_color(row)
    }
}

/// Fills the frame with sky above the horizon and the floor gradient below.
/// `u_off` is the view angle as a fixed-point fraction of a full turn,
/// which scrolls the sky as the camera turns.
pub fn clear_bg(buf: &mut Vec<u32>, sky: &Texture, u_off: i64)
    requires
        old(buf)@.len() == WIDTH * HEIGHT,
        sky.wf(),
        -MAX_SKY_OFFSET <= u_off <= MAX_SKY_OFFSET,
    ensures
        final(buf)@.len() == WIDTH * HEIGHT,
        forall|c: int, r: int|
            #![trigger pix(final(buf)@, c, r)]
            on_screen(c, r) ==> pix(final(buf)@, c, r) as int == bg_pixel(*sky, u_off as int, c, r),
{
    let half: usize = HEIGHT / 2;
    let mut y: usize = 0;
    while y < HEIGHT
        invariant
            buf@.len() == WIDTH * HEIGHT,
            y <= HEIGHT,
            half == HEIGHT / 2,
            sky.wf(),
            -MAX_SKY_OFFSET <= u_off <= MAX_SKY_OFFSET,
            forall|c: int, r: int|
                #![trigger pix(buf@, c, r)]
                on_screen(c, r) && r < y ==> pix(buf@, c, r) as int == bg_pixel(
                    *sky,
                    u_off as int,
                    c,
                    r,
                ),
        decreases HEIGHT - y,
    {
        let floor_c: u32 = if y < half {
            0
        } else {
            let d = (y - half) as u32;
            proof {
                assert(100 * d / 300 < 100) by (nonlinear_arith)
                    requires
                        d < 300,
                ;
                assert(40 * d / 300 < 40) by (nonlinear_arith)
                    requires
                        d < 300,
                ;
                assert(10 * d / 300 < 10) by (nonlinear_arith)
                    requires
                        d < 300,
                ;
            }
            rgb(
                (100 + 100 * d / half as u32) as u8,
                (40 + 40 * d / half as u32) as u8,
                (30 + 10 * d / half as u32) as u8,
            )
        };
        let mut x: usize = 0;
        while x < WIDTH
            invariant
                buf@.len() == WIDTH * HEIGHT,
                y < HEIGHT,
                x <= WIDTH,
                half == HEIGHT / 2,
                sky.wf(),
                -MAX_SKY_OFFSET <= u_off <= MAX_SKY_OFFSET,
                y >= half ==> floor_c as int == floor_color(y as int),
                forall|c: int, r: int|
                    #![trigger pix(buf@, c, r)]
                    on_screen(c, r) && (r < y || (r == y && c < x)) ==> pix(buf@, c, r) as int
                        == bg_pixel(*sky, u_off as int, c, r),
            decreases WIDTH - x,
        {
            let color = if y < half {
                let u = (x as i64 * FIX_ONE) / (WIDTH as i64) + u_off;
                let v = (y as i64 * FIX_ONE) / (half as i64);
                sky.sample(u, v)
            } else {
                floor_c
            };
            let ghost bp = buf@;
            buf.set(y * WIDTH + x, color);
            proof {
                assert forall|c: int, r: int|
                    #![trigger pix(buf@, c, r)]
                    on_screen(c, r) && (r < y || (r == y && c < x + 1)) implies pix(buf@, c, r)
                        as int == bg_pixel(*sky, u_off as int, c, r) by {
                    if r == y && c == x {
                    } else {
                        assert(r * 800 + c != y * 800 + x);
                        assert(pix(buf@, c, r) == pix(bp, c, r));
                    }
                }
            }
            x = x + 1;
        }
        y = y + 1;
    }
}

/// Opacity of the damage vignette at a pixel, fixed point: 85% of the
/// intensity times a radial weight that grows from one half at the centre
/// to one at the corners.
pub open spec fn vignette_alpha(a: int, col: int, row: int) -> int {
    let dx = col - (WIDTH / 2) as int;
    let dy = row - (HEIGHT / 2) as int;
    let d = sqrt_floor((dx * dx + dy * dy) * FIX_ONE * FIX_ONE) / 500;
    let w0 = FIX_ONE / 2 + 7 * d / 10;
    let w = if w0 > FIX_ONE {
        FIX_ONE as int
    } else {
        w0
    };
    a * w / (FIX_ONE as int) * 85 / 100
}

/// One channel pulled towards `target` by opacity `alpha` (fixed point).
pub open spec fn tint_channel(ch: int, target: int, alpha: int) -> int {
    (ch * (FIX_ONE - alpha) + target * alpha) / (FIX_ONE as int)
}

/// The vignette's pixel: reddened by its opacity; pixels whose opacity is
/// negligible (at most 1/1000) are kept.
pub open spec fn overlay_pixel(intensity: int, col: int, row: int, old: u32) -> int {
    let a = if intensity > FIX_ONE {
        FIX_ONE as int
    } else {
        intensity
    };
    let alpha = vignette_alpha(a, col, row);
    if intensity <= 0 || alpha <= 65 {
        old as int
    } else {
        pack(
            tint_channel(red(old), 255, alpha),
            tint_channel(green(old), 40, alpha),
            tint_channel(blue(old), 40, alpha),
        )
    }
}

fn tint_one(ch: u8, target: u32, alpha: i64) -> (r: u8)
    requires
        0 <= alpha <= FIX_ONE,
        target <= 255,
    ensures
        r == tint_channel(ch as int, target as int, alpha as int),
{
    proof {
        assert(0 <= ch * (65536 - alpha) + target * alpha <= 255 * 65536) by (nonlinear_arith)
            requires
                0 <= alpha <= 65536,
                ch <= 255,
                target <= 255,
        ;
        assert((ch * (65536 - alpha) + target * alpha) / 65536 <= 255) by (nonlinear_arith)
            requires
                0 <= ch * (65536 - alpha) + target * alpha <= 255 * 65536,
        ;
    }
    ((ch as i64 * (FIX_ONE - alpha) + target as i64 * alpha) / FIX_ONE) as u8
}

/// Reddens the frame towards its edges by `intensity` (fixed point,
/// clamped to 1); does nothing for an intensity of zero or less.
pub fn draw_damage_overlay(buf: &mut Vec<u32>, intensity: i64)
    requires
        old(buf)@.len() == WIDTH * HEIGHT,
    ensures
        final(buf)@.len() == WIDTH * HEIGHT,
        forall|c: int, r: int|
            #![trigger pix(final(buf)@, c, r)]
            on_screen(c, r) ==> pix(final(buf)@, c, r) as int == overlay_pixel(
                intensity as int,
                c,
                r,
                pix(old(buf)@, c, r),
            ),
{
    if intensity <= 0 {
        return ;
    }
    let a: i64 = if intensity > FIX_ONE { FIX_ONE } else { intensity };
    let ghost b0 = buf@;
    let mut y: usize = 0;
    while y < HEIGHT
        invariant
            buf@.len() == WIDTH * HEIGHT,
            y <= HEIGHT,
            intensity > 0,
            a == (if intensity > FIX_ONE { FIX_ONE as int } else { intensity as int }),
            forall|c: int, r: int|
                #![trigger pix(buf@, c, r)]
                on_screen(c, r) ==> pix(buf@, c, r) as int == if r < y {
                    overlay_pixel(intensity as int, c, r, pix(b0, c, r))
                } else {
                    pix(b0, c, r) as int
                },
        decreases HEIGHT - y,
    {
        let mut x: usize = 0;
        while x < WIDTH
            invariant
                buf@.len() == WIDTH * HEIGHT,
                y < HEIGHT,
                x <= WIDTH,
                intensity > 0,
                a == (if intensity > FIX_ONE { FIX_ONE as int } else { intensity as int }),
                forall|c: int, r: int|
                    #![trigger pix(buf@, c, r)]
                    on_screen(c, r) ==> pix(buf@, c, r) as int == if r < y || (r == y && c < x) {
                        overlay_pixel(intensity as int, c, r, pix(b0, c, r))
                    } else {
                        pix(b0, c, r) as int
                    },
            decreases WIDTH - x,
        {
            let dx: i64 = x as i64 - (WIDTH / 2) as i64;
            let dy: i64 = y as i64 - (HEIGHT / 2) as i64;
            proof {
                assert(0 <= dx * dx <= 160000) by (nonlinear_arith)
                    requires
                        -400 <= dx <= 400,
                ;
                assert(0 <= dy * dy <= 90000) by (nonlinear_arith)
                    requires
                        -300 <= dy <= 300,
                ;
            }
            let n2 = ((dx * dx + dy * dy) as u64) * 65536 * 65536;
            let d = isqrt(n2) as i64 / 500;
            proof {
                assert(d <= 0x8000_0000);
            }
            let w0 = FIX_ONE / 2 + 7 * d / 10;
            let w = if w0 > FIX_ONE { FIX_ONE } else { w0 };
            proof {
                assert(0 <= a * w <= 65536 * 65536) by (nonlinear_arith)
                    requires
                        0 <= a <= 65536,
                        0 <= w <= 65536,
                ;
                assert(0 <= a * w / 65536 <= 65536) by (nonlinear_arith)
                    requires
                        0 <= a * w <= 65536 * 65536,
                ;
            }
            let alpha = a * w / FIX_ONE * 85 / 100;
            assert(alpha == vignette_alpha(a as int, x as int, y as int));
            let idx = y * WIDTH + x;
            let ghost bp = buf@;
            if alpha > 65 {
                let (r, g, b) = unpack_rgb(buf[idx]);
                let nr = tint_one(r, 255, alpha);
                let ng = tint_one(g, 40, alpha);
                let nb = tint_one(b, 40, alpha);
                let v = rgb(nr, ng, nb);
                buf.set(idx, v);
            }
            proof {
                assert forall|c: int, r: int|
                    #![trigger pix(buf@, c, r)]
                    on_screen(c, r) implies pix(buf@, c, r) as int == if r < y || (r == y && c < x
                        + 1) {
                        overlay_pixel(intensity as int, c, r, pix(b0, c, r))
                    } else {
                        pix(b0, c, r) as int
                    } by {
                    assert(pix(bp, c, r) as int == if r < y || (r == y && c < x) {
                        overlay_pixel(intensity as int, c, r, pix(b0, c, r))
                    } else {
                        pix(b0, c, r) as int
                    });
                    if r == y && c == x {
                    } else {
                        assert(r * 800 + c != y * 800 + x);
                    }
                }
            }
            x = x + 1;
        }
        y = y + 1;
    }
}

} // verus!
