//! The wall pass: one textured, lit vertical strip per screen column, and
//! the per-column depth buffer that the sprite pass tests against.

use vstd::prelude::*;
use crate::color::{shade, shade_spec};
use crate::dda::{abs_spec, cast_ray, cast_spec, cell_at, perp_spec, MAX_RAY};
use crate::fixed::{FIX_ONE, floor_fix, floor_spec, frac, frac_spec};
use crate::texture::{Texture, TextureSet};
use crate::world::{WorldMap, is_solid};

verus! {

/// Width of the frame in pixels.
pub const WIDTH: usize = 800;
/// Height of the frame in pixels.
pub const HEIGHT: usize = 600;
/// The largest magnitude of a direction or camera-plane component (4 units).
pub const MAX_DIR: i64 = 262144;
/// The largest light radius (1024 units).
pub const MAX_LIGHT: i64 = 67108864;

/// The camera: position, view direction and camera plane, in fixed point.
/// The plane's length sets the field of view.
#[derive(Clone, Copy)]
pub struct Camera {
    pub x: i64,
    pub y: i64,
    pub dir_x: i64,
    pub dir_y: i64,
    pub plane_x: i64,
    pub plane_y: i64,
}

impl Camera {
    /// Direction and plane components within `MAX_DIR`.
    pub open spec fn bounded(&self) -> bool {
        &&& -MAX_DIR <= self.dir_x <= MAX_DIR
        &&& -MAX_DIR <= self.dir_y <= MAX_DIR
        &&& -MAX_DIR <= self.plane_x <= MAX_DIR
        &&& -MAX_DIR <= self.plane_y <= MAX_DIR
    }

    /// Bounded components, and no column's ray is the zero vector (true of
    /// any direction with a perpendicular plane of any field of view).
    pub open spec fn basis_ok(&self) -> bool {
        &&& self.bounded()
        &&& forall|col: int|
            0 <= col < WIDTH ==> #[trigger] ray_x(*self, col) != 0 || ray_y(*self, col) != 0
    }
}

/// The pixel at column `col`, row `row` of a frame.
pub open spec fn pix(b: Seq<u32>, col: int, row: int) -> u32 {
    b[row * WIDTH + col]
}

pub open spec fn on_screen(col: int, row: int) -> bool {
    0 <= col < WIDTH && 0 <= row < HEIGHT
}

pub open spec fn clamp_spec(v: int, lo: int, hi: int) -> int {
    if v < lo {
        lo
    } else if v > hi {
        hi
    } else {
        v
    }
}

/// Position of a column across the field of view, `-1 .. 1` in fixed point.
pub open spec fn camera_x(col: int) -> int {
    (2 * col * FIX_ONE) / (WIDTH as int) - FIX_ONE
}

/// Ray direction for a column: `dir + plane * camera_x`.
pub open spec fn ray_x(c: Camera, col: int) -> int {
    c.dir_x + floor_spec(c.plane_x * camera_x(col))
}

pub open spec fn ray_y(c: Camera, col: int) -> int {
    c.dir_y + floor_spec(c.plane_y * camera_x(col))
}

pub open spec fn col_hit(m: WorldMap, c: Camera, col: int) -> (nat, nat, int) {
    cast_spec(m, c.x as int, c.y as int, ray_x(c, col), ray_y(c, col))
}

/// The perpendicular wall distance seen by a column: its depth-buffer value.
pub open spec fn col_perp(m: WorldMap, c: Camera, col: int) -> int {
    let (kx, ky, side) = col_hit(m, c, col);
    perp_spec(c.x as int, c.y as int, ray_x(c, col), ray_y(c, col), kx as int, ky as int, side)
}

pub open spec fn col_map_x(m: WorldMap, c: Camera, col: int) -> int {
    cell_at(c.x as int, ray_x(c, col), col_hit(m, c, col).0 as int)
}

pub open spec fn col_map_y(m: WorldMap, c: Camera, col: int) -> int {
    cell_at(c.y as int, ray_y(c, col), col_hit(m, c, col).1 as int)
}

/// Projected wall height on screen.
pub open spec fn line_height(perp: int) -> int {
    (HEIGHT * FIX_ONE) / perp
}

pub open spec fn span_start(lh: int) -> int {
    HEIGHT / 2 - lh / 2
}

pub open spec fn span_end(lh: int) -> int {
    HEIGHT / 2 + lh / 2
}

pub open spec fn col_start(m: WorldMap, c: Camera, col: int) -> int {
    clamp_spec(span_start(line_height(col_perp(m, c, col))), 0, HEIGHT - 1)
}

pub open spec fn col_end(m: WorldMap, c: Camera, col: int) -> int {
    clamp_spec(span_end(line_height(col_perp(m, c, col))), 0, HEIGHT - 1)
}

/// The two wall textures alternate by the parity of the cell.
pub open spec fn wall_texture(ts: TextureSet, mx: int, my: int) -> Texture {
    if (mx + my) % 2 == 0 {
        ts.wall_fire_b
    } else {
        ts.wall_fire_a
    }
}

pub open spec fn col_texture(ts: TextureSet, m: WorldMap, c: Camera, col: int) -> Texture {
    wall_texture(ts, col_map_x(m, c, col), col_map_y(m, c, col))
}

/// Where along the wall face the ray struck, `0 .. 1` in fixed point.
pub open spec fn wall_frac(c: Camera, rx: int, ry: int, perp: int, side: int) -> int {
    if side == 0 {
        frac_spec(c.y + floor_spec(perp * ry))
    } else {
        frac_spec(c.x + floor_spec(perp * rx))
    }
}

/// Texture column for a wall hit, mirrored so that every face reads the
/// same way round.
pub open spec fn tex_column(tw: int, f: int, side: int, rx: int, ry: int) -> int {
    let t = f * tw / (FIX_ONE as int);
    if (side == 0 && rx > 0) || (side == 1 && ry < 0) {
        tw - t - 1
    } else {
        t
    }
}

pub open spec fn col_tex_x(ts: TextureSet, m: WorldMap, c: Camera, col: int) -> int {
    let (kx, ky, side) = col_hit(m, c, col);
    tex_column(
        col_texture(ts, m, c, col).w as int,
        wall_frac(c, ray_x(c, col), ray_y(c, col), col_perp(m, c, col), side),
        side,
        ray_x(c, col),
        ray_y(c, col),
    )
}

/// Texture row for screen row `row` of a strip that starts (unclipped) at
/// `ds` and is `lh` pixels high.
pub open spec fn tex_row(th: int, row: int, ds: int, lh: int) -> int {
    let t = (row - ds) * th / (if lh < 1 {
        1
    } else {
        lh
    });
    if t > th - 1 {
        th - 1
    } else {
        t
    }
}

/// Light on a wall: falls off linearly to zero at `radius`, floored at
/// `ambient`, and dimmed to 70% on faces crossed in y.
pub open spec fn wall_light(radius: int, ambient: int, perp: int, side: int) -> int {
    let fall = if perp >= radius {
        0
    } else {
        (radius - perp) * FIX_ONE / radius
    };
    let base = if fall < ambient {
        ambient
    } else {
        fall
    };
    if side == 1 {
        base * 7 / 10
    } else {
        base
    }
}

pub open spec fn col_light(m: WorldMap, c: Camera, radius: int, ambient: int, col: int) -> int {
    wall_light(radius, ambient, col_perp(m, c, col), col_hit(m, c, col).2)
}

/// The wall pass's value for one pixel, given the pixel before it.
pub open spec fn wall_pixel(
    m: WorldMap,
    ts: TextureSet,
    c: Camera,
    radius: int,
    ambient: int,
    col: int,
    row: int,
    old: u32,
) -> int {
    if col_start(m, c, col) <= row <= col_end(m, c, col) {
        let t = col_texture(ts, m, c, col);
        let lh = line_height(col_perp(m, c, col));
        shade_spec(
            t.texel(col_tex_x(ts, m, c, col), tex_row(t.h as int, row, span_start(lh), lh)),
            col_light(m, c, radius, ambient, col),
        )
    } else {
        old as int
    }
}

proof fn lemma_scaled_floor_bound(p: int, cx: int)
    requires
        -FIX_ONE <= cx <= FIX_ONE,
    ensures
        -abs_spec(p) <= floor_spec(p * cx) <= abs_spec(p),
{
    let q = floor_spec(p * cx);
    vstd::arithmetic::div_mod::lemma_fundamental_div_mod(p * cx, 65536);
    let r = (p * cx) % 65536;
    assert(-abs_spec(p) * 65536 <= p * cx <= abs_spec(p) * 65536) by (nonlinear_arith)
        requires
            -65536 <= cx <= 65536,
    ;
    assert(-abs_spec(p) <= q <= abs_spec(p)) by (nonlinear_arith)
        requires
            p * cx == 65536 * q + r,
            0 <= r < 65536,
            -abs_spec(p) * 65536 <= p * cx <= abs_spec(p) * 65536,
    ;
}

/// The ray direction of a column.
fn column_ray(cam: &Camera, col: usize) -> (r: (i64, i64))
    requires
        cam.basis_ok(),
        col < WIDTH,
    ensures
        r.0 == ray_x(*cam, col as int),
        r.1 == ray_y(*cam, col as int),
        -2 * MAX_DIR <= r.0 <= 2 * MAX_DIR,
        -2 * MAX_DIR <= r.1 <= 2 * MAX_DIR,
        r.0 != 0 || r.1 != 0,
{
    let camx: i64 = ((2 * col as u64 * 65536) / (WIDTH as u64)) as i64 - FIX_ONE;
    proof {
        assert(camx == camera_x(col as int));
        assert(-65536 <= camx <= 65536);
        assert(-262144 * 65536 <= cam.plane_x * camx <= 262144 * 65536) by (nonlinear_arith)
            requires
                -262144 <= cam.plane_x <= 262144,
                -65536 <= camx <= 65536,
        ;
        assert(-262144 * 65536 <= cam.plane_y * camx <= 262144 * 65536) by (nonlinear_arith)
            requires
                -262144 <= cam.plane_y <= 262144,
                -65536 <= camx <= 65536,
        ;
        lemma_scaled_floor_bound(cam.plane_x as int, camx as int);
        lemma_scaled_floor_bound(cam.plane_y as int, camx as int);
    }
    let rx = cam.dir_x + floor_fix(cam.plane_x * camx);
    let ry = cam.dir_y + floor_fix(cam.plane_y * camx);
    (rx, ry)
}

/// Light factor for a wall at distance `perp` on `side`.
fn light_for(radius: i64, ambient: i64, perp: i64, side: u8) -> (l: i64)
    requires
        1 <= radius <= MAX_LIGHT,
        0 <= ambient <= FIX_ONE,
        perp >= 1,
        side <= 1,
    ensures
        l == wall_light(radius as int, ambient as int, perp as int, side as int),
        0 <= l <= FIX_ONE,
{
    let fall: i64 = if perp >= radius {
        0
    } else {
        proof {
            assert(0 <= (radius - perp) * 65536 <= radius * 65536) by (nonlinear_arith)
                requires
                    1 <= perp < radius,
            ;
            assert((radius - perp) * 65536 / (radius as int) <= 65536) by (nonlinear_arith)
                requires
                    0 <= (radius - perp) * 65536 <= radius * 65536,
                    radius >= 1,
            ;
            assert(0 <= (radius - perp) * 65536 / (radius as int)) by (nonlinear_arith)
                requires
                    0 <= (radius - perp) * 65536,
                    radius >= 1,
            ;
        }
        (radius - perp) * FIX_ONE / radius
    };
    let base = if fall < ambient { ambient } else { fall };
    if side == 1 {
        base * 7 / 10
    } else {
        base
    }
}

/// Draws the wall strip of one column; gives the column's perpendicular
/// wall distance.
fn wall_column(
    buf: &mut Vec<u32>,
    map: &WorldMap,
    tex: &TextureSet,
    cam: &Camera,
    light_radius: i64,
    ambient: i64,
    col: usize,
) -> (perp: i64)
    requires
        old(buf)@.len() == WIDTH * HEIGHT,
        map.wf(),
        map.bordered(),
        crate::dda::pos_ok(*map, cam.x as int, cam.y as int),
        cam.basis_ok(),
        tex.wf(),
        1 <= light_radius <= MAX_LIGHT,
        0 <= ambient <= FIX_ONE,
        col < WIDTH,
    ensures
        final(buf)@.len() == WIDTH * HEIGHT,
        perp == col_perp(*map, *cam, col as int),
        col_hit(*map, *cam, col as int).0 + col_hit(*map, *cam, col as int).1 <= map.w + map.h,
        is_solid(map.tile(col_map_x(*map, *cam, col as int), col_map_y(*map, *cam, col as int))),
        forall|c: int, r: int|
            #![trigger pix(final(buf)@, c, r)]
            on_screen(c, r) ==> pix(final(buf)@, c, r) as int == if c == col {
                wall_pixel(*map, *tex, *cam, light_radius as int, ambient as int, c, r, pix(old(buf)@, c, r))
            } else {
                pix(old(buf)@, c, r) as int
            },
{
    let ghost m = *map;
    let ghost c = *cam;
    let ghost ts = *tex;
    let ghost b0 = buf@;
    let ghost coli = col as int;
    let (rx, ry) = column_ray(cam, col);
    let hit = cast_ray(map, cam.x, cam.y, rx, ry);
    let perp = hit.perp;
    assert(perp == col_perp(m, c, coli));
    assert(hit.map_x == col_map_x(m, c, coli));
    assert(hit.map_y == col_map_y(m, c, coli));
    let lh: i64 = (HEIGHT as i64 * FIX_ONE) / perp;
    assert(lh == line_height(perp as int));
    proof {
        assert(0 <= lh <= 600 * 65536) by (nonlinear_arith)
            requires
                lh == (600 * 65536int) / (perp as int),
                perp >= 1,
        ;
    }
    let ds: i64 = HEIGHT as i64 / 2 - lh / 2;
    let de: i64 = HEIGHT as i64 / 2 + lh / 2;
    let start: i64 = if ds < 0 { 0 } else if ds > HEIGHT as i64 - 1 { HEIGHT as i64 - 1 } else { ds };
    let end: i64 = if de < 0 { 0 } else if de > HEIGHT as i64 - 1 { HEIGHT as i64 - 1 } else { de };
    assert(start == col_start(m, c, coli));
    assert(end == col_end(m, c, coli));
    // where the ray struck the face
    proof {
        assert(-1024 * 65536 * 65536 * 524288 <= perp * ry <= 1024 * 65536 * 65536 * 524288)
            by (nonlinear_arith)
            requires
                1 <= perp <= 1024 * 65536 * 65536,
                -524288 <= ry <= 524288,
        ;
        assert(-1024 * 65536 * 65536 * 524288 <= perp * rx <= 1024 * 65536 * 65536 * 524288)
            by (nonlinear_arith)
            requires
                1 <= perp <= 1024 * 65536 * 65536,
                -524288 <= rx <= 524288,
        ;
    }
    let f: i64 = if hit.side == 0 {
        frac(cam.y + floor_fix(perp * ry))
    } else {
        frac(cam.x + floor_fix(perp * rx))
    };
    assert(f == wall_frac(c, rx as int, ry as int, perp as int, hit.side as int));
    let use_b = (hit.map_x + hit.map_y) % 2 == 0;
    let wt: &Texture = if use_b { &tex.wall_fire_b } else { &tex.wall_fire_a };
    assert(*wt == col_texture(ts, m, c, coli));
    proof {
        assert(0 <= f * wt.w <= 65536 * 16384) by (nonlinear_arith)
            requires
                0 <= f < 65536,
                0 < wt.w <= 16384,
        ;
        assert(f * wt.w / 65536 < wt.w) by (nonlinear_arith)
            requires
                0 <= f < 65536,
                0 < wt.w <= 16384,
        ;
    }
    let t0: usize = (f as usize * wt.w) / (FIX_ONE as usize);
    let tex_x: usize = if (hit.side == 0 && rx > 0) || (hit.side == 1 && ry < 0) {
        wt.w - t0 - 1
    } else {
        t0
    };
    assert(tex_x == col_tex_x(ts, m, c, coli));
    let light = light_for(light_radius, ambient, perp, hit.side);
    assert(light == col_light(m, c, light_radius as int, ambient as int, coli));
    let lh1: i64 = if lh < 1 { 1 } else { lh };
    let mut y: i64 = start;
    while y <= end
        invariant
            buf@.len() == WIDTH * HEIGHT,
            0 <= start <= y <= end + 1,
            end <= HEIGHT - 1,
            start == col_start(m, c, coli),
            end == col_end(m, c, coli),
            ds == span_start(lh as int),
            lh == line_height(col_perp(m, c, coli)),
            ds <= start,
            lh1 >= 1,
            lh1 == (if lh < 1 { 1 } else { lh }),
            lh1 <= 600 * 65536,
            ds >= 300 - 300 * 65536,
            *wt == col_texture(ts, m, c, coli),
            wt.wf(),
            tex_x < wt.w,
            tex_x == col_tex_x(ts, m, c, coli),
            light == col_light(m, c, light_radius as int, ambient as int, coli),
            0 <= light <= FIX_ONE,
            coli == col,
            col < WIDTH,
            forall|cc: int, r: int|
                #![trigger pix(buf@, cc, r)]
                on_screen(cc, r) ==> pix(buf@, cc, r) as int == if cc == col && start <= r < y {
                    wall_pixel(m, ts, c, light_radius as int, ambient as int, cc, r, pix(b0, cc, r))
                } else {
                    pix(b0, cc, r) as int
                },
        decreases end + 1 - y,
    {
        proof {
            assert(0 <= (y - ds) * wt.h <= (600 + 300 * 65536) * 16384) by (nonlinear_arith)
                requires
                    0 <= y - ds <= 600 + 300 * 65536,
                    0 < wt.h <= 16384,
            ;
            assert(0 <= (y - ds) * wt.h / (lh1 as int)) by (nonlinear_arith)
                requires
                    0 <= (y - ds) * wt.h,
                    lh1 >= 1,
            ;
        }
        let t1: i64 = (y - ds) * (wt.h as i64) / lh1;
        let ty: usize = if t1 > wt.h as i64 - 1 { wt.h - 1 } else { t1 as usize };
        assert(ty == tex_row(wt.h as int, y as int, ds as int, lh as int));
        let texel = wt.texel_at(tex_x, ty);
        let lit = shade(texel, light as u32);
        let idx: usize = y as usize * WIDTH + col;
        let ghost bp = buf@;
        buf.set(idx, lit);
        proof {
            assert forall|cc: int, r: int|
                #![trigger pix(buf@, cc, r)]
                on_screen(cc, r) implies pix(buf@, cc, r) as int == if cc == col && start <= r < y
                    + 1 {
                    wall_pixel(m, ts, c, light_radius as int, ambient as int, cc, r, pix(b0, cc, r))
                } else {
                    pix(b0, cc, r) as int
                } by {
                if cc == col && r == y {
                    assert(pix(buf@, cc, r) == lit);
                    assert(wall_pixel(m, ts, c, light_radius as int, ambient as int, cc, r, pix(b0, cc, r))
                        == shade_spec(wt.texel(tex_x as int, ty as int), light as int));
                } else {
                    assert(r * 800 + cc != y * 800 + col);
                    assert(pix(buf@, cc, r) == pix(bp, cc, r));
                }
            }
        }
        y = y + 1;
    }
    perp
}

/// Renders the walls: for each column, casts its ray, draws the textured,
/// lit strip of the wall it hits, and records the wall's perpendicular
/// distance in the depth buffer. Pixels above and below the strips keep
/// their colour.
pub fn raycast(
    buf: &mut Vec<u32>,
    zbuf: &mut Vec<i64>,
    map: &WorldMap,
    tex: &TextureSet,
    cam: &Camera,
    light_radius: i64,
    ambient: i64,
)
    requires
        old(buf)@.len() == WIDTH * HEIGHT,
        old(zbuf)@.len() == WIDTH,
        map.wf(),
        map.bordered(),
        crate::dda::pos_ok(*map, cam.x as int, cam.y as int),
        cam.basis_ok(),
        tex.wf(),
        1 <= light_radius <= MAX_LIGHT,
        0 <= ambient <= FIX_ONE,
    ensures
        final(buf)@.len() == WIDTH * HEIGHT,
        final(zbuf)@.len() == WIDTH,
        forall|c: int, r: int|
            #![trigger pix(final(buf)@, c, r)]
            on_screen(c, r) ==> pix(final(buf)@, c, r) as int == wall_pixel(
                *map,
                *tex,
                *cam,
                light_radius as int,
                ambient as int,
                c,
                r,
                pix(old(buf)@, c, r),
            ),
        forall|c: int| 0 <= c < WIDTH ==> #[trigger] final(zbuf)@[c] == col_perp(*map, *cam, c),
        forall|c: int|
            0 <= c < WIDTH ==> #[trigger] col_hit(*map, *cam, c).0 + col_hit(*map, *cam, c).1
                <= map.w + map.h,
        forall|c: int|
            0 <= c < WIDTH ==> is_solid(
                map.tile(#[trigger] col_map_x(*map, *cam, c), col_map_y(*map, *cam, c)),
            ),
{
    let ghost b0 = buf@;
    let mut col: usize = 0;
    while col < WIDTH
        invariant
            buf@.len() == WIDTH * HEIGHT,
            zbuf@.len() == WIDTH,
            col <= WIDTH,
            map.wf(),
            map.bordered(),
            crate::dda::pos_ok(*map, cam.x as int, cam.y as int),
            cam.basis_ok(),
            tex.wf(),
            1 <= light_radius <= MAX_LIGHT,
            0 <= ambient <= FIX_ONE,
            forall|c: int, r: int|
                #![trigger pix(buf@, c, r)]
                on_screen(c, r) ==> pix(buf@, c, r) as int == if c < col {
                    wall_pixel(*map, *tex, *cam, light_radius as int, ambient as int, c, r, pix(b0, c, r))
                } else {
                    pix(b0, c, r) as int
                },
            forall|c: int| 0 <= c < col ==> #[trigger] zbuf@[c] == col_perp(*map, *cam, c),
            forall|c: int|
                0 <= c < col ==> #[trigger] col_hit(*map, *cam, c).0 + col_hit(*map, *cam, c).1
                    <= map.w + map.h,
            forall|c: int|
                0 <= c < col ==> is_solid(
                    map.tile(#[trigger] col_map_x(*map, *cam, c), col_map_y(*map, *cam, c)),
                ),
        decreases WIDTH - col,
    {
        let ghost b1 = buf@;
        let perp = wall_column(buf, map, tex, cam, light_radius, ambient, col);
        zbuf.set(col, perp);
        proof {
            assert forall|c: int, r: int|
                #![trigger pix(buf@, c, r)]
                on_screen(c, r) implies pix(buf@, c, r) as int == if c < col + 1 {
                    wall_pixel(*map, *tex, *cam, light_radius as int, ambient as int, c, r, pix(b0, c, r))
                } else {
                    pix(b0, c, r) as int
                } by {
                assert(pix(b1, c, r) as int == if c < col {
                    wall_pixel(*map, *tex, *cam, light_radius as int, ambient as int, c, r, pix(b0, c, r))
                } else {
                    pix(b0, c, r) as int
                });
            }
        }
        col = col + 1;
    }
}

} // verus!
