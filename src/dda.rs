//! Grid traversal of one ray (DDA), exact in fixed-point arithmetic.
//!
//! A ray starts at `(px, py)` and runs along `(rx, ry)`. Along each axis the
//! distance (in ray lengths, scaled by the other component) to the next
//! cell boundary is `gap + k * FIX_ONE` after `k` steps on that axis, so the
//! axis to step next is chosen by comparing cross products: no division and
//! no infinity, and an axis whose component is zero is never chosen.

use vstd::prelude::*;
use crate::fixed::{FIX_ONE, floor_fix, floor_spec};
use crate::world::{WorldMap, is_solid, is_solid_tile};

verus! {

/// The largest magnitude of a ray direction component (16 units).
pub const MAX_RAY: i64 = 1048576;

pub open spec fn abs_spec(a: int) -> int {
    if a < 0 {
        -a
    } else {
        a
    }
}

/// The cell step along an axis: `-1` for a negative component, else `+1`.
pub open spec fn step_of(r: int) -> int {
    if r < 0 {
        -1
    } else {
        1
    }
}

/// Fixed-point distance from `p` to the first cell boundary crossed when
/// moving along the sign of `r`.
pub open spec fn gap(p: int, r: int) -> int {
    if r < 0 {
        p - floor_spec(p) * FIX_ONE
    } else {
        (floor_spec(p) + 1) * FIX_ONE - p
    }
}

/// After `kx` steps in x and `ky` in y, the next step is in x: the next
/// x boundary is strictly nearer along the ray than the next y boundary.
pub open spec fn x_first(px: int, py: int, rx: int, ry: int, kx: int, ky: int) -> bool {
    (gap(px, rx) + kx * FIX_ONE) * abs_spec(ry) < (gap(py, ry) + ky * FIX_ONE) * abs_spec(rx)
}

/// The map column after `kx` steps in x.
pub open spec fn cell_at(p: int, r: int, k: int) -> int {
    floor_spec(p) + step_of(r) * k
}

/// Continues the traversal from `kx` and `ky` steps for at most `fuel`
/// more steps; gives the step counts and the side (`0`: the last step was
/// in x, `1`: in y) at the first solid cell.
pub open spec fn trace(
    m: WorldMap,
    px: int,
    py: int,
    rx: int,
    ry: int,
    kx: nat,
    ky: nat,
    fuel: nat,
) -> (nat, nat, int)
    decreases fuel,
{
    if fuel == 0 {
        (kx, ky, 0)
    } else {
        let xf = x_first(px, py, rx, ry, kx as int, ky as int);
        let nkx: nat = if xf {
            kx + 1
        } else {
            kx
        };
        let nky: nat = if xf {
            ky
        } else {
            ky + 1
        };
        let side = if xf {
            0int
        } else {
            1int
        };
        if is_solid(m.tile(cell_at(px, rx, nkx as int), cell_at(py, ry, nky as int))) {
            (nkx, nky, side)
        } else {
            trace(m, px, py, rx, ry, nkx, nky, (fuel - 1) as nat)
        }
    }
}

/// The traversal from the start, with room for `w + h` steps.
pub open spec fn cast_spec(m: WorldMap, px: int, py: int, rx: int, ry: int) -> (nat, nat, int) {
    trace(m, px, py, rx, ry, 0, 0, (m.w + m.h) as nat)
}

/// Perpendicular (not Euclidean) distance to the face that was hit, in
/// fixed point: the distance along the hit axis divided by the ray's
/// component on that axis.
pub open spec fn perp_raw(px: int, py: int, rx: int, ry: int, kx: int, ky: int, side: int) -> int {
    if side == 0 {
        (gap(px, rx) + (kx - 1) * FIX_ONE) * FIX_ONE / abs_spec(rx)
    } else {
        (gap(py, ry) + (ky - 1) * FIX_ONE) * FIX_ONE / abs_spec(ry)
    }
}

/// The perpendicular distance, floored at the smallest positive value.
pub open spec fn perp_spec(px: int, py: int, rx: int, ry: int, kx: int, ky: int, side: int) -> int {
    let d = perp_raw(px, py, rx, ry, kx, ky, side);
    if d < 1 {
        1
    } else {
        d
    }
}

/// A start position strictly inside the map's interior cells.
pub open spec fn pos_ok(m: WorldMap, px: int, py: int) -> bool {
    &&& FIX_ONE <= px < (m.w - 1) * FIX_ONE
    &&& FIX_ONE <= py < (m.h - 1) * FIX_ONE
}

/// A usable ray direction: bounded and not zero.
pub open spec fn ray_ok(rx: int, ry: int) -> bool {
    &&& -MAX_RAY <= rx <= MAX_RAY
    &&& -MAX_RAY <= ry <= MAX_RAY
    &&& (rx != 0 || ry != 0)
}

/// Where a ray stopped.
pub struct RayHit {
    /// Column of the solid cell that was hit.
    pub map_x: i64,
    /// Row of the solid cell that was hit.
    pub map_y: i64,
    /// `0`: a face crossed by stepping in x; `1`: by stepping in y.
    pub side: u8,
    /// Steps taken in x.
    pub steps_x: u64,
    /// Steps taken in y.
    pub steps_y: u64,
    /// Perpendicular distance to the face, fixed point, at least `1`.
    pub perp: i64,
}

impl RayHit {
    /// This is the hit that the traversal defines for the ray.
    pub open spec fn agrees(&self, m: WorldMap, px: int, py: int, rx: int, ry: int) -> bool {
        let (kx, ky, side) = cast_spec(m, px, py, rx, ry);
        &&& self.steps_x == kx
        &&& self.steps_y == ky
        &&& self.side == side
        &&& self.map_x == cell_at(px, rx, kx as int)
        &&& self.map_y == cell_at(py, ry, ky as int)
        &&& self.perp == perp_spec(px, py, rx, ry, kx as int, ky as int, side)
    }
}

/// Casts a ray from `(px, py)` along `(rx, ry)` through the map until the
/// first solid cell. The map must be a closed arena, so the border stops
/// every ray within `w + h` steps.
pub fn cast_ray(map: &WorldMap, px: i64, py: i64, rx: i64, ry: i64) -> (hit: RayHit)
    requires
        map.wf(),
        map.bordered(),
        pos_ok(*map, px as int, py as int),
        ray_ok(rx as int, ry as int),
    ensures
        hit.agrees(*map, px as int, py as int, rx as int, ry as int),
        map.in_bounds(hit.map_x as int, hit.map_y as int),
        is_solid(map.tile(hit.map_x as int, hit.map_y as int)),
        hit.side <= 1,
        hit.steps_x + hit.steps_y <= map.w + map.h,
        rx == 0 ==> hit.steps_x == 0 && hit.side == 1,
        ry == 0 ==> hit.steps_y == 0 && hit.side == 0,
        1 <= hit.perp <= 1024 * FIX_ONE * FIX_ONE,
{
    let cx0 = floor_fix(px);
    let cy0 = floor_fix(py);
    let sx: i64 = if rx < 0 { -1 } else { 1 };
    let sy: i64 = if ry < 0 { -1 } else { 1 };
    let gx: i64 = if rx < 0 { px - cx0 * FIX_ONE } else { (cx0 + 1) * FIX_ONE - px };
    let gy: i64 = if ry < 0 { py - cy0 * FIX_ONE } else { (cy0 + 1) * FIX_ONE - py };
    let arx: i64 = if rx < 0 { -rx } else { rx };
    let ary: i64 = if ry < 0 { -ry } else { ry };
    let ghost w = map.w as int;
    let ghost h = map.h as int;
    let ghost fuel0 = (map.w + map.h) as nat;
    proof {
        assert(cx0 >= 1 && cx0 <= w - 2) by (nonlinear_arith)
            requires
                cx0 * 65536 <= px < cx0 * 65536 + 65536,
                65536 <= px < (w - 1) * 65536,
        ;
        assert(cy0 >= 1 && cy0 <= h - 2) by (nonlinear_arith)
            requires
                cy0 * 65536 <= py < cy0 * 65536 + 65536,
                65536 <= py < (h - 1) * 65536,
        ;
    }
    let mut kx: u64 = 0;
    let mut ky: u64 = 0;
    let mut side: u8 = 0;
    let mut cx: i64 = cx0;
    let mut cy: i64 = cy0;
    let mut sdx: i64 = gx;
    let mut sdy: i64 = gy;
    let mut done = false;
    while !done
        invariant
            map.wf(),
            map.bordered(),
            w == map.w,
            h == map.h,
            fuel0 == w + h,
            1 <= cx0 <= w - 2,
            1 <= cy0 <= h - 2,
            cx0 == floor_spec(px as int),
            cy0 == floor_spec(py as int),
            sx == step_of(rx as int),
            sy == step_of(ry as int),
            gx == gap(px as int, rx as int),
            gy == gap(py as int, ry as int),
            0 <= gx <= FIX_ONE,
            0 <= gy <= FIX_ONE,
            rx >= 0 ==> gx > 0,
            ry >= 0 ==> gy > 0,
            arx == abs_spec(rx as int),
            ary == abs_spec(ry as int),
            0 <= arx <= MAX_RAY,
            0 <= ary <= MAX_RAY,
            arx > 0 || ary > 0,
            sdx == gx + kx * FIX_ONE,
            sdy == gy + ky * FIX_ONE,
            cx == cx0 + sx * kx,
            cy == cy0 + sy * ky,
            0 <= cx < w,
            0 <= cy < h,
            kx <= w - 2,
            ky <= h - 2,
            rx == 0 ==> kx == 0,
            ry == 0 ==> ky == 0,
            !done ==> 1 <= cx <= w - 2 && 1 <= cy <= h - 2,
            !done ==> cast_spec(*map, px as int, py as int, rx as int, ry as int) == trace(
                *map,
                px as int,
                py as int,
                rx as int,
                ry as int,
                kx as nat,
                ky as nat,
                (fuel0 - kx - ky) as nat,
            ),
            done ==> cast_spec(*map, px as int, py as int, rx as int, ry as int) == (
                kx as nat,
                ky as nat,
                side as int,
            ),
            done ==> is_solid(map.tile(cx as int, cy as int)),
            side <= 1,
            done && side == 0 ==> arx > 0 && kx >= 1,
            done && side == 1 ==> ary > 0 && ky >= 1,
            done ==> (rx == 0 ==> side == 1) && (ry == 0 ==> side == 0),
        decreases (if sx > 0 { w - cx } else { cx + 1 }) + (if sy > 0 { h - cy } else { cy + 1 }),
    {
        proof {
            assert(0 <= sdx * ary <= 1024 * 65536 * 1048576) by (nonlinear_arith)
                requires
                    0 <= sdx <= 1024 * 65536,
                    0 <= ary <= 1048576,
            ;
            assert(0 <= sdy * arx <= 1024 * 65536 * 1048576) by (nonlinear_arith)
                requires
                    0 <= sdy <= 1024 * 65536,
                    0 <= arx <= 1048576,
            ;
        }
        let xf = sdx * ary < sdy * arx;
        let ghost fuel: nat = (fuel0 - kx - ky) as nat;
        proof {
            assert(xf == x_first(px as int, py as int, rx as int, ry as int, kx as int, ky as int));
            if xf {
                assert(arx > 0) by (nonlinear_arith)
                    requires
                        sdx * ary < sdy * arx,
                        sdx >= 0,
                        ary >= 0,
                        sdy >= 0,
                        arx >= 0,
                ;
            } else {
                if ary == 0 {
                    assert(sdy > 0);
                    assert(sdx * ary == 0) by (nonlinear_arith)
                        requires
                            ary == 0,
                    ;
                    assert(sdy * arx > 0) by (nonlinear_arith)
                        requires
                            sdy > 0,
                            arx > 0,
                    ;
                }
            }
        }
        if xf {
            sdx = sdx + FIX_ONE;
            kx = kx + 1;
            cx = cx + sx;
            side = 0;
        } else {
            sdy = sdy + FIX_ONE;
            ky = ky + 1;
            cy = cy + sy;
            side = 1;
        }
        let t = map.get(cx as usize, cy as usize);
        if is_solid_tile(t) {
            done = true;
        } else {
            proof {
                if cx == 0 || cy == 0 || cx == w - 1 || cy == h - 1 {
                    assert(map.tile(cx as int, cy as int) == crate::world::TILE_WALL);
                }
            }
        }
    }
    let perp_raw: i64 = if side == 0 {
        proof {
            assert(0 <= (sdx - FIX_ONE) * FIX_ONE <= 1024 * 65536 * 65536) by (nonlinear_arith)
                requires
                    0 <= sdx - 65536 <= 1024 * 65536,
            ;
            assert(0 <= (sdx - FIX_ONE) * FIX_ONE / (arx as int) <= 1024 * 65536 * 65536) by (nonlinear_arith)
                requires
                    0 <= (sdx - 65536) * 65536 <= 1024 * 65536 * 65536,
                    arx > 0,
            ;
        }
        (sdx - FIX_ONE) * FIX_ONE / arx
    } else {
        proof {
            assert(0 <= (sdy - FIX_ONE) * FIX_ONE <= 1024 * 65536 * 65536) by (nonlinear_arith)
                requires
                    0 <= sdy - 65536 <= 1024 * 65536,
            ;
            assert(0 <= (sdy - FIX_ONE) * FIX_ONE / (ary as int) <= 1024 * 65536 * 65536) by (nonlinear_arith)
                requires
                    0 <= (sdy - 65536) * 65536 <= 1024 * 65536 * 65536,
                    ary > 0,
            ;
        }
        (sdy - FIX_ONE) * FIX_ONE / ary
    };
    let perp = if perp_raw < 1 { 1 } else { perp_raw };
    RayHit { map_x: cx, map_y: cy, side, steps_x: kx, steps_y: ky, perp }
}

/// Every interior cell is open floor.
pub open spec fn open_interior(m: WorldMap) -> bool {
    forall|x: int, y: int|
        #![trigger m.tile(x, y)]
        1 <= x < m.w - 1 && 1 <= y < m.h - 1 ==> m.tile(x, y) == crate::world::TILE_EMPTY
}

proof fn lemma_start_cell(m: WorldMap, px: int, py: int)
    requires
        m.wf(),
        pos_ok(m, px, py),
    ensures
        1 <= floor_spec(px) <= m.w - 2,
        1 <= floor_spec(py) <= m.h - 2,
        floor_spec(px) * FIX_ONE <= px < floor_spec(px) * FIX_ONE + FIX_ONE,
        floor_spec(py) * FIX_ONE <= py < floor_spec(py) * FIX_ONE + FIX_ONE,
{
    let cx0 = floor_spec(px);
    let cy0 = floor_spec(py);
    vstd::arithmetic::div_mod::lemma_fundamental_div_mod(px, 65536);
    vstd::arithmetic::div_mod::lemma_fundamental_div_mod(py, 65536);
    assert(cx0 >= 1 && cx0 <= m.w - 2) by (nonlinear_arith)
        requires
            cx0 * 65536 <= px < cx0 * 65536 + 65536,
            65536 <= px < (m.w - 1) * 65536,
    ;
    assert(cy0 >= 1 && cy0 <= m.h - 2) by (nonlinear_arith)
        requires
            cy0 * 65536 <= py < cy0 * 65536 + 65536,
            65536 <= py < (m.h - 1) * 65536,
    ;
}

/// Along `+x` (`s == 1`) or `-x` (`s == -1`) through open floor.
proof fn lemma_open_row(m: WorldMap, px: int, py: int, s: int, kx: nat, fuel: nat)
    requires
        m.wf(),
        m.bordered(),
        open_interior(m),
        pos_ok(m, px, py),
        s == 1 || s == -1,
        s == 1 ==> floor_spec(px) + kx <= m.w - 2,
        s == -1 ==> floor_spec(px) - kx >= 1,
        fuel >= m.w + m.h - kx,
    ensures
        trace(m, px, py, s * FIX_ONE, 0, kx, 0, fuel) == (
            (if s == 1 { m.w - 1 - floor_spec(px) } else { floor_spec(px) }) as nat,
            0nat,
            0int,
        ),
    decreases fuel,
{
    lemma_start_cell(m, px, py);
    let cx0 = floor_spec(px);
    let cy0 = floor_spec(py);
    let gy = gap(py, 0);
    assert(gy > 0);
    assert(abs_spec(0) == 0);
    vstd::arithmetic::mul::lemma_mul_basics(gap(px, s * 65536) + kx * 65536);
    assert((gap(py, 0) + 0 * 65536) * abs_spec(s * 65536) == gy * 65536);
    assert(x_first(px, py, s * 65536, 0, kx as int, 0));
    let nx = cell_at(px, s * 65536, (kx + 1) as int);
    assert(nx == cx0 + s * (kx + 1));
    assert(cell_at(py, 0, 0) == cy0);
    if (s == 1 && nx == m.w - 1) || (s == -1 && nx == 0) {
        assert(m.on_border(nx, cy0));
        assert(m.tile(nx, cy0) == crate::world::TILE_WALL);
    } else {
        assert(m.tile(nx, cy0) == crate::world::TILE_EMPTY);
        lemma_open_row(m, px, py, s, kx + 1, (fuel - 1) as nat);
    }
}

/// Along `+y` (`s == 1`) or `-y` (`s == -1`) through open floor.
proof fn lemma_open_col(m: WorldMap, px: int, py: int, s: int, ky: nat, fuel: nat)
    requires
        m.wf(),
        m.bordered(),
        open_interior(m),
        pos_ok(m, px, py),
        s == 1 || s == -1,
        s == 1 ==> floor_spec(py) + ky <= m.h - 2,
        s == -1 ==> floor_spec(py) - ky >= 1,
        fuel >= m.w + m.h - ky,
    ensures
        trace(m, px, py, 0, s * FIX_ONE, 0, ky, fuel) == (
            0nat,
            (if s == 1 { m.h - 1 - floor_spec(py) } else { floor_spec(py) }) as nat,
            1int,
        ),
    decreases fuel,
{
    lemma_start_cell(m, px, py);
    let cx0 = floor_spec(px);
    let cy0 = floor_spec(py);
    let gx = gap(px, 0);
    assert(gx > 0);
    assert(abs_spec(0) == 0);
    vstd::arithmetic::mul::lemma_mul_basics(gap(py, s * 65536) + ky * 65536);
    assert((gap(px, 0) + 0 * 65536) * abs_spec(s * 65536) == gx * 65536);
    assert(!x_first(px, py, 0, s * 65536, 0, ky as int));
    let ny = cell_at(py, s * 65536, (ky + 1) as int);
    assert(ny == cy0 + s * (ky + 1));
    assert(cell_at(px, 0, 0) == cx0);
    if (s == 1 && ny == m.h - 1) || (s == -1 && ny == 0) {
        assert(m.on_border(cx0, ny));
        assert(m.tile(cx0, ny) == crate::world::TILE_WALL);
    } else {
        assert(m.tile(cx0, ny) == crate::world::TILE_EMPTY);
        lemma_open_col(m, px, py, s, ky + 1, (fuel - 1) as nat);
    }
}

/// In a closed arena whose interior is all open floor, a ray cast from
/// inside straight along one of the four axis directions (`+x`, `-x`, `+y`,
/// `-y`, unit length) hits the border wall ahead of it, on a face crossed
/// along that axis, at a perpendicular distance equal to the distance from
/// the start to that wall's face: from a cell centre, the distance to the
/// centre line of the border cells minus half a cell. (A start exactly on
/// the face of the wall behind gives the smallest distance, 1, instead
/// of 0.)
pub proof fn lemma_open_arena_distance(m: WorldMap, px: int, py: int)
    requires
        m.wf(),
        m.bordered(),
        open_interior(m),
        pos_ok(m, px, py),
    ensures
        cast_spec(m, px, py, FIX_ONE as int, 0) == ((m.w - 1 - floor_spec(px)) as nat, 0nat, 0int),
        cell_at(px, FIX_ONE as int, m.w - 1 - floor_spec(px)) == m.w - 1,
        perp_spec(px, py, FIX_ONE as int, 0, m.w - 1 - floor_spec(px), 0, 0) == ((m.w - 1) * FIX_ONE
            + FIX_ONE / 2 - px) - FIX_ONE / 2,
        cast_spec(m, px, py, -FIX_ONE, 0) == (floor_spec(px) as nat, 0nat, 0int),
        cell_at(px, -FIX_ONE, floor_spec(px)) == 0,
        px > FIX_ONE ==> perp_spec(px, py, -FIX_ONE, 0, floor_spec(px), 0, 0) == (px - FIX_ONE / 2)
            - FIX_ONE / 2,
        px == FIX_ONE ==> perp_spec(px, py, -FIX_ONE, 0, floor_spec(px), 0, 0) == 1,
        cast_spec(m, px, py, 0, FIX_ONE as int) == (0nat, (m.h - 1 - floor_spec(py)) as nat, 1int),
        cell_at(py, FIX_ONE as int, m.h - 1 - floor_spec(py)) == m.h - 1,
        perp_spec(px, py, 0, FIX_ONE as int, 0, m.h - 1 - floor_spec(py), 1) == ((m.h - 1) * FIX_ONE
            + FIX_ONE / 2 - py) - FIX_ONE / 2,
        cast_spec(m, px, py, 0, -FIX_ONE) == (0nat, floor_spec(py) as nat, 1int),
        cell_at(py, -FIX_ONE, floor_spec(py)) == 0,
        py > FIX_ONE ==> perp_spec(px, py, 0, -FIX_ONE, 0, floor_spec(py), 1) == (py - FIX_ONE / 2)
            - FIX_ONE / 2,
        py == FIX_ONE ==> perp_spec(px, py, 0, -FIX_ONE, 0, floor_spec(py), 1) == 1,
{
    lemma_start_cell(m, px, py);
    let cx0 = floor_spec(px);
    let cy0 = floor_spec(py);
    lemma_open_row(m, px, py, 1, 0, (m.w + m.h) as nat);
    lemma_open_row(m, px, py, -1, 0, (m.w + m.h) as nat);
    lemma_open_col(m, px, py, 1, 0, (m.w + m.h) as nat);
    lemma_open_col(m, px, py, -1, 0, (m.w + m.h) as nat);
    let a = (m.w - 1) * 65536 - px;
    let b = px - 65536;
    let c = (m.h - 1) * 65536 - py;
    let d = py - 65536;
    assert(gap(px, 65536) + (m.w - 2 - cx0) * 65536 == a);
    assert(gap(px, -65536) + (cx0 - 1) * 65536 == b);
    assert(gap(py, 65536) + (m.h - 2 - cy0) * 65536 == c);
    assert(gap(py, -65536) + (cy0 - 1) * 65536 == d);
    vstd::arithmetic::div_mod::lemma_div_multiples_vanish(a, 65536);
    vstd::arithmetic::div_mod::lemma_div_multiples_vanish(b, 65536);
    vstd::arithmetic::div_mod::lemma_div_multiples_vanish(c, 65536);
    vstd::arithmetic::div_mod::lemma_div_multiples_vanish(d, 65536);
    assert(abs_spec(-65536) == 65536);
    assert(abs_spec(65536) == 65536);
    assert(a * 65536 == 65536 * a);
    assert(b * 65536 == 65536 * b);
    assert(c * 65536 == 65536 * c);
    assert(d * 65536 == 65536 * d);
}

} // verus!
