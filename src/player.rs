//! The player: camera pose, movement with per-axis collision, and health
//! with a short invulnerability window after each hit.

use vstd::prelude::*;
use crate::fixed::{FIX_ONE, floor_fix, floor_spec};
use crate::render::Camera;
use crate::world::{WorldMap, is_passable, passable};

verus! {

/// Health of a fresh player.
pub const PLAYER_MAX_HP: i32 = 100;
/// Invulnerability after a hit, in seconds (0.6, fixed point).
pub const INVULN_TIME: i64 = 39322;
/// The camera plane's length at start (0.66, fixed point): the field of view.
pub const FOV_PLANE: i64 = 43253;
/// The largest magnitude of a movement speed or step vector component.
pub const MAX_MOVE: i64 = 262144;

/// Position, view direction and camera plane (fixed point), health and
/// the time left of invulnerability (seconds, fixed point).
pub struct Player {
    pub x: i64,
    pub y: i64,
    pub dir_x: i64,
    pub dir_y: i64,
    pub plane_x: i64,
    pub plane_y: i64,
    pub hp: i32,
    pub invuln: i64,
}

/// `a * b` in fixed point, rounded down.
pub open spec fn fmul(a: int, b: int) -> int {
    floor_spec(a * b)
}

/// The position after trying a move of `(mx, my)`: each axis moves only if
/// the cell it would enter (x first, then y from the new x) is inside the
/// map and passable.
pub open spec fn moved_x(m: WorldMap, x: int, y: int, mx: int) -> int {
    let nx = x + mx;
    if 0 <= nx < m.w * FIX_ONE && passable(m.tile(floor_spec(nx), floor_spec(y))) {
        nx
    } else {
        x
    }
}

pub open spec fn moved_y(m: WorldMap, x: int, y: int, my: int) -> int {
    let ny = y + my;
    if 0 <= ny < m.h * FIX_ONE && passable(m.tile(floor_spec(x), floor_spec(ny))) {
        ny
    } else {
        y
    }
}

/// The player stands on the map.
pub open spec fn on_map(m: WorldMap, x: int, y: int) -> bool {
    0 <= x < m.w * FIX_ONE && 0 <= y < m.h * FIX_ONE
}

impl Player {
    /// A fresh player in the middle of a 24 by 24 level, facing `-x`, with
    /// full health.
    pub fn new() -> (p: Player)
        ensures
            p.x == 12 * FIX_ONE,
            p.y == 12 * FIX_ONE,
            p.dir_x == -FIX_ONE,
            p.dir_y == 0,
            p.plane_x == 0,
            p.plane_y == FOV_PLANE,
            p.hp == PLAYER_MAX_HP,
            p.invuln == 0,
    {
        Player {
            x: 12 * FIX_ONE,
            y: 12 * FIX_ONE,
            dir_x: -FIX_ONE,
            dir_y: 0,
            plane_x: 0,
            plane_y: FOV_PLANE,
            hp: PLAYER_MAX_HP,
            invuln: 0,
        }
    }

    /// The camera at the player's pose.
    pub fn camera(&self) -> (c: Camera)
        ensures
            c.x == self.x,
            c.y == self.y,
            c.dir_x == self.dir_x,
            c.dir_y == self.dir_y,
            c.plane_x == self.plane_x,
            c.plane_y == self.plane_y,
    {
        Camera {
            x: self.x,
            y: self.y,
            dir_x: self.dir_x,
            dir_y: self.dir_y,
            plane_x: self.plane_x,
            plane_y: self.plane_y,
        }
    }

    /// Turns direction and plane together by the angle whose cosine and
    /// sine are `cos` and `sin` (fixed point), each product rounded down.
    pub fn rotate(&mut self, cos: i64, sin: i64)
        requires
            -FIX_ONE <= cos <= FIX_ONE,
            -FIX_ONE <= sin <= FIX_ONE,
            -crate::render::MAX_DIR <= old(self).dir_x <= crate::render::MAX_DIR,
            -crate::render::MAX_DIR <= old(self).dir_y <= crate::render::MAX_DIR,
            -crate::render::MAX_DIR <= old(self).plane_x <= crate::render::MAX_DIR,
            -crate::render::MAX_DIR <= old(self).plane_y <= crate::render::MAX_DIR,
        ensures
            final(self).dir_x == fmul(old(self).dir_x as int, cos as int) - fmul(
                old(self).dir_y as int,
                sin as int,
            ),
            final(self).dir_y == fmul(old(self).dir_x as int, sin as int) + fmul(
                old(self).dir_y as int,
                cos as int,
            ),
            final(self).plane_x == fmul(old(self).plane_x as int, cos as int) - fmul(
                old(self).plane_y as int,
                sin as int,
            ),
            final(self).plane_y == fmul(old(self).plane_x as int, sin as int) + fmul(
                old(self).plane_y as int,
                cos as int,
            ),
            final(self).x == old(self).x,
            final(self).y == old(self).y,
            final(self).hp == old(self).hp,
            final(self).invuln == old(self).invuln,
    {
        let dx = self.dir_x;
        let dy = self.dir_y;
        let px = self.plane_x;
        let py = self.plane_y;
        proof {
            lemma_fmul_bound(dx as int, cos as int);
            lemma_fmul_bound(dy as int, sin as int);
            lemma_fmul_bound(dx as int, sin as int);
            lemma_fmul_bound(dy as int, cos as int);
            lemma_fmul_bound(px as int, cos as int);
            lemma_fmul_bound(py as int, sin as int);
            lemma_fmul_bound(px as int, sin as int);
            lemma_fmul_bound(py as int, cos as int);
        }
        self.dir_x = floor_fix(dx * cos) - floor_fix(dy * sin);
        self.dir_y = floor_fix(dx * sin) + floor_fix(dy * cos);
        self.plane_x = floor_fix(px * cos) - floor_fix(py * sin);
        self.plane_y = floor_fix(px * sin) + floor_fix(py * cos);
    }

    /// Tries to move by `(dx, dy)` times `speed` (fixed point), axis by
    /// axis: an axis moves only into a passable cell inside the map.
    pub fn try_move(&mut self, speed: i64, dx: i64, dy: i64, map: &WorldMap)
        requires
            map.wf(),
            on_map(*map, old(self).x as int, old(self).y as int),
            -MAX_MOVE <= speed <= MAX_MOVE,
            -MAX_MOVE <= dx <= MAX_MOVE,
            -MAX_MOVE <= dy <= MAX_MOVE,
        ensures
            final(self).x == moved_x(*map, old(self).x as int, old(self).y as int, fmul(dx as int, speed as int)),
            final(self).y == moved_y(*map, final(self).x as int, old(self).y as int, fmul(dy as int, speed as int)),
            on_map(*map, final(self).x as int, final(self).y as int),
            final(self).dir_x == old(self).dir_x,
            final(self).dir_y == old(self).dir_y,
            final(self).plane_x == old(self).plane_x,
            final(self).plane_y == old(self).plane_y,
            final(self).hp == old(self).hp,
            final(self).invuln == old(self).invuln,
    {
        proof {
            lemma_fmul_bound(dx as int, speed as int);
            lemma_fmul_bound(dy as int, speed as int);
        }
        let nx = self.x + floor_fix(dx * speed);
        let ghost w = map.w as int;
        let ghost h = map.h as int;
        if nx >= 0 && nx < map.w as i64 * FIX_ONE {
            let cx = floor_fix(nx);
            let cy = floor_fix(self.y);
            proof {
                lemma_cell_of(nx as int, w);
                lemma_cell_of(self.y as int, h);
            }
            let tile = map.get(cx as usize, cy as usize);
            if is_passable(tile) {
                self.x = nx;
            }
        }
        let ny = self.y + floor_fix(dy * speed);
        if ny >= 0 && ny < map.h as i64 * FIX_ONE {
            let cx = floor_fix(self.x);
            let cy = floor_fix(ny);
            proof {
                lemma_cell_of(self.x as int, w);
                lemma_cell_of(ny as int, h);
            }
            let tile = map.get(cx as usize, cy as usize);
            if is_passable(tile) {
                self.y = ny;
            }
        }
    }

    /// Counts down the invulnerability window by `dt` seconds (fixed point).
    pub fn tick(&mut self, dt: i64)
        requires
            0 <= dt,
        ensures
            final(self).invuln == if old(self).invuln > 0 {
                old(self).invuln - dt
            } else {
                old(self).invuln as int
            },
            final(self).hp == old(self).hp,
            final(self).x == old(self).x,
            final(self).y == old(self).y,
    {
        if self.invuln > 0 {
            self.invuln = self.invuln - dt;
        }
    }

    /// Takes `amount` damage unless still invulnerable; health stops at zero
    /// and a hit opens a new invulnerability window.
    pub fn damage(&mut self, amount: i32)
        requires
            amount >= 0,
            old(self).hp >= 0,
        ensures
            old(self).invuln <= 0 ==> final(self).hp == (if old(self).hp - amount < 0 {
                0
            } else {
                old(self).hp - amount
            }) && final(self).invuln == INVULN_TIME,
            old(self).invuln > 0 ==> final(self).hp == old(self).hp && final(self).invuln == old(
                self,
            ).invuln,
            final(self).x == old(self).x,
            final(self).y == old(self).y,
    {
        if self.invuln <= 0 {
            let left = self.hp - amount;
            self.hp = if left < 0 { 0 } else { left };
            self.invuln = INVULN_TIME;
        }
    }
}

proof fn lemma_fmul_bound(a: int, b: int)
    requires
        -MAX_MOVE <= a <= MAX_MOVE,
        -MAX_MOVE <= b <= MAX_MOVE,
    ensures
        -MAX_MOVE * MAX_MOVE <= a * b <= MAX_MOVE * MAX_MOVE,
        -MAX_MOVE * MAX_MOVE <= fmul(a, b) <= MAX_MOVE * MAX_MOVE,
{
    assert(-MAX_MOVE * MAX_MOVE <= a * b <= MAX_MOVE * MAX_MOVE) by (nonlinear_arith)
        requires
            -MAX_MOVE <= a <= MAX_MOVE,
            -MAX_MOVE <= b <= MAX_MOVE,
    ;
    vstd::arithmetic::div_mod::lemma_fundamental_div_mod(a * b, 65536);
}

proof fn lemma_cell_of(p: int, n: int)
    requires
        0 <= p < n * FIX_ONE,
        n <= crate::world::MAX_MAP_DIM,
    ensures
        0 <= floor_spec(p) < n,
{
    vstd::arithmetic::div_mod::lemma_fundamental_div_mod(p, 65536);
    assert(0 <= floor_spec(p) < n) by (nonlinear_arith)
        requires
            p == 65536 * floor_spec(p) + p % 65536,
            0 <= p % 65536 < 65536,
            0 <= p < n * 65536,
    ;
}

} // verus!
