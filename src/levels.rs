//! The two level layouts: a fixed fire gym and a seeded water gym. Both are
//! closed arenas with a walled goal room on the right, reached over a moat
//! of hazard tiles, with the exit inside it ringed by hazards.

use vstd::prelude::*;
use crate::world::{
    MAP_H, MAP_W, TILE_EMPTY, TILE_EXIT, TILE_HAZARD, TILE_WALL, WorldMap, is_tile_code,
};

verus! {

/// The exit is at `(ex, ey)` and nowhere else; of its eight neighbours the
/// one on its left is open floor and the other seven are hazards.
pub open spec fn exit_placed(m: WorldMap, ex: int, ey: int) -> bool {
    &&& m.tile(ex, ey) == TILE_EXIT
    &&& forall|a: int, b: int|
        #![trigger m.tile(a, b)]
        m.in_bounds(a, b) && m.tile(a, b) == TILE_EXIT ==> a == ex && b == ey
    &&& m.tile(ex - 1, ey) == TILE_EMPTY
    &&& forall|dx: int, dy: int|
        -1 <= dx <= 1 && -1 <= dy <= 1 && !(dx == 0 && dy == 0) && !(dx == -1 && dy == 0)
            ==> #[trigger] m.tile(ex + dx, ey + dy) == TILE_HAZARD
}

/// Column of the fire gym's exit.
pub const FIRE_EXIT_X: usize = 19;
/// Row of the fire gym's exit.
pub const FIRE_EXIT_Y: usize = 12;

/// Sets every interior cell to open floor.
fn clear_interior(m: &mut WorldMap)
    requires
        old(m).arena(),
        old(m).no_exit(),
    ensures
        final(m).arena(),
        final(m).no_exit(),
        forall|x: int, y: int|
            #![trigger final(m).tile(x, y)]
            1 <= x < MAP_W - 1 && 1 <= y < MAP_H - 1 ==> final(m).tile(x, y) == TILE_EMPTY,
{
    let mut y: usize = 1;
    while y < MAP_H - 1
        invariant
            m.arena(),
            m.no_exit(),
            1 <= y <= MAP_H - 1,
            forall|a: int, b: int|
                #![trigger m.tile(a, b)]
                1 <= a < MAP_W - 1 && 1 <= b < y ==> m.tile(a, b) == TILE_EMPTY,
        decreases MAP_H - 1 - y,
    {
        let mut x: usize = 1;
        while x < MAP_W - 1
            invariant
                m.arena(),
                m.no_exit(),
                1 <= y < MAP_H - 1,
                1 <= x <= MAP_W - 1,
                forall|a: int, b: int|
                    #![trigger m.tile(a, b)]
                    1 <= a < MAP_W - 1 && 1 <= b < y ==> m.tile(a, b) == TILE_EMPTY,
                forall|a: int| #![trigger m.tile(a, y as int)] 1 <= a < x ==> m.tile(a, y as int) == TILE_EMPTY,
            decreases MAP_W - 1 - x,
        {
            m.set_interior(x, y, TILE_EMPTY);
            x = x + 1;
        }
        y = y + 1;
    }
}

/// Walls the goal room (its top-left corner at `(x0, y0)`, 6 by 5), opens
/// a door in its left wall on row `moat_y`, and lays a three-row hazard
/// moat in front of the door with one safe bridge cell.
fn build_goal_room(m: &mut WorldMap, x0: usize, y0: usize, moat_y: usize)
    requires
        old(m).arena(),
        old(m).no_exit(),
        x0 == 16,
        3 <= y0 <= 16,
        2 <= moat_y <= MAP_H - 3,
    ensures
        final(m).arena(),
        final(m).no_exit(),
        final(m).tile(x0 as int, moat_y as int) == TILE_EMPTY,
{
    let w = 6usize;
    let h = 5usize;
    let mut x = x0;
    while x < x0 + w
        invariant
            m.arena(),
            m.no_exit(),
            x0 == 16,
            3 <= y0 <= 16,
            x0 <= x <= x0 + w,
            w == 6,
            h == 5,
        decreases x0 + w - x,
    {
        m.set_interior(x, y0, TILE_WALL);
        m.set_interior(x, y0 + h - 1, TILE_WALL);
        x = x + 1;
    }
    let mut y = y0;
    while y < y0 + h
        invariant
            m.arena(),
            m.no_exit(),
            x0 == 16,
            3 <= y0 <= 16,
            y0 <= y <= y0 + h,
            w == 6,
            h == 5,
        decreases y0 + h - y,
    {
        m.set_interior(x0, y, TILE_WALL);
        m.set_interior(x0 + w - 1, y, TILE_WALL);
        y = y + 1;
    }
    let mut mx = x0 - 4;
    while mx < x0 - 1
        invariant
            m.arena(),
            m.no_exit(),
            x0 == 16,
            2 <= moat_y <= MAP_H - 3,
            x0 - 4 <= mx <= x0 - 1,
        decreases x0 - 1 - mx,
    {
        m.set_interior(mx, moat_y - 1, TILE_HAZARD);
        m.set_interior(mx, moat_y, TILE_HAZARD);
        m.set_interior(mx, moat_y + 1, TILE_HAZARD);
        mx = mx + 1;
    }
    m.set_interior(x0 - 2, moat_y, TILE_EMPTY);
    m.set_interior(x0, moat_y, TILE_EMPTY);
}

/// Clears the goal room's inside (top-left corner `(x0, y0)`), rings the
/// exit at `(ex, ey)` with hazards, opens the cell to its left and places
/// the exit.
fn place_exit(m: &mut WorldMap, x0: usize, y0: usize, ex: usize, ey: usize)
    requires
        old(m).arena(),
        old(m).no_exit(),
        x0 == 16,
        3 <= y0 <= 16,
        x0 + 1 <= ex <= x0 + 4,
        y0 + 1 <= ey <= y0 + 3,
    ensures
        final(m).arena(),
        exit_placed(*final(m), ex as int, ey as int),
        forall|a: int, b: int|
            #![trigger final(m).tile(a, b)]
            final(m).in_bounds(a, b) && !(x0 < a < x0 + 5 && y0 < b < y0 + 4) && !(ex - 1 <= a
                <= ex + 1 && ey - 1 <= b <= ey + 1) ==> final(m).tile(a, b) == old(m).tile(a, b),
{
    let ghost m0 = *m;
    let mut y = y0 + 1;
    while y < y0 + 4
        invariant
            m.arena(),
            m.no_exit(),
            x0 == 16,
            3 <= y0 <= 16,
            y0 + 1 <= y <= y0 + 4,
            forall|a: int, b: int|
                #![trigger m.tile(a, b)]
                m.in_bounds(a, b) && !(x0 < a < x0 + 5 && y0 < b < y0 + 4) ==> m.tile(a, b)
                    == m0.tile(a, b),
        decreases y0 + 4 - y,
    {
        let mut x = x0 + 1;
        while x < x0 + 5
            invariant
                m.arena(),
                m.no_exit(),
                x0 == 16,
                3 <= y0 <= 16,
                y0 + 1 <= y < y0 + 4,
                x0 + 1 <= x <= x0 + 5,
                forall|a: int, b: int|
                    #![trigger m.tile(a, b)]
                    m.in_bounds(a, b) && !(x0 < a < x0 + 5 && y0 < b < y0 + 4) ==> m.tile(a, b)
                        == m0.tile(a, b),
            decreases x0 + 5 - x,
        {
            m.set_interior(x, y, TILE_EMPTY);
            x = x + 1;
        }
        y = y + 1;
    }
    m.set_interior(ex - 1, ey - 1, TILE_HAZARD);
    m.set_interior(ex, ey - 1, TILE_HAZARD);
    m.set_interior(ex + 1, ey - 1, TILE_HAZARD);
    m.set_interior(ex + 1, ey, TILE_HAZARD);
    m.set_interior(ex - 1, ey + 1, TILE_HAZARD);
    m.set_interior(ex, ey + 1, TILE_HAZARD);
    m.set_interior(ex + 1, ey + 1, TILE_HAZARD);
    m.set_interior(ex - 1, ey, TILE_EMPTY);
    let ghost before = *m;
    m.set_interior(ex, ey, TILE_EXIT);
    assert forall|a: int, b: int|
        #![trigger m.tile(a, b)]
        m.in_bounds(a, b) && m.tile(a, b) == TILE_EXIT implies a == ex && b == ey by {
        if a != ex || b != ey {
            assert(m.tile(a, b) == before.tile(a, b));
        }
    }
    assert forall|dx: int, dy: int|
        -1 <= dx <= 1 && -1 <= dy <= 1 && !(dx == 0 && dy == 0) && !(dx == -1 && dy == 0) implies #[trigger] m.tile(
        ex + dx,
        ey + dy,
    ) == TILE_HAZARD by {
        assert(m.tile(ex + dx, ey + dy) == TILE_HAZARD);
    }
}

/// The fire gym: a closed 24 by 24 arena of zig-zag corridors between
/// vertical walls with two-cell gaps, lava on every third diagonal with safe
/// islands and bridges, and a walled goal room on the right whose door is
/// reached over a lava moat; the exit sits in the room at `(19, 12)`,
/// ringed by lava but for the cell on its left.
pub fn gym_fuego() -> (m: WorldMap)
    ensures
        m.arena(),
        exit_placed(m, FIRE_EXIT_X as int, FIRE_EXIT_Y as int),
        m.tile(16, FIRE_EXIT_Y as int) == TILE_EMPTY,
{
    let mut m = WorldMap::filled(MAP_W, MAP_H, TILE_WALL);
    assert forall|x: int, y: int| #![trigger m.tile(x, y)] m.in_bounds(x, y) implies is_tile_code(
        m.tile(x, y),
    ) && m.tile(x, y) != TILE_EXIT by {}
    let w = MAP_W as i32;
    let h = MAP_H as i32;
    clear_interior(&mut m);
    // winding corridors: a vertical wall every third column, each with two
    // two-cell gaps
    let col_start: i32 = 4;
    let col_end: i32 = if w - 5 > col_start + 1 { w - 5 } else { col_start + 1 };
    let gap_band_top: i32 = 3;
    let mut toggle = false;
    let gap_step: i32 = if h / 6 > 4 { h / 6 } else { 4 };
    let mut cx: i32 = col_start;
    let mut j: i32 = 0;
    while cx < col_end
        invariant
            m.arena(),
            m.no_exit(),
            col_start == 4,
            col_end == 19,
            gap_step == 4,
            gap_band_top == 3,
            0 <= j <= 5,
            cx == 4 + 3 * j,
        decreases 5 - j,
    {
        let mut y: usize = 2;
        while y < MAP_H - 2
            invariant
                m.arena(),
                m.no_exit(),
                4 <= cx < 19,
                2 <= y <= MAP_H - 2,
            decreases MAP_H - 2 - y,
        {
            m.set_interior(cx as usize, y, TILE_WALL);
            y = y + 1;
        }
        let mut gy: i32 = if toggle { gap_band_top + 2 } else { gap_band_top + gap_step / 2 };
        let mut k: usize = 0;
        while k < 2
            invariant
                m.arena(),
                m.no_exit(),
                4 <= cx < 19,
                gap_step == 4,
                k <= 2,
                gy == 5 + 4 * k,
            decreases 2 - k,
        {
            let gyi: usize = if gy < 2 { 2 } else if gy > MAP_H as i32 - 3 { MAP_H - 3 } else { gy as usize };
            m.set_interior(cx as usize, gyi, TILE_EMPTY);
            m.set_interior(cx as usize, gyi + 1, TILE_EMPTY);
            gy = gy + gap_step;
            k = k + 1;
        }
        toggle = !toggle;
        cx = cx + 3;
        j = j + 1;
    }
    // lava on every third diagonal, leaving every fifth column safe
    let mut y: usize = 2;
    while y < MAP_H - 2
        invariant
            m.arena(),
            m.no_exit(),
            2 <= y <= MAP_H - 2,
        decreases MAP_H - 2 - y,
    {
        let mut x: usize = 2;
        while x < MAP_W - 2
            invariant
                m.arena(),
                m.no_exit(),
                2 <= y < MAP_H - 2,
                2 <= x <= MAP_W - 2,
            decreases MAP_W - 2 - x,
        {
            let vx = x as i32;
            if m.get(x, y) == TILE_EMPTY && (vx + y as i32) % 3 == 0 {
                if vx % 5 != 0 {
                    m.set_interior(x, y, TILE_HAZARD);
                }
            }
            x = x + 1;
        }
        y = y + 1;
    }
    // short safe bridges so that a route always exists
    let mut i: usize = 0;
    let mut by: usize = 3;
    while by < MAP_H - 3
        invariant
            m.arena(),
            m.no_exit(),
            by == 3 + 5 * i,
            i <= 4,
        decreases 4 - i,
    {
        let bx0: i32 = 4 + i as i32 * 6;
        let bx: usize = if bx0 < MAP_W as i32 - 6 { bx0 as usize } else { MAP_W - 6 };
        m.set_interior(bx, by, TILE_EMPTY);
        m.set_interior(bx + 1, by, TILE_EMPTY);
        i = i + 1;
        by = by + 5;
    }
    // the goal room, its door and the moat before it
    let goal_room_w: i32 = 6;
    let goal_room_h: i32 = 5;
    let room_x0: i32 = if w - goal_room_w - 2 > 6 { w - goal_room_w - 2 } else { 6 };
    let ry: i32 = h / 2 - goal_room_h / 2;
    let room_y0: i32 = if ry < 3 { 3 } else if ry > h - goal_room_h - 3 { h - goal_room_h - 3 } else { ry };
    let moat_y = (room_y0 + goal_room_h / 2) as usize;
    build_goal_room(&mut m, room_x0 as usize, room_y0 as usize, moat_y);
    let exit_x = (room_x0 + goal_room_w / 2) as usize;
    let exit_y = (room_y0 + goal_room_h / 2) as usize;
    place_exit(&mut m, room_x0 as usize, room_y0 as usize, exit_x, exit_y);
    m
}

/// The xorshift step applied to the generator's state.
pub open spec fn xorshift(s: u64) -> u64 {
    let a = s ^ (s >> 12u64);
    let b = a ^ (a << 25u64);
    b ^ (b >> 27u64)
}

/// The multiplier of the xorshift64* output.
pub const RNG_MUL: u64 = 2685821657736338717;

/// The xorshift64* output for the state before a step.
pub open spec fn rng_output(s: u64) -> u64 {
    ((xorshift(s) as nat * RNG_MUL as nat) % 0x1_0000_0000_0000_0000nat) as u64
}

/// Advances the xorshift64* generator and gives its next output.
pub fn rng_next(s: &mut u64) -> (r: u64)
    ensures
        *final(s) == xorshift(*old(s)),
        r == rng_output(*old(s)),
{
    *s = *s ^ (*s >> 12u64);
    *s = *s ^ (*s << 25u64);
    *s = *s ^ (*s >> 27u64);
    (*s).wrapping_mul(RNG_MUL)
}

/// A number in `0 .. max` from the generator.
pub fn rand_range(s: &mut u64, max: i32) -> (r: i32)
    requires
        max > 0,
    ensures
        r == rng_output(*old(s)) % (max as u64),
        0 <= r < max,
        *final(s) == xorshift(*old(s)),
{
    let v = rng_next(s);
    (v % (max as u64)) as i32
}

/// True with probability `num / den`.
pub fn chance(s: &mut u64, num: u32, den: u32) -> (r: bool)
    requires
        den > 0,
    ensures
        r == (rng_output(*old(s)) % (den as u64) < num as u64),
        *final(s) == xorshift(*old(s)),
{
    (rng_next(s) % (den as u64)) < (num as u64)
}

/// The water gym for a seed: a closed 24 by 24 arena with a safe corridor
/// across at a random row, random wall columns with gaps (always open on the
/// corridor), scattered water hazards, three water currents with bridges,
/// and a goal room on the right facing the corridor over a moat; the exit
/// sits in the room, ringed by water but for the cell on its left. A seed of
/// zero stands for a fixed default seed.
pub fn gym_agua(seed: u64) -> (m: WorldMap)
    ensures
        m.arena(),
        exists|x: int, y: int| 18 <= x <= 20 && 4 <= y <= 19 && #[trigger] exit_placed(m, x, y),
{
    let mut m = WorldMap::filled(MAP_W, MAP_H, TILE_WALL);
    assert forall|x: int, y: int| #![trigger m.tile(x, y)] m.in_bounds(x, y) implies is_tile_code(
        m.tile(x, y),
    ) && m.tile(x, y) != TILE_EXIT by {}
    let w = MAP_W as i32;
    let h = MAP_H as i32;
    clear_interior(&mut m);
    let mut s: u64 = (if seed == 0 { 0xA2C5_9D3F_F00D_BABEu64 } else { seed }) | 1u64;
    // the safe corridor from left to right
    let r0 = rand_range(&mut s, h - 4);
    let rpath_y: i32 = 2 + if r0 > h - 5 { h - 5 } else { r0 };
    let mut x: i32 = 2;
    while x < w - 6
        invariant
            m.arena(),
            m.no_exit(),
            w == 24,
            h == 24,
            2 <= rpath_y <= 21,
            2 <= x <= w - 6,
        decreases w - 6 - x,
    {
        m.set_interior(x as usize, rpath_y as usize, TILE_EMPTY);
        if chance(&mut s, 1, 3) && rpath_y + 1 < h - 2 {
            m.set_interior(x as usize, (rpath_y + 1) as usize, TILE_EMPTY);
        }
        x = x + 1;
    }
    // random wall columns with two or three gaps, open on the corridor
    let mut cx: i32 = 4;
    while cx < w - 4
        invariant
            m.arena(),
            m.no_exit(),
            w == 24,
            h == 24,
            2 <= rpath_y <= 21,
            4 <= cx <= w - 4,
        decreases w - 4 - cx,
    {
        if chance(&mut s, 1, 3) {
            let mut y: i32 = 2;
            while y < h - 2
                invariant
                    m.arena(),
                    m.no_exit(),
                    h == 24,
                    4 <= cx < 20,
                    2 <= y <= h - 2,
                decreases h - 2 - y,
            {
                m.set_interior(cx as usize, y as usize, TILE_WALL);
                y = y + 1;
            }
            let gaps = 2 + rand_range(&mut s, 2);
            let mut g: i32 = 0;
            while g < gaps
                invariant
                    m.arena(),
                    m.no_exit(),
                    h == 24,
                    4 <= cx < 20,
                    2 <= gaps <= 3,
                    0 <= g <= gaps,
                decreases gaps - g,
            {
                let gy = 2 + rand_range(&mut s, h - 4);
                m.set_interior(cx as usize, gy as usize, TILE_EMPTY);
                if gy + 1 < h - 2 {
                    m.set_interior(cx as usize, (gy + 1) as usize, TILE_EMPTY);
                }
                g = g + 1;
            }
            m.set_interior(cx as usize, rpath_y as usize, TILE_EMPTY);
            if rpath_y + 1 < h - 2 {
                m.set_interior(cx as usize, (rpath_y + 1) as usize, TILE_EMPTY);
            }
        }
        cx = cx + 1;
    }
    // scattered water, leaving the corridor row and small islands dry
    let mut y: usize = 2;
    while y < MAP_H - 2
        invariant
            m.arena(),
            m.no_exit(),
            2 <= y <= MAP_H - 2,
            2 <= rpath_y <= 21,
        decreases MAP_H - 2 - y,
    {
        let mut x: usize = 2;
        while x < MAP_W - 2
            invariant
                m.arena(),
                m.no_exit(),
                2 <= y < MAP_H - 2,
                2 <= x <= MAP_W - 2,
                2 <= rpath_y <= 21,
            decreases MAP_W - 2 - x,
        {
            if m.get(x, y) == TILE_EMPTY && y != rpath_y as usize && (x + y) % 5 != 0 && chance(
                &mut s,
                1,
                4,
            ) {
                m.set_interior(x, y, TILE_HAZARD);
            }
            x = x + 1;
        }
        y = y + 1;
    }
    // three horizontal currents, each with two bridges
    let mut k: usize = 0;
    while k < 3
        invariant
            m.arena(),
            m.no_exit(),
            w == 24,
            h == 24,
            2 <= rpath_y <= 21,
            k <= 3,
        decreases 3 - k,
    {
        let yy = 3 + rand_range(&mut s, h - 6);
        let mut x: i32 = 4;
        while x < w - 4
            invariant
                m.arena(),
                m.no_exit(),
                w == 24,
                3 <= yy <= 20,
                4 <= x <= w - 4,
            decreases w - 4 - x,
        {
            if m.get(x as usize, yy as usize) == TILE_EMPTY && chance(&mut s, 3, 4) {
                m.set_interior(x as usize, yy as usize, TILE_HAZARD);
            }
            x = x + 1;
        }
        let mut b: usize = 0;
        while b < 2
            invariant
                m.arena(),
                m.no_exit(),
                w == 24,
                3 <= yy <= 20,
                b <= 2,
            decreases 2 - b,
        {
            let bx = 4 + rand_range(&mut s, w - 8);
            m.set_interior(bx as usize, yy as usize, TILE_EMPTY);
            if bx + 1 < w - 2 {
                m.set_interior((bx + 1) as usize, yy as usize, TILE_EMPTY);
            }
            b = b + 1;
        }
        k = k + 1;
    }
    // the goal room facing the corridor, its door and moat
    let goal_room_w: i32 = 6;
    let goal_room_h: i32 = 5;
    let room_x0: i32 = if w - goal_room_w - 2 > 6 { w - goal_room_w - 2 } else { 6 };
    let ry: i32 = rpath_y - goal_room_h / 2;
    let room_y0: i32 = if ry < 3 { 3 } else if ry > h - goal_room_h - 3 { h - goal_room_h - 3 } else { ry };
    build_goal_room(&mut m, room_x0 as usize, room_y0 as usize, rpath_y as usize);
    // the exit, placed at random near the room's centre
    let ex0 = room_x0 + goal_room_w / 2 + (rand_range(&mut s, 3) - 1);
    let exit_x: i32 = if ex0 < room_x0 + 1 { room_x0 + 1 } else if ex0 > room_x0 + goal_room_w - 2 { room_x0 + goal_room_w - 2 } else { ex0 };
    let ey0 = room_y0 + goal_room_h / 2 + (rand_range(&mut s, 3) - 1);
    let exit_y: i32 = if ey0 < room_y0 + 1 { room_y0 + 1 } else if ey0 > room_y0 + goal_room_h - 2 { room_y0 + goal_room_h - 2 } else { ey0 };
    place_exit(&mut m, room_x0 as usize, room_y0 as usize, exit_x as usize, exit_y as usize);
    assert(exit_placed(m, exit_x as int, exit_y as int));
    m
}

} // verus!
