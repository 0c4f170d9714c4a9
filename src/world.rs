//! The grid map: tile codes stored row by row, and what each code means.

use vstd::prelude::*;

verus! {

/// Width of the generated levels.
pub const MAP_W: usize = 24;
/// Height of the generated levels.
pub const MAP_H: usize = 24;
/// The largest width or height of a map.
pub const MAX_MAP_DIM: usize = 1024;

/// Open floor.
pub const TILE_EMPTY: i32 = 0;
/// A solid wall.
pub const TILE_WALL: i32 = 1;
/// Floor that hurts: it can be crossed and does not stop rays.
pub const TILE_HAZARD: i32 = 7;
/// The goal: open floor for movement and for rays.
pub const TILE_EXIT: i32 = 9;

/// A tile stops rays: everything but open floor, hazards and the exit (hazards are
/// floor, not wall).
pub open spec fn is_solid(t: i32) -> bool {
    t != TILE_EMPTY && t != TILE_EXIT && t != TILE_HAZARD
}

/// A tile can be walked on.
pub open spec fn passable(t: i32) -> bool {
    t == TILE_EMPTY || t == TILE_EXIT || t == TILE_HAZARD
}

pub open spec fn is_tile_code(t: i32) -> bool {
    t == TILE_EMPTY || t == TILE_WALL || t == TILE_HAZARD || t == TILE_EXIT
}

/// Whether a tile can be walked on: lava/water hazards and the exit can,
/// walls cannot.
pub fn is_passable(tile: i32) -> (r: bool)
    ensures
        r == passable(tile),
{
    tile == TILE_EMPTY || tile == TILE_EXIT || tile == TILE_HAZARD
}

/// Whether a tile stops a ray.
pub fn is_solid_tile(tile: i32) -> (r: bool)
    ensures
        r == is_solid(tile),
{
    tile != TILE_EMPTY && tile != TILE_EXIT && tile != TILE_HAZARD
}

/// A `w` by `h` grid of tile codes, stored row by row.
pub struct WorldMap {
    pub w: usize,
    pub h: usize,
    pub cells: Vec<i32>,
}

impl WorldMap {
    /// Dimensions agree with the cell array.
    pub open spec fn wf(&self) -> bool {
        &&& 3 <= self.w <= MAX_MAP_DIM
        &&& 3 <= self.h <= MAX_MAP_DIM
        &&& self.cells@.len() == self.w * self.h
    }

    pub open spec fn in_bounds(&self, x: int, y: int) -> bool {
        0 <= x < self.w && 0 <= y < self.h
    }

    pub open spec fn on_border(&self, x: int, y: int) -> bool {
        x == 0 || y == 0 || x == self.w - 1 || y == self.h - 1
    }

    pub open spec fn tile(&self, x: int, y: int) -> i32 {
        self.cells@[y * self.w + x]
    }

    /// A closed arena: every border cell is a wall.
    pub open spec fn bordered(&self) -> bool {
        forall|x: int, y: int|
            #![trigger self.tile(x, y)]
            self.in_bounds(x, y) && self.on_border(x, y) ==> self.tile(x, y) == TILE_WALL
    }

    /// Every cell holds one of the four tile codes.
    pub open spec fn codes_valid(&self) -> bool {
        forall|x: int, y: int|
            #![trigger self.tile(x, y)]
            self.in_bounds(x, y) ==> is_tile_code(self.tile(x, y))
    }

    /// No cell is an exit.
    pub open spec fn no_exit(&self) -> bool {
        forall|x: int, y: int|
            #![trigger self.tile(x, y)]
            self.in_bounds(x, y) ==> self.tile(x, y) != TILE_EXIT
    }

    /// A generated level: `MAP_W` by `MAP_H`, closed, every cell a tile code.
    pub open spec fn arena(&self) -> bool {
        &&& self.wf()
        &&& self.w == MAP_W
        &&& self.h == MAP_H
        &&& self.bordered()
        &&& self.codes_valid()
    }

    /// Sets an interior cell of a level to a tile code; the level stays a
    /// closed arena.
    pub fn set_interior(&mut self, x: usize, y: usize, t: i32)
        requires
            old(self).arena(),
            1 <= x < MAP_W - 1,
            1 <= y < MAP_H - 1,
            is_tile_code(t),
        ensures
            final(self).arena(),
            final(self).tile(x as int, y as int) == t,
            t != TILE_EXIT && old(self).no_exit() ==> final(self).no_exit(),
            forall|a: int, b: int|
                #![trigger final(self).tile(a, b)]
                final(self).in_bounds(a, b) && (a != x || b != y) ==> final(self).tile(a, b)
                    == old(self).tile(a, b),
    {
        self.set(x, y, t);
    }

    /// A `w` by `h` map with every cell set to `tile`.
    pub fn filled(w: usize, h: usize, tile: i32) -> (m: WorldMap)
        requires
            3 <= w <= MAX_MAP_DIM,
            3 <= h <= MAX_MAP_DIM,
        ensures
            m.wf(),
            m.w == w,
            m.h == h,
            forall|x: int, y: int| #![trigger m.tile(x, y)] m.in_bounds(x, y) ==> m.tile(x, y) == tile,
    {
        proof {
            assert(w * h <= 1024 * 1024) by (nonlinear_arith)
                requires
                    w <= 1024,
                    h <= 1024,
            ;
        }
        let n = w * h;
        let cells = vec![tile; n];
        let m = WorldMap { w, h, cells };
        assert forall|x: int, y: int| #![trigger m.tile(x, y)] m.in_bounds(x, y) implies m.tile(
            x,
            y,
        ) == tile by {
            lemma_cell_index(x, y, w as int, h as int);
        }
        m
    }

    /// The tile at column `x`, row `y`.
    pub fn get(&self, x: usize, y: usize) -> (t: i32)
        requires
            self.wf(),
            x < self.w,
            y < self.h,
        ensures
            t == self.tile(x as int, y as int),
    {
        proof {
            lemma_cell_index(x as int, y as int, self.w as int, self.h as int);
        }
        self.cells[y * self.w + x]
    }

    /// Sets the tile at column `x`, row `y`.
    pub fn set(&mut self, x: usize, y: usize, t: i32)
        requires
            old(self).wf(),
            x < old(self).w,
            y < old(self).h,
        ensures
            final(self).wf(),
            final(self).w == old(self).w,
            final(self).h == old(self).h,
            final(self).tile(x as int, y as int) == t,
            forall|a: int, b: int|
                #![trigger final(self).tile(a, b)]
                final(self).in_bounds(a, b) && (a != x || b != y) ==> final(self).tile(a, b)
                    == old(self).tile(a, b),
    {
        proof {
            lemma_cell_index(x as int, y as int, self.w as int, self.h as int);
        }
        let i = y * self.w + x;
        self.cells.set(i, t);
        proof {
            assert forall|a: int, b: int|
                #![trigger self.tile(a, b)]
                self.in_bounds(a, b) && (a != x || b != y) implies self.tile(a, b) == old(
                self,
            ).tile(a, b) by {
                lemma_cell_index(a, b, self.w as int, self.h as int);
                lemma_cell_index_distinct(a, b, x as int, y as int, self.w as int);
            }
        }
    }
}

pub proof fn lemma_cell_index(x: int, y: int, w: int, h: int)
    requires
        0 <= x < w <= MAX_MAP_DIM,
        0 <= y < h <= MAX_MAP_DIM,
    ensures
        0 <= y * w + x < w * h <= MAX_MAP_DIM * MAX_MAP_DIM,
{
    assert(0 <= y * w + x < w * h <= 1024 * 1024) by (nonlinear_arith)
        requires
            0 <= x < w <= 1024,
            0 <= y < h <= 1024,
    ;
}

pub proof fn lemma_cell_index_distinct(a: int, b: int, x: int, y: int, w: int)
    requires
        0 <= a < w,
        0 <= x < w,
        0 <= b,
        0 <= y,
        a != x || b != y,
    ensures
        b * w + a != y * w + x,
{
    if b == y {
    } else if b < y {
        assert(b * w + a < y * w + x) by (nonlinear_arith)
            requires
                b < y,
                0 <= a < w,
                0 <= x,
        ;
    } else {
        assert(b * w + a > y * w + x) by (nonlinear_arith)
            requires
                b > y,
                0 <= x < w,
                0 <= a,
        ;
    }
}

} // verus!
