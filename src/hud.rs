//! HUD drawing: single pixels, lines, the health bar and 5x7 bitmap text.

use vstd::prelude::*;
use crate::color::rgb;
use crate::fixed::{FIX_ONE, floor_fix, floor_spec};
use crate::render::{HEIGHT, MAX_DIR, WIDTH, on_screen, pix};
use crate::world::WorldMap;

verus! {

/// The frame after setting pixel `(x, y)` to `c`, where it is on screen.
pub open spec fn with_pixel(b: Seq<u32>, x: int, y: int, c: u32) -> Seq<u32> {
    if on_screen(x, y) {
        b.update(y * WIDTH + x, c)
    } else {
        b
    }
}

/// Sets one pixel; coordinates off screen are ignored.
pub fn put_pixel(buf: &mut Vec<u32>, x: usize, y: usize, c: u32)
    requires
        old(buf)@.len() == WIDTH * HEIGHT,
    ensures
        final(buf)@ == with_pixel(old(buf)@, x as int, y as int, c),
{
    if x < WIDTH && y < HEIGHT {
        buf.set(y * WIDTH + x, c);
    }
}

/// Sets one pixel at signed coordinates; coordinates off screen are ignored.
pub fn pset(buf: &mut Vec<u32>, x: i64, y: i64, color: u32)
    requires
        old(buf)@.len() == WIDTH * HEIGHT,
    ensures
        final(buf)@ == with_pixel(old(buf)@, x as int, y as int, color),
{
    if x >= 0 && y >= 0 && x < WIDTH as i64 && y < HEIGHT as i64 {
        buf.set(y as usize * WIDTH + x as usize, color);
    }
}

proof fn lemma_with_pixel(b: Seq<u32>, x: int, y: int, c: u32)
    requires
        b.len() == WIDTH * HEIGHT,
    ensures
        with_pixel(b, x, y, c).len() == WIDTH * HEIGHT,
        forall|cc: int, r: int|
            #![trigger pix(with_pixel(b, x, y, c), cc, r)]
            on_screen(cc, r) ==> pix(with_pixel(b, x, y, c), cc, r) == if cc == x && r == y {
                c
            } else {
                pix(b, cc, r)
            },
{
    assert forall|cc: int, r: int|
        #![trigger pix(with_pixel(b, x, y, c), cc, r)]
        on_screen(cc, r) implies pix(with_pixel(b, x, y, c), cc, r) == if cc == x && r == y {
            c
        } else {
            pix(b, cc, r)
        } by {
        if on_screen(x, y) && !(cc == x && r == y) {
            assert(r * 800 + cc != y * 800 + x);
        }
    }
}

/// Steps taken along each axis after `k` rounds of Bresenham's walk over
/// a run of `bx` by `by` cells; once both are done it stays put.
pub open spec fn walk(bx: int, by: int, k: nat) -> (int, int)
    decreases k,
{
    if k == 0 {
        (0, 0)
    } else {
        let (a, b) = walk(bx, by, (k - 1) as nat);
        if a == bx && b == by {
            (a, b)
        } else {
            let e2 = 2 * (bx * (1 + b) - by * (1 + a));
            (if e2 >= -by { a + 1 } else { a }, if e2 <= bx { b + 1 } else { b })
        }
    }
}

pub open spec fn line_dx(x0: int, x1: int) -> int {
    if x1 > x0 { x1 - x0 } else { x0 - x1 }
}

pub open spec fn line_step(x0: int, x1: int) -> int {
    if x0 < x1 { 1 } else { -1 }
}

/// The `k`-th point of the line from `(x0, y0)` to `(x1, y1)`.
pub open spec fn line_point(x0: int, y0: int, x1: int, y1: int, k: nat) -> (int, int) {
    let w = walk(line_dx(x0, x1), line_dx(y0, y1), k);
    (x0 + line_step(x0, x1) * w.0, y0 + line_step(y0, y1) * w.1)
}

/// `(c, r)` is a point of the line: one of its first `|dx| + |dy| + 1`
/// points (after which the walk stays at the end).
pub open spec fn on_line(x0: int, y0: int, x1: int, y1: int, c: int, r: int) -> bool {
    exists|k: nat| k <= line_dx(x0, x1) + line_dx(y0, y1) && #[trigger] line_point(x0, y0, x1, y1, k) == (c, r)
}

proof fn lemma_walk_stays(bx: int, by: int, j0: nat, j: nat)
    requires
        walk(bx, by, j0) == (bx, by),
        j >= j0,
    ensures
        walk(bx, by, j) == (bx, by),
    decreases j - j0,
{
    if j > j0 {
        lemma_walk_stays(bx, by, j0, (j - 1) as nat);
    }
}

/// The largest coordinate that `line` takes.
pub const MAX_LINE_COORD: usize = 1048576;

/// Draws a line from `(x0, y0)` to `(x1, y1)` with Bresenham's algorithm,
/// both ends included: exactly the points of `on_line` that are on screen
/// take `color`.
pub fn line(buf: &mut Vec<u32>, x0: usize, y0: usize, x1: usize, y1: usize, color: u32)
    requires
        old(buf)@.len() == WIDTH * HEIGHT,
        x0 <= MAX_LINE_COORD,
        y0 <= MAX_LINE_COORD,
        x1 <= MAX_LINE_COORD,
        y1 <= MAX_LINE_COORD,
    ensures
        final(buf)@.len() == WIDTH * HEIGHT,
        on_screen(x0 as int, y0 as int) ==> pix(final(buf)@, x0 as int, y0 as int) == color,
        on_screen(x1 as int, y1 as int) ==> pix(final(buf)@, x1 as int, y1 as int) == color,
        forall|c: int, r: int|
            #![trigger pix(final(buf)@, c, r)]
            on_screen(c, r) ==> pix(final(buf)@, c, r) == if on_line(
                x0 as int,
                y0 as int,
                x1 as int,
                y1 as int,
                c,
                r,
            ) {
                color
            } else {
                pix(old(buf)@, c, r)
            },
{
    let ghost b0 = buf@;
    let ghost mut k: nat = 0;
    let mut x: i64 = x0 as i64;
    let mut y: i64 = y0 as i64;
    let xe = x1 as i64;
    let ye = y1 as i64;
    let dx: i64 = if xe > x { xe - x } else { x - xe };
    let sx: i64 = if x < xe { 1 } else { -1 };
    let dy: i64 = -(if ye > y { ye - y } else { y - ye });
    let sy: i64 = if y < ye { 1 } else { -1 };
    let ghost bx = dx as int;
    let ghost by = -dy;
    let mut err: i64 = dx + dy;
    let mut a: i64 = 0;
    let mut b: i64 = 0;
    assert(err == bx * (1 + b) - by * (1 + a)) by (nonlinear_arith)
        requires
            err == bx - by,
            a == 0,
            b == 0,
    ;
    let mut done = false;
    while !done
        invariant
            buf@.len() == WIDTH * HEIGHT,
            bx == dx,
            by == -dy,
            0 <= bx <= MAX_LINE_COORD,
            0 <= by <= MAX_LINE_COORD,
            0 <= a <= bx,
            0 <= b <= by,
            err == bx * (1 + b) - by * (1 + a),
            x == x0 + sx * a,
            y == y0 + sy * b,
            xe == x0 + sx * bx,
            ye == y0 + sy * by,
            xe == x1,
            ye == y1,
            sx == 1 || sx == -1,
            sy == 1 || sy == -1,
            done ==> a == bx && b == by,
            !done && (a != 0 || b != 0) ==> on_screen(x0 as int, y0 as int) ==> pix(
                buf@,
                x0 as int,
                y0 as int,
            ) == color,
            done ==> on_screen(x0 as int, y0 as int) ==> pix(buf@, x0 as int, y0 as int) == color,
            done ==> on_screen(x1 as int, y1 as int) ==> pix(buf@, x1 as int, y1 as int) == color,
            forall|c: int, r: int|
                #![trigger pix(buf@, c, r)]
                on_screen(c, r) ==> pix(buf@, c, r) == color || pix(buf@, c, r) == pix(b0, c, r),
            bx == line_dx(x0 as int, x1 as int),
            by == line_dx(y0 as int, y1 as int),
            sx == line_step(x0 as int, x1 as int),
            sy == line_step(y0 as int, y1 as int),
            walk(bx, by, k) == (a as int, b as int),
            !done ==> a + b >= k,
            done ==> k >= 1 && a + b >= k - 1 && walk(bx, by, (k - 1) as nat) == (bx, by),
            forall|c: int, r: int|
                #![trigger pix(buf@, c, r)]
                on_screen(c, r) ==> pix(buf@, c, r) == if exists|j: nat|
                    j < k && #[trigger] line_point(x0 as int, y0 as int, x1 as int, y1 as int, j) == (c, r) {
                    color
                } else {
                    pix(b0, c, r)
                },
        decreases (bx - a) + (by - b) + (if done { 0int } else { 1int }),
    {
        let ghost bp = buf@;
        proof {
            lemma_with_pixel(bp, x as int, y as int, color);
        }
        pset(buf, x, y, color);
        proof {
            assert(buf@ == with_pixel(bp, x as int, y as int, color));
            if on_screen(x as int, y as int) {
                assert(pix(with_pixel(bp, x as int, y as int, color), x as int, y as int) == color);
            }
            assert(-1048576 <= sx * a <= 1048576) by (nonlinear_arith)
                requires
                    sx == 1 || sx == -1,
                    0 <= a <= 1048576,
            ;
            assert(-1048576 <= sy * b <= 1048576) by (nonlinear_arith)
                requires
                    sy == 1 || sy == -1,
                    0 <= b <= 1048576,
            ;
        }
        proof {
            let pk = line_point(x0 as int, y0 as int, x1 as int, y1 as int, k);
            assert(pk == (x as int, y as int));
            assert forall|c: int, r: int|
                #![trigger pix(buf@, c, r)]
                on_screen(c, r) implies pix(buf@, c, r) == if exists|j: nat|
                    j < k + 1 && #[trigger] line_point(x0 as int, y0 as int, x1 as int, y1 as int, j) == (c, r) {
                    color
                } else {
                    pix(b0, c, r)
                } by {
                assert(pix(bp, c, r) == if exists|j: nat|
                    j < k && #[trigger] line_point(x0 as int, y0 as int, x1 as int, y1 as int, j) == (c, r) {
                    color
                } else {
                    pix(b0, c, r)
                });
                if c == x && r == y {
                    assert(line_point(x0 as int, y0 as int, x1 as int, y1 as int, k) == (c, r));
                } else {
                    if exists|j: nat|
                        j < k + 1 && #[trigger] line_point(x0 as int, y0 as int, x1 as int, y1 as int, j) == (c, r) {
                        let j = choose|j: nat|
                            j < k + 1 && #[trigger] line_point(x0 as int, y0 as int, x1 as int, y1 as int, j) == (c, r);
                        assert(j != k);
                        assert(j < k);
                    }
                }
            }
        }
        let ghost k_old = k;
        proof {
            k = k + 1;
        }
        if x == xe && y == ye {
            proof {
                assert(xe as int == x1 as int);
                assert(ye as int == y1 as int);
                assert(x as int == x1 as int && y as int == y1 as int);
                assert(a == bx) by (nonlinear_arith)
                    requires
                        sx * a == sx * bx,
                        sx == 1 || sx == -1,
                ;
                assert(b == by) by (nonlinear_arith)
                    requires
                        sy * b == sy * by,
                        sy == 1 || sy == -1,
                ;
            }
            done = true;
        } else {
            proof {
                assert(-0x40_0000_0000_0000 <= err <= 0x40_0000_0000_0000) by (nonlinear_arith)
                    requires
                        err == bx * (1 + b) - by * (1 + a),
                        0 <= a <= bx <= 1048576,
                        0 <= b <= by <= 1048576,
                ;
            }
            let e2 = 2 * err;
            proof {
                if a == bx {
                    assert(b < by);
                    assert(err <= -by) by (nonlinear_arith)
                        requires
                            err == bx * (1 + b) - by * (1 + a),
                            a == bx,
                            0 <= bx,
                            b + 1 <= by,
                    ;
                } else if b == by {
                    assert(err >= bx) by (nonlinear_arith)
                        requires
                            err == bx * (1 + b) - by * (1 + a),
                            b == by,
                            0 <= by,
                            a + 1 <= bx,
                    ;
                }
                assert(bx * (1 + b) - by * (1 + (a + 1)) == err - by) by (nonlinear_arith)
                    requires
                        err == bx * (1 + b) - by * (1 + a),
                ;
                assert(bx * (1 + (b + 1)) - by * (1 + a) == err + bx) by (nonlinear_arith)
                    requires
                        err == bx * (1 + b) - by * (1 + a),
                ;
                assert(bx * (1 + (b + 1)) - by * (1 + (a + 1)) == err - by + bx) by (nonlinear_arith)
                    requires
                        err == bx * (1 + b) - by * (1 + a),
                ;
                assert(sx * (a + 1) == sx * a + sx) by (nonlinear_arith);
                assert(sy * (b + 1) == sy * b + sy) by (nonlinear_arith);
            }
            if e2 >= dy {
                err = err + dy;
                x = x + sx;
                a = a + 1;
            }
            if e2 <= dx {
                err = err + dx;
                y = y + sy;
                b = b + 1;
            }
        }
    }
    proof {
        assert forall|c: int, r: int|
            #![trigger pix(buf@, c, r)]
            on_screen(c, r) implies pix(buf@, c, r) == if on_line(
                x0 as int,
                y0 as int,
                x1 as int,
                y1 as int,
                c,
                r,
            ) {
                color
            } else {
                pix(b0, c, r)
            } by {
            let before = exists|j: nat|
                j < k && #[trigger] line_point(x0 as int, y0 as int, x1 as int, y1 as int, j) == (c, r);
            if before {
                let j = choose|j: nat|
                    j < k && #[trigger] line_point(x0 as int, y0 as int, x1 as int, y1 as int, j) == (c, r);
                assert(j <= bx + by);
                assert(on_line(x0 as int, y0 as int, x1 as int, y1 as int, c, r));
            }
            if on_line(x0 as int, y0 as int, x1 as int, y1 as int, c, r) {
                let j = choose|j: nat|
                    j <= line_dx(x0 as int, x1 as int) + line_dx(y0 as int, y1 as int) && #[trigger] line_point(
                        x0 as int,
                        y0 as int,
                        x1 as int,
                        y1 as int,
                        j,
                    ) == (c, r);
                if j >= k {
                    lemma_walk_stays(bx, by, (k - 1) as nat, j);
                    assert(line_point(x0 as int, y0 as int, x1 as int, y1 as int, (k - 1) as nat) == (c, r));
                }
                assert(before);
            }
        }
    }
}

/// Colour of the health bar's fill: green above half, amber above a
/// quarter, red below.
pub open spec fn health_color(hp: int, max_hp: int) -> int {
    if 2 * hp > max_hp {
        crate::color::pack(70, 220, 90)
    } else if 4 * hp > max_hp {
        crate::color::pack(255, 200, 50)
    } else {
        crate::color::pack(230, 60, 60)
    }
}

/// Left edge of the health bar.
pub const BAR_X: usize = 10;
/// Top edge of the health bar.
pub const BAR_Y: usize = 578;
/// Width of the health bar.
pub const BAR_W: usize = 200;
/// Height of the health bar.
pub const BAR_H: usize = 12;

/// Width of the bar's fill, in pixels: the share of health left, over
/// the bar's width (beyond it where `hp` exceeds `max_hp`).
pub open spec fn health_fill(hp: int, max_hp: int) -> int {
    let h = if hp < 0 {
        0
    } else {
        hp
    };
    let m = if max_hp < 1 {
        1
    } else {
        max_hp
    };
    h * (BAR_W as int) / m
}

/// The health bar's pixel: a white border round a dark 200 by 12 box in
/// the bottom-left corner, filled from the left in proportion to `hp`.
pub open spec fn health_pixel(hp: int, max_hp: int, c: int, r: int, old: u32) -> int {
    let in_rows = BAR_Y <= r < BAR_Y + BAR_H;
    let in_box = in_rows && BAR_X <= c < BAR_X + BAR_W;
    let edge = in_box && (c == BAR_X || c == BAR_X + BAR_W - 1 || r == BAR_Y || r == BAR_Y
        + BAR_H - 1);
    if edge {
        crate::color::pack(255, 255, 255)
    } else if in_rows && BAR_X <= c < BAR_X + health_fill(hp, max_hp) {
        health_color(hp, max_hp)
    } else if in_box {
        crate::color::pack(28, 28, 36)
    } else {
        old as int
    }
}

/// Draws the health bar for `hp` out of `max_hp`.
pub fn draw_health_bar(buf: &mut Vec<u32>, hp: i32, max_hp: i32)
    requires
        old(buf)@.len() == WIDTH * HEIGHT,
    ensures
        final(buf)@.len() == WIDTH * HEIGHT,
        forall|c: int, r: int|
            #![trigger pix(final(buf)@, c, r)]
            on_screen(c, r) ==> pix(final(buf)@, c, r) as int == health_pixel(
                hp as int,
                max_hp as int,
                c,
                r,
                pix(old(buf)@, c, r),
            ),
{
    let ghost b0 = buf@;
    let h: i64 = if hp < 0 { 0 } else { hp as i64 };
    let mx: i64 = if max_hp < 1 { 1 } else { max_hp as i64 };
    let fill: i64 = h * (BAR_W as i64) / mx;
    let color = if 2 * (hp as i64) > max_hp as i64 {
        rgb(70, 220, 90)
    } else if 4 * (hp as i64) > max_hp as i64 {
        rgb(255, 200, 50)
    } else {
        rgb(230, 60, 60)
    };
    let dark = rgb(28, 28, 36);
    let white = rgb(255, 255, 255);
    let mut y: usize = BAR_Y;
    while y < BAR_Y + BAR_H
        invariant
            buf@.len() == WIDTH * HEIGHT,
            BAR_Y <= y <= BAR_Y + BAR_H,
            fill == health_fill(hp as int, max_hp as int),
            color as int == health_color(hp as int, max_hp as int),
            dark as int == crate::color::pack(28, 28, 36),
            white as int == crate::color::pack(255, 255, 255),
            forall|c: int, r: int|
                #![trigger pix(buf@, c, r)]
                on_screen(c, r) ==> pix(buf@, c, r) as int == if r < y {
                    health_pixel(hp as int, max_hp as int, c, r, pix(b0, c, r))
                } else {
                    pix(b0, c, r) as int
                },
        decreases BAR_Y + BAR_H - y,
    {
        let mut x: usize = 0;
        while x < WIDTH
            invariant
                buf@.len() == WIDTH * HEIGHT,
                BAR_Y <= y < BAR_Y + BAR_H,
                x <= WIDTH,
                fill == health_fill(hp as int, max_hp as int),
                color as int == health_color(hp as int, max_hp as int),
                dark as int == crate::color::pack(28, 28, 36),
                white as int == crate::color::pack(255, 255, 255),
                forall|c: int, r: int|
                    #![trigger pix(buf@, c, r)]
                    on_screen(c, r) ==> pix(buf@, c, r) as int == if r < y || (r == y && c < x) {
                        health_pixel(hp as int, max_hp as int, c, r, pix(b0, c, r))
                    } else {
                        pix(b0, c, r) as int
                    },
            decreases WIDTH - x,
        {
            let in_box = BAR_X <= x && x < BAR_X + BAR_W;
            let edge = in_box && (x == BAR_X || x == BAR_X + BAR_W - 1 || y == BAR_Y || y == BAR_Y
                + BAR_H - 1);
            let ghost bp = buf@;
            if edge {
                buf.set(y * WIDTH + x, white);
            } else if BAR_X <= x && (x as i64) < BAR_X as i64 + fill {
                buf.set(y * WIDTH + x, color);
            } else if in_box {
                buf.set(y * WIDTH + x, dark);
            }
            proof {
                assert forall|c: int, r: int|
                    #![trigger pix(buf@, c, r)]
                    on_screen(c, r) implies pix(buf@, c, r) as int == if r < y || (r == y && c < x
                        + 1) {
                        health_pixel(hp as int, max_hp as int, c, r, pix(b0, c, r))
                    } else {
                        pix(b0, c, r) as int
                    } by {
                    assert(pix(bp, c, r) as int == if r < y || (r == y && c < x) {
                        health_pixel(hp as int, max_hp as int, c, r, pix(b0, c, r))
                    } else {
                        pix(b0, c, r) as int
                    });
                    if !(r == y && c == x) {
                        assert(r * 800 + c != y * 800 + x);
                    }
                }
            }
            x = x + 1;
        }
        y = y + 1;
    }
}

/// The 5x7 bitmap of a character: seven rows, five bits each, the most
/// significant of the five on the left. Letters of either case share a
/// glyph; a character without one is drawn as a block.
pub open spec fn glyph_spec(ch: char) -> Seq<u8> {
    match ch {
        'A' | 'a' => seq![0x0E,0x11,0x11,0x1F,0x11,0x11,0x11],
        'B' | 'b' => seq![0x1E,0x11,0x11,0x1E,0x11,0x11,0x1E],
        'C' | 'c' => seq![0x0E,0x11,0x10,0x10,0x11,0x0E,0x00],
        'D' | 'd' => seq![0x1E,0x11,0x11,0x11,0x11,0x1E,0x00],
        'E' | 'e' => seq![0x1F,0x10,0x1E,0x10,0x10,0x1F,0x00],
        'F' | 'f' => seq![0x1F,0x10,0x1E,0x10,0x10,0x10,0x00],
        'G' | 'g' => seq![0x0E,0x11,0x10,0x17,0x11,0x0F,0x00],
        'H' | 'h' => seq![0x11,0x11,0x11,0x1F,0x11,0x11,0x11],
        'I' | 'i' => seq![0x0E,0x04,0x04,0x04,0x04,0x0E,0x00],
        'J' | 'j' => seq![0x07,0x01,0x01,0x01,0x11,0x0E,0x00],
        'K' | 'k' => seq![0x11,0x12,0x14,0x18,0x14,0x12,0x11],
        'L' | 'l' => seq![0x10,0x10,0x10,0x10,0x10,0x1F,0x00],
        'M' | 'm' => seq![0x11,0x1B,0x15,0x11,0x11,0x11,0x11],
        'N' | 'n' => seq![0x11,0x19,0x15,0x13,0x11,0x11,0x00],
        'O' | 'o' => seq![0x0E,0x11,0x11,0x11,0x11,0x0E,0x00],
        'P' | 'p' => seq![0x1E,0x11,0x11,0x1E,0x10,0x10,0x10],
        'Q' | 'q' => seq![0x0E,0x11,0x11,0x11,0x15,0x0E,0x01],
        'R' | 'r' => seq![0x1E,0x11,0x11,0x1E,0x14,0x12,0x11],
        'S' | 's' => seq![0x0F,0x10,0x0E,0x01,0x01,0x1E,0x00],
        'T' | 't' => seq![0x1F,0x04,0x04,0x04,0x04,0x04,0x00],
        'U' | 'u' => seq![0x11,0x11,0x11,0x11,0x11,0x0E,0x00],
        'V' | 'v' => seq![0x11,0x11,0x11,0x11,0x0A,0x04,0x00],
        'W' | 'w' => seq![0x11,0x11,0x11,0x15,0x15,0x0A,0x00],
        'X' | 'x' => seq![0x11,0x11,0x0A,0x04,0x0A,0x11,0x11],
        'Y' | 'y' => seq![0x11,0x11,0x0A,0x04,0x04,0x04,0x00],
        'Z' | 'z' => seq![0x1F,0x01,0x02,0x04,0x08,0x10,0x1F],
        ' ' => seq![0x00,0x00,0x00,0x00,0x00,0x00,0x00],
        _ => seq![0x1F,0x1F,0x1F,0x1F,0x1F,0x1F,0x00],
    }
}

/// The 5x7 bitmap of a character (see `glyph_spec`).
pub fn glyph5x7(ch: char) -> (g: [u8; 7])
    ensures
        g@ == glyph_spec(ch),
{
    let g: [u8; 7] = match ch {
        'A' | 'a' => [0x0E,0x11,0x11,0x1F,0x11,0x11,0x11],
        'B' | 'b' => [0x1E,0x11,0x11,0x1E,0x11,0x11,0x1E],
        'C' | 'c' => [0x0E,0x11,0x10,0x10,0x11,0x0E,0x00],
        'D' | 'd' => [0x1E,0x11,0x11,0x11,0x11,0x1E,0x00],
        'E' | 'e' => [0x1F,0x10,0x1E,0x10,0x10,0x1F,0x00],
        'F' | 'f' => [0x1F,0x10,0x1E,0x10,0x10,0x10,0x00],
        'G' | 'g' => [0x0E,0x11,0x10,0x17,0x11,0x0F,0x00],
        'H' | 'h' => [0x11,0x11,0x11,0x1F,0x11,0x11,0x11],
        'I' | 'i' => [0x0E,0x04,0x04,0x04,0x04,0x0E,0x00],
        'J' | 'j' => [0x07,0x01,0x01,0x01,0x11,0x0E,0x00],
        'K' | 'k' => [0x11,0x12,0x14,0x18,0x14,0x12,0x11],
        'L' | 'l' => [0x10,0x10,0x10,0x10,0x10,0x1F,0x00],
        'M' | 'm' => [0x11,0x1B,0x15,0x11,0x11,0x11,0x11],
        'N' | 'n' => [0x11,0x19,0x15,0x13,0x11,0x11,0x00],
        'O' | 'o' => [0x0E,0x11,0x11,0x11,0x11,0x0E,0x00],
        'P' | 'p' => [0x1E,0x11,0x11,0x1E,0x10,0x10,0x10],
        'Q' | 'q' => [0x0E,0x11,0x11,0x11,0x15,0x0E,0x01],
        'R' | 'r' => [0x1E,0x11,0x11,0x1E,0x14,0x12,0x11],
        'S' | 's' => [0x0F,0x10,0x0E,0x01,0x01,0x1E,0x00],
        'T' | 't' => [0x1F,0x04,0x04,0x04,0x04,0x04,0x00],
        'U' | 'u' => [0x11,0x11,0x11,0x11,0x11,0x0E,0x00],
        'V' | 'v' => [0x11,0x11,0x11,0x11,0x0A,0x04,0x00],
        'W' | 'w' => [0x11,0x11,0x11,0x15,0x15,0x0A,0x00],
        'X' | 'x' => [0x11,0x11,0x0A,0x04,0x0A,0x11,0x11],
        'Y' | 'y' => [0x11,0x11,0x0A,0x04,0x04,0x04,0x00],
        'Z' | 'z' => [0x1F,0x01,0x02,0x04,0x08,0x10,0x1F],
        ' ' => [0x00,0x00,0x00,0x00,0x00,0x00,0x00],
        _ => [0x1F,0x1F,0x1F,0x1F,0x1F,0x1F,0x00],
    };
    proof {
        assert(g@ =~= glyph_spec(ch));
    }
    g
}

/// The glyph has its pixel at column `rx`, row `ry` set.
pub open spec fn glyph_bit(g: Seq<u8>, rx: int, ry: int) -> bool {
    (g[ry] >> ((4 - rx) as u8)) & 1u8 == 1u8
}

/// A character's effect on one pixel: its glyph, scaled by `scale`, with
/// its top-left corner at `(x, y)`.
pub open spec fn char_pixel(g: Seq<u8>, x: int, y: int, scale: int, color: u32, c: int, r: int, old: u32) -> u32 {
    let dx = c - x;
    let dy = r - y;
    if 0 <= dx < 5 * scale && 0 <= dy < 7 * scale && glyph_bit(g, dx / scale, dy / scale) {
        color
    } else {
        old
    }
}

/// The largest text scale.
pub const MAX_SCALE: usize = 1024;
/// The largest text position magnitude.
pub const MAX_TEXT_POS: i64 = 0x1_0000_0000;
/// The largest character position magnitude.
pub const MAX_CHAR_POS: i64 = 0x100_0000_0000;

/// Draws one character, its glyph scaled by `scale`, top-left at `(x, y)`.
pub fn draw_char(buf: &mut Vec<u32>, ch: char, x: i64, y: i64, scale: usize, color: u32)
    requires
        old(buf)@.len() == WIDTH * HEIGHT,
        scale <= MAX_SCALE,
        -MAX_CHAR_POS <= x <= MAX_CHAR_POS,
        -MAX_CHAR_POS <= y <= MAX_CHAR_POS,
    ensures
        final(buf)@.len() == WIDTH * HEIGHT,
        forall|c: int, r: int|
            #![trigger pix(final(buf)@, c, r)]
            on_screen(c, r) ==> pix(final(buf)@, c, r) == char_pixel(
                glyph_spec(ch),
                x as int,
                y as int,
                scale as int,
                color,
                c,
                r,
                pix(old(buf)@, c, r),
            ),
{
    let ghost b0 = buf@;
    let g = glyph5x7(ch);
    let ghost gs = glyph_spec(ch);
    let s = scale as i64;
    let mut py: i64 = 0;
    while py < 7 * s
        invariant
            buf@.len() == WIDTH * HEIGHT,
            g@ == gs,
            gs == glyph_spec(ch),
            s == scale,
            s <= MAX_SCALE,
            -MAX_CHAR_POS <= x <= MAX_CHAR_POS,
            -MAX_CHAR_POS <= y <= MAX_CHAR_POS,
            0 <= py <= 7 * s,
            forall|c: int, r: int|
                #![trigger pix(buf@, c, r)]
                on_screen(c, r) ==> pix(buf@, c, r) == if r - y < py {
                    char_pixel(gs, x as int, y as int, s as int, color, c, r, pix(b0, c, r))
                } else {
                    pix(b0, c, r)
                },
        decreases 7 * s - py,
    {
        let ry = (py / s) as usize;
        proof {
            assert(py / s < 7) by (nonlinear_arith)
                requires
                    0 <= py < 7 * s,
                    s > 0,
            ;
        }
        let row = g[ry];
        let mut px: i64 = 0;
        while px < 5 * s
            invariant
                buf@.len() == WIDTH * HEIGHT,
                g@ == gs,
                s == scale,
                1 <= s <= MAX_SCALE,
                -MAX_CHAR_POS <= x <= MAX_CHAR_POS,
                -MAX_CHAR_POS <= y <= MAX_CHAR_POS,
                0 <= py < 7 * s,
                ry == py / s,
                ry < 7,
                row == gs[ry as int],
                0 <= px <= 5 * s,
                forall|c: int, r: int|
                    #![trigger pix(buf@, c, r)]
                    on_screen(c, r) ==> pix(buf@, c, r) == if r - y < py || (r - y == py && c - x
                        < px) {
                        char_pixel(gs, x as int, y as int, s as int, color, c, r, pix(b0, c, r))
                    } else {
                        pix(b0, c, r)
                    },
            decreases 5 * s - px,
        {
            let rx = px / s;
            proof {
                assert(px / s < 5) by (nonlinear_arith)
                    requires
                        0 <= px < 5 * s,
                        s > 0,
                ;
            }
            let ghost bp = buf@;
            let on = (row >> ((4 - rx) as u8)) & 1u8 == 1u8;
            if on {
                proof {
                    lemma_with_pixel(buf@, (x + px) as int, (y + py) as int, color);
                }
                pset(buf, x + px, y + py, color);
            }
            proof {
                assert forall|c: int, r: int|
                    #![trigger pix(buf@, c, r)]
                    on_screen(c, r) implies pix(buf@, c, r) == if r - y < py || (r - y == py && c
                        - x < px + 1) {
                        char_pixel(gs, x as int, y as int, s as int, color, c, r, pix(b0, c, r))
                    } else {
                        pix(b0, c, r)
                    } by {
                    assert(pix(bp, c, r) == if r - y < py || (r - y == py && c - x < px) {
                        char_pixel(gs, x as int, y as int, s as int, color, c, r, pix(b0, c, r))
                    } else {
                        pix(b0, c, r)
                    });
                }
            }
            px = px + 1;
        }
        py = py + 1;
    }
    proof {
        assert forall|c: int, r: int|
            #![trigger pix(buf@, c, r)]
            on_screen(c, r) implies pix(buf@, c, r) == char_pixel(
                gs,
                x as int,
                y as int,
                s as int,
                color,
                c,
                r,
                pix(b0, c, r),
            ) by {
            if r - y >= py {
                assert(!(0 <= r - y < 7 * s));
            }
        }
    }
}

/// The first `k` characters of `text` applied to one pixel, in order, each
/// `6 * scale` pixels right of the one before.
pub open spec fn text_pixel(
    text: Seq<char>,
    k: int,
    x: int,
    y: int,
    scale: int,
    color: u32,
    c: int,
    r: int,
    old: u32,
) -> u32
    decreases k,
{
    if k <= 0 {
        old
    } else {
        char_pixel(
            glyph_spec(text[k - 1]),
            x + (k - 1) * 6 * scale,
            y,
            scale,
            color,
            c,
            r,
            text_pixel(text, k - 1, x, y, scale, color, c, r, old),
        )
    }
}

/// The longest text that `draw_text` takes.
pub const MAX_TEXT_LEN: usize = 4096;

/// Draws a line of text from `(x, y)`, one character every `6 * scale`
/// pixels.
pub fn draw_text(buf: &mut Vec<u32>, text: &[char], x: i64, y: i64, scale: usize, color: u32)
    requires
        old(buf)@.len() == WIDTH * HEIGHT,
        text@.len() <= MAX_TEXT_LEN,
        scale <= MAX_SCALE,
        -MAX_TEXT_POS <= x <= MAX_TEXT_POS,
        -MAX_TEXT_POS <= y <= MAX_TEXT_POS,
    ensures
        final(buf)@.len() == WIDTH * HEIGHT,
        forall|c: int, r: int|
            #![trigger pix(final(buf)@, c, r)]
            on_screen(c, r) ==> pix(final(buf)@, c, r) == text_pixel(
                text@,
                text@.len() as int,
                x as int,
                y as int,
                scale as int,
                color,
                c,
                r,
                pix(old(buf)@, c, r),
            ),
{
    let ghost b0 = buf@;
    let mut i: usize = 0;
    let mut cx: i64 = x;
    while i < text.len()
        invariant
            buf@.len() == WIDTH * HEIGHT,
            text@.len() <= MAX_TEXT_LEN,
            scale <= MAX_SCALE,
            -MAX_TEXT_POS <= x <= MAX_TEXT_POS,
            -MAX_TEXT_POS <= y <= MAX_TEXT_POS,
            i <= text@.len(),
            cx == x + i * 6 * scale,
            forall|c: int, r: int|
                #![trigger pix(buf@, c, r)]
                on_screen(c, r) ==> pix(buf@, c, r) == text_pixel(
                    text@,
                    i as int,
                    x as int,
                    y as int,
                    scale as int,
                    color,
                    c,
                    r,
                    pix(b0, c, r),
                ),
        decreases text@.len() - i,
    {
        proof {
            assert(0 <= i * 6 * scale <= 4096 * 6 * 1024) by (nonlinear_arith)
                requires
                    i < 4096,
                    scale <= 1024,
            ;
            assert((i + 1) * 6 * scale == i * 6 * scale + 6 * scale) by (nonlinear_arith);
        }
        let ghost bp = buf@;
        draw_char(buf, text[i], cx, y, scale, color);
        proof {
            assert forall|c: int, r: int|
                #![trigger pix(buf@, c, r)]
                on_screen(c, r) implies pix(buf@, c, r) == text_pixel(
                    text@,
                    i + 1,
                    x as int,
                    y as int,
                    scale as int,
                    color,
                    c,
                    r,
                    pix(b0, c, r),
                ) by {
                assert(pix(bp, c, r) == text_pixel(
                    text@,
                    i as int,
                    x as int,
                    y as int,
                    scale as int,
                    color,
                    c,
                    r,
                    pix(b0, c, r),
                ));
            }
        }
        cx = cx + (6 * scale) as i64;
        i = i + 1;
    }
}

/// Left edge of a text line of `n` characters centred across the frame.
pub open spec fn centered_x(n: int, scale: int) -> int {
    let total = n * 6 * scale - scale;
    let t = if total < 0 {
        0
    } else {
        total
    };
    if t > WIDTH {
        0
    } else {
        (WIDTH - t) / 2
    }
}

/// Draws a line of text centred horizontally, its top at row `y`.
pub fn draw_text_centered(buf: &mut Vec<u32>, text: &[char], y: usize, scale: usize, color: u32)
    requires
        old(buf)@.len() == WIDTH * HEIGHT,
        text@.len() <= MAX_TEXT_LEN,
        scale <= MAX_SCALE,
        y <= MAX_TEXT_POS,
    ensures
        final(buf)@.len() == WIDTH * HEIGHT,
        forall|c: int, r: int|
            #![trigger pix(final(buf)@, c, r)]
            on_screen(c, r) ==> pix(final(buf)@, c, r) == text_pixel(
                text@,
                text@.len() as int,
                centered_x(text@.len() as int, scale as int),
                y as int,
                scale as int,
                color,
                c,
                r,
                pix(old(buf)@, c, r),
            ),
{
    let n = text.len();
    let cw = 6 * scale;
    proof {
        assert(n * cw <= 4096 * 6 * 1024) by (nonlinear_arith)
            requires
                n <= 4096,
                cw <= 6 * 1024,
        ;
        assert(n * cw == n * 6 * scale) by (nonlinear_arith)
            requires
                cw == 6 * scale,
        ;
    }
    let total_w = if n * cw > scale { n * cw - scale } else { 0 };
    let start_x = if total_w > WIDTH { 0 } else { (WIDTH - total_w) / 2 };
    draw_text(buf, text, start_x as i64, y as i64, scale, color);
}

/// Minimap colour of a tile: dark floor, amber exit, grey for the rest.
pub open spec fn minimap_color(t: i32) -> int {
    if t == 0 {
        crate::color::pack(28, 28, 36)
    } else if t == 9 {
        crate::color::pack(255, 180, 80)
    } else {
        crate::color::pack(90, 90, 110)
    }
}

/// Offset of the minimap from the frame's top-left corner.
pub const MINIMAP_OFF: usize = 10;
/// Pixels per map cell on the minimap.
pub const MINIMAP_SCALE: usize = 4;

/// The minimap's pixel before the direction line: the player's 2 by 2
/// white marker over the map's cells, 4 by 4 pixels each, from `(10, 10)`.
pub open spec fn minimap_pixel(m: WorldMap, px: int, py: int, c: int, r: int, old: u32) -> int {
    let ux = 10 + floor_spec(px) * 4;
    let uy = 10 + floor_spec(py) * 4;
    if ux <= c < ux + 2 && uy <= r < uy + 2 {
        crate::color::pack(255, 255, 255)
    } else if 10 <= c < 10 + 4 * m.w && 10 <= r < 10 + 4 * m.h {
        minimap_color(m.tile((c - 10) / 4, (r - 10) / 4))
    } else {
        old as int
    }
}

/// Cell column (or row) that the direction marker points at: 0.8 cells
/// ahead, at least zero.
pub open spec fn minimap_tip(p: int, d: int) -> int {
    let t = floor_spec(p + (d * 4) / 5);
    if t < 0 {
        0
    } else {
        t
    }
}

/// Draws the minimap in the top-left corner: the map's cells, the player's
/// marker and a white line from it towards where the player faces.
pub fn draw_minimap(buf: &mut Vec<u32>, map: &WorldMap, px: i64, py: i64, dx: i64, dy: i64)
    requires
        old(buf)@.len() == WIDTH * HEIGHT,
        map.wf(),
        0 <= px < map.w * FIX_ONE,
        0 <= py < map.h * FIX_ONE,
        -MAX_DIR <= dx <= MAX_DIR,
        -MAX_DIR <= dy <= MAX_DIR,
    ensures
        final(buf)@.len() == WIDTH * HEIGHT,
        forall|c: int, r: int|
            #![trigger pix(final(buf)@, c, r)]
            on_screen(c, r) ==> pix(final(buf)@, c, r) as int == crate::color::pack(255, 255, 255)
                || pix(final(buf)@, c, r) as int == minimap_pixel(
                *map,
                px as int,
                py as int,
                c,
                r,
                pix(old(buf)@, c, r),
            ),
        ({
            let fx = 10 + minimap_tip(px as int, dx as int) * 4;
            let fy = 10 + minimap_tip(py as int, dy as int) * 4;
            on_screen(fx, fy) ==> pix(final(buf)@, fx, fy) as int == crate::color::pack(255, 255, 255)
        }),
{
    let ghost b0 = buf@;
    let white = rgb(255, 255, 255);
    let cols_end: usize = if 10 + 4 * map.w < WIDTH { 10 + 4 * map.w } else { WIDTH };
    let rows_end: usize = if 10 + 4 * map.h < HEIGHT { 10 + 4 * map.h } else { HEIGHT };
    let ux: usize = 10 + floor_fix(px) as usize * 4;
    let uy: usize = 10 + floor_fix(py) as usize * 4;
    proof {
        vstd::arithmetic::div_mod::lemma_fundamental_div_mod(px as int, 65536);
        vstd::arithmetic::div_mod::lemma_fundamental_div_mod(py as int, 65536);
        assert(0 <= floor_spec(px as int) < map.w) by (nonlinear_arith)
            requires
                px == 65536 * floor_spec(px as int) + (px as int) % 65536,
                0 <= (px as int) % 65536 < 65536,
                0 <= px < map.w * 65536,
        ;
        assert(0 <= floor_spec(py as int) < map.h) by (nonlinear_arith)
            requires
                py == 65536 * floor_spec(py as int) + (py as int) % 65536,
                0 <= (py as int) % 65536 < 65536,
                0 <= py < map.h * 65536,
        ;
    }
    let mut r: usize = 0;
    while r < HEIGHT
        invariant
            buf@.len() == WIDTH * HEIGHT,
            map.wf(),
            r <= HEIGHT,
            cols_end <= WIDTH,
            rows_end <= HEIGHT,
            cols_end == (if 10 + 4 * map.w < WIDTH { 10 + 4 * map.w } else { WIDTH as int }),
            rows_end == (if 10 + 4 * map.h < HEIGHT { 10 + 4 * map.h } else { HEIGHT as int }),
            ux == 10 + floor_spec(px as int) * 4,
            uy == 10 + floor_spec(py as int) * 4,
            white as int == crate::color::pack(255, 255, 255),
            forall|c: int, rr: int|
                #![trigger pix(buf@, c, rr)]
                on_screen(c, rr) ==> pix(buf@, c, rr) as int == if rr < r {
                    minimap_pixel(*map, px as int, py as int, c, rr, pix(b0, c, rr))
                } else {
                    pix(b0, c, rr) as int
                },
        decreases HEIGHT - r,
    {
        let mut c: usize = 0;
        while c < WIDTH
            invariant
                buf@.len() == WIDTH * HEIGHT,
                map.wf(),
                r < HEIGHT,
                c <= WIDTH,
                cols_end <= WIDTH,
                rows_end <= HEIGHT,
                cols_end == (if 10 + 4 * map.w < WIDTH { 10 + 4 * map.w } else { WIDTH as int }),
                rows_end == (if 10 + 4 * map.h < HEIGHT { 10 + 4 * map.h } else { HEIGHT as int }),
                ux == 10 + floor_spec(px as int) * 4,
                uy == 10 + floor_spec(py as int) * 4,
                white as int == crate::color::pack(255, 255, 255),
                forall|cc: int, rr: int|
                    #![trigger pix(buf@, cc, rr)]
                    on_screen(cc, rr) ==> pix(buf@, cc, rr) as int == if rr < r || (rr == r && cc
                        < c) {
                        minimap_pixel(*map, px as int, py as int, cc, rr, pix(b0, cc, rr))
                    } else {
                        pix(b0, cc, rr) as int
                    },
            decreases WIDTH - c,
        {
            let ghost bp = buf@;
            if ux <= c && c < ux + 2 && uy <= r && r < uy + 2 {
                buf.set(r * WIDTH + c, white);
            } else if 10 <= c && c < cols_end && 10 <= r && r < rows_end {
                let t = map.get((c - 10) / 4, (r - 10) / 4);
                let col = if t == 0 {
                    rgb(28, 28, 36)
                } else if t == 9 {
                    rgb(255, 180, 80)
                } else {
                    rgb(90, 90, 110)
                };
                buf.set(r * WIDTH + c, col);
            }
            proof {
                assert forall|cc: int, rr: int|
                    #![trigger pix(buf@, cc, rr)]
                    on_screen(cc, rr) implies pix(buf@, cc, rr) as int == if rr < r || (rr == r
                        && cc < c + 1) {
                        minimap_pixel(*map, px as int, py as int, cc, rr, pix(b0, cc, rr))
                    } else {
                        pix(b0, cc, rr) as int
                    } by {
                    assert(pix(bp, cc, rr) as int == if rr < r || (rr == r && cc < c) {
                        minimap_pixel(*map, px as int, py as int, cc, rr, pix(b0, cc, rr))
                    } else {
                        pix(b0, cc, rr) as int
                    });
                    if !(rr == r && cc == c) {
                        assert(rr * 800 + cc != r * 800 + c);
                    }
                }
            }
            c = c + 1;
        }
        r = r + 1;
    }
    let ghost b1 = buf@;
    proof {
        assert(-MAX_DIR * 4 <= dx * 4 <= MAX_DIR * 4);
    }
    let tx0 = floor_fix(px + crate::fixed::floor_div(dx * 4, 5));
    let ty0 = floor_fix(py + crate::fixed::floor_div(dy * 4, 5));
    let tx: usize = if tx0 < 0 { 0 } else { tx0 as usize };
    let ty: usize = if ty0 < 0 { 0 } else { ty0 as usize };
    proof {
        vstd::arithmetic::div_mod::lemma_fundamental_div_mod(px + (dx * 4) / 5, 65536);
        vstd::arithmetic::div_mod::lemma_fundamental_div_mod(py + (dy * 4) / 5, 65536);
        assert(tx <= 1024 + 4);
        assert(ty <= 1024 + 4);
    }
    line(buf, ux, uy, 10 + tx * 4, 10 + ty * 4, white);
    proof {
        assert forall|c: int, r: int|
            #![trigger pix(buf@, c, r)]
            on_screen(c, r) implies pix(buf@, c, r) as int == crate::color::pack(255, 255, 255)
                || pix(buf@, c, r) as int == minimap_pixel(
                *map,
                px as int,
                py as int,
                c,
                r,
                pix(b0, c, r),
            ) by {
            assert(pix(b1, c, r) as int == minimap_pixel(*map, px as int, py as int, c, r, pix(b0, c, r)));
        }
    }
}

} // verus!
