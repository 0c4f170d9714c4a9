//! Animated billboard sprites and the pass that projects them into the
//! frame, tested per column against the wall depth buffer.
//!
//! Sprites are composited in list order with no sorting among themselves:
//! each is tested against the walls only, so where two overlap the later
//! one is drawn over the earlier.

use vstd::prelude::*;
use crate::color::{alpha_blend, blend_spec, pack, rgb, shade, shade_spec};
use crate::dda::abs_spec;
use crate::fixed::{FIX_ONE, floor_fix, floor_spec, isqrt, lemma_truncated_div, sqrt_floor};
use crate::render::{Camera, HEIGHT, WIDTH, on_screen, pix};
use crate::texture::{SpriteFrame, alpha_part, rgb_part};

verus! {

/// The largest magnitude of a world coordinate (1024 units).
pub const MAX_POS: i64 = 67108864;
/// The smallest magnitude of the camera basis determinant (about 0.001);
/// below it the basis counts as degenerate and no sprite is drawn.
pub const MIN_DET: i64 = 4194304;
/// Sprites nearer than this depth (about 0.01) are behind the camera.
pub const MIN_DEPTH: i64 = 655;
/// The largest playback rate, in frames per second (fixed point).
pub const MAX_FPS: i64 = 67108864;
/// The largest time step, in seconds (fixed point).
pub const MAX_DT: i64 = 4294967296;
/// The most frames that one sprite can hold.
pub const MAX_FRAMES: usize = 1024;

/// A sprite at a world position, cycling through its frames at `fps`
/// frames per second.
pub struct AnimatedSprite {
    pub x: i64,
    pub y: i64,
    pub frames: Vec<SpriteFrame>,
    pub fps: i64,
    /// Playback position, in frames (fixed point).
    pub t: i64,
}

impl AnimatedSprite {
    /// The playback position, in frames (fixed point).
    pub open spec fn time(&self) -> int {
        self.t as int
    }

    pub open spec fn wf(&self) -> bool {
        &&& -MAX_POS <= self.x <= MAX_POS
        &&& -MAX_POS <= self.y <= MAX_POS
        &&& 1 <= self.frames@.len() <= MAX_FRAMES
        &&& forall|i: int| 0 <= i < self.frames@.len() ==> #[trigger] self.frames@[i].wf()
        &&& -MAX_FPS <= self.fps <= MAX_FPS
        &&& 0 <= self.time() < self.frames@.len() * FIX_ONE
    }

    /// The index of the frame on show.
    pub open spec fn frame_index(&self) -> int {
        floor_spec(self.time()) % (self.frames@.len() as int)
    }

    pub open spec fn current_spec(&self) -> SpriteFrame {
        self.frames@[self.frame_index()]
    }

    /// A sprite at `(x, y)` showing its first frame.
    pub fn new(x: i64, y: i64, frames: Vec<SpriteFrame>, fps: i64) -> (s: AnimatedSprite)
        ensures
            s.x == x,
            s.y == y,
            s.frames@ == frames@,
            s.fps == fps,
            s.time() == 0,
    {
        AnimatedSprite { x, y, frames, fps, t: 0 }
    }

    /// Advances playback by `dt` seconds, wrapping around the frame count.
    pub fn update(&mut self, dt: i64)
        requires
            old(self).wf(),
            -MAX_DT <= dt <= MAX_DT,
        ensures
            final(self).wf(),
            final(self).x == old(self).x,
            final(self).y == old(self).y,
            final(self).frames@ == old(self).frames@,
            final(self).fps == old(self).fps,
            final(self).time() == (old(self).time() + floor_spec(dt * old(self).fps)) % (
            old(self).frames@.len() * FIX_ONE),
    {
        proof {
            assert(-MAX_DT * MAX_FPS <= dt * self.fps <= MAX_DT * MAX_FPS) by (nonlinear_arith)
                requires
                    -MAX_DT <= dt <= MAX_DT,
                    -MAX_FPS <= self.fps <= MAX_FPS,
            ;
        }
        let adv = floor_fix(dt * self.fps);
        let period: i64 = self.frames.len() as i64 * FIX_ONE;
        let s = self.t + adv;
        let m = s % period;
        proof {
            lemma_truncated_div(s as int, period as int);
        }
        self.t = if m < 0 { m + period } else { m };
    }

    /// The frame on show.
    pub fn current(&self) -> (f: &SpriteFrame)
        requires
            self.wf(),
        ensures
            *f == self.current_spec(),
            f.wf(),
    {
        let i = (floor_fix(self.t) as usize) % self.frames.len();
        proof {
            vstd::arithmetic::div_mod::lemma_div_pos_is_pos(self.t as int, 65536);
        }
        &self.frames[i]
    }
}

/// The sprites of a level.
pub struct SpriteManager {
    pub list: Vec<AnimatedSprite>,
}

impl SpriteManager {
    pub open spec fn wf(&self) -> bool {
        forall|i: int| 0 <= i < self.list@.len() ==> #[trigger] self.list@[i].wf()
    }

    /// Advances every sprite by `dt` seconds.
    pub fn update(&mut self, dt: i64)
        requires
            old(self).wf(),
            -MAX_DT <= dt <= MAX_DT,
        ensures
            final(self).wf(),
            final(self).list@.len() == old(self).list@.len(),
            forall|i: int|
                0 <= i < old(self).list@.len() ==> {
                    let a = #[trigger] final(self).list@[i];
                    let b = old(self).list@[i];
                    &&& a.x == b.x
                    &&& a.y == b.y
                    &&& a.frames@ == b.frames@
                    &&& a.fps == b.fps
                    &&& a.time() == (b.time() + floor_spec(dt * b.fps)) % (b.frames@.len()
                        * FIX_ONE)
                },
    {
        let ghost l0 = self.list@;
        let n = self.list.len();
        let mut i: usize = 0;
        while i < n
            invariant
                n == l0.len(),
                self.list@.len() == n,
                i <= n,
                -MAX_DT <= dt <= MAX_DT,
                forall|j: int| 0 <= j < n ==> #[trigger] l0[j].wf(),
                forall|j: int| i <= j < n ==> #[trigger] self.list@[j] == l0[j],
                forall|j: int|
                    0 <= j < i ==> {
                        let a = #[trigger] self.list@[j];
                        let b = l0[j];
                        &&& a.wf()
                        &&& a.x == b.x
                        &&& a.y == b.y
                        &&& a.frames@ == b.frames@
                        &&& a.fps == b.fps
                        &&& a.time() == (b.time() + floor_spec(dt * b.fps)) % (b.frames@.len()
                            * FIX_ONE)
                    },
            decreases n - i,
        {
            let mut s = self.list.remove(i);
            s.update(dt);
            self.list.insert(i, s);
            i = i + 1;
        }
    }
}

/// Determinant of the camera's `[plane, dir]` basis (scale `FIX_ONE^2`).
pub open spec fn basis_det(c: Camera) -> int {
    c.plane_x * c.dir_y - c.dir_x * c.plane_y
}

/// `a / d` rounded down, for a non-zero `d` of either sign.
pub open spec fn div_signed(a: int, d: int) -> int {
    if d < 0 {
        (-a) / (-d)
    } else {
        a / d
    }
}

/// Depth-independent offset of the sprite across the view (camera space).
pub open spec fn transform_x(c: Camera, wx: int, wy: int) -> int {
    let sx = wx - c.x;
    let sy = wy - c.y;
    div_signed((c.dir_y * sx - c.dir_x * sy) * FIX_ONE, basis_det(c))
}

/// Depth of the sprite along the view direction (camera space).
pub open spec fn transform_y(c: Camera, wx: int, wy: int) -> int {
    let sx = wx - c.x;
    let sy = wy - c.y;
    div_signed((c.plane_x * sy - c.plane_y * sx) * FIX_ONE, basis_det(c))
}

/// The sprite is drawn at all: the basis is not degenerate and the sprite
/// is in front of the camera.
pub open spec fn projects(c: Camera, wx: int, wy: int) -> bool {
    abs_spec(basis_det(c)) >= MIN_DET && transform_y(c, wx, wy) > MIN_DEPTH
}

/// Screen column of the sprite's centre.
pub open spec fn screen_x(tx: int, ty: int) -> int {
    floor_spec((WIDTH / 2) * (FIX_ONE + (tx * FIX_ONE) / ty))
}

/// On-screen width and height (a square billboard).
pub open spec fn sprite_size(ty: int) -> int {
    (HEIGHT * FIX_ONE) / ty
}

pub open spec fn sprite_start_x(tx: int, ty: int) -> int {
    screen_x(tx, ty) - sprite_size(ty) / 2
}

pub open spec fn sprite_end_x(tx: int, ty: int) -> int {
    screen_x(tx, ty) + sprite_size(ty) / 2
}

pub open spec fn sprite_start_y(ty: int) -> int {
    HEIGHT / 2 - sprite_size(ty) / 2
}

pub open spec fn sprite_end_y(ty: int) -> int {
    HEIGHT / 2 + sprite_size(ty) / 2
}

/// Texture coordinate for offset `d` into a billboard of `size` pixels
/// over a frame extent of `n`.
pub open spec fn sprite_tex(d: int, n: int, size: int) -> int {
    let t = d * n / (if size < 1 {
        1
    } else {
        size
    });
    if t > n - 1 {
        n - 1
    } else {
        t
    }
}

/// Light on a sprite: `1 / (1 + 0.18 * distance)`, between `ambient` and 1.
pub open spec fn sprite_light(c: Camera, wx: int, wy: int, ambient: int) -> int {
    let sx = wx - c.x;
    let sy = wy - c.y;
    let dist = sqrt_floor(sx * sx + sy * sy);
    let l = (FIX_ONE * FIX_ONE) / (FIX_ONE + dist * 18 / 100);
    if l < ambient {
        ambient
    } else if l > FIX_ONE {
        FIX_ONE as int
    } else {
        l
    }
}

/// The rectangle of the frame that the sprite covers: its projected square
/// clipped to the screen.
pub open spec fn covers(c: Camera, wx: int, wy: int, col: int, row: int) -> bool {
    let tx = transform_x(c, wx, wy);
    let ty = transform_y(c, wx, wy);
    &&& on_screen(col, row)
    &&& sprite_start_x(tx, ty) <= col <= sprite_end_x(tx, ty)
    &&& sprite_start_y(ty) <= row <= sprite_end_y(ty)
}

/// The frame pixel that a covered screen pixel shows.
pub open spec fn sprite_texel(c: Camera, s: AnimatedSprite, col: int, row: int) -> u32 {
    let tx = transform_x(c, s.x as int, s.y as int);
    let ty = transform_y(c, s.x as int, s.y as int);
    let f = s.current_spec();
    let size = sprite_size(ty);
    f.texel(
        sprite_tex(col - sprite_start_x(tx, ty), f.w as int, size),
        sprite_tex(row - sprite_start_y(ty), f.h as int, size),
    )
}

/// One sprite's effect on one pixel: where it projects, covers the pixel,
/// is nearer than the wall in that column and the texel is not fully
/// transparent, the lit texel is blended over the old pixel; elsewhere the
/// pixel is kept.
pub open spec fn sprite_pixel(
    c: Camera,
    z: Seq<i64>,
    s: AnimatedSprite,
    ambient: int,
    col: int,
    row: int,
    old: u32,
) -> u32 {
    let ty = transform_y(c, s.x as int, s.y as int);
    if projects(c, s.x as int, s.y as int) && covers(c, s.x as int, s.y as int, col, row) && ty
        < z[col] {
        let px = sprite_texel(c, s, col, row);
        if alpha_part(px) == 0 {
            old
        } else {
            blend_spec(
                old,
                shade_spec(rgb_part(px), sprite_light(c, s.x as int, s.y as int, ambient)) as u32,
                alpha_part(px),
            ) as u32
        }
    } else {
        old
    }
}

/// The sprites `0 .. n` of a list applied to one pixel in list order.
pub open spec fn sprites_pixel(
    c: Camera,
    z: Seq<i64>,
    list: Seq<AnimatedSprite>,
    ambient: int,
    col: int,
    row: int,
    old: u32,
) -> u32
    decreases list.len(),
{
    if list.len() == 0 {
        old
    } else {
        sprite_pixel(
            c,
            z,
            list.last(),
            ambient,
            col,
            row,
            sprites_pixel(c, z, list.drop_last(), ambient, col, row, old),
        )
    }
}

/// A camera whose basis the sprite pass can invert without overflow; a
/// degenerate basis is allowed (nothing is drawn then).
pub open spec fn sprite_camera_ok(c: Camera) -> bool {
    &&& c.bounded()
    &&& -MAX_POS <= c.x <= MAX_POS
    &&& -MAX_POS <= c.y <= MAX_POS
}

/// Where a sprite lands on screen.
pub struct SpriteProjection {
    /// Offset across the view, camera space (fixed point).
    pub transform_x: i64,
    /// Depth along the view direction (fixed point).
    pub transform_y: i64,
    /// Screen column of the centre.
    pub screen_x: i64,
    /// Width and height on screen, in pixels.
    pub size: i64,
}

fn div_signed_exec(a: i64, d: i64) -> (q: i64)
    requires
        d != 0,
        -0x4000_0000_0000_0000 <= a <= 0x4000_0000_0000_0000,
        -0x4000_0000_0000_0000 <= d <= 0x4000_0000_0000_0000,
    ensures
        q == div_signed(a as int, d as int),
{
    let (n, m) = if d < 0 { (-a, -d) } else { (a, d) };
    proof {
        lemma_truncated_div(n as int, m as int);
    }
    let q = n / m;
    let r = n % m;
    if r < 0 {
        q - 1
    } else {
        q
    }
}

/// Projects a world position through the inverse camera basis. `None`
/// where the basis is degenerate or the position is not in front of the
/// camera.
pub fn project_sprite(cam: &Camera, wx: i64, wy: i64) -> (r: Option<SpriteProjection>)
    requires
        sprite_camera_ok(*cam),
        -MAX_POS <= wx <= MAX_POS,
        -MAX_POS <= wy <= MAX_POS,
    ensures
        r.is_some() <==> projects(*cam, wx as int, wy as int),
        r matches Some(p) ==> {
            &&& p.transform_x == transform_x(*cam, wx as int, wy as int)
            &&& p.transform_y == transform_y(*cam, wx as int, wy as int)
            &&& p.screen_x == screen_x(p.transform_x as int, p.transform_y as int)
            &&& p.size == sprite_size(p.transform_y as int)
            &&& 0 <= p.size <= HEIGHT * FIX_ONE
            &&& -0x0100_0000_0000_0000 <= p.screen_x <= 0x0100_0000_0000_0000
        },
{
    let c = cam;
    proof {
        assert(-262144 * 262144 <= c.plane_x * c.dir_y <= 262144 * 262144) by (nonlinear_arith)
            requires
                -262144 <= c.plane_x <= 262144,
                -262144 <= c.dir_y <= 262144,
        ;
        assert(-262144 * 262144 <= c.dir_x * c.plane_y <= 262144 * 262144) by (nonlinear_arith)
            requires
                -262144 <= c.dir_x <= 262144,
                -262144 <= c.plane_y <= 262144,
        ;
    }
    let det = c.plane_x * c.dir_y - c.dir_x * c.plane_y;
    if det > -MIN_DET && det < MIN_DET {
        return None;
    }
    let sx = wx - c.x;
    let sy = wy - c.y;
    proof {
        assert(-262144 * 134217728 <= c.dir_y * sx <= 262144 * 134217728) by (nonlinear_arith)
            requires
                -262144 <= c.dir_y <= 262144,
                -134217728 <= sx <= 134217728,
        ;
        assert(-262144 * 134217728 <= c.dir_x * sy <= 262144 * 134217728) by (nonlinear_arith)
            requires
                -262144 <= c.dir_x <= 262144,
                -134217728 <= sy <= 134217728,
        ;
        assert(-262144 * 134217728 <= c.plane_y * sx <= 262144 * 134217728) by (nonlinear_arith)
            requires
                -262144 <= c.plane_y <= 262144,
                -134217728 <= sx <= 134217728,
        ;
        assert(-262144 * 134217728 <= c.plane_x * sy <= 262144 * 134217728) by (nonlinear_arith)
            requires
                -262144 <= c.plane_x <= 262144,
                -134217728 <= sy <= 134217728,
        ;
    }
    let nx = (c.dir_y * sx - c.dir_x * sy) * FIX_ONE;
    let ny = (c.plane_x * sy - c.plane_y * sx) * FIX_ONE;
    let tx = div_signed_exec(nx, det);
    let ty = div_signed_exec(ny, det);
    proof {
        lemma_div_signed_bound(nx as int, det as int);
        lemma_div_signed_bound(ny as int, det as int);
    }
    if ty <= MIN_DEPTH {
        return None;
    }
    proof {
        assert(-0x0400_0000_0000 * 65536 <= tx * 65536 <= 0x0400_0000_0000 * 65536) by (nonlinear_arith)
            requires
                -0x0400_0000_0000 <= tx <= 0x0400_0000_0000,
        ;
    }
    let q = div_signed_exec(tx * FIX_ONE, ty);
    proof {
        assert(-0x2_0000_0000_0000 <= q <= 0x2_0000_0000_0000) by (nonlinear_arith)
            requires
                q == (tx * 65536) / (ty as int),
                ty > 655,
                -0x0400_0000_0000 * 65536 <= tx * 65536 <= 0x0400_0000_0000 * 65536,
        ;
    }
    let sxs = floor_fix((WIDTH as i64 / 2) * (FIX_ONE + q));
    proof {
        assert(0 <= (600 * 65536int) / (ty as int) <= 600 * 65536) by (nonlinear_arith)
            requires
                ty > 655,
        ;
    }
    let size = (HEIGHT as i64 * FIX_ONE) / ty;
    Some(SpriteProjection { transform_x: tx, transform_y: ty, screen_x: sxs, size })
}

proof fn lemma_div_signed_bound(a: int, d: int)
    requires
        abs_spec(d) >= MIN_DET,
        -0x4000_0000_0000_0000 <= a <= 0x4000_0000_0000_0000,
    ensures
        -0x0400_0000_0000 <= div_signed(a, d) <= 0x0400_0000_0000,
{
    let (n, m) = if d < 0 { (-a, -d) } else { (a, d) };
    assert(m >= 4194304);
    assert(-0x0400_0000_0000 <= n / m <= 0x0400_0000_0000) by (nonlinear_arith)
        requires
            m >= 4194304,
            -0x4000_0000_0000_0000 <= n <= 0x4000_0000_0000_0000,
    ;
}

/// Light factor for a sprite at world `(wx, wy)`.
fn light_at(cam: &Camera, wx: i64, wy: i64, ambient: i64) -> (l: i64)
    requires
        sprite_camera_ok(*cam),
        -MAX_POS <= wx <= MAX_POS,
        -MAX_POS <= wy <= MAX_POS,
        0 <= ambient <= FIX_ONE,
    ensures
        l == sprite_light(*cam, wx as int, wy as int, ambient as int),
        0 <= l <= FIX_ONE,
{
    let sx = wx - cam.x;
    let sy = wy - cam.y;
    proof {
        assert(0 <= sx * sx <= 134217728 * 134217728) by (nonlinear_arith)
            requires
                -134217728 <= sx <= 134217728,
        ;
        assert(0 <= sy * sy <= 134217728 * 134217728) by (nonlinear_arith)
            requires
                -134217728 <= sy <= 134217728,
        ;
    }
    let d2 = (sx * sx + sy * sy) as u64;
    let dist = isqrt(d2) as i64;
    let denom = FIX_ONE + dist * 18 / 100;
    proof {
        assert(0 <= (65536 * 65536int) / (denom as int) <= 65536) by (nonlinear_arith)
            requires
                denom >= 65536,
        ;
    }
    let l = (FIX_ONE * FIX_ONE) / denom;
    if l < ambient {
        ambient
    } else if l > FIX_ONE {
        FIX_ONE
    } else {
        l
    }
}

/// Composites one sprite into the frame, column by column, against the
/// depth buffer.
pub fn draw_sprite(
    buf: &mut Vec<u32>,
    zbuf: &Vec<i64>,
    cam: &Camera,
    s: &AnimatedSprite,
    ambient: i64,
)
    requires
        old(buf)@.len() == WIDTH * HEIGHT,
        zbuf@.len() == WIDTH,
        sprite_camera_ok(*cam),
        s.wf(),
        0 <= ambient <= FIX_ONE,
    ensures
        final(buf)@.len() == WIDTH * HEIGHT,
        forall|c: int, r: int|
            #![trigger pix(final(buf)@, c, r)]
            on_screen(c, r) ==> pix(final(buf)@, c, r) == sprite_pixel(
                *cam,
                zbuf@,
                *s,
                ambient as int,
                c,
                r,
                pix(old(buf)@, c, r),
            ),
{
    let ghost b0 = buf@;
    let ghost cm = *cam;
    let ghost sp = *s;
    let ghost z = zbuf@;
    let proj = project_sprite(cam, s.x, s.y);
    let p = match proj {
        Some(p) => p,
        None => {
            return ;
        },
    };
    let ghost tx = p.transform_x as int;
    let ghost ty = p.transform_y as int;
    let frame = s.current();
    let light = light_at(cam, s.x, s.y, ambient);
    let half = p.size / 2;
    let sx0 = p.screen_x - half;
    let sx1 = p.screen_x + half;
    let sy0 = HEIGHT as i64 / 2 - half;
    let sy1 = HEIGHT as i64 / 2 + half;
    assert(sx0 == sprite_start_x(tx, ty));
    assert(sx1 == sprite_end_x(tx, ty));
    assert(sy0 == sprite_start_y(ty));
    assert(sy1 == sprite_end_y(ty));
    let x0: i64 = if sx0 < 0 { 0 } else { sx0 };
    let x1: i64 = if sx1 > WIDTH as i64 - 1 { WIDTH as i64 - 1 } else { sx1 };
    let y0: i64 = if sy0 < 0 { 0 } else { sy0 };
    let y1: i64 = if sy1 > HEIGHT as i64 - 1 { HEIGHT as i64 - 1 } else { sy1 };
    let size1: i64 = if p.size < 1 { 1 } else { p.size };
    let mut stripe: i64 = x0;
    while stripe <= x1
        invariant
            buf@.len() == WIDTH * HEIGHT,
            zbuf@ == z,
            z.len() == WIDTH,
            cm == *cam,
            sp == *s,
            sprite_camera_ok(cm),
            sp.wf(),
            projects(cm, sp.x as int, sp.y as int),
            tx == transform_x(cm, sp.x as int, sp.y as int),
            ty == transform_y(cm, sp.x as int, sp.y as int),
            p.transform_y == ty,
            p.size == sprite_size(ty),
            0 <= p.size <= HEIGHT * FIX_ONE,
            size1 == (if p.size < 1 { 1 } else { p.size }),
            sx0 == sprite_start_x(tx, ty),
            sx1 == sprite_end_x(tx, ty),
            sy0 == sprite_start_y(ty),
            sy1 == sprite_end_y(ty),
            -0x0200_0000_0000_0000 <= sx0 <= 0x0200_0000_0000_0000,
            x0 == (if sx0 < 0 { 0 } else { sx0 }),
            x1 == (if sx1 > WIDTH - 1 { WIDTH - 1 } else { sx1 as int }),
            y0 == (if sy0 < 0 { 0 } else { sy0 }),
            y1 == (if sy1 > HEIGHT - 1 { HEIGHT - 1 } else { sy1 as int }),
            x0 <= stripe,
            stripe <= x1 + 1 || stripe == x0,
            *frame == sp.current_spec(),
            frame.wf(),
            light == sprite_light(cm, sp.x as int, sp.y as int, ambient as int),
            0 <= light <= FIX_ONE,
            forall|c: int, r: int|
                #![trigger pix(buf@, c, r)]
                on_screen(c, r) ==> pix(buf@, c, r) == if c < stripe {
                    sprite_pixel(cm, z, sp, ambient as int, c, r, pix(b0, c, r))
                } else {
                    pix(b0, c, r)
                },
        decreases x1 + 1 - stripe,
    {
        let ghost bc = buf@;
        let sc = stripe as usize;
        if p.transform_y < zbuf[sc] {
            proof {
                assert(0 <= stripe - sx0 <= p.size);
                assert(0 <= (stripe - sx0) * frame.w <= 600 * 65536 * 16384)
                    by (nonlinear_arith)
                    requires
                        0 <= stripe - sx0 <= 600 * 65536,
                        0 < frame.w <= 16384,
                ;
            }
            proof {
                assert(0 <= stripe - sx0 <= p.size);
            }
            let tq: i64 = (stripe - sx0) * (frame.w as i64) / size1;
            let tex_x: usize = if tq > frame.w as i64 - 1 { frame.w - 1 } else { tq as usize };
            let mut y: i64 = y0;
            while y <= y1
                invariant
                    buf@.len() == WIDTH * HEIGHT,
                    zbuf@ == z,
                    0 <= stripe < WIDTH,
                    sc == stripe,
                    ty < z[stripe as int],
                    y0 <= y,
                    y <= y1 + 1 || y == y0,
                    tex_x < frame.w,
                    tex_x == sprite_tex(stripe - sx0, frame.w as int, p.size as int),
                    // every fact of the outer loop that the rows need
                    cm == *cam,
                    sp == *s,
                    sprite_camera_ok(cm),
                    sp.wf(),
                    projects(cm, sp.x as int, sp.y as int),
                    tx == transform_x(cm, sp.x as int, sp.y as int),
                    ty == transform_y(cm, sp.x as int, sp.y as int),
                    p.transform_y == ty,
                    p.size == sprite_size(ty),
                    0 <= p.size <= HEIGHT * FIX_ONE,
                    size1 == (if p.size < 1 { 1 } else { p.size }),
                    sx0 == sprite_start_x(tx, ty),
                    sx1 == sprite_end_x(tx, ty),
                    sy0 == sprite_start_y(ty),
                    sy1 == sprite_end_y(ty),
                    x0 <= stripe <= x1,
                    x0 == (if sx0 < 0 { 0 } else { sx0 }),
                    x1 == (if sx1 > WIDTH - 1 { WIDTH - 1 } else { sx1 as int }),
                    y0 == (if sy0 < 0 { 0 } else { sy0 }),
                    y1 == (if sy1 > HEIGHT - 1 { HEIGHT - 1 } else { sy1 as int }),
                    *frame == sp.current_spec(),
                    frame.wf(),
                    light == sprite_light(cm, sp.x as int, sp.y as int, ambient as int),
                    0 <= light <= FIX_ONE,
                    forall|c: int, r: int|
                        #![trigger pix(buf@, c, r)]
                        on_screen(c, r) ==> pix(buf@, c, r) == if c < stripe || (c == stripe && r
                            < y) {
                            sprite_pixel(cm, z, sp, ambient as int, c, r, pix(b0, c, r))
                        } else {
                            pix(b0, c, r)
                        },
                decreases y1 + 1 - y,
            {
                proof {
                    assert(0 <= (y - sy0) * frame.h <= (600 + 300 * 65536) * 16384)
                        by (nonlinear_arith)
                        requires
                            0 <= y - sy0 <= 600 + 300 * 65536,
                            0 < frame.h <= 16384,
                    ;
                }
                let tyq: i64 = (y - sy0) * (frame.h as i64) / size1;
                let tex_y: usize = if tyq > frame.h as i64 - 1 { frame.h - 1 } else { tyq as usize };
                let (rgb_c, a) = frame.texel_at(tex_x, tex_y);
                let idx: usize = y as usize * WIDTH + sc;
                let ghost bp = buf@;
                proof {
                    assert(sprite_texel(cm, sp, stripe as int, y as int) == frame.texel(
                        tex_x as int,
                        tex_y as int,
                    ));
                    assert(covers(cm, sp.x as int, sp.y as int, stripe as int, y as int));
                }
                if a != 0 {
                    let lit = shade(rgb_c, light as u32);
                    let bg = buf[idx];
                    let v = alpha_blend(bg, lit, a);
                    buf.set(idx, v);
                }
                proof {
                    assert forall|c: int, r: int|
                        #![trigger pix(buf@, c, r)]
                        on_screen(c, r) implies pix(buf@, c, r) == if c < stripe || (c == stripe
                            && r < y + 1) {
                            sprite_pixel(cm, z, sp, ambient as int, c, r, pix(b0, c, r))
                        } else {
                            pix(b0, c, r)
                        } by {
                        assert(pix(bp, c, r) == if c < stripe || (c == stripe && r < y) {
                            sprite_pixel(cm, z, sp, ambient as int, c, r, pix(b0, c, r))
                        } else {
                            pix(b0, c, r)
                        });
                        if c == stripe && r == y {
                        } else {
                            assert(r * 800 + c != y * 800 + stripe);
                        }
                    }
                }
                y = y + 1;
            }
        }
        proof {
            assert forall|c: int, r: int|
                #![trigger pix(buf@, c, r)]
                on_screen(c, r) implies pix(buf@, c, r) == if c < stripe + 1 {
                    sprite_pixel(cm, z, sp, ambient as int, c, r, pix(b0, c, r))
                } else {
                    pix(b0, c, r)
                } by {
                if c == stripe && !(y0 <= r <= y1 && ty < z[c]) {
                    assert(!covers(cm, sp.x as int, sp.y as int, c, r) || !(ty < z[c]));
                }
            }
        }
        stripe = stripe + 1;
    }
    proof {
        assert forall|c: int, r: int|
            #![trigger pix(buf@, c, r)]
            on_screen(c, r) implies pix(buf@, c, r) == sprite_pixel(
                cm,
                z,
                sp,
                ambient as int,
                c,
                r,
                pix(b0, c, r),
            ) by {
            if c >= stripe {
                assert(!covers(cm, sp.x as int, sp.y as int, c, r));
            }
        }
    }
}

/// Composites every sprite of the list into the frame, in list order, each
/// against the wall depth buffer.
pub fn draw_sprites(
    buf: &mut Vec<u32>,
    zbuf: &Vec<i64>,
    cam: &Camera,
    sprites: &SpriteManager,
    ambient: i64,
)
    requires
        old(buf)@.len() == WIDTH * HEIGHT,
        zbuf@.len() == WIDTH,
        sprite_camera_ok(*cam),
        sprites.wf(),
        0 <= ambient <= FIX_ONE,
    ensures
        final(buf)@.len() == WIDTH * HEIGHT,
        forall|c: int, r: int|
            #![trigger pix(final(buf)@, c, r)]
            on_screen(c, r) ==> pix(final(buf)@, c, r) == sprites_pixel(
                *cam,
                zbuf@,
                sprites.list@,
                ambient as int,
                c,
                r,
                pix(old(buf)@, c, r),
            ),
{
    let ghost b0 = buf@;
    let ghost l = sprites.list@;
    let n = sprites.list.len();
    let mut i: usize = 0;
    while i < n
        invariant
            buf@.len() == WIDTH * HEIGHT,
            zbuf@.len() == WIDTH,
            sprite_camera_ok(*cam),
            sprites.wf(),
            l == sprites.list@,
            n == l.len(),
            0 <= ambient <= FIX_ONE,
            i <= n,
            forall|c: int, r: int|
                #![trigger pix(buf@, c, r)]
                on_screen(c, r) ==> pix(buf@, c, r) == sprites_pixel(
                    *cam,
                    zbuf@,
                    l.subrange(0, i as int),
                    ambient as int,
                    c,
                    r,
                    pix(b0, c, r),
                ),
        decreases n - i,
    {
        let ghost bp = buf@;
        draw_sprite(buf, zbuf, cam, &sprites.list[i], ambient);
        proof {
            let pre = l.subrange(0, i as int);
            let post = l.subrange(0, i as int + 1);
            assert(post.drop_last() =~= pre);
            assert(post.last() == l[i as int]);
            assert forall|c: int, r: int|
                #![trigger pix(buf@, c, r)]
                on_screen(c, r) implies pix(buf@, c, r) == sprites_pixel(
                    *cam,
                    zbuf@,
                    post,
                    ambient as int,
                    c,
                    r,
                    pix(b0, c, r),
                ) by {
                assert(pix(bp, c, r) == sprites_pixel(
                    *cam,
                    zbuf@,
                    pre,
                    ambient as int,
                    c,
                    r,
                    pix(b0, c, r),
                ));
            }
        }
        i = i + 1;
    }
    proof {
        assert(l.subrange(0, n as int) =~= l);
    }
}

/// Occlusion: where the wall in a column is at least as near as the
/// sprite, the sprite leaves that column's pixels as they were; where the
/// sprite is nearer, covers the pixel and its texel there is not fully
/// transparent, the pixel becomes the lit texel blended over the old one.
pub proof fn lemma_occlusion(
    c: Camera,
    z: Seq<i64>,
    s: AnimatedSprite,
    ambient: int,
    col: int,
    row: int,
    old: u32,
)
    ensures
        transform_y(c, s.x as int, s.y as int) >= z[col] ==> sprite_pixel(
            c,
            z,
            s,
            ambient,
            col,
            row,
            old,
        ) == old,
        ({
            let px = sprite_texel(c, s, col, row);
            projects(c, s.x as int, s.y as int) && covers(c, s.x as int, s.y as int, col, row)
                && transform_y(c, s.x as int, s.y as int) < z[col] && alpha_part(px) != 0
                ==> sprite_pixel(c, z, s, ambient, col, row, old) == blend_spec(
                old,
                shade_spec(rgb_part(px), sprite_light(c, s.x as int, s.y as int, ambient)) as u32,
                alpha_part(px),
            ) as u32
        }),
{
}

/// `v / 2` rounded toward zero.
pub open spec fn half_toward_zero(v: int) -> int {
    if v >= 0 {
        v / 2
    } else {
        -((-v) / 2)
    }
}

pub open spec fn sq(v: int) -> int {
    v * v
}

/// Pixel `(x, y)` of frame `f` of the procedural ball sprite, `size`
/// pixels square: transparent outside a circle; inside, red above the
/// middle and white below, a dark band across the middle, a white button in
/// the centre, and a light highlight that moves with the frame, all opaque.
pub open spec fn ball_px(size: int, f: int, x: int, y: int) -> u32 {
    let c = size / 2;
    let r = size / 2 - 1;
    let hl = (f * 2) % (if r > 1 {
        r
    } else {
        1
    });
    let dx = x - c;
    let dy = y - c;
    if sq(dx) + sq(dy) > sq(r) {
        0
    } else {
        let c0 = if y < c {
            pack(220, 60, 60)
        } else {
            pack(245, 245, 245)
        };
        let c1 = if abs_spec(y - c) <= size / 16 {
            pack(10, 10, 12)
        } else {
            c0
        };
        let c2 = if sq(dx) + sq(half_toward_zero(dy)) <= sq(size / 16) {
            pack(245, 245, 245)
        } else {
            c1
        };
        let c3 = if sq(dx) + sq(dy - (r - hl)) <= sq(size / 9) && y < c {
            pack(255, 230, 230)
        } else {
            c2
        };
        (c3 + 0xFF00_0000) as u32
    }
}

/// The largest procedural sprite size.
pub const MAX_BALL: usize = 4096;

proof fn lemma_sq_bound(v: int, b: int)
    requires
        -b <= v <= b,
    ensures
        0 <= v * v <= b * b,
{
    assert(0 <= v * v <= b * b) by (nonlinear_arith)
        requires
            -b <= v <= b,
    ;
}

fn ball_pixel(size: i64, f: i64, x: i64, y: i64) -> (p: u32)
    requires
        1 <= size <= MAX_BALL,
        0 <= f < 4,
        0 <= x < size,
        0 <= y < size,
    ensures
        p == ball_px(size as int, f as int, x as int, y as int),
{
    let c = size / 2;
    let r = size / 2 - 1;
    let hl = (f * 2) % (if r > 1 { r } else { 1 });
    let dx = x - c;
    let dy = y - c;
    let s16 = size / 16;
    let s9 = size / 9;
    let hdy = dy / 2;
    proof {
        assert(0 <= c <= 2048);
        assert(-1 <= r <= 2047);
        assert(0 <= hl <= 2047);
        assert(-2048 <= dx <= 4096);
        assert(-2048 <= dy <= 4096);
        assert(-1024 <= hdy <= 2048);
        assert(0 <= s16 <= 256);
        assert(0 <= s9 <= 456);
        lemma_sq_bound(dx as int, 4096);
        lemma_sq_bound(dy as int, 4096);
        lemma_sq_bound(r as int, 4096);
        lemma_sq_bound(hdy as int, 4096);
        lemma_sq_bound(s16 as int, 4096);
        lemma_sq_bound(s9 as int, 4096);
        lemma_sq_bound((dy - (r - hl)) as int, 8192);
    }
    if dx * dx + dy * dy > r * r {
        return 0;
    }
    let mut col = if y < c { rgb(220, 60, 60) } else { rgb(245, 245, 245) };
    let ady = if y - c < 0 { c - y } else { y - c };
    if ady <= s16 {
        col = rgb(10, 10, 12);
    }
    if dx * dx + hdy * hdy <= s16 * s16 {
        col = rgb(245, 245, 245);
    }
    let e = dy - (r - hl);
    if dx * dx + e * e <= s9 * s9 && y < c {
        col = rgb(255, 230, 230);
    }
    proof {
        assert(col < 0x100_0000);
    }
    0xFF00_0000u32 + col
}

/// Four frames of a procedural ball, `size` pixels square, its highlight
/// moving from frame to frame.
pub fn gen_pokeball_frames(size: usize) -> (frames: Vec<SpriteFrame>)
    requires
        1 <= size <= MAX_BALL,
    ensures
        frames@.len() == 4,
        forall|f: int|
            0 <= f < 4 ==> {
                let fr = #[trigger] frames@[f];
                &&& fr.wf()
                &&& fr.w == size
                &&& fr.h == size
                &&& forall|x: int, y: int|
                    0 <= x < size && 0 <= y < size ==> #[trigger] fr.texel(x, y) == ball_px(
                        size as int,
                        f,
                        x,
                        y,
                    )
            },
{
    let mut frames: Vec<SpriteFrame> = Vec::new();
    let mut f: usize = 0;
    while f < 4
        invariant
            1 <= size <= MAX_BALL,
            f <= 4,
            frames@.len() == f,
            forall|g: int|
                0 <= g < f ==> {
                    let fr = #[trigger] frames@[g];
                    &&& fr.wf()
                    &&& fr.w == size
                    &&& fr.h == size
                    &&& forall|x: int, y: int|
                        0 <= x < size && 0 <= y < size ==> #[trigger] fr.texel(x, y) == ball_px(
                            size as int,
                            g,
                            x,
                            y,
                        )
                },
        decreases 4 - f,
    {
        let mut rows: Vec<u32> = Vec::new();
        proof {
            assert(size * size <= 4096 * 4096) by (nonlinear_arith)
                requires
                    size <= 4096,
            ;
        }
        let mut y: usize = 0;
        while y < size
            invariant
                1 <= size <= MAX_BALL,
                f < 4,
                y <= size,
                rows@.len() == y * size,
                size * size <= 4096 * 4096,
                forall|xx: int, yy: int|
                    0 <= xx < size && 0 <= yy < y ==> #[trigger] crate::texgen::at(
                        rows@,
                        size as int,
                        xx,
                        yy,
                    ) == ball_px(size as int, f as int, xx, yy),
            decreases size - y,
        {
            proof {
                assert(y * size + size <= size * size) by (nonlinear_arith)
                    requires
                        y < size,
                ;
            }
            let mut x: usize = 0;
            while x < size
                invariant
                    1 <= size <= MAX_BALL,
                    f < 4,
                    y < size,
                    x <= size,
                    rows@.len() == y * size + x,
                    y * size + size <= size * size,
                    size * size <= 4096 * 4096,
                    forall|xx: int, yy: int|
                        0 <= xx < size && 0 <= yy && (yy < y || (yy == y && xx < x)) ==> #[trigger] crate::texgen::at(
                            rows@,
                            size as int,
                            xx,
                            yy,
                        ) == ball_px(size as int, f as int, xx, yy),
                decreases size - x,
            {
                let p = ball_pixel(size as i64, f as i64, x as i64, y as i64);
                let ghost r0 = rows@;
                rows.push(p);
                proof {
                    assert forall|xx: int, yy: int|
                        0 <= xx < size && 0 <= yy && (yy < y || (yy == y && xx < x + 1)) implies #[trigger] crate::texgen::at(
                            rows@,
                            size as int,
                            xx,
                            yy,
                        ) == ball_px(size as int, f as int, xx, yy) by {
                        if yy == y && xx == x {
                        } else {
                            crate::texgen::lemma_row_major_before(xx, yy, x as int, y as int, size as int);
                            assert(crate::texgen::at(rows@, size as int, xx, yy) == crate::texgen::at(
                                r0,
                                size as int,
                                xx,
                                yy,
                            ));
                        }
                    }
                }
                x = x + 1;
            }
            proof {
                assert((y + 1) * size == y * size + size) by (nonlinear_arith);
            }
            y = y + 1;
        }
        proof {
            assert(rows@.len() == size * size) by (nonlinear_arith)
                requires
                    rows@.len() == y * size,
                    y == size,
            ;
        }
        let fr = SpriteFrame { w: size, h: size, rgba: rows };
        assert forall|x: int, y: int| 0 <= x < size && 0 <= y < size implies #[trigger] fr.texel(x, y)
            == ball_px(size as int, f as int, x, y) by {
            assert(crate::texgen::at(fr.rgba@, size as int, x, y) == ball_px(size as int, f as int, x, y));
        }
        frames.push(fr);
        f = f + 1;
    }
    frames
}

/// Position of the fire gym's ball sprite (21.5, 11.5), near the exit.
pub const BALL_X: i64 = 1409024;
pub const BALL_Y: i64 = 753664;
/// Playback rate of the ball sprite (6 frames per second).
pub const BALL_FPS: i64 = 393216;

/// Whether every frame is well formed and there are between one and
/// `MAX_FRAMES` of them.
pub fn frames_ok(frames: &Vec<SpriteFrame>) -> (r: bool)
    ensures
        r == (1 <= frames@.len() <= MAX_FRAMES && forall|i: int|
            0 <= i < frames@.len() ==> #[trigger] frames@[i].wf()),
{
    if frames.len() == 0 || frames.len() > MAX_FRAMES {
        return false;
    }
    let mut i: usize = 0;
    while i < frames.len()
        invariant
            i <= frames@.len(),
            forall|j: int| 0 <= j < i ==> #[trigger] frames@[j].wf(),
        decreases frames@.len() - i,
    {
        let f = &frames[i];
        if f.w == 0 || f.h == 0 || f.w > crate::texture::MAX_TEX_DIM || f.h > crate::texture::MAX_TEX_DIM {
            assert(!frames@[i as int].wf());
            return false;
        }
        proof {
            assert(f.w * f.h <= 16384 * 16384) by (nonlinear_arith)
                requires
                    0 < f.w <= 16384,
                    0 < f.h <= 16384,
            ;
        }
        if f.rgba.len() != f.w * f.h {
            assert(!frames@[i as int].wf());
            return false;
        }
        i = i + 1;
    }
    true
}

impl SpriteManager {
    /// The fire gym's sprites: one ball near the exit, animated at six
    /// frames per second, showing the decoded frames where there are
    /// usable ones and otherwise the four frames of `gen_pokeball_frames(96)`.
    pub fn new_fire_gym(loaded: Vec<SpriteFrame>) -> (m: SpriteManager)
        ensures
            m.wf(),
            m.list@.len() == 1,
            m.list@[0].x == BALL_X,
            m.list@[0].y == BALL_Y,
            m.list@[0].fps == BALL_FPS,
            m.list@[0].time() == 0,
            (1 <= loaded@.len() <= MAX_FRAMES && forall|i: int|
                0 <= i < loaded@.len() ==> #[trigger] loaded@[i].wf()) ==> m.list@[0].frames@
                == loaded@,
            !(1 <= loaded@.len() <= MAX_FRAMES && forall|i: int|
                0 <= i < loaded@.len() ==> #[trigger] loaded@[i].wf()) ==> m.list@[0].frames@.len()
                == 4 && forall|f: int|
                0 <= f < 4 ==> {
                    let fr = #[trigger] m.list@[0].frames@[f];
                    &&& fr.w == 96
                    &&& fr.h == 96
                    &&& forall|x: int, y: int|
                        0 <= x < 96 && 0 <= y < 96 ==> #[trigger] fr.texel(x, y) == ball_px(96, f, x, y)
                },
    {
        let frames = if frames_ok(&loaded) {
            loaded
        } else {
            gen_pokeball_frames(96)
        };
        let ball = AnimatedSprite::new(BALL_X, BALL_Y, frames, BALL_FPS);
        let mut list: Vec<AnimatedSprite> = Vec::new();
        list.push(ball);
        SpriteManager { list }
    }
}

} // verus!
