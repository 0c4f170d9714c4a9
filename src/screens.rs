//! Level selection and the full-screen win and defeat pages.

use vstd::prelude::*;
use crate::color::{pack, rgb};
use crate::hud::{draw_text_centered, text_pixel, centered_x};
use crate::levels::{gym_agua, gym_fuego};
use crate::render::{HEIGHT, WIDTH, on_screen, pix};
use crate::world::{WorldMap, TILE_EXIT};

verus! {

/// The level for a menu entry: entry `1` is the water gym for `seed`,
/// every other entry the fire gym.
pub fn build_level(idx: usize, seed: u64) -> (m: WorldMap)
    ensures
        m.arena(),
        idx != 1 ==> crate::levels::exit_placed(
            m,
            crate::levels::FIRE_EXIT_X as int,
            crate::levels::FIRE_EXIT_Y as int,
        ),
        idx == 1 ==> exists|x: int, y: int|
            18 <= x <= 20 && 4 <= y <= 19 && #[trigger] crate::levels::exit_placed(m, x, y),
{
    if idx == 1 {
        gym_agua(seed)
    } else {
        gym_fuego()
    }
}

/// A full page: `fill` everywhere but a one-pixel white frame.
pub open spec fn page_pixel(fill: int, c: int, r: int) -> int {
    if c == 0 || r == 0 || c == WIDTH - 1 || r == HEIGHT - 1 {
        pack(255, 255, 255)
    } else {
        fill
    }
}

fn fill_page(buf: &mut Vec<u32>, fill: u32)
    requires
        old(buf)@.len() == WIDTH * HEIGHT,
    ensures
        final(buf)@.len() == WIDTH * HEIGHT,
        forall|c: int, r: int|
            #![trigger pix(final(buf)@, c, r)]
            on_screen(c, r) ==> pix(final(buf)@, c, r) as int == page_pixel(fill as int, c, r),
{
    let white = rgb(255, 255, 255);
    let mut y: usize = 0;
    while y < HEIGHT
        invariant
            buf@.len() == WIDTH * HEIGHT,
            y <= HEIGHT,
            white as int == pack(255, 255, 255),
            forall|c: int, r: int|
                #![trigger pix(buf@, c, r)]
                on_screen(c, r) && r < y ==> pix(buf@, c, r) as int == page_pixel(fill as int, c, r),
        decreases HEIGHT - y,
    {
        let mut x: usize = 0;
        while x < WIDTH
            invariant
                buf@.len() == WIDTH * HEIGHT,
                y < HEIGHT,
                x <= WIDTH,
                white as int == pack(255, 255, 255),
                forall|c: int, r: int|
                    #![trigger pix(buf@, c, r)]
                    on_screen(c, r) && (r < y || (r == y && c < x)) ==> pix(buf@, c, r) as int
                        == page_pixel(fill as int, c, r),
            decreases WIDTH - x,
        {
            let v = if x == 0 || y == 0 || x == WIDTH - 1 || y == HEIGHT - 1 { white } else { fill };
            let ghost bp = buf@;
            buf.set(y * WIDTH + x, v);
            proof {
                assert forall|c: int, r: int|
                    #![trigger pix(buf@, c, r)]
                    on_screen(c, r) && (r < y || (r == y && c < x + 1)) implies pix(buf@, c, r)
                        as int == page_pixel(fill as int, c, r) by {
                    if !(r == y && c == x) {
                        assert(r * 800 + c != y * 800 + x);
                        assert(pix(buf@, c, r) == pix(bp, c, r));
                    }
                }
            }
            x = x + 1;
        }
        y = y + 1;
    }
}

pub open spec fn win_title() -> Seq<char> {
    seq!['G', 'A', 'N', 'A', 'S', 'T', 'E']
}

pub open spec fn win_hint() -> Seq<char> {
    seq![
        'E', 'N', 'T', 'E', 'R', ' ', 'P', 'A', 'R', 'A', ' ', 'R', 'E', 'I', 'N', 'I', 'C', 'I',
        'A', 'R',
    ]
}

pub open spec fn dead_title() -> Seq<char> {
    seq!['P', 'E', 'R', 'D', 'I', 'S', 'T', 'E', ' ', 'B', 'U', 'H']
}

/// Row of a page's title (scale 7).
pub const TITLE_Y: usize = 276;
/// Row of the win page's hint (scale 6).
pub const HINT_Y: usize = 333;

/// The win page's pixel: a green page with a white frame, the title in
/// black at scale 7 and the hint below it at scale 6, both centred.
pub open spec fn win_pixel(c: int, r: int) -> u32 {
    let base = page_pixel(pack(30, 200, 120), c, r) as u32;
    let black = pack(0, 0, 0) as u32;
    let t = text_pixel(win_title(), 7, centered_x(7, 7), TITLE_Y as int, 7, black, c, r, base);
    text_pixel(win_hint(), 20, centered_x(20, 6), HINT_Y as int, 6, black, c, r, t)
}

/// The defeat page's pixel: a dark red page with a white frame and the
/// title in white at scale 7, centred.
pub open spec fn dead_pixel(c: int, r: int) -> u32 {
    let base = page_pixel(pack(80, 0, 0), c, r) as u32;
    text_pixel(dead_title(), 12, centered_x(12, 7), TITLE_Y as int, 7, pack(255, 255, 255) as u32, c, r, base)
}

/// Draws the win page.
pub fn draw_win(buf: &mut Vec<u32>)
    requires
        old(buf)@.len() == WIDTH * HEIGHT,
    ensures
        final(buf)@.len() == WIDTH * HEIGHT,
        forall|c: int, r: int|
            #![trigger pix(final(buf)@, c, r)]
            on_screen(c, r) ==> pix(final(buf)@, c, r) == win_pixel(c, r),
{
    fill_page(buf, rgb(30, 200, 120));
    let ghost b1 = buf@;
    let title = vec!['G', 'A', 'N', 'A', 'S', 'T', 'E'];
    let hint = vec![
        'E', 'N', 'T', 'E', 'R', ' ', 'P', 'A', 'R', 'A', ' ', 'R', 'E', 'I', 'N', 'I', 'C', 'I',
        'A', 'R',
    ];
    assert(title@ == win_title());
    assert(hint@ == win_hint());
    let black = rgb(0, 0, 0);
    draw_text_centered(buf, title.as_slice(), TITLE_Y, 7, black);
    let ghost b2 = buf@;
    draw_text_centered(buf, hint.as_slice(), HINT_Y, 6, black);
    proof {
        assert forall|c: int, r: int|
            #![trigger pix(buf@, c, r)]
            on_screen(c, r) implies pix(buf@, c, r) == win_pixel(c, r) by {
            assert(pix(b1, c, r) == page_pixel(pack(30, 200, 120), c, r) as u32);
            assert(pix(b2, c, r) == text_pixel(
                win_title(),
                7,
                centered_x(7, 7),
                TITLE_Y as int,
                7,
                black,
                c,
                r,
                pix(b1, c, r),
            ));
        }
    }
}

/// Draws the defeat page.
pub fn draw_dead(buf: &mut Vec<u32>)
    requires
        old(buf)@.len() == WIDTH * HEIGHT,
    ensures
        final(buf)@.len() == WIDTH * HEIGHT,
        forall|c: int, r: int|
            #![trigger pix(final(buf)@, c, r)]
            on_screen(c, r) ==> pix(final(buf)@, c, r) == dead_pixel(c, r),
{
    fill_page(buf, rgb(80, 0, 0));
    let ghost b1 = buf@;
    let title = vec!['P', 'E', 'R', 'D', 'I', 'S', 'T', 'E', ' ', 'B', 'U', 'H'];
    assert(title@ == dead_title());
    draw_text_centered(buf, title.as_slice(), TITLE_Y, 7, rgb(255, 255, 255));
    proof {
        assert forall|c: int, r: int|
            #![trigger pix(buf@, c, r)]
            on_screen(c, r) implies pix(buf@, c, r) == dead_pixel(c, r) by {
            assert(pix(b1, c, r) == page_pixel(pack(80, 0, 0), c, r) as u32);
        }
    }
}

/// A line of centred text: characters, top row, scale and colour.
pub type TextOp = (Seq<char>, int, int, u32);

/// The first `k` text lines applied to one pixel, in order.
pub open spec fn apply_texts(ops: Seq<TextOp>, k: int, c: int, r: int, old: u32) -> u32
    decreases k,
{
    if k <= 0 || k > ops.len() {
        old
    } else {
        let op = ops[k - 1];
        text_pixel(
            op.0,
            op.0.len() as int,
            centered_x(op.0.len() as int, op.2),
            op.1,
            op.2,
            op.3,
            c,
            r,
            apply_texts(ops, k - 1, c, r, old),
        )
    }
}

/// The most menu entries.
pub const MAX_OPTIONS: usize = 12;
/// The longest menu entry.
pub const MAX_OPTION_LEN: usize = 64;

/// Top row of the first menu entry.
pub open spec fn menu_start_y(n: int) -> int {
    (HEIGHT / 2) as int - (n * 48) / 2
}

/// An entry's label: the selected one is framed as `> name <`.
pub open spec fn option_label(name: Seq<char>, selected: bool) -> Seq<char> {
    if selected {
        seq!['>', ' '] + name + seq![' ', '<']
    } else {
        name
    }
}

pub open spec fn menu_title() -> Seq<char> {
    seq!['S', 'E', 'L', 'E', 'C', 'C', 'I', 'O', 'N', 'A', ' ', 'N', 'I', 'V', 'E', 'L']
}

/// The menu's hint line; the arrows and bullets have no glyph and show as
/// blocks.
pub open spec fn menu_hint() -> Seq<char> {
    seq![
        '\u{2191}', '/', '\u{2193}', ' ', 'E', 'L', 'E', 'G', 'I', 'R', ' ', ' ', '\u{2022}', ' ', ' ', 'E',
        'N', 'T', 'E', 'R', ' ', 'J', 'U', 'G', 'A', 'R', ' ', ' ', '\u{2022}', ' ', ' ', 'E', 'S', 'C',
        ' ', 'S', 'A', 'L', 'I', 'R',
    ]
}

/// The text lines of the entries `0 .. k`: for each a shadow two rows
/// lower, then the label, gold when selected and white otherwise.
pub open spec fn option_texts(selected: int, options: Seq<Seq<char>>, k: int) -> Seq<TextOp>
    decreases k,
{
    if k <= 0 {
        seq![]
    } else {
        let i = k - 1;
        let y = menu_start_y(options.len() as int) + i * 48;
        let label = option_label(options[i], i == selected);
        let (col, shadow) = if i == selected {
            (pack(255, 230, 120) as u32, pack(20, 12, 0) as u32)
        } else {
            (pack(235, 235, 235) as u32, pack(0, 0, 0) as u32)
        };
        option_texts(selected, options, k - 1) + seq![(label, y + 2, 6, shadow), (label, y, 6, col)]
    }
}

/// Every text line of the menu, in drawing order: the title with its
/// shadow, the entries, and the hint with its shadow.
pub open spec fn menu_texts(selected: int, options: Seq<Seq<char>>) -> Seq<TextOp> {
    let black = pack(0, 0, 0) as u32;
    seq![(menu_title(), 102, 8, black), (menu_title(), 100, 8, pack(255, 255, 255) as u32)]
        + option_texts(selected, options, options.len() as int) + seq![
        (menu_hint(), 502, 5, black),
        (menu_hint(), 500, 5, pack(245, 245, 245) as u32),
    ]
}

/// The dark panel behind the entries: 40% black over the middle three
/// quarters of the frame's width, on the rows of the entries plus a margin.
pub open spec fn panel_pixel(n: int, c: int, r: int, old: u32) -> u32 {
    let y0 = clamp_row(menu_start_y(n) - 10);
    let y1 = clamp_row(menu_start_y(n) + n * 48 + 10);
    if y0 <= r < y1 && 100 <= c < 700 {
        pack(
            crate::color::red(old) * 6 / 10,
            crate::color::green(old) * 6 / 10,
            crate::color::blue(old) * 6 / 10,
        ) as u32
    } else {
        old
    }
}

pub open spec fn clamp_row(v: int) -> int {
    if v < 0 {
        0
    } else if v > HEIGHT - 1 {
        HEIGHT - 1
    } else {
        v
    }
}

/// The menu's pixel over the backdrop pixel `old`.
pub open spec fn menu_pixel(selected: int, options: Seq<Seq<char>>, c: int, r: int, old: u32) -> u32 {
    let ops = menu_texts(selected, options);
    apply_texts(ops, ops.len() as int, c, r, panel_pixel(options.len() as int, c, r, old))
}

pub open spec fn options_view(options: Seq<Vec<char>>) -> Seq<Seq<char>> {
    Seq::new(options.len(), |i: int| options[i]@)
}

fn darken(px: u32) -> (r: u32)
    ensures
        r == pack(
            crate::color::red(px) * 6 / 10,
            crate::color::green(px) * 6 / 10,
            crate::color::blue(px) * 6 / 10,
        ) as u32,
{
    let (r, g, b) = crate::color::unpack_rgb(px);
    rgb((r as u32 * 6 / 10) as u8, (g as u32 * 6 / 10) as u8, (b as u32 * 6 / 10) as u8)
}

fn draw_panel(buf: &mut Vec<u32>, n: usize)
    requires
        old(buf)@.len() == WIDTH * HEIGHT,
        n <= MAX_OPTIONS,
    ensures
        final(buf)@.len() == WIDTH * HEIGHT,
        forall|c: int, r: int|
            #![trigger pix(final(buf)@, c, r)]
            on_screen(c, r) ==> pix(final(buf)@, c, r) == panel_pixel(n as int, c, r, pix(old(buf)@, c, r)),
{
    let ghost b0 = buf@;
    let start_y: i64 = (HEIGHT / 2) as i64 - (n as i64 * 48) / 2;
    let a: i64 = start_y - 10;
    let b: i64 = start_y + n as i64 * 48 + 10;
    let y0: usize = if a < 0 { 0 } else if a > HEIGHT as i64 - 1 { HEIGHT - 1 } else { a as usize };
    let y1: usize = if b < 0 { 0 } else if b > HEIGHT as i64 - 1 { HEIGHT - 1 } else { b as usize };
    let mut y: usize = 0;
    while y < HEIGHT
        invariant
            buf@.len() == WIDTH * HEIGHT,
            y <= HEIGHT,
            y0 == clamp_row(menu_start_y(n as int) - 10),
            y1 == clamp_row(menu_start_y(n as int) + n * 48 + 10),
            forall|c: int, r: int|
                #![trigger pix(buf@, c, r)]
                on_screen(c, r) ==> pix(buf@, c, r) == if r < y {
                    panel_pixel(n as int, c, r, pix(b0, c, r))
                } else {
                    pix(b0, c, r)
                },
        decreases HEIGHT - y,
    {
        let mut x: usize = 0;
        while x < WIDTH
            invariant
                buf@.len() == WIDTH * HEIGHT,
                y < HEIGHT,
                x <= WIDTH,
                y0 == clamp_row(menu_start_y(n as int) - 10),
                y1 == clamp_row(menu_start_y(n as int) + n * 48 + 10),
                forall|c: int, r: int|
                    #![trigger pix(buf@, c, r)]
                    on_screen(c, r) ==> pix(buf@, c, r) == if r < y || (r == y && c < x) {
                        panel_pixel(n as int, c, r, pix(b0, c, r))
                    } else {
                        pix(b0, c, r)
                    },
            decreases WIDTH - x,
        {
            let ghost bp = buf@;
            if y0 <= y && y < y1 && 100 <= x && x < 700 {
                let v = darken(buf[y * WIDTH + x]);
                buf.set(y * WIDTH + x, v);
            }
            proof {
                assert forall|c: int, r: int|
                    #![trigger pix(buf@, c, r)]
                    on_screen(c, r) implies pix(buf@, c, r) == if r < y || (r == y && c < x + 1) {
                        panel_pixel(n as int, c, r, pix(b0, c, r))
                    } else {
                        pix(b0, c, r)
                    } by {
                    assert(pix(bp, c, r) == if r < y || (r == y && c < x) {
                        panel_pixel(n as int, c, r, pix(b0, c, r))
                    } else {
                        pix(b0, c, r)
                    });
                    if !(r == y && c == x) {
                        assert(r * 800 + c != y * 800 + x);
                    }
                }
            }
            x = x + 1;
        }
        y = y + 1;
    }
}

/// Draws one more centred text line over the frame, keeping the account of
/// the lines drawn so far.
fn draw_op(
    buf: &mut Vec<u32>,
    text: &Vec<char>,
    y: usize,
    scale: usize,
    color: u32,
    Ghost(ops): Ghost<Seq<TextOp>>,
    Ghost(base): Ghost<Seq<u32>>,
)
    requires
        old(buf)@.len() == WIDTH * HEIGHT,
        text@.len() <= crate::hud::MAX_TEXT_LEN,
        scale <= crate::hud::MAX_SCALE,
        y <= 1000,
        forall|c: int, r: int|
            #![trigger pix(old(buf)@, c, r)]
            on_screen(c, r) ==> pix(old(buf)@, c, r) == apply_texts(ops, ops.len() as int, c, r, pix(base, c, r)),
    ensures
        final(buf)@.len() == WIDTH * HEIGHT,
        forall|c: int, r: int|
            #![trigger pix(final(buf)@, c, r)]
            on_screen(c, r) ==> pix(final(buf)@, c, r) == apply_texts(
                ops.push((text@, y as int, scale as int, color)),
                ops.len() + 1int,
                c,
                r,
                pix(base, c, r),
            ),
{
    let ghost b1 = buf@;
    draw_text_centered(buf, text.as_slice(), y, scale, color);
    proof {
        let nops = ops.push((text@, y as int, scale as int, color));
        assert forall|c: int, r: int|
            #![trigger pix(buf@, c, r)]
            on_screen(c, r) implies pix(buf@, c, r) == apply_texts(nops, ops.len() + 1int, c, r, pix(base, c, r)) by {
            lemma_apply_texts_prefix(ops, nops, ops.len() as int, c, r, pix(base, c, r));
            assert(pix(b1, c, r) == apply_texts(ops, ops.len() as int, c, r, pix(base, c, r)));
        }
    }
}

proof fn lemma_apply_texts_prefix(a: Seq<TextOp>, b: Seq<TextOp>, k: int, c: int, r: int, old: u32)
    requires
        0 <= k <= a.len(),
        a.len() <= b.len(),
        forall|i: int| 0 <= i < a.len() ==> a[i] == b[i],
    ensures
        apply_texts(a, k, c, r, old) == apply_texts(b, k, c, r, old),
    decreases k,
{
    if k > 0 {
        lemma_apply_texts_prefix(a, b, k - 1, c, r, old);
    }
}

/// Draws the level menu over a backdrop already in the frame: the panel,
/// the title, one line per entry (the selected one framed and in gold) and
/// the key hint, each with a drop shadow.
pub fn draw_menu_levels(buf: &mut Vec<u32>, selected: usize, options: &Vec<Vec<char>>)
    requires
        old(buf)@.len() == WIDTH * HEIGHT,
        options@.len() <= MAX_OPTIONS,
        forall|i: int| 0 <= i < options@.len() ==> #[trigger] options@[i]@.len() <= MAX_OPTION_LEN,
    ensures
        final(buf)@.len() == WIDTH * HEIGHT,
        forall|c: int, r: int|
            #![trigger pix(final(buf)@, c, r)]
            on_screen(c, r) ==> pix(final(buf)@, c, r) == menu_pixel(
                selected as int,
                options_view(options@),
                c,
                r,
                pix(old(buf)@, c, r),
            ),
{
    let ghost b0 = buf@;
    let ghost opts = options_view(options@);
    let n = options.len();
    draw_panel(buf, n);
    let ghost base = buf@;
    let ghost ops: Seq<TextOp> = seq![];
    assert forall|c: int, r: int|
        #![trigger pix(buf@, c, r)]
        on_screen(c, r) implies pix(buf@, c, r) == apply_texts(ops, ops.len() as int, c, r, pix(base, c, r)) by {}
    let title = vec!['S', 'E', 'L', 'E', 'C', 'C', 'I', 'O', 'N', 'A', ' ', 'N', 'I', 'V', 'E', 'L'];
    assert(title@ == menu_title());
    let black = rgb(0, 0, 0);
    draw_op(buf, &title, 102, 8, black, Ghost(ops), Ghost(base));
    proof { ops = ops.push((title@, 102, 8, black)); }
    draw_op(buf, &title, 100, 8, rgb(255, 255, 255), Ghost(ops), Ghost(base));
    proof { ops = ops.push((title@, 100, 8, pack(255, 255, 255) as u32)); }
    let ghost head = ops;
    let start_y: i64 = (HEIGHT / 2) as i64 - (n as i64 * 48) / 2;
    let mut i: usize = 0;
    while i < n
        invariant
            buf@.len() == WIDTH * HEIGHT,
            n == options@.len(),
            n <= MAX_OPTIONS,
            opts == options_view(options@),
            forall|j: int| 0 <= j < options@.len() ==> #[trigger] options@[j]@.len() <= MAX_OPTION_LEN,
            i <= n,
            start_y == menu_start_y(n as int),
            ops == head + option_texts(selected as int, opts, i as int),
            forall|c: int, r: int|
                #![trigger pix(buf@, c, r)]
                on_screen(c, r) ==> pix(buf@, c, r) == apply_texts(ops, ops.len() as int, c, r, pix(base, c, r)),
        decreases n - i,
    {
        let name = &options[i];
        let mut label: Vec<char> = Vec::new();
        if i == selected {
            label.push('>');
            label.push(' ');
        }
        let mut k: usize = 0;
        while k < name.len()
            invariant
                k <= name@.len(),
                label@ == (if i == selected { seq!['>', ' '] } else { seq![] }) + name@.subrange(0, k as int),
            decreases name@.len() - k,
        {
            label.push(name[k]);
            proof {
                assert(name@.subrange(0, k as int + 1) == name@.subrange(0, k as int).push(name@[k as int]));
            }
            k = k + 1;
        }
        if i == selected {
            label.push(' ');
            label.push('<');
        }
        proof {
            assert(name@.subrange(0, name@.len() as int) == name@);
            assert(opts[i as int] == name@);
            assert(label@ == option_label(opts[i as int], i == selected));
            assert(label@.len() <= 68);
        }
        let y = (start_y + i as i64 * 48) as usize;
        let (col, shadow) = if i == selected {
            (rgb(255, 230, 120), rgb(20, 12, 0))
        } else {
            (rgb(235, 235, 235), rgb(0, 0, 0))
        };
        draw_op(buf, &label, y + 2, 6, shadow, Ghost(ops), Ghost(base));
        proof { ops = ops.push((label@, y + 2, 6, shadow)); }
        draw_op(buf, &label, y, 6, col, Ghost(ops), Ghost(base));
        proof {
            ops = ops.push((label@, y as int, 6, col));
            assert(ops == head + option_texts(selected as int, opts, i + 1));
        }
        i = i + 1;
    }
    let hint = vec![
        '\u{2191}', '/', '\u{2193}', ' ', 'E', 'L', 'E', 'G', 'I', 'R', ' ', ' ', '\u{2022}', ' ', ' ', 'E',
        'N', 'T', 'E', 'R', ' ', 'J', 'U', 'G', 'A', 'R', ' ', ' ', '\u{2022}', ' ', ' ', 'E', 'S', 'C',
        ' ', 'S', 'A', 'L', 'I', 'R',
    ];
    assert(hint@ == menu_hint());
    draw_op(buf, &hint, 502, 5, black, Ghost(ops), Ghost(base));
    proof { ops = ops.push((hint@, 502, 5, black)); }
    draw_op(buf, &hint, 500, 5, rgb(245, 245, 245), Ghost(ops), Ghost(base));
    proof {
        ops = ops.push((hint@, 500, 5, pack(245, 245, 245) as u32));
        assert(opts.len() == n);
        assert(ops =~= menu_texts(selected as int, opts));
        assert forall|c: int, r: int|
            #![trigger pix(buf@, c, r)]
            on_screen(c, r) implies pix(buf@, c, r) == menu_pixel(selected as int, opts, c, r, pix(b0, c, r)) by {
            assert(pix(base, c, r) == panel_pixel(n as int, c, r, pix(b0, c, r)));
        }
    }
}

} // verus!
