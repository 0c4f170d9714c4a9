use gym_raycaster::color::rgb;
use gym_raycaster::effects::{clear_bg, draw_damage_overlay};
use gym_raycaster::fixed::{floor_fix, frac, isqrt, FIX_ONE};
use gym_raycaster::hud::{draw_minimap, draw_health_bar, draw_text, draw_text_centered, glyph5x7, put_pixel};
use gym_raycaster::levels::{chance, gym_agua, gym_fuego, rand_range, rng_next, FIRE_EXIT_X, FIRE_EXIT_Y};
use gym_raycaster::player::{Player, PLAYER_MAX_HP, INVULN_TIME};
use gym_raycaster::render::{HEIGHT, WIDTH};
use gym_raycaster::screens::{build_level, draw_dead, draw_menu_levels, draw_win};
use gym_raycaster::sprites::{gen_pokeball_frames, SpriteManager};
use gym_raycaster::texgen::{fire_texture, load_or_fire, mix_rgb, sky_blue_texture, sky_texture, tint_cool_blue, WATER_TINT};
use gym_raycaster::texture::{Texture, TextureSet};
use gym_raycaster::world::{is_passable, WorldMap, TILE_EMPTY, TILE_EXIT, TILE_HAZARD, TILE_WALL, MAP_H, MAP_W};

fn assert_closed(m: &WorldMap) {
    assert_eq!((m.w, m.h), (MAP_W, MAP_H));
    for i in 0..MAP_W {
        assert_eq!(m.get(i, 0), TILE_WALL);
        assert_eq!(m.get(i, MAP_H - 1), TILE_WALL);
        assert_eq!(m.get(0, i), TILE_WALL);
        assert_eq!(m.get(MAP_W - 1, i), TILE_WALL);
    }
}

#[test]
fn fire_gym_is_closed_with_exit_in_room() {
    let m = gym_fuego();
    assert_closed(&m);
    assert_eq!(m.get(FIRE_EXIT_X, FIRE_EXIT_Y), TILE_EXIT);
    assert_eq!(m.get(FIRE_EXIT_X - 1, FIRE_EXIT_Y), TILE_EMPTY);
    assert_eq!(m.get(FIRE_EXIT_X + 1, FIRE_EXIT_Y), TILE_HAZARD);
    assert_eq!(m.get(16, FIRE_EXIT_Y), TILE_EMPTY);
    assert_eq!(m.get(16, 10), TILE_WALL);
}

#[test]
fn water_gym_is_closed_and_seeded() {
    let a = gym_agua(42);
    let b = gym_agua(42);
    assert!(a.cells == b.cells);
    assert_closed(&a);
    assert_eq!(a.cells.iter().filter(|&&t| t == TILE_EXIT).count(), 1);
    let z = gym_agua(0);
    assert_closed(&z);
}

#[test]
fn level_choice_by_index() {
    assert!(build_level(0, 7).cells == gym_fuego().cells);
    assert!(build_level(1, 7).cells == gym_agua(7).cells);
    assert!(build_level(2, 7).cells == gym_fuego().cells);
}

#[test]
fn xorshift_steps() {
    let mut s: u64 = 1;
    let r = rng_next(&mut s);
    // 1 ^ (1 << 25) = 0x2000001, then ^ (0x2000001 >> 27) = 0x2000001
    assert_eq!(s, 0x0200_0001);
    assert_eq!(r, 0x0200_0001u64.wrapping_mul(2685821657736338717));
    let mut s2: u64 = 99;
    for _ in 0..100 {
        let v = rand_range(&mut s2, 7);
        assert!((0..7).contains(&v));
    }
    let mut s3: u64 = 5;
    assert!(chance(&mut s3, 1, 1));
}

#[test]
fn passability_of_tiles() {
    assert!(is_passable(TILE_EMPTY));
    assert!(is_passable(TILE_EXIT));
    assert!(is_passable(TILE_HAZARD));
    assert!(!is_passable(TILE_WALL));
}

#[test]
fn fixed_point_helpers() {
    assert_eq!(frac(-FIX_ONE / 4), 3 * FIX_ONE / 4);
    assert_eq!(frac(5 * FIX_ONE + 7), 7);
    assert_eq!(floor_fix(-1), -1);
    assert_eq!(floor_fix(2 * FIX_ONE), 2);
    assert_eq!(isqrt(0), 0);
    assert_eq!(isqrt(15), 3);
    assert_eq!(isqrt(16), 4);
    assert_eq!(isqrt(250000u64 << 32), 500 * 65536);
}

#[test]
fn background_sky_and_floor() {
    let mut buf = vec![0u32; WIDTH * HEIGHT];
    let sky = Texture::new(2, 1, vec![0x0000_00AA, 0x0000_00BB]).unwrap();
    clear_bg(&mut buf, &sky, 0);
    assert_eq!(buf[0], 0xAA);
    assert_eq!(buf[WIDTH - 1], 0xBB);
    // half a turn swaps the halves of the panorama
    let mut buf2 = vec![0u32; WIDTH * HEIGHT];
    clear_bg(&mut buf2, &sky, FIX_ONE / 2);
    assert_eq!(buf2[0], 0xBB);
    assert_eq!(buf[300 * WIDTH], rgb(100, 40, 30));
    assert_eq!(buf[599 * WIDTH + 5], rgb(199, 79, 39));
}

#[test]
fn damage_vignette_reddens_corners() {
    let mut buf = vec![0u32; WIDTH * HEIGHT];
    draw_damage_overlay(&mut buf, FIX_ONE);
    assert_eq!(buf[0], rgb(216, 33, 33));
    let mut calm = vec![7u32; WIDTH * HEIGHT];
    draw_damage_overlay(&mut calm, 0);
    assert!(calm.iter().all(|&p| p == 7));
}

#[test]
fn pixels_and_lines() {
    let mut buf = vec![0u32; WIDTH * HEIGHT];
    put_pixel(&mut buf, 3, 4, 9);
    put_pixel(&mut buf, WIDTH, 4, 9);
    assert_eq!(buf[4 * WIDTH + 3], 9);
    assert_eq!(buf.iter().filter(|&&p| p == 9).count(), 1);
    let mut l = vec![0u32; WIDTH * HEIGHT];
    gym_raycaster::hud::line(&mut l, 10, 10, 20, 15, 5);
    assert_eq!(l[10 * WIDTH + 10], 5);
    assert_eq!(l[15 * WIDTH + 20], 5);
    assert_eq!(l.iter().filter(|&&p| p == 5).count(), 11);
    let mut off = vec![0u32; WIDTH * HEIGHT];
    gym_raycaster::hud::line(&mut off, 900, 10, 790, 10, 5);
    assert_eq!(off.iter().filter(|&&p| p == 5).count(), 10);
}

#[test]
fn health_bar_fill_and_colours() {
    let mut buf = vec![0u32; WIDTH * HEIGHT];
    draw_health_bar(&mut buf, 100, 100);
    assert_eq!(buf[584 * WIDTH + 100], rgb(70, 220, 90));
    assert_eq!(buf[578 * WIDTH + 100], rgb(255, 255, 255));
    let mut low = vec![0u32; WIDTH * HEIGHT];
    draw_health_bar(&mut low, 20, 100);
    // 20% of 200 pixels is 40: red up to column 49, dark after
    assert_eq!(low[584 * WIDTH + 49], rgb(230, 60, 60));
    assert_eq!(low[584 * WIDTH + 50], rgb(28, 28, 36));
    let mut mid = vec![0u32; WIDTH * HEIGHT];
    draw_health_bar(&mut mid, 40, 100);
    assert_eq!(mid[584 * WIDTH + 30], rgb(255, 200, 50));
}

#[test]
fn glyphs_and_text() {
    assert_eq!(glyph5x7('A'), [0x0E, 0x11, 0x11, 0x1F, 0x11, 0x11, 0x11]);
    assert_eq!(glyph5x7('a'), glyph5x7('A'));
    assert_eq!(glyph5x7(' '), [0; 7]);
    assert_eq!(glyph5x7('#'), [0x1F, 0x1F, 0x1F, 0x1F, 0x1F, 0x1F, 0x00]);
    let mut buf = vec![0u32; WIDTH * HEIGHT];
    draw_text(&mut buf, &['I'], 0, 0, 1, 3);
    // 'I' top row 0x0E: columns 1..=3 lit
    assert_eq!(&buf[0..5], &[0, 3, 3, 3, 0]);
    let mut c = vec![0u32; WIDTH * HEIGHT];
    draw_text_centered(&mut c, &['I'], 0, 2, 3);
    // one glyph at scale 2 is 10 pixels wide: starts at (800 - 10) / 2 = 395
    assert_eq!(c[395], 0);
    assert_eq!(c[397], 3);
    let mut e = vec![0u32; WIDTH * HEIGHT];
    draw_text_centered(&mut e, &[], 0, 2, 3);
    assert!(e.iter().all(|&p| p == 0));
}

#[test]
fn win_and_dead_pages() {
    let mut w = vec![0u32; WIDTH * HEIGHT];
    draw_win(&mut w);
    assert_eq!(w[0], rgb(255, 255, 255));
    assert_eq!(w[WIDTH + 1], rgb(30, 200, 120));
    assert!(w.iter().any(|&p| p == 0));
    let mut d = vec![0u32; WIDTH * HEIGHT];
    draw_dead(&mut d);
    assert_eq!(d[WIDTH + 1], rgb(80, 0, 0));
    assert_eq!(d[(HEIGHT - 1) * WIDTH + 3], rgb(255, 255, 255));
}

#[test]
fn player_moves_and_takes_damage() {
    let m = gym_fuego();
    let mut p = Player::new();
    assert_eq!(p.hp, PLAYER_MAX_HP);
    p.damage(12);
    assert_eq!(p.hp, 88);
    assert_eq!(p.invuln, INVULN_TIME);
    p.damage(12);
    assert_eq!(p.hp, 88);
    p.tick(FIX_ONE);
    p.damage(200);
    assert_eq!(p.hp, 0);
    let mut q = Player::new();
    q.x = 1 * FIX_ONE + FIX_ONE / 2;
    q.y = 1 * FIX_ONE + FIX_ONE / 2;
    // a step left would enter the border wall
    q.try_move(FIX_ONE, -FIX_ONE, 0, &m);
    assert_eq!(q.x, 1 * FIX_ONE + FIX_ONE / 2);
    q.try_move(FIX_ONE / 4, 0, FIX_ONE, &m);
    assert_eq!(q.y, 1 * FIX_ONE + 3 * FIX_ONE / 4);
    let mut r = Player::new();
    r.rotate(0, FIX_ONE);
    assert_eq!((r.dir_x, r.dir_y), (0, -FIX_ONE));
    assert_eq!((r.plane_x, r.plane_y), (-43253, 0));
}

#[test]
fn procedural_textures() {
    let f = fire_texture(8, 8);
    assert_eq!((f.w, f.h), (16, 16));
    // top row: 220 + 35 = 255 red, raised stripe saturates
    assert_eq!(f.data[0], rgb(255, 140, 40));
    assert_eq!(f.data[6], rgb(255, 140, 40));
    assert_eq!(f.data[15 * 16 + 6], rgb(222, 65, 30));
    let s = sky_texture(0, 0);
    assert_eq!((s.w, s.h), (64, 32));
    assert_eq!(s.data[0], rgb(130, 190, 255));
    assert_eq!(s.data[31 * 64], rgb(110, 150, 220));
    let b = sky_blue_texture(64, 32);
    assert_eq!(b.data[0], rgb(10, 32, 80));
    assert_eq!(b.data[31 * 64], rgb(120, 185, 255));
    assert_eq!(mix_rgb((0, 0, 0), (200, 100, 50), FIX_ONE / 2), rgb(100, 50, 25));
    let mut px = vec![rgb(100, 100, 100), rgb(255, 255, 255)];
    tint_cool_blue(&mut px, WATER_TINT.0, WATER_TINT.1, WATER_TINT.2);
    assert_eq!(px[0], rgb(64, 89, 125));
    assert_eq!(px[1], rgb(165, 229, 255));
}

#[test]
fn loaders_fall_back() {
    let bad = Texture { w: 2, h: 2, data: vec![1, 2, 3] };
    let t = load_or_fire(Some(bad), 32, 32);
    assert_eq!((t.w, t.h), (32, 32));
    let good = Texture::new(1, 1, vec![42]).unwrap();
    assert_eq!(load_or_fire(Some(good), 32, 32).data, vec![42]);
    let set = TextureSet::load(None, None, None);
    assert_eq!((set.wall_fire_a.w, set.sky.w, set.sky.h), (128, 1024, 256));
}

#[test]
fn ball_frames_and_fire_gym_sprites() {
    let frames = gen_pokeball_frames(96);
    assert_eq!(frames.len(), 4);
    assert_eq!(frames[0].rgba[0], 0);
    // centre: the white button, opaque
    assert_eq!(frames[0].rgba[48 * 96 + 48], 0xFF00_0000 | rgb(245, 245, 245));
    // upper half off the band: red
    assert_eq!(frames[0].rgba[30 * 96 + 20], 0xFF00_0000 | rgb(220, 60, 60));
    let m = SpriteManager::new_fire_gym(Vec::new());
    assert_eq!(m.list.len(), 1);
    assert_eq!(m.list[0].frames.len(), 4);
    assert_eq!((m.list[0].x, m.list[0].y), (21 * FIX_ONE + FIX_ONE / 2, 11 * FIX_ONE + FIX_ONE / 2));
}

#[test]
fn menu_panel_and_selection() {
    let options: Vec<Vec<char>> = vec!["FUEGO EASY".chars().collect(), "LEVEL RANDOM".chars().collect()];
    let mut buf = vec![rgb(100, 50, 20); WIDTH * HEIGHT];
    draw_menu_levels(&mut buf, 0, &options);
    // the panel spans rows 242..358 and columns 100..700: 60% of the backdrop
    assert_eq!(buf[250 * WIDTH + 105], rgb(60, 30, 12));
    assert_eq!(buf[250 * WIDTH + 95], rgb(100, 50, 20));
    assert_eq!(buf[20 * WIDTH + 400], rgb(100, 50, 20));
    // the selected entry is gold, the other white
    assert!(buf.iter().any(|&p| p == rgb(255, 230, 120)));
    assert!(buf.iter().any(|&p| p == rgb(235, 235, 235)));
}

#[test]
fn minimap_cells_and_marker() {
    let m = gym_fuego();
    let mut buf = vec![0u32; WIDTH * HEIGHT];
    draw_minimap(&mut buf, &m, 12 * FIX_ONE, 12 * FIX_ONE, -FIX_ONE, 0);
    // border cell (0, 0) is a wall: grey
    assert_eq!(buf[10 * WIDTH + 10], rgb(90, 90, 110));
    // the exit cell (19, 12)
    assert_eq!(buf[(10 + 12 * 4 + 1) * WIDTH + 10 + 19 * 4 + 1], rgb(255, 180, 80));
    // the player's marker at cell (12, 12)
    assert_eq!(buf[58 * WIDTH + 58], rgb(255, 255, 255));
    // outside the minimap nothing is drawn
    assert_eq!(buf[300 * WIDTH + 300], 0);
}

#[test]
fn line_points_are_exactly_bresenham() {
    let mut buf = vec![0u32; WIDTH * HEIGHT];
    gym_raycaster::hud::line(&mut buf, 0, 0, 2, 2, 7);
    let lit: Vec<usize> = (0..buf.len()).filter(|&i| buf[i] == 7).collect();
    assert_eq!(lit, vec![0, WIDTH + 1, 2 * WIDTH + 2]);
}

#[test]
fn fire_gym_has_one_exit() {
    let m = gym_fuego();
    assert_eq!(m.cells.iter().filter(|&&t| t == TILE_EXIT).count(), 1);
    for seed in [1u64, 2, 99, 123456789] {
        let a = gym_agua(seed);
        let i = a.cells.iter().position(|&t| t == TILE_EXIT).unwrap();
        let (x, y) = (i % MAP_W, i / MAP_W);
        assert!((18..=20).contains(&x) && (4..=19).contains(&y));
        assert_eq!(a.get(x - 1, y), TILE_EMPTY);
        assert_eq!(a.get(x + 1, y + 1), TILE_HAZARD);
    }
}

#[test]
fn large_textures_are_accepted() {
    assert!(Texture::new(5000, 1, vec![0; 5000]).is_some());
}
