use gym_raycaster::dda::cast_ray;
use gym_raycaster::fixed::FIX_ONE;
use gym_raycaster::render::{raycast, Camera, HEIGHT, WIDTH};
use gym_raycaster::texture::{Texture, TextureSet};
use gym_raycaster::world::{WorldMap, TILE_EMPTY, TILE_EXIT, TILE_WALL};
use gym_raycaster::levels::gym_fuego;

fn walled(w: usize, h: usize) -> WorldMap {
    let mut m = WorldMap::filled(w, h, TILE_WALL);
    for y in 1..h - 1 {
        for x in 1..w - 1 {
            m.set(x, y, TILE_EMPTY);
        }
    }
    m
}

fn plain_textures() -> TextureSet {
    TextureSet {
        wall_fire_a: Texture::new(2, 2, vec![0x00FF_0000; 4]).unwrap(),
        wall_fire_b: Texture::new(2, 2, vec![0x0000_FF00; 4]).unwrap(),
        sky: Texture::new(2, 2, vec![0x0000_00FF; 4]).unwrap(),
    }
}

#[test]
fn exit_is_not_solid_center_column_hits_border() {
    let mut m = walled(5, 5);
    m.set(3, 2, TILE_EXIT);
    let hit = cast_ray(&m, 2 * FIX_ONE, 2 * FIX_ONE, FIX_ONE, 0);
    assert_eq!(hit.map_x, 4);
    assert_eq!(hit.map_y, 2);
    assert_eq!(hit.side, 0);
    assert_eq!(hit.perp, 2 * FIX_ONE);
}

#[test]
fn exit_scenario_through_full_wall_pass() {
    let mut m = walled(5, 5);
    m.set(3, 2, TILE_EXIT);
    let cam = Camera { x: 2 * FIX_ONE, y: 2 * FIX_ONE, dir_x: FIX_ONE, dir_y: 0, plane_x: 0, plane_y: 43253 };
    let mut buf = vec![0u32; WIDTH * HEIGHT];
    let mut zbuf = vec![0i64; WIDTH];
    raycast(&mut buf, &mut zbuf, &m, &plain_textures(), &cam, 8 * FIX_ONE, 9830);
    // the centre column's ray is the view direction itself
    assert_eq!(zbuf[WIDTH / 2], 2 * FIX_ONE);
    // a wall at distance 2 is 300 pixels high around the middle row
    assert_ne!(buf[(HEIGHT / 2) * WIDTH + WIDTH / 2], 0);
    assert_eq!(buf[10 * WIDTH + WIDTH / 2], 0);
}

#[test]
fn traversal_is_bounded_by_map_size() {
    let m = gym_fuego();
    let rays: [(i64, i64); 6] = [(FIX_ONE, 0), (0, FIX_ONE), (-FIX_ONE, 3), (5, -FIX_ONE), (40000, 50000), (-65536, -1)];
    for (rx, ry) in rays {
        let hit = cast_ray(&m, 12 * FIX_ONE + 100, 12 * FIX_ONE + 100, rx, ry);
        assert!(hit.steps_x + hit.steps_y <= (m.w + m.h) as u64);
        assert!(hit.perp >= 1);
    }
}

#[test]
fn zero_axis_is_never_stepped() {
    let m = walled(8, 6);
    let hit = cast_ray(&m, 3 * FIX_ONE + 7, 2 * FIX_ONE + 9, 0, FIX_ONE);
    assert_eq!(hit.steps_x, 0);
    assert_eq!(hit.side, 1);
    assert_eq!(hit.map_x, 3);
    assert_eq!(hit.map_y, 5);
    let hit = cast_ray(&m, 3 * FIX_ONE + 7, 2 * FIX_ONE + 9, -FIX_ONE, 0);
    assert_eq!(hit.steps_y, 0);
    assert_eq!(hit.side, 0);
    assert_eq!(hit.map_x, 0);
}

#[test]
fn open_arena_distance_is_distance_to_wall_face() {
    let m = walled(10, 10);
    // from the centre of cell (4, 5): the right border's face is 4.5 away
    let hit = cast_ray(&m, 4 * FIX_ONE + FIX_ONE / 2, 5 * FIX_ONE + FIX_ONE / 2, FIX_ONE, 0);
    assert_eq!(hit.map_x, 9);
    assert_eq!(hit.side, 0);
    assert_eq!(hit.perp, 4 * FIX_ONE + FIX_ONE / 2);
}

#[test]
fn diagonal_ray_uses_perpendicular_distance() {
    let m = walled(6, 6);
    // along (1, 1) from the centre of cell (2, 2): the first solid cell is
    // crossed on a face 2.5 units ahead along each axis
    let hit = cast_ray(&m, 2 * FIX_ONE + FIX_ONE / 2, 2 * FIX_ONE + FIX_ONE / 2, FIX_ONE, FIX_ONE);
    assert_eq!(hit.perp, 2 * FIX_ONE + FIX_ONE / 2);
    assert_eq!(hit.side, 1);
}

#[test]
fn hazard_does_not_stop_rays() {
    let mut m = walled(5, 5);
    m.set(3, 2, gym_raycaster::world::TILE_HAZARD);
    let hit = cast_ray(&m, 2 * FIX_ONE, 2 * FIX_ONE, FIX_ONE, 0);
    assert_eq!(hit.map_x, 4);
    assert_eq!(hit.perp, 2 * FIX_ONE);
    let cam = Camera { x: 2 * FIX_ONE, y: 2 * FIX_ONE, dir_x: FIX_ONE, dir_y: 0, plane_x: 0, plane_y: 43253 };
    let mut buf = vec![0u32; WIDTH * HEIGHT];
    let mut zbuf = vec![0i64; WIDTH];
    raycast(&mut buf, &mut zbuf, &m, &plain_textures(), &cam, 8 * FIX_ONE, 9830);
    assert_eq!(zbuf[WIDTH / 2], 2 * FIX_ONE);
}

#[test]
fn open_arena_distance_in_all_four_directions() {
    let m = walled(10, 8);
    let (px, py) = (4 * FIX_ONE + FIX_ONE / 2, 3 * FIX_ONE + FIX_ONE / 2);
    assert_eq!(cast_ray(&m, px, py, FIX_ONE, 0).perp, 9 * FIX_ONE - px);
    assert_eq!(cast_ray(&m, px, py, -FIX_ONE, 0).perp, px - FIX_ONE);
    assert_eq!(cast_ray(&m, px, py, 0, FIX_ONE).perp, 7 * FIX_ONE - py);
    assert_eq!(cast_ray(&m, px, py, 0, -FIX_ONE).perp, py - FIX_ONE);
}

#[test]
fn wide_field_of_view_renders() {
    let m = walled(6, 6);
    // plane as long as the direction: a 90 degree field of view
    let cam = Camera { x: 3 * FIX_ONE, y: 3 * FIX_ONE, dir_x: FIX_ONE, dir_y: 0, plane_x: 0, plane_y: FIX_ONE };
    let mut buf = vec![0u32; WIDTH * HEIGHT];
    let mut zbuf = vec![0i64; WIDTH];
    raycast(&mut buf, &mut zbuf, &m, &plain_textures(), &cam, 8 * FIX_ONE, 9830);
    assert_eq!(zbuf[WIDTH / 2], 2 * FIX_ONE);
    assert!(zbuf.iter().all(|&d| d >= 1));
}
