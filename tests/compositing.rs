use gym_raycaster::color::{alpha_blend, rgb, shade};
use gym_raycaster::fixed::FIX_ONE;
use gym_raycaster::render::{Camera, HEIGHT, WIDTH};
use gym_raycaster::sprites::{draw_sprite, draw_sprites, project_sprite, AnimatedSprite, SpriteManager};
use gym_raycaster::texture::{SpriteFrame, Texture};

fn facing_y() -> Camera {
    Camera { x: 5 * FIX_ONE, y: 3 * FIX_ONE, dir_x: 0, dir_y: FIX_ONE, plane_x: -43253, plane_y: 0 }
}

fn opaque_sprite(color: u32, alpha: u32) -> AnimatedSprite {
    let frame = SpriteFrame::new(2, 2, vec![(alpha << 24) | color; 4]).unwrap();
    AnimatedSprite::new(5 * FIX_ONE, 5 * FIX_ONE, vec![frame], 6 * FIX_ONE)
}

#[test]
fn sprite_ahead_is_centred_at_depth_two() {
    let p = project_sprite(&facing_y(), 5 * FIX_ONE, 5 * FIX_ONE).unwrap();
    assert_eq!(p.transform_x, 0);
    assert_eq!(p.transform_y, 2 * FIX_ONE);
    assert_eq!(p.screen_x, (WIDTH / 2) as i64);
    assert_eq!(p.size, (HEIGHT / 2) as i64);
}

#[test]
fn sprite_behind_is_not_projected() {
    assert!(project_sprite(&facing_y(), 5 * FIX_ONE, 1 * FIX_ONE).is_none());
}

#[test]
fn degenerate_basis_draws_nothing() {
    let cam = Camera { x: 5 * FIX_ONE, y: 3 * FIX_ONE, dir_x: 0, dir_y: FIX_ONE, plane_x: 0, plane_y: 0 };
    assert!(project_sprite(&cam, 5 * FIX_ONE, 5 * FIX_ONE).is_none());
}

#[test]
fn opaque_blend_gives_foreground() {
    assert_eq!(alpha_blend(0x0012_3456, 0x00AB_CDEF, 255), 0x00AB_CDEF);
    assert_eq!(alpha_blend(0x00FF_FFFF, 0x0000_0000, 255), 0);
}

#[test]
fn transparent_blend_keeps_background() {
    assert_eq!(alpha_blend(0x0012_3456, 0x00AB_CDEF, 0), 0x0012_3456);
}

#[test]
fn half_blend_is_per_channel() {
    // (200 * 128 + 0 * 127) / 255 = 100, (0 * 128 + 100 * 127) / 255 = 49
    assert_eq!(alpha_blend(rgb(0, 100, 0), rgb(200, 0, 0), 128), rgb(100, 49, 0));
}

#[test]
fn shade_scales_each_channel() {
    assert_eq!(shade(rgb(200, 100, 50), (FIX_ONE / 2) as u32), rgb(100, 50, 25));
    assert_eq!(shade(rgb(200, 100, 50), FIX_ONE as u32), rgb(200, 100, 50));
    assert_eq!(shade(rgb(200, 100, 50), 0), 0);
}

#[test]
fn occluded_sprite_leaves_frame_unchanged() {
    let buf0 = vec![0x0010_2030u32; WIDTH * HEIGHT];
    let mut buf = buf0.clone();
    // walls at depth 1 everywhere: nearer than the sprite at depth 2
    let zbuf = vec![FIX_ONE; WIDTH];
    draw_sprite(&mut buf, &zbuf, &facing_y(), &opaque_sprite(0x00FF_0000, 255), 0);
    assert!(buf == buf0);
}

#[test]
fn visible_sprite_overwrites_with_lit_texel() {
    let mut buf = vec![0x0010_2030u32; WIDTH * HEIGHT];
    let zbuf = vec![100 * FIX_ONE; WIDTH];
    draw_sprite(&mut buf, &zbuf, &facing_y(), &opaque_sprite(0x00FF_0000, 255), 0);
    // distance 2: light = 1 / (1 + 0.36), in fixed point 65536^2 / 89128
    let light = ((FIX_ONE * FIX_ONE) / (FIX_ONE + 2 * FIX_ONE * 18 / 100)) as u32;
    let centre = (HEIGHT / 2) * WIDTH + WIDTH / 2;
    assert_eq!(buf[centre], shade(0x00FF_0000, light));
    // outside the 300-pixel square nothing changes
    assert_eq!(buf[10 * WIDTH + 10], 0x0010_2030);
}

#[test]
fn transparent_texels_are_skipped() {
    let mut buf = vec![0x0010_2030u32; WIDTH * HEIGHT];
    let zbuf = vec![100 * FIX_ONE; WIDTH];
    draw_sprite(&mut buf, &zbuf, &facing_y(), &opaque_sprite(0x00FF_0000, 0), 0);
    assert!(buf.iter().all(|&p| p == 0x0010_2030));
}

#[test]
fn sprite_list_is_drawn_in_order() {
    let mut buf = vec![0u32; WIDTH * HEIGHT];
    let zbuf = vec![100 * FIX_ONE; WIDTH];
    let sprites = SpriteManager { list: vec![opaque_sprite(0x00FF_0000, 255), opaque_sprite(0x0000_FF00, 255)] };
    draw_sprites(&mut buf, &zbuf, &facing_y(), &sprites, FIX_ONE);
    let centre = (HEIGHT / 2) * WIDTH + WIDTH / 2;
    assert_eq!(buf[centre], 0x0000_FF00);
}

#[test]
fn texture_sampling_wraps() {
    let t = Texture::new(4, 2, vec![1, 2, 3, 4, 5, 6, 7, 8]).unwrap();
    for &(u, v) in &[(0i64, 0i64), (FIX_ONE / 4, 0), (3 * FIX_ONE / 4, FIX_ONE / 2), (FIX_ONE - 1, FIX_ONE - 1)] {
        assert_eq!(t.sample(u, v), t.sample(u + FIX_ONE, v));
        assert_eq!(t.sample(u, v), t.sample(u, v + FIX_ONE));
        assert_eq!(t.sample(u, v), t.sample(u - 3 * FIX_ONE, v));
    }
    assert_eq!(t.sample(0, 0), 1);
    assert_eq!(t.sample(3 * FIX_ONE / 4, FIX_ONE / 2), 8);
    assert_eq!(t.sample(-FIX_ONE / 4, 0), 4);
}

#[test]
fn malformed_texture_is_rejected() {
    assert!(Texture::new(4, 2, vec![0; 7]).is_none());
    assert!(Texture::new(0, 2, vec![]).is_none());
    assert!(SpriteFrame::new(2, 2, vec![0; 5]).is_none());
}

#[test]
fn sprite_frame_splits_alpha() {
    let f = SpriteFrame::new(1, 1, vec![0x80AB_CDEF]).unwrap();
    assert_eq!(f.sample(0, 0), (0x00AB_CDEF, 0x80));
}

#[test]
fn animation_wraps_around_frames() {
    let frames: Vec<SpriteFrame> = (0..4).map(|i| SpriteFrame::new(1, 1, vec![i]).unwrap()).collect();
    let mut s = AnimatedSprite::new(0, 0, frames, 6 * FIX_ONE);
    // 0.5 s at 6 fps: three frames on
    s.update(FIX_ONE / 2);
    assert_eq!(s.current().rgba[0], 3);
    s.update(FIX_ONE / 6 + 1);
    assert_eq!(s.current().rgba[0], 0);
}

#[test]
fn sprite_pass_takes_a_ninety_degree_camera() {
    let cam = Camera { x: 5 * FIX_ONE, y: 3 * FIX_ONE, dir_x: 0, dir_y: FIX_ONE, plane_x: FIX_ONE, plane_y: 0 };
    let p = project_sprite(&cam, 5 * FIX_ONE, 5 * FIX_ONE).unwrap();
    assert_eq!((p.transform_x, p.transform_y), (0, 2 * FIX_ONE));
    let buf0 = vec![0x0010_2030u32; WIDTH * HEIGHT];
    let mut buf = buf0.clone();
    let zbuf = vec![FIX_ONE + FIX_ONE / 2; WIDTH];
    let sprites = SpriteManager { list: vec![opaque_sprite(0x0064_6464, 255)] };
    draw_sprites(&mut buf, &zbuf, &cam, &sprites, 13107);
    assert!(buf == buf0);
    let mut seen = vec![0u32; WIDTH * HEIGHT];
    draw_sprites(&mut seen, &vec![3 * FIX_ONE; WIDTH], &cam, &sprites, 13107);
    assert_eq!(seen[(HEIGHT / 2) * WIDTH + WIDTH / 2], rgb(73, 73, 73));
}
