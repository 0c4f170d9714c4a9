//! A fixed-point raycasting renderer for a grid maze: wall casting with a
//! per-column depth buffer, billboard sprites composited against it, texture
//! sampling, background fill, post effects, HUD drawing and level layouts.
//!
//! Every continuous quantity (positions, directions, texture coordinates,
//! light factors) is a fixed-point integer with `FIX_ONE` standing for `1.0`.
//!
//! A frame is drawn in order: `effects::clear_bg` (sky and floor),
//! `render::raycast` (walls, filling the depth buffer), `sprites::draw_sprites`
//! (tested against that buffer), the HUD, then `effects::draw_damage_overlay`.
//! Each pass states, pixel by pixel, what the frame holds afterwards.

pub mod color;
pub mod dda;
pub mod decode;
pub mod effects;
pub mod fixed;
pub mod hud;
pub mod levels;
pub mod player;
pub mod render;
pub mod screens;
pub mod sprites;
pub mod texgen;
pub mod texture;
pub mod world;

pub use color::{alpha_blend, rgb, shade};
pub use fixed::FIX_ONE;
