//! A turn-based dungeon simulation: map generation, collision, movement,
//! combat and the monsters' reflex behaviour.

pub mod actions;
pub mod ai;
pub mod carve;
pub mod colors;
pub mod combat;
pub mod components;
mod dice;
pub mod fov;
pub mod generation;
pub mod grid;
pub mod layout;
pub mod objects;
pub mod reach;
pub mod render;
pub mod turn;

pub use crate::actions::{is_blocked, move_by, move_towards, mut_two, player_move_or_attack};
pub use crate::ai::ai_take_turn;
pub use crate::carve::{create_h_tunnel, create_room, create_v_tunnel};
pub use crate::combat::{monster_death, player_death};
pub use crate::components::DeathCallback;
pub use crate::generation::{make_map, place_objects};
pub use crate::render::render_all;
pub use crate::turn::{handle_keys, PlayerAction};

use vstd::prelude::*;

verus! {

/// The slot of the entity list that holds the player.
pub const PLAYER: usize = 0;

/// Width of the screen, in cells.
pub const SCREEN_WIDTH: i32 = 80;

/// Height of the screen, in cells.
pub const SCREEN_HEIGHT: i32 = 50;

/// Width of the standard map.
pub const MAP_WIDTH: i32 = 80;

/// Height of the standard map.
pub const MAP_HEIGHT: i32 = 45;

/// Largest width and height of a room of the standard map.
pub const ROOM_MAX_SIZE: i32 = 10;

/// Smallest width and height of a room of the standard map.
pub const ROOM_MIN_SIZE: i32 = 10;

/// Number of room candidates tried for the standard map.
pub const MAX_ROOMS: i32 = 40;

/// Largest number of monsters seeded into one room of the standard map.
pub const MAX_ROOM_MONSTERS: i32 = 3;

/// Frames per second the display is limited to.
pub const LIMIT_FPS: i32 = 20;

/// Whether walls at the edge of the field of view are lit.
pub const FOV_LIGHT_WALLS: bool = true;

/// How far the player sees, in cells.
pub const TORCH_RADIUS: i32 = 10;

} // verus!
