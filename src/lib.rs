//! Simulation core of a turn-based dungeon crawler: dungeon generation,
//! field of view, combat, monster behaviour, inventory and progression.

pub mod dice;
pub mod fov;
pub mod game;
pub mod item;
pub mod log;
pub mod map;
pub mod object;

use vstd::prelude::*;

verus! {

/// Index of the player in the world's entity list.
pub const PLAYER: usize = 0;

} // verus!
