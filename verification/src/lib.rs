//! Simulation kernel of a turn-based dungeon crawler.
//!
//! The crate owns the deterministic core of the game: the tile grid, the
//! entity and combat model, the confusion state machine, the turn scheduler,
//! dungeon generation, the experience system, and a byte codec for whole-state
//! persistence. Rendering, field-of-view computation and raw input are
//! collaborators: they receive read-only views and hand back plain values.

pub mod ai;
pub mod color;
pub mod equipment;
pub mod fighter;
pub mod game;
pub mod item;
pub mod map_gen;
pub mod message;
pub mod monster;
pub mod name;
pub mod codec;
pub mod object;
pub mod rng;
pub mod tile;

use vstd::prelude::*;

verus! {

} // verus!
