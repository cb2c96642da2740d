//! Core of a turn-based roguelike: procedurally generated floors, a tile
//! grid with layered blocking, actors with combat stats, per-monster AI
//! state machines, and a catalog of object templates with weighted random
//! instantiation. Rendering, input and persistence live outside this crate;
//! the library exposes the world state and turn resolution they drive.

pub mod actor;
pub mod ai;
pub mod game;
pub mod item;
pub mod keys;
pub mod load;
pub mod log;
pub mod map;
pub mod object;
pub mod path;
mod rng;
