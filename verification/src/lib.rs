//! World evolution engine: the integer logic of evolving game worlds.
//!
//! The library classifies a world's age by its tick count, groups rooms into
//! species by biome type, counts the biome types a world holds, and computes
//! the deterministic seed bucket from which a room's jitter is drawn.

pub mod age;
pub mod room;
pub mod seed;
pub mod species;

pub use age::AgeCategory;
pub use room::RoomType;
pub use species::EvolutionEngine;
