//! Rogue rules, dungeon maps, level generation and the supporting data model,
//! with their behaviour stated in contracts and proved.

pub mod geometry;
pub mod rng;
pub mod text;
pub mod dice;
pub mod combat;
pub mod map;
pub mod path;
pub mod fov;
pub mod data;
pub mod gen;
pub mod engine;
pub mod cli;
