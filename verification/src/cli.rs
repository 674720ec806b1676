//! The terminal game: its components and item rules, the player's actions,
//! the monsters' turns, traps, level set-up, auto-explore and the autopilot,
//! screens and commands, panel text, themes and the high-score table.

pub mod aim;
pub mod bot;
pub mod components;
pub mod explore;
pub mod fight;
pub mod help;
pub mod items;
pub mod level;
pub mod moves;
pub mod panels;
pub mod pack;
pub mod render;
pub mod rules;
pub mod scores;
pub mod screens;
pub mod setup;
pub mod theme;
pub mod throwing;
pub mod traps;
pub mod wands;
