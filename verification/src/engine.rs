//! Platform-neutral front-end pieces: input actions, the cell framebuffer the
//! game renders into, and colour themes.

pub mod action;
pub mod framebuffer;
pub mod keys;
pub mod theme;
