//! Rules engine of the Star Lanes trading board game.
pub mod company;
pub mod event;
pub mod map;
pub mod model;
pub mod neighbors;
pub mod player;
mod random;
pub mod rules;
pub mod starlanes;
pub mod text;
pub mod util;
