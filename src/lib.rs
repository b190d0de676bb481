//! A bot for a real-time territory-conquest game: a partially observable
//! board model with its move rules, a coarse model of what a hidden
//! opponent may do, and the state logic that a tree search runs on.

mod chance;
pub mod enemy;
pub mod laws;
pub mod score;
pub mod search;
pub mod state;
pub mod update;
pub mod utils;
