//! The built-in puzzles: their target naming and their configuration data.

pub mod config;
pub mod names;
