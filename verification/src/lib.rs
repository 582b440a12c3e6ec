//! Exact-cover engine for calendar tiling puzzles.
//!
//! A board is a rectangular grid whose cells are either blocked or open;
//! a set of polyomino tiles, each usable at most once and in any rotation
//! or reflection, must cover the open cells exactly.  The solver decides
//! solvability, produces a witness covering when one exists, and can be
//! cancelled cooperatively while it runs.

pub mod bitmask;
pub mod board;
pub mod cancel;
pub mod config;
pub mod cover;
pub mod grid;
pub mod placement;
pub mod pruner;
pub mod puzzle;
pub mod puzzle_state;
pub mod result;
pub mod session;
pub mod solver;
pub mod text;
pub mod tile;
