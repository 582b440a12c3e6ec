//! Puzzle configuration data: area metadata, target descriptions and the
//! catalog of predefined tile shapes.

pub mod area;
pub mod collection;
pub mod error;
pub mod target;
pub mod tile;
pub mod version;
