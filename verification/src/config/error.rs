//! Errors raised while reading a puzzle configuration.

use vstd::prelude::*;

verus! {

/// Why a puzzle configuration could not be read.
#[derive(Debug, Clone, PartialEq, Eq)]
pub enum ReadError {
    /// The configuration declares a version this reader does not support.
    UnsupportedVersion,
    /// The configuration text is not well-formed.
    JsonError(String),
    /// A tile refers to a predefined shape name that does not exist.
    UnknownPredefinedTile { tile_name: String, name: String },
    /// A board refers to a custom board name that does not exist.
    UnknownCustomBoard { name: String },
    /// A tile declares a zero width or height.
    TileWidthOrHeightCannotBeZero { tile_name: String },
    /// The board declares a zero width or height.
    BoardWidthOrHeightCannotBeZero,
}

} // verus!
