//! Solve outcomes: a witness covering, a typed reason a board cannot be
//! covered, or a cancelled search.

use vstd::prelude::*;

use crate::grid::{Grid, GridModel};
use crate::placement::fits;
use crate::tile::TileModel;

verus! {

/// Why the board cannot be covered.
#[derive(Debug, Clone, Copy, PartialEq, Eq, Structural)]
pub enum UnsolvableReason {
    /// The search was exhausted without finding a covering.
    NoFit,
    /// The board has more cells than a bitmask can represent.
    BoardTooLarge,
}

/// The placement of one tile in a solution: which tile, in which orientation,
/// at which board offset.
#[derive(Debug)]
pub struct TilePlacement {
    /// Index of the placed tile in the tile list handed to the solver.
    pub tile_index: usize,
    /// The base shape of the placed tile.
    pub base: Grid,
    /// The rotation/reflection variant in which the tile is placed.
    pub rotation: Grid,
    /// The `(row, column)` offset of the variant on the trimmed board.
    pub position: (usize, usize),
}

/// A successful covering: one placement per tile used.
#[derive(Debug)]
pub struct Solution {
    pub placements: Vec<TilePlacement>,
}

/// The outcome of a solve call.
#[derive(Debug)]
pub enum SolveResult {
    /// The open cells can be covered; here is a witness.
    Solved(Solution),
    /// No covering exists, or the board exceeds capacity.
    Unsolvable(UnsolvableReason),
    /// The caller requested cancellation while the search ran.
    Cancelled,
}

/// The placement covers board cell `(i, j)`.
pub open spec fn covers_cell(p: TilePlacement, i: int, j: int) -> bool {
    &&& p.rotation@.in_bounds(i - p.position.0, j - p.position.1)
    &&& p.rotation@.cell(i - p.position.0, j - p.position.1)
}

/// The placement is a placement of one of the given tiles, in one of that
/// tile's variants, lying fully inside the board.
pub open spec fn placement_valid(p: TilePlacement, board: GridModel, tiles: Seq<TileModel>) -> bool {
    &&& 0 <= p.tile_index < tiles.len()
    &&& p.base@ == tiles[p.tile_index as int].base
    &&& p.rotation@.wf()
    &&& tiles[p.tile_index as int].contains_variant(p.rotation@)
    &&& fits(
        p.rotation@,
        p.position.0 as int,
        p.position.1 as int,
        board.rows as int,
        board.cols as int,
    )
}

/// The placements use pairwise distinct tiles, lie fully inside the board,
/// never overlap, and together cover exactly the open cells of the board.
pub open spec fn solution_valid(
    sol: Seq<TilePlacement>,
    board: GridModel,
    tiles: Seq<TileModel>,
) -> bool {
    &&& forall|k: int| 0 <= k < sol.len() ==> placement_valid(#[trigger] sol[k], board, tiles)
    &&& forall|k1: int, k2: int|
        0 <= k1 < k2 < sol.len() ==> (#[trigger] sol[k1]).tile_index
            != (#[trigger] sol[k2]).tile_index
    &&& forall|k1: int, k2: int, i: int, j: int|
        #![trigger covers_cell(sol[k1], i, j), covers_cell(sol[k2], i, j)]
        0 <= k1 < k2 < sol.len() ==> !(covers_cell(sol[k1], i, j) && covers_cell(sol[k2], i, j))
    &&& forall|i: int, j: int|
        board.in_bounds(i, j) ==> (!(#[trigger] board.cell(i, j)) <==> exists|k: int|
            0 <= k < sol.len() && covers_cell(#[trigger] sol[k], i, j))
}

} // verus!
