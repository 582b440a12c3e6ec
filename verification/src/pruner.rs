//! Structural pruning: banned bit patterns that, while entirely open, prove
//! that the current branch can never complete the board.  Every stored
//! pattern is sound — it never rejects a state from which a covering is
//! still reachable.

use vstd::prelude::*;

use crate::bitmask::Bitmask;
use crate::board::Board;
use crate::cover::{covered_by, coverable, loose_completes};
use crate::placement::{placed_ok, Placement, PositionedTile};
use crate::tile::{Tile, TileModel};

verus! {

/// The inputs a pruner was built for.
pub ghost struct PrunerCtx {
    /// The blocked cells of the board the search starts from.
    pub board: Bitmask,
    /// The tiles available to the search.
    pub tiles: Seq<TileModel>,
    pub rows: int,
    pub cols: int,
    /// The mask with one bit per board cell.
    pub full: Bitmask,
}

impl PrunerCtx {
    pub open spec fn wf(self) -> bool {
        &&& 0 <= self.rows
        &&& 0 <= self.cols
        &&& self.rows * self.cols <= 128
        &&& forall|i: int| #[trigger] self.full.has(i) <==> 0 <= i < self.rows * self.cols
        &&& forall|i: int| #[trigger] self.board.has(i) ==> self.full.has(i)
    }
}

/// Every cell of the pattern is open in `cur`.
pub open spec fn pattern_open(b: Bitmask, cur: Bitmask) -> bool {
    forall|i: int| #[trigger] b.has(i) ==> !cur.has(i)
}

/// A sound banned pattern: in any state at least as blocked as the initial
/// board in which the whole pattern is still open, no covering remains.
pub open spec fn banned_sound(b: Bitmask, ctx: PrunerCtx) -> bool {
    forall|cur: Bitmask|
        (forall|i: int| #[trigger] ctx.board.has(i) ==> cur.has(i)) && #[trigger] pattern_open(
            b,
            cur,
        ) ==> !coverable(cur, ctx.tiles, ctx.rows, ctx.cols, ctx.full)
}

/// No legal placement covering cell `idx` avoids the blocked cells of the
/// initial board: the cell can never be covered.
pub open spec fn cell_dead(
    idx: int,
    board: Bitmask,
    tiles: Seq<TileModel>,
    rows: int,
    cols: int,
) -> bool {
    forall|p: Placement|
        #[trigger] placed_ok(p, tiles, rows, cols) && p.mask.has(idx) ==> exists|i: int|
            p.mask.has(i) && board.has(i)
}

/// A single never-coverable open cell is a sound banned pattern.
proof fn lemma_singleton_sound(b: Bitmask, idx: int, ctx: PrunerCtx)
    requires
        ctx.wf(),
        cell_dead(idx, ctx.board, ctx.tiles, ctx.rows, ctx.cols),
        forall|i: int| #[trigger] b.has(i) <==> i == idx,
        0 <= idx < ctx.rows * ctx.cols,
    ensures
        banned_sound(b, ctx),
{
    assert forall|cur: Bitmask|
        (forall|i: int| #[trigger] ctx.board.has(i) ==> cur.has(i)) && #[trigger] pattern_open(
            b,
            cur,
        ) implies !coverable(cur, ctx.tiles, ctx.rows, ctx.cols, ctx.full) by {
        if coverable(cur, ctx.tiles, ctx.rows, ctx.cols, ctx.full) {
            let sel = choose|sel: Seq<Placement>|
                loose_completes(sel, cur, ctx.tiles, ctx.rows, ctx.cols, ctx.full);
            assert(b.has(idx));
            assert(!cur.has(idx));
            assert(ctx.full.has(idx));
            assert(covered_by(sel, idx));
            let k = choose|k: int| 0 <= k < sel.len() && (#[trigger] sel[k]).mask.has(idx);
            assert(placed_ok(sel[k], ctx.tiles, ctx.rows, ctx.cols));
            let i = choose|i: int| sel[k].mask.has(i) && ctx.board.has(i);
            assert(cur.has(i));
            assert(!cur.has(i));
        }
    }
}

/// A precomputed set of banned bit patterns used to reject dead branches.
pub struct Pruner {
    banned_bitmasks: Vec<Bitmask>,
    context: Ghost<PrunerCtx>,
}

impl Pruner {
    /// The inputs this pruner was built for.
    pub closed spec fn ctx(self) -> PrunerCtx {
        self.context@
    }

    /// The banned patterns the pruner holds.
    pub closed spec fn banned(self) -> Seq<Bitmask> {
        self.banned_bitmasks@
    }

    /// Every stored pattern is sound for the pruner's inputs.
    pub closed spec fn wf(self) -> bool {
        &&& self.ctx().wf()
        &&& forall|k: int|
            0 <= k < self.banned().len() ==> banned_sound(#[trigger] self.banned()[k], self.ctx())
    }

    /// Decides whether some banned pattern is entirely open in the given
    /// board state.  A `true` answer is a proof that no covering is reachable
    /// from any state at least as blocked as the initial board.
    pub fn prune(&self, current_board: &Bitmask) -> (r: bool)
        requires
            self.wf(),
        ensures
            r <==> exists|k: int|
                0 <= k < self.banned().len() && pattern_open(#[trigger] self.banned()[k], *current_board),
            r && (forall|i: int| #[trigger] self.ctx().board.has(i) ==> current_board.has(i))
                ==> !coverable(
                *current_board,
                self.ctx().tiles,
                self.ctx().rows,
                self.ctx().cols,
                self.ctx().full,
            ),
    {
        let n = self.banned_bitmasks.len();
        let mut k: usize = 0;
        while k < n
            invariant
                self.wf(),
                n == self.banned_bitmasks@.len(),
                k <= n,
                forall|m: int|
                    0 <= m < k ==> !pattern_open(#[trigger] self.banned_bitmasks@[m], *current_board),
            decreases n - k,
        {
            if !self.banned_bitmasks[k].overlaps(current_board) {
                assert(pattern_open(self.banned_bitmasks@[k as int], *current_board));
                assert(0 <= k < self.banned().len() && pattern_open(
                    self.banned()[k as int],
                    *current_board,
                ));
                proof {
                    if forall|i: int| #[trigger] self.ctx().board.has(i) ==> current_board.has(i) {
                        assert(banned_sound(self.banned()[k as int], self.ctx()));
                    }
                }
                return true;
            }
            proof {
                let i = choose|i: int|
                    #[trigger] self.banned_bitmasks@[k as int].has(i) && current_board.has(i);
                assert(!pattern_open(self.banned_bitmasks@[k as int], *current_board));
            }
            k = k + 1;
        }
        false
    }

    /// Scans the placement tables: does every placement covering `idx`
    /// overlap a blocked cell of the initial board?
    fn cell_covered_only_over_blocked(
        idx: usize,
        tables: &Vec<PositionedTile>,
        board_mask: &Bitmask,
        Ghost(tiles): Ghost<Seq<TileModel>>,
        Ghost(rows): Ghost<int>,
        Ghost(cols): Ghost<int>,
    ) -> (r: bool)
        requires
            idx < 128,
            tables@.len() == tiles.len(),
            forall|t: int|
                0 <= t < tables@.len() ==> (#[trigger] tables@[t]).wf(tiles[t], rows, cols),
        ensures
            r ==> cell_dead(idx as int, *board_mask, tiles, rows, cols),
    {
        let nt = tables.len();
        let mut t: usize = 0;
        while t < nt
            invariant
                idx < 128,
                nt == tables@.len(),
                tables@.len() == tiles.len(),
                forall|t2: int|
                    0 <= t2 < tables@.len() ==> (#[trigger] tables@[t2]).wf(tiles[t2], rows, cols),
                t <= nt,
                forall|t2: int, e: int|
                    0 <= t2 < t && 0 <= e < (#[trigger] tables@[t2]).placements@.len() && (
                    #[trigger] tables@[t2].placements@[e]).mask.has(idx as int) ==> exists|i: int|
                        tables@[t2].placements@[e].mask.has(i) && board_mask.has(i),
            decreases nt - t,
        {
            let ne = tables[t].placements.len();
            let mut e: usize = 0;
            while e < ne
                invariant
                    idx < 128,
                    nt == tables@.len(),
                    tables@.len() == tiles.len(),
                    forall|t2: int|
                        0 <= t2 < tables@.len() ==> (#[trigger] tables@[t2]).wf(
                            tiles[t2],
                            rows,
                            cols,
                        ),
                    t < nt,
                    e <= ne,
                    ne == tables@[t as int].placements@.len(),
                    forall|t2: int, e2: int|
                        0 <= t2 < t && 0 <= e2 < (#[trigger] tables@[t2]).placements@.len() && (
                        #[trigger] tables@[t2].placements@[e2]).mask.has(idx as int) ==> exists|
                            i: int,
                        |
                            tables@[t2].placements@[e2].mask.has(i) && board_mask.has(i),
                    forall|e2: int|
                        0 <= e2 < e && (#[trigger] tables@[t as int].placements@[e2]).mask.has(
                            idx as int,
                        ) ==> exists|i: int|
                            tables@[t as int].placements@[e2].mask.has(i) && board_mask.has(i),
                decreases ne - e,
            {
                let pm = tables[t].placements[e].mask;
                if pm.test(idx) && !pm.overlaps(board_mask) {
                    return false;
                }
                proof {
                    if pm.has(idx as int) {
                        assert(exists|i: int| #[trigger] pm.has(i) && board_mask.has(i));
                    }
                }
                e = e + 1;
            }
            t = t + 1;
        }
        proof {
            assert forall|p: Placement|
                #[trigger] placed_ok(p, tiles, rows, cols) && p.mask.has(idx as int) implies exists|
                i: int,
            |
                p.mask.has(i) && board_mask.has(i) by {
                let ti = p.tile_index as int;
                crate::cover::lemma_placement_in_table(
                    p,
                    tables@[ti].placements@,
                    tiles[ti],
                    rows,
                    cols,
                );
                let e2 = choose|e2: int|
                    0 <= e2 < tables@[ti].placements@.len() && (
                    #[trigger] tables@[ti].placements@[e2]).mask == p.mask;
                assert(tables@[ti].placements@[e2].mask.has(idx as int));
            }
        }
        true
    }

    /// Builds the pruner for filling a board with the given tiles: for every
    /// open cell that no placement can cover without touching an initially
    /// blocked cell, the pruner stores that cell as a banned pattern.
    pub fn new_for_filling(board: &Board, tiles: &Vec<Tile>) -> (res: Pruner)
        requires
            board.wf(),
            board@.rows * board@.cols <= 128,
            forall|k: int| 0 <= k < tiles@.len() ==> (#[trigger] tiles@[k])@.wf(),
        ensures
            res.wf(),
            res.ctx().rows == board@.rows,
            res.ctx().cols == board@.cols,
            res.ctx().tiles == tiles@.map_values(|t: Tile| t@),
            forall|i: int| #[trigger]
                res.ctx().board.has(i) <==> (0 <= i < board@.rows * board@.cols
                    && board@.cells[i]),
            forall|i: int| #[trigger] res.ctx().full.has(i) <==> 0 <= i < board@.rows * board@.cols,
    {
        let rows = board.rows();
        let cols = board.cols();
        let n = rows * cols;
        let board_mask = board.to_bitmask();
        let full = Bitmask::full_up_to(n);
        let ghost tmodels = tiles@.map_values(|t: Tile| t@);
        let ghost ctx = PrunerCtx {
            board: board_mask,
            tiles: tmodels,
            rows: rows as int,
            cols: cols as int,
            full,
        };

        let mut tables: Vec<PositionedTile> = Vec::new();
        let nt = tiles.len();
        let mut t: usize = 0;
        while t < nt
            invariant
                nt == tiles@.len(),
                rows * cols <= 128,
                rows == board@.rows,
                cols == board@.cols,
                forall|k: int| 0 <= k < tiles@.len() ==> (#[trigger] tiles@[k])@.wf(),
                tmodels == tiles@.map_values(|t2: Tile| t2@),
                t <= nt,
                tables@.len() == t,
                forall|t2: int|
                    0 <= t2 < t ==> (#[trigger] tables@[t2]).wf(
                        tmodels[t2],
                        rows as int,
                        cols as int,
                    ),
            decreases nt - t,
        {
            let pt = PositionedTile::new(t, &tiles[t], rows, cols);
            proof {
                assert(tiles@[t as int]@ == tmodels[t as int]);
            }
            tables.push(pt);
            t = t + 1;
        }

        let mut banned: Vec<Bitmask> = Vec::new();
        let mut idx: usize = 0;
        while idx < n
            invariant
                n == rows * cols,
                rows * cols <= 128,
                rows == board@.rows,
                cols == board@.cols,
                ctx == (PrunerCtx {
                    board: board_mask,
                    tiles: tmodels,
                    rows: rows as int,
                    cols: cols as int,
                    full,
                }),
                ctx.wf(),
                tables@.len() == tmodels.len(),
                forall|t2: int|
                    0 <= t2 < tables@.len() ==> (#[trigger] tables@[t2]).wf(
                        tmodels[t2],
                        rows as int,
                        cols as int,
                    ),
                idx <= n,
                forall|k: int|
                    0 <= k < banned@.len() ==> banned_sound(#[trigger] banned@[k], ctx),
            decreases n - idx,
        {
            if !board_mask.test(idx) {
                if Pruner::cell_covered_only_over_blocked(
                    idx,
                    &tables,
                    &board_mask,
                    Ghost(tmodels),
                    Ghost(rows as int),
                    Ghost(cols as int),
                ) {
                    let b = Bitmask::none().set(idx);
                    proof {
                        lemma_singleton_sound(b, idx as int, ctx);
                    }
                    banned.push(b);
                }
            }
            idx = idx + 1;
        }
        Pruner { banned_bitmasks: banned, context: Ghost(ctx) }
    }
}

} // verus!
