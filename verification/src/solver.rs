//! The exact-cover backtracking search: branch on the lowest open cell, try
//! every non-overlapping placement that covers it, prune provably dead
//! branches, and poll the cancellation token at every frame.

use vstd::prelude::*;

use crate::bitmask::Bitmask;
use crate::board::{spec_trim, Board};
use crate::cover::{
    completes, covered_by, lemma_completes_extend, lemma_completes_split, lemma_placement_in_table,
    lemma_solvable_coverable, solvable_from,
};
use crate::grid::{lemma_rowmajor, GridModel};
use crate::placement::{entry_ok, fits, mask_matches, placed_ok, Placement, PositionedTile};
use crate::pruner::{Pruner, PrunerCtx};
use crate::result::{
    covers_cell, placement_valid, solution_valid, Solution, SolveResult, TilePlacement,
    UnsolvableReason,
};
use crate::tile::{Tile, TileModel};

verus! {

/// The models of a list of tiles.
pub open spec fn tile_models(ts: Seq<Tile>) -> Seq<TileModel> {
    ts.map_values(|t: Tile| t@)
}

/// Usage flags before any tile has been used.
pub open spec fn all_unused(n: nat) -> Seq<bool> {
    Seq::new(n, |k: int| false)
}

/// The open cells of the board can be covered exactly by placements of
/// pairwise distinct tiles.
pub open spec fn board_solvable(g: GridModel, tiles: Seq<TileModel>) -> bool {
    exists|start: Bitmask, full: Bitmask|
        #![trigger solvable_from(
            start,
            all_unused(tiles.len()),
            tiles,
            g.rows as int,
            g.cols as int,
            full,
        )]
        (forall|i: int| #[trigger] start.has(i) <==> (0 <= i < g.rows * g.cols && g.cells[i]))
            && (forall|i: int| #[trigger] full.has(i) <==> 0 <= i < g.rows * g.cols)
            && solvable_from(
            start,
            all_unused(tiles.len()),
            tiles,
            g.rows as int,
            g.cols as int,
            full,
        )
}

/// Solvability of a board is decided by any pair of masks that pack its
/// blocked cells and its cell range.
proof fn lemma_board_solvable_iff(
    g: GridModel,
    tiles: Seq<TileModel>,
    start: Bitmask,
    full: Bitmask,
)
    requires
        forall|i: int| #[trigger] start.has(i) <==> (0 <= i < g.rows * g.cols && g.cells[i]),
        forall|i: int| #[trigger] full.has(i) <==> 0 <= i < g.rows * g.cols,
    ensures
        board_solvable(g, tiles) <==> solvable_from(
            start,
            all_unused(tiles.len()),
            tiles,
            g.rows as int,
            g.cols as int,
            full,
        ),
{
    if board_solvable(g, tiles) {
        let (s2, f2) = choose|s2: Bitmask, f2: Bitmask|
            #![trigger solvable_from(
                s2,
                all_unused(tiles.len()),
                tiles,
                g.rows as int,
                g.cols as int,
                f2,
            )]
            (forall|i: int| #[trigger] s2.has(i) <==> (0 <= i < g.rows * g.cols && g.cells[i]))
                && (forall|i: int| #[trigger] f2.has(i) <==> 0 <= i < g.rows * g.cols)
                && solvable_from(
                s2,
                all_unused(tiles.len()),
                tiles,
                g.rows as int,
                g.cols as int,
                f2,
            );
        assert forall|i: int| s2.has(i) == start.has(i) by {}
        assert forall|i: int| f2.has(i) == full.has(i) by {}
        Bitmask::lemma_ext(s2, start);
        Bitmask::lemma_ext(f2, full);
    }
}

/// Everything the recursive search leaves unchanged: the tiles, their
/// placement tables, the board dimensions, the cell-range mask and a pruner
/// built for exactly these inputs.
pub open spec fn ctx_ok(
    tiles: Seq<Tile>,
    tables: Seq<PositionedTile>,
    rows: int,
    cols: int,
    full: Bitmask,
    pruner: Pruner,
    board0: Bitmask,
) -> bool {
    &&& 0 <= rows
    &&& 0 <= cols
    &&& rows * cols <= 128
    &&& forall|k: int| 0 <= k < tiles.len() ==> (#[trigger] tiles[k])@.wf()
    &&& tables.len() == tiles.len()
    &&& forall|k: int|
        0 <= k < tables.len() ==> (#[trigger] tables[k]).wf(tile_models(tiles)[k], rows, cols)
            && tables[k].tile_index == k
    &&& forall|i: int| #[trigger] full.has(i) <==> 0 <= i < rows * cols
    &&& forall|i: int| #[trigger] board0.has(i) ==> full.has(i)
    &&& pruner.wf()
    &&& pruner.ctx() == (PrunerCtx { board: board0, tiles: tile_models(tiles), rows, cols, full })
}

/// No entry among the first `e` of the table has mask `m`.
spec fn no_entry_match(ps: Seq<Placement>, e: int, m: Bitmask) -> bool {
    forall|j: int| 0 <= j < e ==> (#[trigger] ps[j]).mask != m
}

/// How one recursion frame of the search ended.
enum SearchStep {
    /// The accumulated stack completes the board.
    Found,
    /// No covering is reachable from this state.
    Exhausted,
    /// The cancellation token was set.
    Interrupted,
}

/// One frame of the backtracking search on state `current`.
///
/// On `Found`, the placements pushed onto the stack complete the board from
/// `current` using only tiles unused on entry.  On `Exhausted`, the stack and
/// the usage flags are restored and no completion exists.  On `Interrupted`,
/// the stack and the usage flags are restored.
fn search(
    current: Bitmask,
    used: &mut Vec<bool>,
    stack: &mut Vec<Placement>,
    tiles: &Vec<Tile>,
    tables: &Vec<PositionedTile>,
    pruner: &Pruner,
    token: &tokio_util::sync::CancellationToken,
    rows: usize,
    cols: usize,
    full: Bitmask,
    Ghost(board0): Ghost<Bitmask>,
) -> (res: SearchStep)
    requires
        ctx_ok(tiles@, tables@, rows as int, cols as int, full, *pruner, board0),
        old(used)@.len() == tiles@.len(),
        forall|i: int| #[trigger] current.has(i) ==> full.has(i),
        forall|i: int| #[trigger] board0.has(i) ==> current.has(i),
    ensures
        final (used)@.len() == old(used)@.len(),
        res == SearchStep::Found ==> {
            &&& final (stack)@.len() >= old(stack)@.len()
            &&& (forall|k: int| 0 <= k < old(stack)@.len() ==> final (stack)@[k] == old(stack)@[k])
            &&& completes(
                final (stack)@.skip(old(stack)@.len() as int),
                current,
                old(used)@,
                tile_models(tiles@),
                rows as int,
                cols as int,
                full,
            )
        },
        res == SearchStep::Exhausted ==> {
            &&& final (used)@ == old(used)@
            &&& final (stack)@ == old(stack)@
            &&& !solvable_from(
                current,
                old(used)@,
                tile_models(tiles@),
                rows as int,
                cols as int,
                full,
            )
        },
        res == SearchStep::Interrupted ==> final (used)@ == old(used)@ && final (stack)@ == old(
            stack,
        )@,
    decreases 128 - current.card(),
{
    let ghost tm = tile_models(tiles@);
    let ghost used0 = used@;
    let ghost stack0 = stack@;

    if current.equals(&full) {
        proof {
            let ext = stack@.skip(stack0.len() as int);
            assert(ext.len() == 0);
            assert(completes(ext, current, used0, tm, rows as int, cols as int, full)) by {
                assert forall|i: int| #[trigger] full.has(i) && !current.has(i) implies covered_by(
                    ext,
                    i,
                ) by {
                    assert(current.has(i) == full.has(i));
                }
            }
        }
        return SearchStep::Found;
    }

    if token.is_cancelled() {
        return SearchStep::Interrupted;
    }

    if pruner.prune(&current) {
        proof {
            if solvable_from(current, used0, tm, rows as int, cols as int, full) {
                lemma_solvable_coverable(current, used0, tm, rows as int, cols as int, full);
            }
        }
        return SearchStep::Exhausted;
    }

    let n = rows * cols;
    let ghost iopen = choose|i: int| #[trigger] full.has(i) && !current.has(i);
    proof {
        assert(exists|i: int| #[trigger] full.has(i) && !current.has(i)) by {
            let j = choose|j: int| #[trigger] current.has(j) != full.has(j);
            assert(full.has(j) && !current.has(j));
        }
        assert(full.has(iopen) && !current.has(iopen));
        assert(0 <= iopen < n);
    }

    let mut target: usize = 0;
    while current.test(target)
        invariant
            0 <= target <= iopen,
            iopen < n,
            n == rows * cols,
            n <= 128,
            full.has(iopen) && !current.has(iopen),
        decreases iopen - target,
    {
        proof {
            if target == iopen {
                assert(false);
            }
        }
        target = target + 1;
    }
    assert(!current.has(target as int));
    assert(full.has(target as int));

    let ntiles = tiles.len();
    let mut t: usize = 0;
    while t < ntiles
        invariant
            ctx_ok(tiles@, tables@, rows as int, cols as int, full, *pruner, board0),
            tm == tile_models(tiles@),
            ntiles == tiles@.len(),
            used@ == used0,
            stack@ == stack0,
            used0 == old(used)@,
            stack0 == old(stack)@,
            used0.len() == tiles@.len(),
            forall|i: int| #[trigger] current.has(i) ==> full.has(i),
            forall|i: int| #[trigger] board0.has(i) ==> current.has(i),
            n == rows * cols,
            n <= 128,
            0 <= target < n,
            !current.has(target as int),
            full.has(target as int),
            t <= ntiles,
            forall|sel: Seq<Placement>, k: int|
                #![trigger completes(sel, current, used0, tm, rows as int, cols as int, full), sel[k]]
                completes(sel, current, used0, tm, rows as int, cols as int, full) && 0 <= k
                    < sel.len() && sel[k].mask.has(target as int) ==> sel[k].tile_index >= t,
        decreases ntiles - t,
    {
        if !used[t] {
            let ne = tables[t].placements.len();
            let mut e: usize = 0;
            while e < ne
                invariant
                    ctx_ok(tiles@, tables@, rows as int, cols as int, full, *pruner, board0),
                    tm == tile_models(tiles@),
                    ntiles == tiles@.len(),
                    used@ == used0,
                    stack@ == stack0,
                    used0 == old(used)@,
                    stack0 == old(stack)@,
                    used0.len() == tiles@.len(),
                    forall|i: int| #[trigger] current.has(i) ==> full.has(i),
                    forall|i: int| #[trigger] board0.has(i) ==> current.has(i),
                    n == rows * cols,
                    n <= 128,
                    0 <= target < n,
                    !current.has(target as int),
                    full.has(target as int),
                    t < ntiles,
                    !used0[t as int],
                    e <= ne,
                    ne == tables@[t as int].placements@.len(),
                    forall|sel: Seq<Placement>, k: int|
                        #![trigger completes(sel, current, used0, tm, rows as int, cols as int, full), sel[k]]
                        completes(sel, current, used0, tm, rows as int, cols as int, full) && 0 <= k
                            < sel.len() && sel[k].mask.has(target as int) ==> sel[k].tile_index
                            >= t,
                    forall|sel: Seq<Placement>, k: int|
                        #![trigger completes(sel, current, used0, tm, rows as int, cols as int, full), sel[k]]
                        completes(sel, current, used0, tm, rows as int, cols as int, full) && 0 <= k
                            < sel.len() && sel[k].mask.has(target as int) && sel[k].tile_index == t
                            ==> no_entry_match(
                            tables@[t as int].placements@,
                            e as int,
                            sel[k].mask,
                        ),
                decreases ne - e,
            {
                let p = tables[t].placements[e];
                proof {
                    assert(entry_ok(p, tm[t as int], rows as int, cols as int));
                    assert(p.tile_index == t) by {
                        assert(tables@[t as int].wf(tm[t as int], rows as int, cols as int));
                    }
                }
                let cv = p.mask.test(target);
                let ov = p.mask.overlaps(&current);
                if cv && !ov {
                    proof {
                        assert(placed_ok(p, tm, rows as int, cols as int));
                        crate::placement::lemma_mask_matches_range(
                            p.mask,
                            tm[t as int].variants[p.variant as int],
                            p.row as int,
                            p.col as int,
                            rows as int,
                            cols as int,
                        );
                        assert forall|i: int| #[trigger] p.mask.has(i) implies full.has(i)
                            && !current.has(i) by {
                            assert(0 <= i < rows as int * cols as int);
                        }
                    }
                    let next = current.or(&p.mask);
                    proof {
                        assert(next.card() == current.card() + p.mask.card()) by {
                            if exists|i: int| #[trigger] current.has(i) && p.mask.has(i) {
                                let i = choose|i: int|
                                    #[trigger] current.has(i) && p.mask.has(i);
                                assert(!current.has(i));
                            }
                        }
                        p.mask.lemma_card_pos(target as int);
                        next.lemma_card_le();
                    }
                    used.set(t, true);
                    stack.push(p);
                    let ghost used_mid = used@;
                    let ghost stack_mid = stack@;
                    let step = search(
                        next,
                        used,
                        stack,
                        tiles,
                        tables,
                        pruner,
                        token,
                        rows,
                        cols,
                        full,
                        Ghost(board0),
                    );
                    match step {
                        SearchStep::Found => {
                            proof {
                                let whole = stack@.skip(stack0.len() as int);
                                let rest = stack@.skip(stack_mid.len() as int);
                                lemma_completes_extend(
                                    rest,
                                    p,
                                    current,
                                    next,
                                    used0,
                                    used_mid,
                                    tm,
                                    rows as int,
                                    cols as int,
                                    full,
                                );
                                assert(whole =~= seq![p] + rest) by {
                                    assert(stack@[stack0.len() as int] == stack_mid[stack0.len() as int]);
                                    assert(stack_mid[stack0.len() as int] == p);
                                    assert forall|j: int| 0 <= j < whole.len() implies whole[j] == (
                                    seq![p] + rest)[j] by {
                                        if j == 0 {
                                            assert(whole[0] == stack@[stack0.len() as int]);
                                        } else {
                                            assert(whole[j] == stack@[stack0.len() + j]);
                                            assert((seq![p] + rest)[j] == rest[j - 1]);
                                            assert(rest[j - 1] == stack@[stack_mid.len() + j - 1]);
                                        }
                                    }
                                }
                                assert(completes(
                                    whole,
                                    current,
                                    used0,
                                    tm,
                                    rows as int,
                                    cols as int,
                                    full,
                                ));
                                assert forall|k: int| 0 <= k < stack0.len() implies stack@[k]
                                    == stack0[k] by {
                                    assert(stack@[k] == stack_mid[k]);
                                }
                            }
                            return SearchStep::Found;
                        },
                        SearchStep::Interrupted => {
                            used.set(t, false);
                            let _ = stack.pop();
                            proof {
                                assert(used@ =~= used0);
                                assert(stack@ =~= stack0);
                            }
                            return SearchStep::Interrupted;
                        },
                        SearchStep::Exhausted => {
                            used.set(t, false);
                            let _ = stack.pop();
                            proof {
                                assert(used@ =~= used0);
                                assert(stack@ =~= stack0);
                                assert forall|sel: Seq<Placement>, k: int|
                                    #![trigger completes(sel, current, used0, tm, rows as int, cols as int, full), sel[k]]
                                    completes(sel, current, used0, tm, rows as int, cols as int, full)
                                        && 0 <= k < sel.len() && sel[k].mask.has(target as int)
                                        && sel[k].tile_index == t && sel[k].mask
                                        == p.mask implies false by {
                                    lemma_completes_split(
                                        sel,
                                        k,
                                        current,
                                        next,
                                        used0,
                                        used_mid,
                                        tm,
                                        rows as int,
                                        cols as int,
                                        full,
                                    );
                                    assert(solvable_from(
                                        next,
                                        used_mid,
                                        tm,
                                        rows as int,
                                        cols as int,
                                        full,
                                    ));
                                }
                                assert forall|sel: Seq<Placement>, k: int|
                                    #![trigger completes(sel, current, used0, tm, rows as int, cols as int, full), sel[k]]
                                    completes(sel, current, used0, tm, rows as int, cols as int, full)
                                        && 0 <= k < sel.len() && sel[k].mask.has(target as int)
                                        && sel[k].tile_index == t implies no_entry_match(
                                    tables@[t as int].placements@,
                                    e + 1,
                                    sel[k].mask,
                                ) by {
                                    assert(no_entry_match(
                                        tables@[t as int].placements@,
                                        e as int,
                                        sel[k].mask,
                                    ));
                                    assert forall|j: int| 0 <= j < e + 1 implies (
                                    #[trigger] tables@[t as int].placements@[j]).mask
                                        != sel[k].mask by {
                                        if j == e {
                                            assert(tables@[t as int].placements@[j] == p);
                                        }
                                    }
                                }
                            }
                        },
                    }
                } else {
                    proof {
                        assert forall|sel: Seq<Placement>, k: int|
                            #![trigger completes(sel, current, used0, tm, rows as int, cols as int, full), sel[k]]
                            completes(sel, current, used0, tm, rows as int, cols as int, full) && 0
                                <= k < sel.len() && sel[k].mask.has(target as int)
                                && sel[k].tile_index == t implies no_entry_match(
                            tables@[t as int].placements@,
                            e + 1,
                            sel[k].mask,
                        ) by {
                            assert(no_entry_match(
                                tables@[t as int].placements@,
                                e as int,
                                sel[k].mask,
                            ));
                            assert forall|j: int| 0 <= j < e + 1 implies (
                            #[trigger] tables@[t as int].placements@[j]).mask != sel[k].mask by {
                                if j == e {
                                    if sel[k].mask == p.mask {
                                        if !cv {
                                            assert(p.mask.has(target as int));
                                        } else {
                                            let i = choose|i: int|
                                                #[trigger] p.mask.has(i) && current.has(i);
                                            assert(sel[k].mask.has(i));
                                            assert(!current.has(i));
                                        }
                                    }
                                    assert(tables@[t as int].placements@[j] == p);
                                }
                            }
                        }
                    }
                }
                e = e + 1;
            }
            proof {
                assert forall|sel: Seq<Placement>, k: int|
                    #![trigger completes(sel, current, used0, tm, rows as int, cols as int, full), sel[k]]
                    completes(sel, current, used0, tm, rows as int, cols as int, full) && 0 <= k
                        < sel.len() && sel[k].mask.has(target as int) implies sel[k].tile_index >= t
                    + 1 by {
                    if sel[k].tile_index == t {
                        assert(placed_ok(sel[k], tm, rows as int, cols as int));
                        lemma_placement_in_table(
                            sel[k],
                            tables@[t as int].placements@,
                            tm[t as int],
                            rows as int,
                            cols as int,
                        );
                        let e2 = choose|e2: int|
                            0 <= e2 < tables@[t as int].placements@.len() && (
                            #[trigger] tables@[t as int].placements@[e2]).mask == sel[k].mask;
                        assert(no_entry_match(
                            tables@[t as int].placements@,
                            ne as int,
                            sel[k].mask,
                        ));
                    }
                }
            }
        } else {
            proof {
                assert forall|sel: Seq<Placement>, k: int|
                    #![trigger completes(sel, current, used0, tm, rows as int, cols as int, full), sel[k]]
                    completes(sel, current, used0, tm, rows as int, cols as int, full) && 0 <= k
                        < sel.len() && sel[k].mask.has(target as int) implies sel[k].tile_index >= t
                    + 1 by {
                    if sel[k].tile_index == t {
                        assert(!used0[sel[k].tile_index as int]);
                    }
                }
            }
        }
        t = t + 1;
    }
    proof {
        if solvable_from(current, used0, tm, rows as int, cols as int, full) {
            let sel = choose|sel: Seq<Placement>|
                completes(sel, current, used0, tm, rows as int, cols as int, full);
            assert(covered_by(sel, target as int));
            let k = choose|k: int| 0 <= k < sel.len() && (#[trigger] sel[k]).mask.has(target as int);
            assert(placed_ok(sel[k], tm, rows as int, cols as int));
            assert(sel[k].tile_index >= ntiles);
            assert(false);
        }
    }
    SearchStep::Exhausted
}


/// The solution placement mirrors the search placement: same tile, the
/// variant grid the index picks, and the same offset.
spec fn linked(tp: TilePlacement, p: Placement, tiles: Seq<TileModel>) -> bool {
    &&& tp.tile_index == p.tile_index
    &&& 0 <= p.tile_index < tiles.len()
    &&& tp.base@ == tiles[p.tile_index as int].base
    &&& 0 <= p.variant < tiles[p.tile_index as int].variants.len()
    &&& tp.rotation@ == tiles[p.tile_index as int].variants[p.variant as int]
    &&& tp.position.0 == p.row
    &&& tp.position.1 == p.col
}

/// The cells a solution placement covers are exactly the bits of the search
/// placement's mask.
proof fn lemma_covers_mask(
    tp: TilePlacement,
    p: Placement,
    tiles: Seq<TileModel>,
    rows: int,
    cols: int,
)
    requires
        placed_ok(p, tiles, rows, cols),
        linked(tp, p, tiles),
    ensures
        forall|i: int, j: int| #[trigger]
            covers_cell(tp, i, j) ==> 0 <= i < rows && 0 <= j < cols && p.mask.has(i * cols + j),
        forall|i: int, j: int|
            #![trigger covers_cell(tp, i, j)]
            0 <= i < rows && 0 <= j < cols && p.mask.has(i * cols + j) ==> covers_cell(tp, i, j),
{
    let ti = p.tile_index as int;
    let v = tiles[ti].variants[p.variant as int];
    assert(entry_ok(p, tiles[ti], rows, cols));
    assert(fits(v, p.row as int, p.col as int, rows, cols));
    assert(mask_matches(p.mask, v, p.row as int, p.col as int, cols));
    assert forall|i: int, j: int| #[trigger] covers_cell(tp, i, j) implies 0 <= i < rows && 0 <= j
        < cols && p.mask.has(i * cols + j) by {
        let a = i - p.row;
        let b = j - p.col;
        assert(v.in_bounds(a, b) && v.cell(a, b));
        assert(p.mask.has((p.row + a) * cols + (p.col + b)));
        assert((p.row + a) * cols + (p.col + b) == i * cols + j);
    }
    assert forall|i: int, j: int|
        0 <= i < rows && 0 <= j < cols && p.mask.has(i * cols + j) implies covers_cell(
        tp,
        i,
        j,
    ) by {
        let idx = i * cols + j;
        let (a, b) = choose|a: int, b: int|
            v.in_bounds(a, b) && v.cell(a, b) && idx == (p.row + a) * cols + (p.col + b);
        lemma_rowmajor(i, j, rows, cols);
        lemma_rowmajor(p.row + a, p.col + b, rows, cols);
        assert(i == p.row + a && j == p.col + b);
    }
}

/// A selection that completes the untouched board, rendered as solution
/// placements, is a valid solution: distinct tiles, no overlaps, and an
/// exact cover of the open cells.
proof fn lemma_solution_valid(
    sol: Seq<TilePlacement>,
    sel: Seq<Placement>,
    g: GridModel,
    tiles: Seq<TileModel>,
    start: Bitmask,
    full: Bitmask,
)
    requires
        g.wf(),
        g.rows * g.cols <= 128,
        forall|t: int| 0 <= t < tiles.len() ==> (#[trigger] tiles[t]).wf(),
        forall|i: int| #[trigger] start.has(i) <==> (0 <= i < g.rows * g.cols && g.cells[i]),
        forall|i: int| #[trigger] full.has(i) <==> 0 <= i < g.rows * g.cols,
        completes(sel, start, all_unused(tiles.len()), tiles, g.rows as int, g.cols as int, full),
        sol.len() == sel.len(),
        forall|k: int| 0 <= k < sol.len() ==> linked(#[trigger] sol[k], sel[k], tiles),
    ensures
        solution_valid(sol, g, tiles),
{
    let rows = g.rows as int;
    let cols = g.cols as int;
    assert forall|k: int| 0 <= k < sol.len() implies placement_valid(
        #[trigger] sol[k],
        g,
        tiles,
    ) by {
        assert(placed_ok(sel[k], tiles, rows, cols));
        let ti = sel[k].tile_index as int;
        assert(tiles[ti].wf());
        assert(tiles[ti].variants[sel[k].variant as int] == sol[k].rotation@);
        assert(tiles[ti].contains_variant(sol[k].rotation@));
        assert(fits(sol[k].rotation@, sol[k].position.0 as int, sol[k].position.1 as int, rows, cols));
    }
    assert forall|k1: int, k2: int|
        0 <= k1 < k2 < sol.len() implies (#[trigger] sol[k1]).tile_index
        != (#[trigger] sol[k2]).tile_index by {
        assert(sel[k1].tile_index != sel[k2].tile_index);
        assert(linked(sol[k1], sel[k1], tiles) && linked(sol[k2], sel[k2], tiles));
    }
    assert forall|k1: int, k2: int, i: int, j: int|
        #![trigger covers_cell(sol[k1], i, j), covers_cell(sol[k2], i, j)]
        0 <= k1 < k2 < sol.len() implies !(covers_cell(sol[k1], i, j) && covers_cell(
        sol[k2],
        i,
        j,
    )) by {
        if covers_cell(sol[k1], i, j) && covers_cell(sol[k2], i, j) {
            assert(placed_ok(sel[k1], tiles, rows, cols));
            assert(placed_ok(sel[k2], tiles, rows, cols));
            lemma_covers_mask(sol[k1], sel[k1], tiles, rows, cols);
            lemma_covers_mask(sol[k2], sel[k2], tiles, rows, cols);
            assert(sel[k1].mask.has(i * cols + j) && sel[k2].mask.has(i * cols + j));
        }
    }
    assert forall|i: int, j: int| g.in_bounds(i, j) implies (!(#[trigger] g.cell(i, j)) <==> exists|
        k: int,
    | 0 <= k < sol.len() && covers_cell(#[trigger] sol[k], i, j)) by {
        lemma_rowmajor(i, j, rows, cols);
        let idx = i * cols + j;
        assert(g.cell(i, j) == g.cells[idx]);
        assert(full.has(idx));
        if !g.cell(i, j) {
            assert(!start.has(idx));
            assert(covered_by(sel, idx));
            let k = choose|k: int| 0 <= k < sel.len() && (#[trigger] sel[k]).mask.has(idx);
            assert(placed_ok(sel[k], tiles, rows, cols));
            lemma_covers_mask(sol[k], sel[k], tiles, rows, cols);
            assert(covers_cell(sol[k], i, j));
        } else {
            assert(start.has(idx));
            assert forall|k: int| 0 <= k < sol.len() implies !covers_cell(
                #[trigger] sol[k],
                i,
                j,
            ) by {
                if covers_cell(sol[k], i, j) {
                    assert(placed_ok(sel[k], tiles, rows, cols));
                    lemma_covers_mask(sol[k], sel[k], tiles, rows, cols);
                    assert(sel[k].mask.has(idx));
                    assert(!start.has(idx));
                }
            }
        }
    }
}

/// Decides whether the given tiles can exactly cover the open cells of the
/// board, each tile used at most once and in any of its orientations.
///
/// The board is trimmed to the bounding box of its open cells first.  A board
/// whose trimmed cell count exceeds the bitmask capacity is rejected as
/// `BoardTooLarge` before the search starts.  Otherwise the search runs to
/// the end and the outcome is exact: `Solved` with a valid witness covering
/// exactly when a covering exists, `Unsolvable(NoFit)` when none does —
/// unless a cancellation request arrives first, in which case `Cancelled`
/// is returned.
pub fn solve_all_filling(
    board: &Board,
    tiles: &Vec<Tile>,
    cancel_token: &tokio_util::sync::CancellationToken,
) -> (res: SolveResult)
    requires
        board.wf(),
        forall|k: int| 0 <= k < tiles@.len() ==> (#[trigger] tiles@[k])@.wf(),
    ensures
        (res == SolveResult::Unsolvable(UnsolvableReason::BoardTooLarge)) <==> spec_trim(board@).rows
            * spec_trim(board@).cols > 128,
        res matches SolveResult::Solved(sol) ==> solution_valid(
            sol.placements@,
            spec_trim(board@),
            tile_models(tiles@),
        ),
        res == SolveResult::Unsolvable(UnsolvableReason::NoFit) ==> !board_solvable(
            spec_trim(board@),
            tile_models(tiles@),
        ),
        spec_trim(board@).rows * spec_trim(board@).cols <= 128 && res != SolveResult::Cancelled
            ==> ((res matches SolveResult::Solved(_)) <==> board_solvable(
            spec_trim(board@),
            tile_models(tiles@),
        )),
{
    let ghost g = spec_trim(board@);
    let ghost tm = tile_models(tiles@);
    let mut b = board.clone();
    b.trim();
    proof {
        crate::board::lemma_trim_wf(board@);
    }
    let rows = b.rows();
    let cols = b.cols();
    let n: usize;
    match rows.checked_mul(cols) {
        Some(v) => {
            n = v;
        },
        None => {
            return SolveResult::Unsolvable(UnsolvableReason::BoardTooLarge);
        },
    }
    if n > 128 {
        return SolveResult::Unsolvable(UnsolvableReason::BoardTooLarge);
    }

    let full = Bitmask::full_up_to(n);
    let start = b.to_bitmask();
    let pruner = Pruner::new_for_filling(&b, tiles);
    proof {
        Bitmask::lemma_ext(pruner.ctx().board, start);
        Bitmask::lemma_ext(pruner.ctx().full, full);
        assert(pruner.ctx() == (PrunerCtx {
            board: start,
            tiles: tm,
            rows: rows as int,
            cols: cols as int,
            full,
        }));
    }

    let ntiles = tiles.len();
    let mut tables: Vec<PositionedTile> = Vec::new();
    let mut t: usize = 0;
    while t < ntiles
        invariant
            ntiles == tiles@.len(),
            rows * cols <= 128,
            n == rows * cols,
            forall|k: int| 0 <= k < tiles@.len() ==> (#[trigger] tiles@[k])@.wf(),
            tm == tile_models(tiles@),
            t <= ntiles,
            tables@.len() == t,
            forall|k: int|
                0 <= k < t ==> (#[trigger] tables@[k]).wf(tm[k], rows as int, cols as int)
                    && tables@[k].tile_index == k,
        decreases ntiles - t,
    {
        let pt = PositionedTile::new(t, &tiles[t], rows, cols);
        proof {
            assert(tiles@[t as int]@ == tm[t as int]);
        }
        tables.push(pt);
        t = t + 1;
    }

    let mut used: Vec<bool> = Vec::new();
    let mut k0: usize = 0;
    while k0 < ntiles
        invariant
            ntiles == tiles@.len(),
            k0 <= ntiles,
            used@.len() == k0,
            forall|m: int| 0 <= m < k0 ==> used@[m] == false,
        decreases ntiles - k0,
    {
        used.push(false);
        k0 = k0 + 1;
    }
    proof {
        assert(used@ =~= all_unused(tm.len()));
    }

    let mut stack: Vec<Placement> = Vec::new();
    proof {
        assert(ctx_ok(tiles@, tables@, rows as int, cols as int, full, pruner, start));
    }
    let step = search(
        start,
        &mut used,
        &mut stack,
        tiles,
        &tables,
        &pruner,
        cancel_token,
        rows,
        cols,
        full,
        Ghost(start),
    );
    match step {
        SearchStep::Found => {
            proof {
                assert(stack@.skip(0) =~= stack@);
                assert(completes(
                    stack@,
                    start,
                    all_unused(tm.len()),
                    tm,
                    rows as int,
                    cols as int,
                    full,
                ));
            }
            let ghost sel = stack@;
            let mut placements: Vec<TilePlacement> = Vec::new();
            let m = stack.len();
            let mut k: usize = 0;
            while k < m
                invariant
                    m == stack@.len(),
                    sel == stack@,
                    tm == tile_models(tiles@),
                    tm.len() == tiles@.len(),
                    rows * cols <= 128,
                    forall|x: int| 0 <= x < m ==> placed_ok(#[trigger] sel[x], tm, rows as int, cols as int),
                    k <= m,
                    placements@.len() == k,
                    forall|x: int| 0 <= x < k ==> linked(#[trigger] placements@[x], sel[x], tm),
                decreases m - k,
            {
                let p = stack[k];
                proof {
                    assert(placed_ok(sel[k as int], tm, rows as int, cols as int));
                    assert(tm[p.tile_index as int] == tiles@[p.tile_index as int]@);
                }
                let tp = TilePlacement {
                    tile_index: p.tile_index,
                    base: tiles[p.tile_index].base.clone(),
                    rotation: tiles[p.tile_index].all_rotations[p.variant].clone(),
                    position: (p.row, p.col),
                };
                placements.push(tp);
                k = k + 1;
            }
            proof {
                lemma_solution_valid(placements@, sel, g, tm, start, full);
                assert(solvable_from(
                    start,
                    all_unused(tm.len()),
                    tm,
                    rows as int,
                    cols as int,
                    full,
                ));
                lemma_board_solvable_iff(g, tm, start, full);
            }
            SolveResult::Solved(Solution { placements })
        },
        SearchStep::Exhausted => {
            proof {
                lemma_board_solvable_iff(g, tm, start, full);
            }
            SolveResult::Unsolvable(UnsolvableReason::NoFit)
        },
        SearchStep::Interrupted => SolveResult::Cancelled,
    }
}

} // verus!
