//! What it means for a set of placements to finish a board: the covering
//! predicates shared by the search and the pruner, and the exchange lemmas
//! the backtracking proof rests on.

use vstd::prelude::*;

use crate::bitmask::Bitmask;
use crate::placement::{entry_ok, lemma_mask_matches_unique, placed_ok, table_has, Placement};
use crate::tile::TileModel;

verus! {

/// Every selected placement is a legal placement of its tile.
pub open spec fn sel_placements_ok(
    sel: Seq<Placement>,
    tiles: Seq<TileModel>,
    rows: int,
    cols: int,
) -> bool {
    forall|k: int| 0 <= k < sel.len() ==> placed_ok(#[trigger] sel[k], tiles, rows, cols)
}

/// No selected placement uses a tile already marked used.
pub open spec fn sel_tiles_unused(sel: Seq<Placement>, used: Seq<bool>) -> bool {
    forall|k: int| 0 <= k < sel.len() ==> !used[(#[trigger] sel[k]).tile_index as int]
}

/// No tile is used by two selected placements.
pub open spec fn sel_tiles_distinct(sel: Seq<Placement>) -> bool {
    forall|k1: int, k2: int|
        0 <= k1 < k2 < sel.len() ==> (#[trigger] sel[k1]).tile_index != (#[trigger] sel[k2]).tile_index
}

/// No two selected placements cover a common cell.
pub open spec fn sel_pairwise_disjoint(sel: Seq<Placement>) -> bool {
    forall|k1: int, k2: int, i: int|
        #![trigger sel[k1].mask.has(i), sel[k2].mask.has(i)]
        0 <= k1 < k2 < sel.len() ==> !(sel[k1].mask.has(i) && sel[k2].mask.has(i))
}

/// Every selected placement covers only board cells that are still open.
pub open spec fn sel_on_open(sel: Seq<Placement>, current: Bitmask, full: Bitmask) -> bool {
    forall|k: int, i: int|
        #![trigger sel[k].mask.has(i)]
        0 <= k < sel.len() && sel[k].mask.has(i) ==> full.has(i) && !current.has(i)
}

/// Some selected placement covers cell `i`.
pub open spec fn covered_by(sel: Seq<Placement>, i: int) -> bool {
    exists|k: int| 0 <= k < sel.len() && (#[trigger] sel[k]).mask.has(i)
}

/// Every still-open board cell is covered by some selected placement.
pub open spec fn sel_covers_open(sel: Seq<Placement>, current: Bitmask, full: Bitmask) -> bool {
    forall|i: int| #[trigger] full.has(i) && !current.has(i) ==> covered_by(sel, i)
}

/// The selection finishes the board from state `current`: legal placements of
/// pairwise distinct, still-unused tiles, pairwise disjoint, lying exactly on
/// the open cells and covering all of them.
pub open spec fn completes(
    sel: Seq<Placement>,
    current: Bitmask,
    used: Seq<bool>,
    tiles: Seq<TileModel>,
    rows: int,
    cols: int,
    full: Bitmask,
) -> bool {
    &&& sel_placements_ok(sel, tiles, rows, cols)
    &&& sel_tiles_unused(sel, used)
    &&& sel_tiles_distinct(sel)
    &&& sel_pairwise_disjoint(sel)
    &&& sel_on_open(sel, current, full)
    &&& sel_covers_open(sel, current, full)
}

/// The selection finishes the board, with tile reuse allowed.
pub open spec fn loose_completes(
    sel: Seq<Placement>,
    current: Bitmask,
    tiles: Seq<TileModel>,
    rows: int,
    cols: int,
    full: Bitmask,
) -> bool {
    &&& sel_placements_ok(sel, tiles, rows, cols)
    &&& sel_on_open(sel, current, full)
    &&& sel_covers_open(sel, current, full)
}

/// Some selection of still-unused tiles finishes the board from `current`.
pub open spec fn solvable_from(
    current: Bitmask,
    used: Seq<bool>,
    tiles: Seq<TileModel>,
    rows: int,
    cols: int,
    full: Bitmask,
) -> bool {
    exists|sel: Seq<Placement>| completes(sel, current, used, tiles, rows, cols, full)
}

/// Some selection finishes the board from `current`, tile reuse allowed.
pub open spec fn coverable(
    current: Bitmask,
    tiles: Seq<TileModel>,
    rows: int,
    cols: int,
    full: Bitmask,
) -> bool {
    exists|sel: Seq<Placement>| loose_completes(sel, current, tiles, rows, cols, full)
}

/// A state that a distinct-tile selection finishes, some selection finishes.
pub proof fn lemma_solvable_coverable(
    current: Bitmask,
    used: Seq<bool>,
    tiles: Seq<TileModel>,
    rows: int,
    cols: int,
    full: Bitmask,
)
    requires
        solvable_from(current, used, tiles, rows, cols, full),
    ensures
        coverable(current, tiles, rows, cols, full),
{
    let sel = choose|sel: Seq<Placement>| completes(sel, current, used, tiles, rows, cols, full);
    assert(loose_completes(sel, current, tiles, rows, cols, full));
}

/// Removing one placement from a finishing selection leaves a selection that
/// finishes the state extended by that placement's cells.
pub proof fn lemma_completes_split(
    sel: Seq<Placement>,
    k: int,
    current: Bitmask,
    next: Bitmask,
    used: Seq<bool>,
    used2: Seq<bool>,
    tiles: Seq<TileModel>,
    rows: int,
    cols: int,
    full: Bitmask,
)
    requires
        completes(sel, current, used, tiles, rows, cols, full),
        0 <= k < sel.len(),
        used.len() == tiles.len(),
        0 <= sel[k].tile_index < used.len(),
        forall|i: int| #[trigger] next.has(i) == (current.has(i) || sel[k].mask.has(i)),
        used2 == used.update(sel[k].tile_index as int, true),
    ensures
        completes(sel.remove(k), next, used2, tiles, rows, cols, full),
{
    let s2 = sel.remove(k);
    assert forall|j: int| 0 <= j < s2.len() implies placed_ok(#[trigger] s2[j], tiles, rows, cols)
        && !used2[s2[j].tile_index as int] by {
        let j0 = if j < k {
            j
        } else {
            j + 1
        };
        assert(s2[j] == sel[j0]);
        assert(placed_ok(sel[j0], tiles, rows, cols));
        assert(!used[sel[j0].tile_index as int]);
        assert(sel[j0].tile_index != sel[k].tile_index);
    }
    assert forall|k1: int, k2: int|
        0 <= k1 < k2 < s2.len() implies (#[trigger] s2[k1]).tile_index
        != (#[trigger] s2[k2]).tile_index by {
        let j1 = if k1 < k {
            k1
        } else {
            k1 + 1
        };
        let j2 = if k2 < k {
            k2
        } else {
            k2 + 1
        };
        assert(s2[k1] == sel[j1] && s2[k2] == sel[j2]);
        assert(sel[j1].tile_index != sel[j2].tile_index);
    }
    assert forall|k1: int, k2: int, i: int|
        #![trigger s2[k1].mask.has(i), s2[k2].mask.has(i)]
        0 <= k1 < k2 < s2.len() implies !(s2[k1].mask.has(i) && s2[k2].mask.has(i)) by {
        let j1 = if k1 < k {
            k1
        } else {
            k1 + 1
        };
        let j2 = if k2 < k {
            k2
        } else {
            k2 + 1
        };
        assert(s2[k1] == sel[j1] && s2[k2] == sel[j2]);
        assert(!(sel[j1].mask.has(i) && sel[j2].mask.has(i)));
    }
    assert forall|j: int, i: int|
        #![trigger s2[j].mask.has(i)]
        0 <= j < s2.len() && s2[j].mask.has(i) implies full.has(i) && !next.has(i) by {
        let j0 = if j < k {
            j
        } else {
            j + 1
        };
        assert(s2[j] == sel[j0]);
        assert(sel[j0].mask.has(i));
        assert(full.has(i) && !current.has(i));
        if j0 < k {
            assert(!(sel[j0].mask.has(i) && sel[k].mask.has(i)));
        } else {
            assert(!(sel[k].mask.has(i) && sel[j0].mask.has(i)));
        }
    }
    assert forall|i: int| #[trigger] full.has(i) && !next.has(i) implies covered_by(s2, i) by {
        assert(!current.has(i));
        let j = choose|j: int| 0 <= j < sel.len() && (#[trigger] sel[j]).mask.has(i);
        assert(j != k);
        let j2 = if j < k {
            j
        } else {
            j - 1
        };
        assert(s2[j2] == sel[j]);
        assert(s2[j2].mask.has(i));
    }
}

/// A placement that fits the state, put in front of a selection finishing the
/// extended state, gives a selection finishing the state itself.
pub proof fn lemma_completes_extend(
    sel: Seq<Placement>,
    p: Placement,
    current: Bitmask,
    next: Bitmask,
    used: Seq<bool>,
    used2: Seq<bool>,
    tiles: Seq<TileModel>,
    rows: int,
    cols: int,
    full: Bitmask,
)
    requires
        completes(sel, next, used2, tiles, rows, cols, full),
        placed_ok(p, tiles, rows, cols),
        used.len() == tiles.len(),
        0 <= p.tile_index < used.len(),
        !used[p.tile_index as int],
        used2 == used.update(p.tile_index as int, true),
        forall|i: int| #[trigger] next.has(i) == (current.has(i) || p.mask.has(i)),
        forall|i: int| #[trigger] p.mask.has(i) ==> full.has(i) && !current.has(i),
    ensures
        completes(seq![p] + sel, current, used, tiles, rows, cols, full),
{
    let s2 = seq![p] + sel;
    assert(s2.len() == sel.len() + 1);
    assert(s2[0] == p);
    assert forall|j: int| 1 <= j < s2.len() implies #[trigger] s2[j] == sel[j - 1] by {}
    assert forall|j: int| 0 <= j < s2.len() implies placed_ok(#[trigger] s2[j], tiles, rows, cols)
        && !used[s2[j].tile_index as int] by {
        if j >= 1 {
            assert(s2[j] == sel[j - 1]);
            assert(placed_ok(sel[j - 1], tiles, rows, cols));
            assert(!used2[sel[j - 1].tile_index as int]);
        }
    }
    assert forall|k1: int, k2: int|
        0 <= k1 < k2 < s2.len() implies (#[trigger] s2[k1]).tile_index
        != (#[trigger] s2[k2]).tile_index by {
        if k1 == 0 {
            assert(s2[k2] == sel[k2 - 1]);
            assert(!used2[sel[k2 - 1].tile_index as int]);
            assert(used2[p.tile_index as int]);
        } else {
            assert(s2[k1] == sel[k1 - 1] && s2[k2] == sel[k2 - 1]);
            assert(sel[k1 - 1].tile_index != sel[k2 - 1].tile_index);
        }
    }
    assert forall|k1: int, k2: int, i: int|
        #![trigger s2[k1].mask.has(i), s2[k2].mask.has(i)]
        0 <= k1 < k2 < s2.len() implies !(s2[k1].mask.has(i) && s2[k2].mask.has(i)) by {
        if k1 == 0 {
            assert(s2[k2] == sel[k2 - 1]);
            if sel[k2 - 1].mask.has(i) {
                assert(!next.has(i));
            }
        } else {
            assert(s2[k1] == sel[k1 - 1] && s2[k2] == sel[k2 - 1]);
            assert(!(sel[k1 - 1].mask.has(i) && sel[k2 - 1].mask.has(i)));
        }
    }
    assert forall|j: int, i: int|
        #![trigger s2[j].mask.has(i)]
        0 <= j < s2.len() && s2[j].mask.has(i) implies full.has(i) && !current.has(i) by {
        if j == 0 {
            assert(p.mask.has(i));
        } else {
            assert(s2[j] == sel[j - 1]);
            assert(sel[j - 1].mask.has(i));
            assert(full.has(i) && !next.has(i));
        }
    }
    assert forall|i: int| #[trigger] full.has(i) && !current.has(i) implies covered_by(s2, i) by {
        if p.mask.has(i) {
            assert(s2[0].mask.has(i));
        } else {
            assert(!next.has(i));
            let j = choose|j: int| 0 <= j < sel.len() && (#[trigger] sel[j]).mask.has(i);
            assert(s2[j + 1] == sel[j]);
            assert(s2[j + 1].mask.has(i));
        }
    }
}

/// Every legal placement of a tile appears, with the same mask, in any sound
/// and exhaustive table for that tile.
pub proof fn lemma_placement_in_table(
    p: Placement,
    ps: Seq<Placement>,
    t: TileModel,
    rows: int,
    cols: int,
)
    requires
        entry_ok(p, t, rows, cols),
        forall|e: int| 0 <= e < ps.len() ==> entry_ok(#[trigger] ps[e], t, rows, cols),
        forall|k: int, r: int, c: int|
            0 <= k < t.variants.len() && #[trigger] crate::placement::fits(
                t.variants[k],
                r,
                c,
                rows,
                cols,
            ) ==> table_has(ps, k, r, c),
    ensures
        exists|e: int| 0 <= e < ps.len() && (#[trigger] ps[e]).mask == p.mask,
{
    assert(crate::placement::fits(
        t.variants[p.variant as int],
        p.row as int,
        p.col as int,
        rows,
        cols,
    ));
    assert(table_has(ps, p.variant as int, p.row as int, p.col as int));
    let e = choose|e: int|
        0 <= e < ps.len() && (#[trigger] ps[e]).variant == p.variant as int && ps[e].row
            == p.row as int && ps[e].col == p.col as int;
    assert(entry_ok(ps[e], t, rows, cols));
    lemma_mask_matches_unique(
        ps[e].mask,
        p.mask,
        t.variants[p.variant as int],
        p.row as int,
        p.col as int,
        cols,
    );
    assert(ps[e].mask == p.mask);
}

} // verus!
