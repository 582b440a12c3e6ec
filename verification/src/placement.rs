//! Pre-rendered tile placements: for one tile and one board size, every legal
//! `(variant, offset)` pair, each with its covering bitmask.

use vstd::prelude::*;

use vstd::relations::injective_on;
use vstd::set_lib::lemma_map_size;

use crate::bitmask::{has_set, Bitmask};
use crate::grid::{
    count_true, filled_set, lemma_count_true_is_filled_card, lemma_rowmajor, Grid, GridModel,
};
use crate::tile::{lemma_orbit_count, Tile, TileModel};

verus! {

/// Variant `v` anchored at `(r, c)` lies inside a `rows x cols` board.
pub open spec fn fits(v: GridModel, r: int, c: int, rows: int, cols: int) -> bool {
    &&& 0 <= r
    &&& 0 <= c
    &&& r + v.rows <= rows
    &&& c + v.cols <= cols
}

/// The set bits of `m` are exactly the board cells covered by variant `v`
/// anchored at `(r, c)`, in row-major order on a board with `cols` columns.
pub open spec fn mask_matches(m: Bitmask, v: GridModel, r: int, c: int, cols: int) -> bool {
    &&& forall|a: int, b: int|
        v.in_bounds(a, b) && #[trigger] v.cell(a, b) ==> m.has((r + a) * cols + (c + b))
    &&& forall|i: int| #[trigger]
        m.has(i) ==> exists|a: int, b: int|
            v.in_bounds(a, b) && v.cell(a, b) && i == (r + a) * cols + (c + b)
}

/// A mask is determined by the variant, the anchor and the board width.
pub proof fn lemma_mask_matches_unique(
    m1: Bitmask,
    m2: Bitmask,
    v: GridModel,
    r: int,
    c: int,
    cols: int,
)
    requires
        mask_matches(m1, v, r, c, cols),
        mask_matches(m2, v, r, c, cols),
    ensures
        m1 == m2,
{
    assert forall|i: int| m1.has(i) == m2.has(i) by {
        if m1.has(i) {
            let (a, b) = choose|a: int, b: int|
                v.in_bounds(a, b) && v.cell(a, b) && i == (r + a) * cols + (c + b);
            assert(m2.has((r + a) * cols + (c + b)));
        }
        if m2.has(i) {
            let (a, b) = choose|a: int, b: int|
                v.in_bounds(a, b) && v.cell(a, b) && i == (r + a) * cols + (c + b);
            assert(m1.has((r + a) * cols + (c + b)));
        }
    }
    Bitmask::lemma_ext(m1, m2);
}

/// Every bit of a fitting placement mask is a valid board cell index.
pub proof fn lemma_mask_matches_range(
    m: Bitmask,
    v: GridModel,
    r: int,
    c: int,
    rows: int,
    cols: int,
)
    requires
        fits(v, r, c, rows, cols),
        mask_matches(m, v, r, c, cols),
    ensures
        forall|i: int| #[trigger] m.has(i) ==> 0 <= i < rows * cols,
{
    assert forall|i: int| #[trigger] m.has(i) implies 0 <= i < rows * cols by {
        let (a, b) = choose|a: int, b: int|
            v.in_bounds(a, b) && v.cell(a, b) && i == (r + a) * cols + (c + b);
        lemma_rowmajor(r + a, c + b, rows, cols);
    }
}

/// One legal placement: a tile, one of its variants, an anchor offset, and
/// the cells it covers as a bitmask.
#[derive(Clone, Copy, Debug)]
pub struct Placement {
    pub tile_index: usize,
    pub variant: usize,
    pub row: usize,
    pub col: usize,
    pub mask: Bitmask,
}

/// The placement is a legal placement of tile `t` on a `rows x cols` board.
pub open spec fn entry_ok(p: Placement, t: TileModel, rows: int, cols: int) -> bool {
    &&& 0 <= p.variant < t.variants.len()
    &&& fits(t.variants[p.variant as int], p.row as int, p.col as int, rows, cols)
    &&& mask_matches(p.mask, t.variants[p.variant as int], p.row as int, p.col as int, cols)
}

/// The placement is a legal placement of its own tile from `tiles`.
pub open spec fn placed_ok(p: Placement, tiles: Seq<TileModel>, rows: int, cols: int) -> bool {
    &&& 0 <= p.tile_index < tiles.len()
    &&& entry_ok(p, tiles[p.tile_index as int], rows, cols)
}

/// The table holds an entry for variant `k` anchored at `(r, c)`.
pub open spec fn table_has(ps: Seq<Placement>, k: int, r: int, c: int) -> bool {
    exists|e: int|
        0 <= e < ps.len() && (#[trigger] ps[e]).variant == k && ps[e].row == r && ps[e].col == c
}

proof fn lemma_table_has_push(ps: Seq<Placement>, x: Placement, k: int, r: int, c: int)
    requires
        table_has(ps, k, r, c),
    ensures
        table_has(ps.push(x), k, r, c),
{
    let e = choose|e: int|
        0 <= e < ps.len() && (#[trigger] ps[e]).variant == k && ps[e].row == r && ps[e].col == c;
    assert(ps.push(x)[e] == ps[e]);
}

/// All legal placements of one tile on one board size.
#[derive(Debug)]
pub struct PositionedTile {
    pub tile_index: usize,
    pub placements: Vec<Placement>,
}

impl PositionedTile {
    /// Every entry is legal, and every legal `(variant, offset)` pair has an
    /// entry: the table is sound and exhaustive.
    pub open spec fn wf(self, t: TileModel, rows: int, cols: int) -> bool {
        &&& forall|e: int|
            0 <= e < self.placements@.len() ==> entry_ok(#[trigger] self.placements@[e], t, rows, cols)
                && self.placements@[e].tile_index == self.tile_index
        &&& forall|k: int, r: int, c: int|
            0 <= k < t.variants.len() && #[trigger] fits(t.variants[k], r, c, rows, cols)
                ==> table_has(self.placements@, k, r, c)
    }
}

/// Scan order of the cells of a variant grid: all rows before `a`, then the
/// cells of row `a` before column `b`.
spec fn scanned(x: int, y: int, a: int, b: int) -> bool {
    x < a || (x == a && y < b)
}

/// Renders the cells of variant `v` anchored at `(r, c)` as a bitmask.
fn render_mask(v: &Grid, r: usize, c: usize, rows: usize, cols: usize) -> (m: Bitmask)
    requires
        v.wf(),
        rows * cols <= 128,
        fits(v@, r as int, c as int, rows as int, cols as int),
    ensures
        mask_matches(m, v@, r as int, c as int, cols as int),
{
    let vr = v.rows();
    let vc = v.cols();
    let mut m = Bitmask::none();
    let mut a: usize = 0;
    while a < vr
        invariant
            v.wf(),
            vr == v@.rows,
            vc == v@.cols,
            rows * cols <= 128,
            fits(v@, r as int, c as int, rows as int, cols as int),
            a <= vr,
            forall|x: int, y: int|
                v@.in_bounds(x, y) && #[trigger] v@.cell(x, y) && scanned(x, y, a as int, 0)
                    ==> m.has((r + x) * cols + (c + y)),
            forall|i: int| #[trigger]
                m.has(i) ==> exists|x: int, y: int|
                    v@.in_bounds(x, y) && v@.cell(x, y) && scanned(x, y, a as int, 0) && i == (r
                        + x) * cols + (c + y),
        decreases vr - a,
    {
        let mut b: usize = 0;
        while b < vc
            invariant
                v.wf(),
                vr == v@.rows,
                vc == v@.cols,
                rows * cols <= 128,
                fits(v@, r as int, c as int, rows as int, cols as int),
                a < vr,
                b <= vc,
                forall|x: int, y: int|
                    v@.in_bounds(x, y) && #[trigger] v@.cell(x, y) && scanned(
                        x,
                        y,
                        a as int,
                        b as int,
                    ) ==> m.has((r + x) * cols + (c + y)),
                forall|i: int| #[trigger]
                    m.has(i) ==> exists|x: int, y: int|
                        v@.in_bounds(x, y) && v@.cell(x, y) && scanned(x, y, a as int, b as int)
                            && i == (r + x) * cols + (c + y),
            decreases vc - b,
        {
            if v.get(a, b) {
                proof {
                    lemma_rowmajor(r + a, c + b, rows as int, cols as int);
                }
                let idx: usize = (r + a) * cols + (c + b);
                let ghost m0 = m;
                m = m.set(idx);
                proof {
                    assert forall|x: int, y: int|
                        v@.in_bounds(x, y) && #[trigger] v@.cell(x, y) && scanned(
                            x,
                            y,
                            a as int,
                            b + 1,
                        ) implies m.has((r + x) * cols + (c + y)) by {
                        if x == a && y == b {
                            assert(m.has(idx as int));
                        } else {
                            assert(scanned(x, y, a as int, b as int));
                        }
                    }
                    assert forall|i: int| #[trigger] m.has(i) implies exists|x: int, y: int|
                        v@.in_bounds(x, y) && v@.cell(x, y) && scanned(x, y, a as int, b + 1) && i
                            == (r + x) * cols + (c + y) by {
                        if m0.has(i) {
                            let (x, y) = choose|x: int, y: int|
                                v@.in_bounds(x, y) && v@.cell(x, y) && scanned(
                                    x,
                                    y,
                                    a as int,
                                    b as int,
                                ) && i == (r + x) * cols + (c + y);
                            assert(scanned(x, y, a as int, b + 1));
                        } else {
                            assert(i == idx as int);
                            assert(v@.in_bounds(a as int, b as int) && v@.cell(a as int, b as int)
                                && scanned(a as int, b as int, a as int, b + 1) && i == (r
                                + a as int) * cols + (c + b as int));
                        }
                    }
                }
            } else {
                proof {
                    assert forall|x: int, y: int|
                        v@.in_bounds(x, y) && #[trigger] v@.cell(x, y) && scanned(
                            x,
                            y,
                            a as int,
                            b + 1,
                        ) implies m.has((r + x) * cols + (c + y)) by {
                        if !(x == a && y == b) {
                            assert(scanned(x, y, a as int, b as int));
                        }
                    }
                    assert forall|i: int| #[trigger] m.has(i) implies exists|x: int, y: int|
                        v@.in_bounds(x, y) && v@.cell(x, y) && scanned(x, y, a as int, b + 1) && i
                            == (r + x) * cols + (c + y) by {
                        let (x, y) = choose|x: int, y: int|
                            v@.in_bounds(x, y) && v@.cell(x, y) && scanned(x, y, a as int, b as int)
                                && i == (r + x) * cols + (c + y);
                        assert(scanned(x, y, a as int, b + 1));
                    }
                }
            }
            b = b + 1;
        }
        proof {
            assert forall|x: int, y: int|
                v@.in_bounds(x, y) && #[trigger] v@.cell(x, y) && scanned(x, y, a + 1, 0) implies m.has(
                (r + x) * cols + (c + y),
            ) by {
                assert(scanned(x, y, a as int, vc as int));
            }
            assert forall|i: int| #[trigger] m.has(i) implies exists|x: int, y: int|
                v@.in_bounds(x, y) && v@.cell(x, y) && scanned(x, y, a + 1, 0) && i == (r + x)
                    * cols + (c + y) by {
                let (x, y) = choose|x: int, y: int|
                    v@.in_bounds(x, y) && v@.cell(x, y) && scanned(x, y, a as int, vc as int) && i
                        == (r + x) * cols + (c + y);
                assert(scanned(x, y, a + 1, 0));
            }
        }
        a = a + 1;
    }
    proof {
        assert forall|x: int, y: int|
            v@.in_bounds(x, y) && #[trigger] v@.cell(x, y) implies m.has(
            (r + x) * cols + (c + y),
        ) by {
            assert(scanned(x, y, vr as int, 0));
        }
    }
    m
}

impl PositionedTile {
    /// Enumerates every placement of the tile on a `rows x cols` board:
    /// every variant at every offset where it fits, with its bitmask.
    pub fn new(tile_index: usize, tile: &Tile, rows: usize, cols: usize) -> (res: PositionedTile)
        requires
            tile@.wf(),
            rows * cols <= 128,
        ensures
            res.tile_index == tile_index,
            res.wf(tile@, rows as int, cols as int),
    {
        let ghost t = tile@;
        let mut placements: Vec<Placement> = Vec::new();
        let nv = tile.all_rotations.len();
        let mut k: usize = 0;
        while k < nv
            invariant
                tile@ == t,
                t.wf(),
                rows * cols <= 128,
                nv == t.variants.len(),
                k <= nv,
                forall|e: int|
                    0 <= e < placements@.len() ==> entry_ok(#[trigger] placements@[e], t, rows as int, cols as int)
                        && placements@[e].tile_index == tile_index,
                forall|k2: int, r2: int, c2: int|
                    0 <= k2 < k && #[trigger] fits(t.variants[k2], r2, c2, rows as int, cols as int)
                        ==> table_has(placements@, k2, r2, c2),
            decreases nv - k,
        {
            let v = &tile.all_rotations[k];
            proof {
                assert(v@ == t.variants[k as int]);
            }
            let vr = v.rows();
            let vc = v.cols();
            if vr <= rows && vc <= cols {
                let mut r: usize = 0;
                while r <= rows - vr
                    invariant
                        tile@ == t,
                        t.wf(),
                        rows * cols <= 128,
                        nv == t.variants.len(),
                        k < nv,
                        v@ == t.variants[k as int],
                        vr == v@.rows,
                        vc == v@.cols,
                        vr <= rows,
                        vc <= cols,
                        r <= rows - vr + 1,
                        forall|e: int|
                            0 <= e < placements@.len() ==> entry_ok(
                                #[trigger] placements@[e],
                                t,
                                rows as int,
                                cols as int,
                            ) && placements@[e].tile_index == tile_index,
                        forall|k2: int, r2: int, c2: int|
                            0 <= k2 < k && #[trigger] fits(
                                t.variants[k2],
                                r2,
                                c2,
                                rows as int,
                                cols as int,
                            ) ==> table_has(placements@, k2, r2, c2),
                        forall|r2: int, c2: int|
                            r2 < r && #[trigger] fits(
                                t.variants[k as int],
                                r2,
                                c2,
                                rows as int,
                                cols as int,
                            ) ==> table_has(placements@, k as int, r2, c2),
                    decreases rows - vr + 1 - r,
                {
                    let mut c: usize = 0;
                    while c <= cols - vc
                        invariant
                            tile@ == t,
                            t.wf(),
                            rows * cols <= 128,
                            nv == t.variants.len(),
                            k < nv,
                            v@ == t.variants[k as int],
                            vr == v@.rows,
                            vc == v@.cols,
                            vr <= rows,
                            vc <= cols,
                            r <= rows - vr,
                            c <= cols - vc + 1,
                            forall|e: int|
                                0 <= e < placements@.len() ==> entry_ok(
                                    #[trigger] placements@[e],
                                    t,
                                    rows as int,
                                    cols as int,
                                ) && placements@[e].tile_index == tile_index,
                            forall|k2: int, r2: int, c2: int|
                                0 <= k2 < k && #[trigger] fits(
                                    t.variants[k2],
                                    r2,
                                    c2,
                                    rows as int,
                                    cols as int,
                                ) ==> table_has(placements@, k2, r2, c2),
                            forall|r2: int, c2: int|
                                r2 < r && #[trigger] fits(
                                    t.variants[k as int],
                                    r2,
                                    c2,
                                    rows as int,
                                    cols as int,
                                ) ==> table_has(placements@, k as int, r2, c2),
                            forall|c2: int|
                                c2 < c && #[trigger] fits(
                                    t.variants[k as int],
                                    r as int,
                                    c2,
                                    rows as int,
                                    cols as int,
                                ) ==> table_has(placements@, k as int, r as int, c2),
                        decreases cols - vc + 1 - c,
                    {
                        let mask = render_mask(v, r, c, rows, cols);
                        let entry = Placement { tile_index, variant: k, row: r, col: c, mask };
                        let ghost ps0 = placements@;
                        placements.push(entry);
                        proof {
                            assert(placements@[ps0.len() as int] == entry);
                            assert(entry_ok(entry, t, rows as int, cols as int));
                            assert forall|k2: int, r2: int, c2: int|
                                0 <= k2 < k && #[trigger] fits(
                                    t.variants[k2],
                                    r2,
                                    c2,
                                    rows as int,
                                    cols as int,
                                ) implies table_has(placements@, k2, r2, c2) by {
                                lemma_table_has_push(ps0, entry, k2, r2, c2);
                            }
                            assert forall|r2: int, c2: int|
                                r2 < r && #[trigger] fits(
                                    t.variants[k as int],
                                    r2,
                                    c2,
                                    rows as int,
                                    cols as int,
                                ) implies table_has(placements@, k as int, r2, c2) by {
                                lemma_table_has_push(ps0, entry, k as int, r2, c2);
                            }
                            assert forall|c2: int|
                                c2 < c + 1 && #[trigger] fits(
                                    t.variants[k as int],
                                    r as int,
                                    c2,
                                    rows as int,
                                    cols as int,
                                ) implies table_has(placements@, k as int, r as int, c2) by {
                                if c2 < c {
                                    lemma_table_has_push(ps0, entry, k as int, r as int, c2);
                                } else {
                                    assert(placements@[ps0.len() as int].variant == k
                                        && placements@[ps0.len() as int].row == r
                                        && placements@[ps0.len() as int].col == c2);
                                }
                            }
                        }
                        c = c + 1;
                    }
                    proof {
                        assert forall|r2: int, c2: int|
                            r2 < r + 1 && #[trigger] fits(
                                t.variants[k as int],
                                r2,
                                c2,
                                rows as int,
                                cols as int,
                            ) implies table_has(placements@, k as int, r2, c2) by {
                            if r2 == r {
                                assert(c2 <= cols - vc);
                            }
                        }
                    }
                    r = r + 1;
                }
                proof {
                    assert forall|k2: int, r2: int, c2: int|
                        0 <= k2 < k + 1 && #[trigger] fits(
                            t.variants[k2],
                            r2,
                            c2,
                            rows as int,
                            cols as int,
                        ) implies table_has(placements@, k2, r2, c2) by {
                        if k2 == k {
                            assert(r2 <= rows - vr && c2 <= cols - vc);
                        }
                    }
                }
            } else {
                proof {
                    assert forall|k2: int, r2: int, c2: int|
                        0 <= k2 < k + 1 && #[trigger] fits(
                            t.variants[k2],
                            r2,
                            c2,
                            rows as int,
                            cols as int,
                        ) implies table_has(placements@, k2, r2, c2) by {
                        if k2 == k {
                            assert(r2 + vr <= rows && c2 + vc <= cols && r2 >= 0 && c2 >= 0);
                        }
                    }
                }
            }
            k = k + 1;
        }
        PositionedTile { tile_index, placements }
    }
}


/// The bit population count of a fitting placement mask equals the number
/// of filled cells of the placed variant.
pub proof fn lemma_mask_card(m: Bitmask, v: GridModel, r: int, c: int, rows: int, cols: int)
    requires
        v.wf(),
        fits(v, r, c, rows, cols),
        mask_matches(m, v, r, c, cols),
    ensures
        m.card() == count_true(v.cells),
{
    lemma_count_true_is_filled_card(v);
    m.lemma_card_has_set();
    let f = filled_set(v);
    let bits = has_set(m);
    let g = |p: (int, int)| (r + p.0) * cols + (c + p.1);
    assert(injective_on(g, f)) by {
        assert forall|p1: (int, int), p2: (int, int)|
            #![trigger g(p1), g(p2)]
            f.contains(p1) && f.contains(p2) && g(p1) == g(p2) implies p1 == p2 by {
            lemma_rowmajor(r + p1.0, c + p1.1, rows, cols);
            lemma_rowmajor(r + p2.0, c + p2.1, rows, cols);
        }
    }
    assert(f.map(g) =~= bits) by {
        assert forall|i: int| f.map(g).contains(i) implies bits.contains(i) by {
            let p = choose|p: (int, int)| f.contains(p) && g(p) == i;
            assert(v.cell(p.0, p.1));
            assert(m.has((r + p.0) * cols + (c + p.1)));
        }
        assert forall|i: int| bits.contains(i) implies f.map(g).contains(i) by {
            let (a, b) = choose|a: int, b: int|
                v.in_bounds(a, b) && v.cell(a, b) && i == (r + a) * cols + (c + b);
            assert(f.contains((a, b)));
            assert(g((a, b)) == i);
        }
    }
    lemma_map_size(f, bits, g);
}

/// The invariant of a placement table: every placement's bitmask covers
/// exactly as many cells as the tile has — the variant's filled cells, and
/// every variant has as many as the base shape.
pub proof fn lemma_placement_covers_tile_cells(p: Placement, t: TileModel, rows: int, cols: int)
    requires
        t.wf(),
        entry_ok(p, t, rows, cols),
    ensures
        p.mask.card() == count_true(t.base.cells),
{
    let v = t.variants[p.variant as int];
    lemma_mask_card(p.mask, v, p.row as int, p.col as int, rows, cols);
    lemma_orbit_count(v, t.base);
}

} // verus!
