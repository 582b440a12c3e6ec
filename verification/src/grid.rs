//! Rectangular boolean grids in row-major order, with the quarter-turn
//! rotation and transposition that generate every tile orientation.

use vstd::prelude::*;
use vstd::relations::injective_on;
use vstd::set_lib::lemma_map_size;

verus! {

/// Mathematical model of a rectangular boolean grid, row-major.
#[verifier::ext_equal]
pub ghost struct GridModel {
    pub rows: nat,
    pub cols: nat,
    pub cells: Seq<bool>,
}

impl GridModel {
    /// The flat cell sequence has exactly one entry per grid position.
    pub open spec fn wf(self) -> bool {
        self.cells.len() == self.rows * self.cols
    }

    pub open spec fn in_bounds(self, i: int, j: int) -> bool {
        0 <= i < self.rows && 0 <= j < self.cols
    }

    /// The cell in row `i`, column `j`.
    pub open spec fn cell(self, i: int, j: int) -> bool {
        self.cells[i * self.cols + j]
    }
}

/// The grid with the given dimensions whose cell `(i, j)` holds `f(i, j)`.
pub open spec fn grid_of(rows: nat, cols: nat, f: spec_fn(int, int) -> bool) -> GridModel {
    GridModel {
        rows,
        cols,
        cells: Seq::new(rows * cols, |k: int| f(k / cols as int, k % cols as int)),
    }
}

/// Row-major flattening maps distinct in-bounds positions to distinct
/// indices in `[0, rows * cols)` and is inverted by division and remainder.
pub proof fn lemma_rowmajor(i: int, j: int, rows: int, cols: int)
    by (nonlinear_arith)
    requires
        0 <= i < rows,
        0 <= j < cols,
    ensures
        0 <= i * cols + j < rows * cols,
        (i * cols + j) / cols == i,
        (i * cols + j) % cols == j,
{
}

pub proof fn lemma_grid_of_cell(rows: nat, cols: nat, f: spec_fn(int, int) -> bool, i: int, j: int)
    requires
        0 <= i < rows,
        0 <= j < cols,
    ensures
        grid_of(rows, cols, f).cell(i, j) == f(i, j),
{
    lemma_rowmajor(i, j, rows as int, cols as int);
}

/// A flat sequence that agrees with a well-formed grid at every row-major
/// position is that grid's cell sequence.
pub proof fn lemma_rowmajor_complete(cells: Seq<bool>, target: GridModel, rows: int, cols: int)
    requires
        rows == target.rows,
        cols == target.cols,
        target.wf(),
        cells.len() == rows * cols,
        forall|a: int, b: int|
            0 <= a < rows && 0 <= b < cols ==> #[trigger] cells[a * cols + b] == target.cell(a, b),
    ensures
        cells =~= target.cells,
{
    assert forall|k: int| 0 <= k < cells.len() implies cells[k] == target.cells[k] by {
        if cols > 0 {
            let a = k / cols;
            let b = k % cols;
            assert(0 <= b < cols && 0 <= a && a * cols + b == k) by (nonlinear_arith)
                requires
                    cols > 0,
                    0 <= k,
                    a == k / cols,
                    b == k % cols,
            ;
            assert(a < rows) by (nonlinear_arith)
                requires
                    k < rows * cols,
                    0 <= b < cols,
                    0 <= a,
                    a * cols + b == k,
            ;
            assert(cells[a * cols + b] == target.cell(a, b));
            assert(target.cell(a, b) == target.cells[a * cols + b]);
        } else {
            assert(rows * 0 == 0) by (nonlinear_arith);
        }
    }
}

/// Quarter turn clockwise: cell `(i, j)` of the result is cell
/// `(rows - 1 - j, i)` of the argument.
pub open spec fn spec_rotate_cw(g: GridModel) -> GridModel {
    grid_of(g.cols, g.rows, |i: int, j: int| g.cell(g.rows - 1 - j, i))
}

/// Transposition: cell `(i, j)` of the result is cell `(j, i)` of the argument.
pub open spec fn spec_transpose(g: GridModel) -> GridModel {
    grid_of(g.cols, g.rows, |i: int, j: int| g.cell(j, i))
}

pub proof fn lemma_rotate_cw_cell(g: GridModel, i: int, j: int)
    requires
        g.wf(),
        0 <= i < g.cols,
        0 <= j < g.rows,
    ensures
        spec_rotate_cw(g).cell(i, j) == g.cell(g.rows - 1 - j, i),
{
    lemma_grid_of_cell(g.cols, g.rows, |i: int, j: int| g.cell(g.rows - 1 - j, i), i, j);
}

pub proof fn lemma_transpose_cell(g: GridModel, i: int, j: int)
    requires
        g.wf(),
        0 <= i < g.cols,
        0 <= j < g.rows,
    ensures
        spec_transpose(g).cell(i, j) == g.cell(j, i),
{
    lemma_grid_of_cell(g.cols, g.rows, |i: int, j: int| g.cell(j, i), i, j);
}

/// Two well-formed grids with equal dimensions and equal cells are equal.
pub proof fn lemma_grid_ext(a: GridModel, b: GridModel)
    requires
        a.wf(),
        b.wf(),
        a.rows == b.rows,
        a.cols == b.cols,
        forall|i: int, j: int| a.in_bounds(i, j) ==> a.cell(i, j) == b.cell(i, j),
    ensures
        a == b,
{
    assert forall|k: int| 0 <= k < a.cells.len() implies a.cells[k] == b.cells[k] by {
        let i = k / a.cols as int;
        let j = k % a.cols as int;
        if a.cols > 0 {
            assert(0 <= j < a.cols && 0 <= i && i * a.cols + j == k) by (nonlinear_arith)
                requires
                    a.cols > 0,
                    0 <= k,
                    i == k / a.cols as int,
                    j == k % a.cols as int,
            ;
            assert(i < a.rows) by (nonlinear_arith)
                requires
                    k < a.rows * a.cols,
                    0 <= j < a.cols,
                    0 <= i,
                    i * a.cols + j == k,
            ;
            assert(a.in_bounds(i, j));
        } else {
            assert(a.cells.len() == a.rows * 0) by (nonlinear_arith)
                requires
                    a.cells.len() == a.rows * a.cols,
                    a.cols == 0,
            ;
        }
    }
    assert(a.cells =~= b.cells);
    assert(a =~= b);
}

/// Four quarter turns restore the grid.
pub proof fn lemma_rotate_four(g: GridModel)
    requires
        g.wf(),
    ensures
        spec_rotate_cw(spec_rotate_cw(spec_rotate_cw(spec_rotate_cw(g)))) == g,
{
    let r1 = spec_rotate_cw(g);
    let r2 = spec_rotate_cw(r1);
    let r3 = spec_rotate_cw(r2);
    let r4 = spec_rotate_cw(r3);
    assert forall|i: int, j: int| g.in_bounds(i, j) implies r2.cell(i, j) == g.cell(
        g.rows - 1 - i,
        g.cols - 1 - j,
    ) by {
        lemma_rotate_cw_cell(r1, i, j);
        lemma_rotate_cw_cell(g, g.cols - 1 - j, i);
    }
    assert forall|i: int, j: int| r3.in_bounds(i, j) implies r3.cell(i, j) == g.cell(
        j,
        g.cols - 1 - i,
    ) by {
        lemma_rotate_cw_cell(r2, i, j);
    }
    assert forall|i: int, j: int| g.in_bounds(i, j) implies r4.cell(i, j) == g.cell(i, j) by {
        lemma_rotate_cw_cell(r3, i, j);
    }
    lemma_grid_ext(r4, g);
}

/// Transposing twice restores the grid.
pub proof fn lemma_transpose_twice(g: GridModel)
    requires
        g.wf(),
    ensures
        spec_transpose(spec_transpose(g)) == g,
{
    let t1 = spec_transpose(g);
    let t2 = spec_transpose(t1);
    assert forall|i: int, j: int| g.in_bounds(i, j) implies t2.cell(i, j) == g.cell(i, j) by {
        lemma_transpose_cell(t1, i, j);
        lemma_transpose_cell(g, j, i);
    }
    lemma_grid_ext(t2, g);
}


/// The flat indices of the true entries of a boolean sequence.
pub open spec fn true_set(s: Seq<bool>) -> Set<int> {
    Set::new(|k: int| 0 <= k < s.len() && s[k])
}

/// `count_true` counts exactly the set of true indices.
pub proof fn lemma_count_true_card(s: Seq<bool>)
    ensures
        true_set(s).finite(),
        count_true(s) == true_set(s).len(),
    decreases s.len(),
{
    broadcast use vstd::set::group_set_axioms;

    if s.len() == 0 {
        assert(true_set(s) =~= Set::empty());
    } else {
        let s0 = s.drop_last();
        lemma_count_true_card(s0);
        if s.last() {
            assert(true_set(s) =~= true_set(s0).insert(s.len() - 1));
            assert(!true_set(s0).contains(s.len() - 1));
        } else {
            assert(true_set(s) =~= true_set(s0));
        }
    }
}

/// The positions of the filled cells of a grid.
pub open spec fn filled_set(g: GridModel) -> Set<(int, int)> {
    Set::new(|p: (int, int)| g.in_bounds(p.0, p.1) && g.cell(p.0, p.1))
}

/// The filled-cell count of a well-formed grid is the number of filled
/// positions.
pub proof fn lemma_count_true_is_filled_card(g: GridModel)
    requires
        g.wf(),
    ensures
        filled_set(g).finite(),
        count_true(g.cells) == filled_set(g).len(),
{
    lemma_count_true_card(g.cells);
    let fl = true_set(g.cells);
    let f = filled_set(g);
    let cols = g.cols as int;
    if g.cols == 0 {
        assert(g.cells.len() == g.rows * 0) by (nonlinear_arith)
            requires
                g.cells.len() == g.rows * g.cols,
                g.cols == 0,
        ;
        assert(fl =~= Set::<int>::empty());
        assert(f =~= Set::<(int, int)>::empty());
    } else {
        let unflat = |k: int| (k / cols, k % cols);
        let flat = |p: (int, int)| p.0 * cols + p.1;
        assert(f =~= fl.map(unflat)) by {
            assert forall|p: (int, int)| f.contains(p) implies fl.map(unflat).contains(p) by {
                lemma_rowmajor(p.0, p.1, g.rows as int, cols);
                assert(fl.contains(p.0 * cols + p.1));
                assert(unflat(p.0 * cols + p.1) == p);
            }
            assert forall|p: (int, int)| fl.map(unflat).contains(p) implies f.contains(p) by {
                let k = choose|k: int| fl.contains(k) && unflat(k) == p;
                assert(0 <= p.1 < cols && 0 <= p.0 && p.0 * cols + p.1 == k) by (nonlinear_arith)
                    requires
                        cols > 0,
                        0 <= k,
                        p.0 == k / cols,
                        p.1 == k % cols,
                ;
                assert(p.0 < g.rows) by (nonlinear_arith)
                    requires
                        k < g.rows * cols,
                        0 <= p.1 < cols,
                        0 <= p.0,
                        p.0 * cols + p.1 == k,
                ;
            }
        }
        fl.lemma_map_finite(unflat);
        assert(injective_on(flat, f)) by {
            assert forall|p1: (int, int), p2: (int, int)|
                #![trigger flat(p1), flat(p2)]
                f.contains(p1) && f.contains(p2) && flat(p1) == flat(p2) implies p1 == p2 by {
                lemma_rowmajor(p1.0, p1.1, g.rows as int, cols);
                lemma_rowmajor(p2.0, p2.1, g.rows as int, cols);
            }
        }
        assert(f.map(flat) =~= fl) by {
            assert forall|k: int| f.map(flat).contains(k) implies fl.contains(k) by {
                let p = choose|p: (int, int)| f.contains(p) && flat(p) == k;
                lemma_rowmajor(p.0, p.1, g.rows as int, cols);
            }
            assert forall|k: int| fl.contains(k) implies f.map(flat).contains(k) by {
                let p0 = k / cols;
                let p1 = k % cols;
                assert(0 <= p1 < cols && 0 <= p0 && p0 * cols + p1 == k) by (nonlinear_arith)
                    requires
                        cols > 0,
                        0 <= k,
                        p0 == k / cols,
                        p1 == k % cols,
                ;
                assert(p0 < g.rows) by (nonlinear_arith)
                    requires
                        k < g.rows * cols,
                        0 <= p1 < cols,
                        0 <= p0,
                        p0 * cols + p1 == k,
                ;
                assert(f.contains((p0, p1)));
                assert(flat((p0, p1)) == k);
            }
        }
        lemma_map_size(f, fl, flat);
    }
}

/// A quarter turn keeps the number of filled cells.
pub proof fn lemma_rotate_count(g: GridModel)
    requires
        g.wf(),
    ensures
        count_true(spec_rotate_cw(g).cells) == count_true(g.cells),
{
    let rg = spec_rotate_cw(g);
    lemma_count_true_is_filled_card(g);
    lemma_count_true_is_filled_card(rg);
    let f = filled_set(g);
    let fr = filled_set(rg);
    let m = |p: (int, int)| (p.1, g.rows - 1 - p.0);
    assert forall|p: (int, int)| f.contains(p) implies fr.contains(m(p)) by {
        lemma_rotate_cw_cell(g, p.1, g.rows - 1 - p.0);
    }
    assert(injective_on(m, f));
    assert(f.map(m) =~= fr) by {
        assert forall|q: (int, int)| f.map(m).contains(q) implies fr.contains(q) by {
            let p = choose|p: (int, int)| f.contains(p) && m(p) == q;
            assert(fr.contains(m(p)));
        }
        assert forall|q: (int, int)| fr.contains(q) implies f.map(m).contains(q) by {
            lemma_rotate_cw_cell(g, q.0, q.1);
            let p = (g.rows - 1 - q.1, q.0);
            assert(f.contains(p));
            assert(m(p) == q);
        }
    }
    lemma_map_size(f, fr, m);
}

/// Transposition keeps the number of filled cells.
pub proof fn lemma_transpose_count(g: GridModel)
    requires
        g.wf(),
    ensures
        count_true(spec_transpose(g).cells) == count_true(g.cells),
{
    let tg = spec_transpose(g);
    lemma_count_true_is_filled_card(g);
    lemma_count_true_is_filled_card(tg);
    let f = filled_set(g);
    let ft = filled_set(tg);
    let m = |p: (int, int)| (p.1, p.0);
    assert forall|p: (int, int)| f.contains(p) implies ft.contains(m(p)) by {
        lemma_transpose_cell(g, p.1, p.0);
    }
    assert(injective_on(m, f));
    assert(f.map(m) =~= ft) by {
        assert forall|q: (int, int)| f.map(m).contains(q) implies ft.contains(q) by {
            let p = choose|p: (int, int)| f.contains(p) && m(p) == q;
            assert(ft.contains(m(p)));
        }
        assert forall|q: (int, int)| ft.contains(q) implies f.map(m).contains(q) by {
            lemma_transpose_cell(g, q.0, q.1);
            let p = (q.1, q.0);
            assert(f.contains(p));
            assert(m(p) == q);
        }
    }
    lemma_map_size(f, ft, m);
}

/// A quarter turn of the transpose is the transpose of three quarter turns.
pub proof fn lemma_rotate_transpose(g: GridModel)
    requires
        g.wf(),
    ensures
        spec_rotate_cw(spec_transpose(g)) == spec_transpose(
            spec_rotate_cw(spec_rotate_cw(spec_rotate_cw(g))),
        ),
{
    let tg = spec_transpose(g);
    let rtg = spec_rotate_cw(tg);
    let r1 = spec_rotate_cw(g);
    let r2 = spec_rotate_cw(r1);
    let r3 = spec_rotate_cw(r2);
    let tr3 = spec_transpose(r3);
    assert forall|i: int, j: int| g.in_bounds(i, j) implies r2.cell(i, j) == g.cell(
        g.rows - 1 - i,
        g.cols - 1 - j,
    ) by {
        lemma_rotate_cw_cell(r1, i, j);
        lemma_rotate_cw_cell(g, g.cols - 1 - j, i);
    }
    assert forall|i: int, j: int| r3.in_bounds(i, j) implies r3.cell(i, j) == g.cell(
        j,
        g.cols - 1 - i,
    ) by {
        lemma_rotate_cw_cell(r2, i, j);
    }
    assert forall|i: int, j: int| g.in_bounds(i, j) implies rtg.cell(i, j) == g.cell(
        i,
        g.cols - 1 - j,
    ) by {
        lemma_rotate_cw_cell(tg, i, j);
        lemma_transpose_cell(g, g.cols - 1 - j, i);
    }
    assert forall|i: int, j: int| g.in_bounds(i, j) implies tr3.cell(i, j) == g.cell(
        i,
        g.cols - 1 - j,
    ) by {
        lemma_transpose_cell(r3, i, j);
        assert(r3.cell(j, i) == g.cell(i, g.cols - 1 - j));
    }
    lemma_grid_ext(rtg, tr3);
}

/// A rectangular grid of booleans stored row-major in a flat vector.
#[derive(Debug)]
pub struct Grid {
    rows: usize,
    cols: usize,
    cells: Vec<bool>,
}

impl View for Grid {
    type V = GridModel;

    closed spec fn view(&self) -> GridModel {
        GridModel { rows: self.rows as nat, cols: self.cols as nat, cells: self.cells@ }
    }
}

impl Clone for Grid {
    fn clone(&self) -> (res: Self)
        ensures
            res@ == self@,
    {
        let res = Grid { rows: self.rows, cols: self.cols, cells: self.cells.clone() };
        proof {
            assert(res@.cells =~= self@.cells);
            assert(res@ =~= self@);
        }
        res
    }
}

impl Grid {
    pub open spec fn wf(self) -> bool {
        self@.wf()
    }

    /// A grid with every cell set to `fill`.
    pub fn new(rows: usize, cols: usize, fill: bool) -> (res: Grid)
        requires
            rows * cols <= usize::MAX,
        ensures
            res.wf(),
            res@.rows == rows,
            res@.cols == cols,
            forall|i: int, j: int| res@.in_bounds(i, j) ==> res@.cell(i, j) == fill,
    {
        let n = rows * cols;
        let mut cells: Vec<bool> = Vec::new();
        let mut k: usize = 0;
        while k < n
            invariant
                k <= n,
                cells.len() == k,
                forall|m: int| 0 <= m < k ==> cells[m] == fill,
            decreases n - k,
        {
            cells.push(fill);
            k = k + 1;
        }
        let res = Grid { rows, cols, cells };
        proof {
            assert forall|i: int, j: int| res@.in_bounds(i, j) implies res@.cell(i, j) == fill by {
                lemma_rowmajor(i, j, rows as int, cols as int);
            }
        }
        res
    }

    /// A grid over the given flat row-major cells.
    pub fn from_cells(rows: usize, cols: usize, cells: Vec<bool>) -> (res: Grid)
        requires
            cells.len() == rows * cols,
        ensures
            res.wf(),
            res@ == (GridModel { rows: rows as nat, cols: cols as nat, cells: cells@ }),
    {
        Grid { rows, cols, cells }
    }

    pub fn rows(&self) -> (r: usize)
        ensures
            r == self@.rows,
    {
        self.rows
    }

    pub fn cols(&self) -> (r: usize)
        ensures
            r == self@.cols,
    {
        self.cols
    }

    pub fn get(&self, i: usize, j: usize) -> (r: bool)
        requires
            self.wf(),
            self@.in_bounds(i as int, j as int),
        ensures
            r == self@.cell(i as int, j as int),
    {
        proof {
            lemma_rowmajor(i as int, j as int, self@.rows as int, self@.cols as int);
        }
        let n = self.cells.len();
        assert(i as int * self@.cols as int + j < n);
        self.cells[i * self.cols + j]
    }

    pub fn set(&mut self, i: usize, j: usize, v: bool)
        requires
            old(self).wf(),
            old(self)@.in_bounds(i as int, j as int),
        ensures
            final (self).wf(),
            final (self)@.rows == old(self)@.rows,
            final (self)@.cols == old(self)@.cols,
            final (self)@.cell(i as int, j as int) == v,
            forall|a: int, b: int|
                old(self)@.in_bounds(a, b) && (a != i || b != j) ==> final (self)@.cell(a, b)
                    == old(self)@.cell(a, b),
    {
        proof {
            lemma_rowmajor(i as int, j as int, self@.rows as int, self@.cols as int);
        }
        let n = self.cells.len();
        assert(i as int * self@.cols as int + j < n);
        let k = i * self.cols + j;
        self.cells.set(k, v);
        proof {
            assert forall|a: int, b: int|
                old(self)@.in_bounds(a, b) && (a != i || b != j) implies self@.cell(a, b) == old(
                self,
            )@.cell(a, b) by {
                lemma_rowmajor(a, b, self@.rows as int, self@.cols as int);
                lemma_rowmajor(i as int, j as int, self@.rows as int, self@.cols as int);
            }
        }
    }

    /// Structural equality: same dimensions and the same cells.
    pub fn grid_eq(&self, other: &Grid) -> (r: bool)
        requires
            self.wf(),
            other.wf(),
        ensures
            r <==> self@ == other@,
    {
        if self.rows != other.rows || self.cols != other.cols {
            return false;
        }
        let n = self.cells.len();
        assert(other.cells.len() == n);
        let mut k: usize = 0;
        while k < n
            invariant
                k <= n,
                n == self.cells.len(),
                n == other.cells.len(),
                forall|m: int| 0 <= m < k ==> self@.cells[m] == other@.cells[m],
            decreases n - k,
        {
            if self.cells[k] != other.cells[k] {
                return false;
            }
            k = k + 1;
        }
        proof {
            assert(self@.cells =~= other@.cells);
            assert(self@ =~= other@);
        }
        true
    }

    /// The grid turned a quarter turn clockwise.
    pub fn rotate_cw(&self) -> (res: Grid)
        requires
            self.wf(),
        ensures
            res.wf(),
            res@ == spec_rotate_cw(self@),
    {
        let rows = self.cols;
        let cols = self.rows;
        let ghost target = spec_rotate_cw(self@);
        proof {
            assert(self@.rows * self@.cols == self@.cols * self@.rows) by (nonlinear_arith);
        }
        let mut cells: Vec<bool> = Vec::new();
        let mut i: usize = 0;
        while i < rows
            invariant
                self.wf(),
                i <= rows,
                rows == self@.cols,
                cols == self@.rows,
                target == spec_rotate_cw(self@),
                target.rows == rows,
                target.cols == cols,
                cells.len() == i * cols,
                forall|a: int, b: int|
                    0 <= a < i && 0 <= b < cols ==> cells[a * cols as int + b] == target.cell(a, b),
            decreases rows - i,
        {
            let mut j: usize = 0;
            while j < cols
                invariant
                    self.wf(),
                    i < rows,
                    j <= cols,
                    rows == self@.cols,
                    cols == self@.rows,
                    target == spec_rotate_cw(self@),
                    target.rows == rows,
                    target.cols == cols,
                    cells.len() == i * cols + j,
                    forall|a: int, b: int|
                        0 <= a < i && 0 <= b < cols ==> cells[a * cols as int + b] == target.cell(
                            a,
                            b,
                        ),
                    forall|b: int| 0 <= b < j ==> cells[i as int * cols as int + b] == target.cell(
                        i as int,
                        b,
                    ),
                decreases cols - j,
            {
                proof {
                    lemma_rowmajor(i as int, j as int, rows as int, cols as int);
                }
                let v = self.get(self.rows - 1 - j, i);
                cells.push(v);
                proof {
                    lemma_rotate_cw_cell(self@, i as int, j as int);
                    assert forall|a: int, b: int| 0 <= a < i && 0 <= b < cols implies cells[a
                        * cols as int + b] == target.cell(a, b) by {
                        lemma_rowmajor(a, b, rows as int, cols as int);
                        lemma_rowmajor(i as int, j as int, rows as int, cols as int);
                        assert(a * cols as int + b < i * cols as int) by (nonlinear_arith)
                            requires
                                0 <= a < i,
                                0 <= b < cols as int,
                        ;
                    }
                }
                j = j + 1;
            }
            i = i + 1;
            proof {
                assert(i * cols == (i - 1) * cols + cols) by (nonlinear_arith);
            }
        }
        proof {
            assert(target.wf());
            lemma_rowmajor_complete(cells@, target, rows as int, cols as int);
        }
        let res = Grid { rows, cols, cells };
        proof {
            assert(res@ =~= target);
        }
        res
    }

    /// The grid with rows and columns exchanged.
    pub fn transpose(&self) -> (res: Grid)
        requires
            self.wf(),
        ensures
            res.wf(),
            res@ == spec_transpose(self@),
    {
        let rows = self.cols;
        let cols = self.rows;
        let ghost target = spec_transpose(self@);
        proof {
            assert(self@.rows * self@.cols == self@.cols * self@.rows) by (nonlinear_arith);
        }
        let mut cells: Vec<bool> = Vec::new();
        let mut i: usize = 0;
        while i < rows
            invariant
                self.wf(),
                i <= rows,
                rows == self@.cols,
                cols == self@.rows,
                target == spec_transpose(self@),
                target.rows == rows,
                target.cols == cols,
                cells.len() == i * cols,
                forall|a: int, b: int|
                    0 <= a < i && 0 <= b < cols ==> cells[a * cols as int + b] == target.cell(a, b),
            decreases rows - i,
        {
            let mut j: usize = 0;
            while j < cols
                invariant
                    self.wf(),
                    i < rows,
                    j <= cols,
                    rows == self@.cols,
                    cols == self@.rows,
                    target == spec_transpose(self@),
                    target.rows == rows,
                    target.cols == cols,
                    cells.len() == i * cols + j,
                    forall|a: int, b: int|
                        0 <= a < i && 0 <= b < cols ==> cells[a * cols as int + b] == target.cell(
                            a,
                            b,
                        ),
                    forall|b: int| 0 <= b < j ==> cells[i as int * cols as int + b] == target.cell(
                        i as int,
                        b,
                    ),
                decreases cols - j,
            {
                proof {
                    lemma_rowmajor(i as int, j as int, rows as int, cols as int);
                }
                let v = self.get(j, i);
                cells.push(v);
                proof {
                    lemma_transpose_cell(self@, i as int, j as int);
                    assert forall|a: int, b: int| 0 <= a < i && 0 <= b < cols implies cells[a
                        * cols as int + b] == target.cell(a, b) by {
                        lemma_rowmajor(a, b, rows as int, cols as int);
                        lemma_rowmajor(i as int, j as int, rows as int, cols as int);
                        assert(a * cols as int + b < i * cols as int) by (nonlinear_arith)
                            requires
                                0 <= a < i,
                                0 <= b < cols as int,
                        ;
                    }
                }
                j = j + 1;
            }
            i = i + 1;
            proof {
                assert(i * cols == (i - 1) * cols + cols) by (nonlinear_arith);
            }
        }
        proof {
            assert(target.wf());
            lemma_rowmajor_complete(cells@, target, rows as int, cols as int);
        }
        let res = Grid { rows, cols, cells };
        proof {
            assert(res@ =~= target);
        }
        res
    }

    /// The cell at flat row-major index `k`.
    pub fn get_flat(&self, k: usize) -> (r: bool)
        requires
            self.wf(),
            k < self@.rows * self@.cols,
        ensures
            r == self@.cells[k as int],
    {
        self.cells[k]
    }

    /// The number of filled cells.
    pub fn count_filled(&self) -> (r: usize)
        requires
            self.wf(),
        ensures
            r == count_true(self@.cells),
    {
        let n = self.cells.len();
        let mut k: usize = 0;
        let mut count: usize = 0;
        while k < n
            invariant
                k <= n,
                n == self.cells.len(),
                count == count_true(self@.cells.take(k as int)),
                count <= k,
            decreases n - k,
        {
            proof {
                assert(self@.cells.take(k + 1).drop_last() =~= self@.cells.take(k as int));
                assert(self@.cells.take(k + 1).last() == self@.cells[k as int]);
            }
            if self.cells[k] {
                count = count + 1;
            }
            k = k + 1;
        }
        proof {
            assert(self@.cells.take(n as int) =~= self@.cells);
        }
        count
    }
}

/// How many entries of the sequence are true.
pub open spec fn count_true(s: Seq<bool>) -> nat
    decreases s.len(),
{
    if s.len() == 0 {
        0
    } else {
        count_true(s.drop_last()) + if s.last() {
            1nat
        } else {
            0nat
        }
    }
}

} // verus!
