//! The puzzle board: a grid of cells that are either blocked (out of play or
//! already filled) or open (still to be covered), with trimming to the
//! minimal bounding box of the open cells.

use vstd::prelude::*;

use crate::bitmask::Bitmask;
use crate::grid::{
    lemma_grid_of_cell, lemma_rowmajor, lemma_rowmajor_complete, grid_of, lemma_grid_ext, Grid,
    GridModel,
};

verus! {

/// The least `r` in `[from, n)` with `p(r)`, or `n` if there is none.
pub open spec fn first_true(n: int, p: spec_fn(int) -> bool, from: int) -> int
    decreases n - from,
    when 0 <= from <= n
{
    if from >= n {
        from
    } else if p(from) {
        from
    } else {
        first_true(n, p, from + 1)
    }
}

/// The greatest `r` in `[0, upto)` with `p(r)`, or `-1` if there is none.
pub open spec fn last_true(p: spec_fn(int) -> bool, upto: int) -> int
    decreases upto,
    when 0 <= upto
{
    if upto <= 0 {
        -1
    } else if p(upto - 1) {
        upto - 1
    } else {
        last_true(p, upto - 1)
    }
}

pub proof fn lemma_first_true(n: int, p: spec_fn(int) -> bool, from: int)
    requires
        0 <= from <= n,
    ensures
        from <= first_true(n, p, from) <= n,
        first_true(n, p, from) < n ==> p(first_true(n, p, from)),
        forall|r: int| from <= r < first_true(n, p, from) ==> !(#[trigger] p(r)),
    decreases n - from,
{
    if from < n && !p(from) {
        lemma_first_true(n, p, from + 1);
    }
}

pub proof fn lemma_first_true_unique(n: int, p: spec_fn(int) -> bool, from: int, x: int)
    requires
        0 <= from <= x <= n,
        x == n || p(x),
        forall|r: int| from <= r < x ==> !(#[trigger] p(r)),
    ensures
        first_true(n, p, from) == x,
    decreases x - from,
{
    if from < x {
        lemma_first_true_unique(n, p, from + 1, x);
    }
}

pub proof fn lemma_last_true(p: spec_fn(int) -> bool, upto: int)
    requires
        0 <= upto,
    ensures
        -1 <= last_true(p, upto) < upto,
        last_true(p, upto) >= 0 ==> p(last_true(p, upto)),
        forall|r: int| last_true(p, upto) < r < upto ==> !(#[trigger] p(r)),
    decreases upto,
{
    if upto > 0 && !p(upto - 1) {
        lemma_last_true(p, upto - 1);
    }
}

pub proof fn lemma_last_true_unique(p: spec_fn(int) -> bool, upto: int, x: int)
    requires
        0 <= x < upto,
        p(x),
        forall|r: int| x < r < upto ==> !(#[trigger] p(r)),
    ensures
        last_true(p, upto) == x,
    decreases upto,
{
    if x < upto - 1 {
        lemma_last_true_unique(p, upto - 1, x);
    }
}

/// Row `i` holds at least one open cell.
pub open spec fn row_has_open(g: GridModel, i: int) -> bool {
    exists|j: int| 0 <= j < g.cols && !g.cell(i, j)
}

/// Column `j` holds at least one open cell.
pub open spec fn col_has_open(g: GridModel, j: int) -> bool {
    exists|i: int| 0 <= i < g.rows && !g.cell(i, j)
}

/// The grid holds at least one open cell.
pub open spec fn has_open(g: GridModel) -> bool {
    exists|i: int| 0 <= i < g.rows && row_has_open(g, i)
}

/// The minimal bounding box of the open cells: the subgrid from the first to
/// the last open row and from the first to the last open column, or the empty
/// grid when every cell is blocked.
pub open spec fn spec_trim(g: GridModel) -> GridModel {
    let r0 = first_true(g.rows as int, |r: int| row_has_open(g, r), 0);
    if r0 == g.rows as int {
        GridModel { rows: 0, cols: 0, cells: Seq::empty() }
    } else {
        let r1 = last_true(|r: int| row_has_open(g, r), g.rows as int);
        let c0 = first_true(g.cols as int, |c: int| col_has_open(g, c), 0);
        let c1 = last_true(|c: int| col_has_open(g, c), g.cols as int);
        grid_of((r1 - r0 + 1) as nat, (c1 - c0 + 1) as nat, |i: int, j: int| g.cell(r0 + i, c0 + j))
    }
}

/// A board of blocked flags: `true` marks a cell that no tile may cover.
#[derive(Debug)]
pub struct Board {
    grid: Grid,
}

impl View for Board {
    type V = GridModel;

    closed spec fn view(&self) -> GridModel {
        self.grid@
    }
}

impl Clone for Board {
    fn clone(&self) -> (res: Self)
        ensures
            res@ == self@,
    {
        Board { grid: self.grid.clone() }
    }
}

impl Board {
    pub open spec fn wf(self) -> bool {
        self@.wf()
    }

    /// A board of the given dimensions with every cell open.
    pub fn new(rows: usize, cols: usize) -> (res: Board)
        requires
            rows * cols <= usize::MAX,
        ensures
            res.wf(),
            res@.rows == rows,
            res@.cols == cols,
            forall|i: int, j: int| res@.in_bounds(i, j) ==> !res@.cell(i, j),
    {
        Board { grid: Grid::new(rows, cols, false) }
    }

    pub fn rows(&self) -> (r: usize)
        ensures
            r == self@.rows,
    {
        self.grid.rows()
    }

    pub fn cols(&self) -> (r: usize)
        ensures
            r == self@.cols,
    {
        self.grid.cols()
    }

    /// Whether the cell is blocked.
    pub fn get(&self, i: usize, j: usize) -> (r: bool)
        requires
            self.wf(),
            self@.in_bounds(i as int, j as int),
        ensures
            r == self@.cell(i as int, j as int),
    {
        self.grid.get(i, j)
    }

    /// Marks the cell blocked or open.
    pub fn set(&mut self, i: usize, j: usize, blocked: bool)
        requires
            old(self).wf(),
            old(self)@.in_bounds(i as int, j as int),
        ensures
            final (self).wf(),
            final (self)@.rows == old(self)@.rows,
            final (self)@.cols == old(self)@.cols,
            final (self)@.cell(i as int, j as int) == blocked,
            forall|a: int, b: int|
                old(self)@.in_bounds(a, b) && (a != i || b != j) ==> final (self)@.cell(a, b)
                    == old(self)@.cell(a, b),
    {
        self.grid.set(i, j, blocked);
    }

    fn row_open(&self, r: usize) -> (b: bool)
        requires
            self.wf(),
            r < self@.rows,
        ensures
            b == row_has_open(self@, r as int),
    {
        let cols = self.grid.cols();
        let mut j: usize = 0;
        while j < cols
            invariant
                self.wf(),
                r < self@.rows,
                j <= cols,
                cols == self@.cols,
                forall|c: int| 0 <= c < j ==> self@.cell(r as int, c),
            decreases cols - j,
        {
            if !self.grid.get(r, j) {
                assert(0 <= j < self@.cols && !self@.cell(r as int, j as int));
                return true;
            }
            j = j + 1;
        }
        false
    }

    fn col_open(&self, c: usize) -> (b: bool)
        requires
            self.wf(),
            c < self@.cols,
        ensures
            b == col_has_open(self@, c as int),
    {
        let rows = self.grid.rows();
        let mut i: usize = 0;
        while i < rows
            invariant
                self.wf(),
                c < self@.cols,
                i <= rows,
                rows == self@.rows,
                forall|r: int| 0 <= r < i ==> self@.cell(r, c as int),
            decreases rows - i,
        {
            if !self.grid.get(i, c) {
                assert(0 <= i < self@.rows && !self@.cell(i as int, c as int));
                return true;
            }
            i = i + 1;
        }
        false
    }

    /// Whether every cell of the board is blocked.
    pub fn is_fully_blocked(&self) -> (b: bool)
        requires
            self.wf(),
        ensures
            b <==> !has_open(self@),
    {
        let rows = self.grid.rows();
        let mut i: usize = 0;
        while i < rows
            invariant
                self.wf(),
                i <= rows,
                rows == self@.rows,
                forall|r: int| 0 <= r < i ==> !row_has_open(self@, r),
            decreases rows - i,
        {
            if self.row_open(i) {
                assert(has_open(self@));
                return false;
            }
            i = i + 1;
        }
        proof {
            false_has_open_proof(self@);
        }
        true
    }

    /// Packs the board into a bitmask: one set bit per blocked cell, in
    /// row-major order.
    pub fn to_bitmask(&self) -> (r: Bitmask)
        requires
            self.wf(),
            self@.rows * self@.cols <= 128,
        ensures
            forall|i: int| #[trigger]
                r.has(i) <==> (0 <= i < self@.rows * self@.cols && self@.cells[i]),
    {
        let rows = self.grid.rows();
        let cols = self.grid.cols();
        let n = rows * cols;
        let mut m = Bitmask::none();
        let mut k: usize = 0;
        while k < n
            invariant
                self.wf(),
                rows == self@.rows,
                cols == self@.cols,
                n == rows * cols,
                n <= 128,
                k <= n,
                forall|i: int| #[trigger] m.has(i) <==> (0 <= i < k && self@.cells[i]),
            decreases n - k,
        {
            if self.grid.get_flat(k) {
                m = m.set(k);
            }
            k = k + 1;
        }
        m
    }

    /// Shrinks the board to the minimal bounding rectangle that holds every
    /// open cell; a board with no open cell shrinks to the empty board.
    pub fn trim(&mut self)
        requires
            old(self).wf(),
        ensures
            final (self).wf(),
            final (self)@ == spec_trim(old(self)@),
    {
        let ghost g = self@;
        let ghost rowp = |r: int| row_has_open(g, r);
        let ghost colp = |c: int| col_has_open(g, c);
        let rows = self.grid.rows();
        let cols = self.grid.cols();

        let mut r0: usize = 0;
        while r0 < rows && !self.row_open(r0)
            invariant
                self.wf(),
                self@ == g,
                rows == g.rows,
                cols == g.cols,
                r0 <= rows,
                forall|r: int| 0 <= r < r0 ==> !row_has_open(g, r),
            decreases rows - r0,
        {
            r0 = r0 + 1;
        }

        if r0 == rows {
            proof {
                lemma_first_true_unique(rows as int, rowp, 0, rows as int);
            }
            self.grid = Grid::new(0, 0, false);
            proof {
                assert(self@.cells =~= spec_trim(g).cells);
                assert(self@ =~= spec_trim(g));
            }
            return ;
        }
        proof {
            lemma_first_true_unique(rows as int, rowp, 0, r0 as int);
        }
        let ghost jj = choose|c: int| 0 <= c < g.cols && !g.cell(r0 as int, c);
        let ghost ii = r0 as int;

        let mut r1: usize = rows;
        while !self.row_open(r1 - 1)
            invariant
                self.wf(),
                self@ == g,
                rows == g.rows,
                cols == g.cols,
                r0 < r1 <= rows,
                row_has_open(g, r0 as int),
                forall|r: int| r1 <= r < rows ==> !row_has_open(g, r),
            decreases r1,
        {
            assert(r1 - 1 != r0);
            r1 = r1 - 1;
        }
        proof {
            lemma_last_true_unique(rowp, rows as int, r1 - 1);
        }

        assert(col_has_open(g, jj)) by {
            assert(0 <= ii < g.rows && !g.cell(ii, jj));
        }

        let mut c0: usize = 0;
        while !self.col_open(c0)
            invariant
                self.wf(),
                self@ == g,
                rows == g.rows,
                cols == g.cols,
                c0 <= jj < cols,
                col_has_open(g, jj),
                forall|c: int| 0 <= c < c0 ==> !col_has_open(g, c),
            decreases cols - c0,
        {
            assert(c0 != jj);
            c0 = c0 + 1;
        }
        proof {
            lemma_first_true_unique(cols as int, colp, 0, c0 as int);
        }

        let mut c1: usize = cols;
        while !self.col_open(c1 - 1)
            invariant
                self.wf(),
                self@ == g,
                rows == g.rows,
                cols == g.cols,
                c0 <= jj < c1 <= cols,
                col_has_open(g, jj),
                forall|c: int| c1 <= c < cols ==> !col_has_open(g, c),
            decreases c1,
        {
            assert(c1 - 1 != jj);
            c1 = c1 - 1;
        }
        proof {
            lemma_last_true_unique(colp, cols as int, c1 - 1);
        }

        let h = r1 - r0;
        let w = c1 - c0;
        let ghost f = |a: int, b: int| g.cell(r0 + a, c0 + b);
        let ghost target = spec_trim(g);
        proof {
            assert(target == grid_of(h as nat, w as nat, f));
            assert(target.rows == h && target.cols == w);
        }

        let mut cells: Vec<bool> = Vec::new();
        let mut i: usize = 0;
        while i < h
            invariant
                self.wf(),
                self@ == g,
                rows == g.rows,
                cols == g.cols,
                i <= h,
                r0 + h <= rows,
                c0 + w <= cols,
                target == spec_trim(g),
                target == grid_of(h as nat, w as nat, f),
                (f == |a: int, b: int| g.cell(r0 + a, c0 + b)),
                target.rows == h,
                target.cols == w,
                cells.len() == i * w,
                forall|a: int, b: int|
                    0 <= a < i && 0 <= b < w ==> cells[a * w as int + b] == target.cell(a, b),
            decreases h - i,
        {
            let mut j: usize = 0;
            while j < w
                invariant
                    self.wf(),
                    self@ == g,
                    rows == g.rows,
                    cols == g.cols,
                    i < h,
                    j <= w,
                    r0 + h <= rows,
                    c0 + w <= cols,
                    target == spec_trim(g),
                    target == grid_of(h as nat, w as nat, f),
                    (f == |a: int, b: int| g.cell(r0 + a, c0 + b)),
                    target.rows == h,
                    target.cols == w,
                    cells.len() == i * w + j,
                    forall|a: int, b: int|
                        0 <= a < i && 0 <= b < w ==> cells[a * w as int + b] == target.cell(a, b),
                    forall|b: int| 0 <= b < j ==> cells[i as int * w as int + b] == target.cell(
                        i as int,
                        b,
                    ),
                decreases w - j,
            {
                proof {
                    lemma_rowmajor(i as int, j as int, h as int, w as int);
                }
                let v = self.grid.get(r0 + i, c0 + j);
                cells.push(v);
                proof {
                    lemma_grid_of_cell(h as nat, w as nat, f, i as int, j as int);
                    assert(target.cell(i as int, j as int) == g.cell(r0 + i, c0 + j));
                    assert forall|a: int, b: int| 0 <= a < i && 0 <= b < w implies cells[a
                        * w as int + b] == target.cell(a, b) by {
                        lemma_rowmajor(a, b, h as int, w as int);
                        lemma_rowmajor(i as int, j as int, h as int, w as int);
                        assert(a * w as int + b < i * w as int) by (nonlinear_arith)
                            requires
                                0 <= a < i,
                                0 <= b < w as int,
                        ;
                    }
                }
                j = j + 1;
            }
            i = i + 1;
            proof {
                assert(i * w == (i - 1) * w + w) by (nonlinear_arith);
            }
        }
        proof {
            assert(target.wf());
            lemma_rowmajor_complete(cells@, target, h as int, w as int);
        }
        self.grid = Grid::from_cells(h, w, cells);
        proof {
            assert(self@ =~= target);
        }
    }
}

/// With no open row the grid has no open cell.
proof fn false_has_open_proof(g: GridModel)
    requires
        forall|r: int| 0 <= r < g.rows ==> !row_has_open(g, r),
    ensures
        !has_open(g),
{
}

/// The trimmed board is well formed and no larger than the board.
pub proof fn lemma_trim_wf(g: GridModel)
    requires
        g.wf(),
    ensures
        spec_trim(g).wf(),
        spec_trim(g).rows <= g.rows,
        spec_trim(g).cols <= g.cols,
{
    let rowp = |r: int| row_has_open(g, r);
    let colp = |c: int| col_has_open(g, c);
    let r0 = first_true(g.rows as int, rowp, 0);
    lemma_first_true(g.rows as int, rowp, 0);
    if r0 < g.rows {
        lemma_last_true(rowp, g.rows as int);
        lemma_first_true(g.cols as int, colp, 0);
        lemma_last_true(colp, g.cols as int);
        let r1 = last_true(rowp, g.rows as int);
        let c0 = first_true(g.cols as int, colp, 0);
        let c1 = last_true(colp, g.cols as int);
        assert(rowp(r0));
        let jx = choose|j: int| 0 <= j < g.cols && !g.cell(r0, j);
        assert(colp(jx)) by {
            assert(0 <= r0 < g.rows && !g.cell(r0, jx));
        }
        assert(r1 >= r0) by {
            if r1 < r0 {
                assert(!rowp(r0));
            }
        }
        assert(c0 <= jx <= c1) by {
            if jx < c0 {
                assert(!colp(jx));
            }
            if c1 < jx {
                assert(!colp(jx));
            }
        }
        let t = spec_trim(g);
        assert(t == grid_of(
            (r1 - r0 + 1) as nat,
            (c1 - c0 + 1) as nat,
            |i: int, j: int| g.cell(r0 + i, c0 + j),
        ));
        assert(t.wf());
        assert(t.rows <= g.rows);
        assert(t.cols <= g.cols);
    } else {
        let t = spec_trim(g);
        assert(t == (GridModel { rows: 0, cols: 0, cells: Seq::empty() }));
        assert(t.wf());
    }
}

/// Trimming is idempotent: a trimmed board trims to itself.
pub proof fn lemma_trim_idempotent(g: GridModel)
    requires
        g.wf(),
    ensures
        spec_trim(spec_trim(g)) == spec_trim(g),
{
    let rowp = |r: int| row_has_open(g, r);
    let colp = |c: int| col_has_open(g, c);
    let r0 = first_true(g.rows as int, rowp, 0);
    lemma_first_true(g.rows as int, rowp, 0);
    if r0 == g.rows as int {
        let t = spec_trim(g);
        assert(t.rows == 0);
        let trowp = |r: int| row_has_open(t, r);
        lemma_first_true_unique(0, trowp, 0, 0);
        assert(spec_trim(t).cells =~= t.cells);
        assert(spec_trim(t) =~= t);
    } else {
        lemma_last_true(rowp, g.rows as int);
        lemma_first_true(g.cols as int, colp, 0);
        lemma_last_true(colp, g.cols as int);
        let r1 = last_true(rowp, g.rows as int);
        let c0 = first_true(g.cols as int, colp, 0);
        let c1 = last_true(colp, g.cols as int);

        assert(rowp(r0));
        let jx = choose|j: int| 0 <= j < g.cols && !g.cell(r0, j);
        assert(colp(jx)) by {
            assert(0 <= r0 < g.rows && !g.cell(r0, jx));
        }
        assert(r0 <= r1) by {
            if r1 < r0 {
                assert(!rowp(r0));
            }
        }
        assert(c0 <= jx <= c1) by {
            if c1 < jx {
                assert(!colp(jx));
            }
        }
        assert(rowp(r1));
        let jy = choose|j: int| 0 <= j < g.cols && !g.cell(r1, j);
        assert(colp(jy)) by {
            assert(0 <= r1 < g.rows && !g.cell(r1, jy));
        }
        assert(c0 <= jy <= c1) by {
            if c1 < jy {
                assert(!colp(jy));
            }
        }
        assert(colp(c0)) by {
            if c0 < g.cols {
            } else {
                assert(!colp(jx));
            }
        }
        let iy0 = choose|i: int| 0 <= i < g.rows && !g.cell(i, c0);
        assert(rowp(iy0)) by {
            assert(0 <= c0 < g.cols && !g.cell(iy0, c0));
        }
        assert(r0 <= iy0 <= r1) by {
            if iy0 < r0 {
                assert(!rowp(iy0));
            }
            if r1 < iy0 {
                assert(!rowp(iy0));
            }
        }
        assert(colp(c1));
        let iy1 = choose|i: int| 0 <= i < g.rows && !g.cell(i, c1);
        assert(rowp(iy1)) by {
            assert(0 <= c1 < g.cols && !g.cell(iy1, c1));
        }
        assert(r0 <= iy1 <= r1) by {
            if iy1 < r0 {
                assert(!rowp(iy1));
            }
            if r1 < iy1 {
                assert(!rowp(iy1));
            }
        }

        let t = spec_trim(g);
        let h = r1 - r0 + 1;
        let w = c1 - c0 + 1;
        let f = |i: int, j: int| g.cell(r0 + i, c0 + j);
        assert(t == grid_of(h as nat, w as nat, f));
        assert(t.rows == h && t.cols == w && t.wf());
        assert forall|i: int, j: int| 0 <= i < h && 0 <= j < w implies t.cell(i, j) == g.cell(
            r0 + i,
            c0 + j,
        ) by {
            lemma_grid_of_cell(h as nat, w as nat, f, i, j);
        }

        let trowp = |r: int| row_has_open(t, r);
        let tcolp = |c: int| col_has_open(t, c);

        // Row 0 and row h - 1 of the trimmed board hold open cells.
        assert(trowp(0)) by {
            assert(t.cell(0, jx - c0) == g.cell(r0, jx));
            assert(0 <= jx - c0 < w && !t.cell(0, jx - c0));
        }
        assert(trowp(h - 1)) by {
            assert(t.cell(h - 1, jy - c0) == g.cell(r1, jy));
            assert(0 <= jy - c0 < w && !t.cell(h - 1, jy - c0));
        }
        assert(tcolp(0)) by {
            assert(t.cell(iy0 - r0, 0) == g.cell(iy0, c0));
            assert(0 <= iy0 - r0 < h && !t.cell(iy0 - r0, 0));
        }
        assert(tcolp(w - 1)) by {
            assert(t.cell(iy1 - r0, w - 1) == g.cell(iy1, c1));
            assert(0 <= iy1 - r0 < h && !t.cell(iy1 - r0, w - 1));
        }

        lemma_first_true_unique(h, trowp, 0, 0);
        lemma_last_true_unique(trowp, h, h - 1);
        lemma_first_true_unique(w, tcolp, 0, 0);
        lemma_last_true_unique(tcolp, w, w - 1);

        let tt = spec_trim(t);
        let ft = |i: int, j: int| t.cell(0 + i, 0 + j);
        assert(tt == grid_of(h as nat, w as nat, ft));
        assert forall|i: int, j: int| tt.in_bounds(i, j) implies tt.cell(i, j) == t.cell(i, j) by {
            lemma_grid_of_cell(h as nat, w as nat, ft, i, j);
        }
        lemma_grid_ext(tt, t);
    }
}

} // verus!
