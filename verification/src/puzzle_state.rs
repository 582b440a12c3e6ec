//! The playing-field state around a puzzle board: a one-cell border is added
//! on every side, and each cell records whether it belongs to the board and
//! whether a dragged tile may rest there at all.

use vstd::prelude::*;

use crate::grid::{lemma_rowmajor, Grid, GridModel};

verus! {

/// A cell position on the bordered playing field.
#[derive(Debug, Clone, Copy, PartialEq, Eq, Structural)]
pub struct CellOffset(pub i32, pub i32);

/// What the playing field records per cell.
#[derive(Debug, Clone, Copy, PartialEq, Eq, Structural)]
pub struct CellData {
    /// The cell's own position on the bordered field.
    pub position: CellOffset,
    /// The cell belongs to the puzzle board proper.
    pub is_on_board: bool,
    /// A tile may rest here: on the board, or far enough outside it.
    pub allowed: bool,
}

/// Board coordinates `(i, j)` name a playable cell of the layout.
pub open spec fn layout_allows(layout: GridModel, i: int, j: int) -> bool {
    layout.in_bounds(i, j) && layout.cell(i, j)
}

/// Some edge neighbour of board coordinates `(i, j)` is playable.
pub open spec fn spec_adjacent_to_allowed(layout: GridModel, i: int, j: int) -> bool {
    ||| layout_allows(layout, i - 1, j)
    ||| layout_allows(layout, i + 1, j)
    ||| layout_allows(layout, i, j - 1)
    ||| layout_allows(layout, i, j + 1)
}

/// The cell the playing field holds at bordered position `(r, c)`.
pub open spec fn spec_field_cell(layout: GridModel, r: int, c: int) -> CellData {
    let on_board = layout_allows(layout, r - 1, c - 1);
    CellData {
        position: CellOffset((r as i32), (c as i32)),
        is_on_board: on_board,
        allowed: on_board || !spec_adjacent_to_allowed(layout, r - 1, c - 1),
    }
}

/// Whether board coordinates `(i, j)` name a playable layout cell.
fn layout_allows_at(layout: &Grid, i: i32, j: i32) -> (r: bool)
    requires
        layout.wf(),
        layout@.rows <= i32::MAX,
        layout@.cols <= i32::MAX,
    ensures
        r == layout_allows(layout@, i as int, j as int),
{
    if i < 0 || j < 0 {
        return false;
    }
    let rows = layout.rows();
    let cols = layout.cols();
    let iu = i as usize;
    let ju = j as usize;
    if iu >= rows || ju >= cols {
        return false;
    }
    layout.get(iu, ju)
}

/// Whether some edge neighbour of board coordinates `(i, j)` is playable.
pub fn is_adjacent_to_allowed(position: (i32, i32), layout: &Grid) -> (r: bool)
    requires
        layout.wf(),
        layout@.rows <= i32::MAX,
        layout@.cols <= i32::MAX,
        -1 <= position.0 <= i32::MAX - 1,
        -1 <= position.1 <= i32::MAX - 1,
    ensures
        r == spec_adjacent_to_allowed(layout@, position.0 as int, position.1 as int),
{
    let (i, j) = position;
    layout_allows_at(layout, i - 1, j) || layout_allows_at(layout, i + 1, j)
        || layout_allows_at(layout, i, j - 1) || layout_allows_at(layout, i, j + 1)
}

/// The playing field: the board layout plus a one-cell border on every side,
/// so that a zone where tiles may not rest marks the board's outside.
#[derive(Debug)]
pub struct PuzzleState {
    rows: usize,
    cols: usize,
    grid: Vec<CellData>,
}

impl PuzzleState {
    pub closed spec fn spec_rows(self) -> nat {
        self.rows as nat
    }

    pub closed spec fn spec_cols(self) -> nat {
        self.cols as nat
    }

    pub closed spec fn spec_cells(self) -> Seq<CellData> {
        self.grid@
    }

    pub open spec fn wf(self) -> bool {
        self.spec_cells().len() == self.spec_rows() * self.spec_cols()
    }

    /// The cell at bordered position `(r, c)`.
    pub open spec fn cell(self, r: int, c: int) -> CellData {
        self.spec_cells()[r * self.spec_cols() + c]
    }

    pub fn rows(&self) -> (r: usize)
        ensures
            r == self.spec_rows(),
    {
        self.rows
    }

    pub fn cols(&self) -> (r: usize)
        ensures
            r == self.spec_cols(),
    {
        self.cols
    }

    pub fn get(&self, r: usize, c: usize) -> (res: CellData)
        requires
            self.wf(),
            r < self.spec_rows(),
            c < self.spec_cols(),
        ensures
            res == self.cell(r as int, c as int),
    {
        proof {
            lemma_rowmajor(r as int, c as int, self.spec_rows() as int, self.spec_cols() as int);
        }
        let n = self.grid.len();
        assert(r as int * self.spec_cols() as int + c < n);
        self.grid[r * self.cols + c]
    }

    /// Builds the playing field for a board layout: every cell of the
    /// layout plus the border, each knowing whether it is on the board and
    /// whether a tile may rest there.
    pub fn new(layout: &Grid) -> (res: PuzzleState)
        requires
            layout.wf(),
            layout@.rows + 2 <= i32::MAX,
            layout@.cols + 2 <= i32::MAX,
            (layout@.rows + 2) * (layout@.cols + 2) <= usize::MAX,
        ensures
            res.wf(),
            res.spec_rows() == layout@.rows + 2,
            res.spec_cols() == layout@.cols + 2,
            forall|r: int, c: int|
                0 <= r < res.spec_rows() && 0 <= c < res.spec_cols() ==> res.cell(r, c)
                    == spec_field_cell(layout@, r, c),
    {
        let rows = layout.rows() + 2;
        let cols = layout.cols() + 2;
        let mut cells: Vec<CellData> = Vec::new();
        let mut r: usize = 0;
        while r < rows
            invariant
                layout.wf(),
                layout@.rows + 2 <= i32::MAX,
                layout@.cols + 2 <= i32::MAX,
                rows == layout@.rows + 2,
                cols == layout@.cols + 2,
                r <= rows,
                cells@.len() == r * cols,
                forall|a: int, b: int|
                    0 <= a < r && 0 <= b < cols ==> cells@[a * cols as int + b]
                        == spec_field_cell(layout@, a, b),
            decreases rows - r,
        {
            let mut c: usize = 0;
            while c < cols
                invariant
                    layout.wf(),
                    layout@.rows + 2 <= i32::MAX,
                    layout@.cols + 2 <= i32::MAX,
                    rows == layout@.rows + 2,
                    cols == layout@.cols + 2,
                    r < rows,
                    c <= cols,
                    cells@.len() == r * cols + c,
                    forall|a: int, b: int|
                        0 <= a < r && 0 <= b < cols ==> cells@[a * cols as int + b]
                            == spec_field_cell(layout@, a, b),
                    forall|b: int|
                        0 <= b < c ==> cells@[r as int * cols as int + b] == spec_field_cell(
                            layout@,
                            r as int,
                            b,
                        ),
                decreases cols - c,
            {
                proof {
                    lemma_rowmajor(r as int, c as int, rows as int, cols as int);
                }
                let ri = r as i32;
                let ci = c as i32;
                let on_board = layout_allows_at(layout, ri - 1, ci - 1);
                let allowed = on_board || !is_adjacent_to_allowed((ri - 1, ci - 1), layout);
                let cell = CellData { position: CellOffset(ri, ci), is_on_board: on_board, allowed };
                cells.push(cell);
                proof {
                    assert(cells@[r as int * cols as int + c as int] == spec_field_cell(
                        layout@,
                        r as int,
                        c as int,
                    ));
                    assert forall|a: int, b: int| 0 <= a < r && 0 <= b < cols implies cells@[a
                        * cols as int + b] == spec_field_cell(layout@, a, b) by {
                        lemma_rowmajor(a, b, rows as int, cols as int);
                        lemma_rowmajor(r as int, c as int, rows as int, cols as int);
                        assert(a * cols as int + b < r * cols as int) by (nonlinear_arith)
                            requires
                                0 <= a < r,
                                0 <= b < cols as int,
                        ;
                    }
                }
                c = c + 1;
            }
            r = r + 1;
            proof {
                assert(r * cols == (r - 1) * cols + cols) by (nonlinear_arith);
            }
        }
        PuzzleState { rows, cols, grid: cells }
    }
}

} // verus!
