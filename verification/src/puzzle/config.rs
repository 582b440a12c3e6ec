//! The two built-in puzzle configurations: the date puzzle and the year
//! puzzle, each a board layout, its meaning areas and values, and a tile set.

use vstd::prelude::*;

use crate::config::target::TextGrid;
use crate::grid::{lemma_rowmajor, Grid, GridModel};
use crate::tile::{has_filled, Tile};

verus! {

/// A shape fit to seed a tile: well formed, nonempty in both dimensions,
/// with at least one filled cell.
pub open spec fn tile_shape_ok(g: Grid) -> bool {
    &&& g.wf()
    &&& g@.rows >= 1
    &&& g@.cols >= 1
    &&& has_filled(g@)
}

/// A rectangular grid of integer cell values stored row-major.
#[derive(Debug, Clone)]
pub struct ValueGrid {
    rows: usize,
    cols: usize,
    cells: Vec<i32>,
}

impl ValueGrid {
    pub closed spec fn spec_rows(self) -> nat {
        self.rows as nat
    }

    pub closed spec fn spec_cols(self) -> nat {
        self.cols as nat
    }

    pub closed spec fn spec_cells(self) -> Seq<i32> {
        self.cells@
    }

    pub open spec fn wf(self) -> bool {
        self.spec_cells().len() == self.spec_rows() * self.spec_cols()
    }

    /// The value in row `i`, column `j`.
    pub open spec fn cell(self, i: int, j: int) -> i32 {
        self.spec_cells()[i * self.spec_cols() + j]
    }

    pub fn from_cells(rows: usize, cols: usize, cells: Vec<i32>) -> (res: ValueGrid)
        requires
            cells.len() == rows * cols,
        ensures
            res.wf(),
            res.spec_rows() == rows,
            res.spec_cols() == cols,
            res.spec_cells() == cells@,
    {
        ValueGrid { rows, cols, cells }
    }

    pub fn rows(&self) -> (r: usize)
        ensures
            r == self.spec_rows(),
    {
        self.rows
    }

    pub fn cols(&self) -> (r: usize)
        ensures
            r == self.spec_cols(),
    {
        self.cols
    }

    pub fn get(&self, i: usize, j: usize) -> (r: i32)
        requires
            self.wf(),
            i < self.spec_rows(),
            j < self.spec_cols(),
        ensures
            r == self.cell(i as int, j as int),
    {
        proof {
            lemma_rowmajor(i as int, j as int, self.spec_rows() as int, self.spec_cols() as int);
        }
        let n = self.cells.len();
        assert(i as int * self.spec_cols() as int + j < n);
        self.cells[i * self.cols + j]
    }
}

/// One puzzle: its board layout, the meaning of each cell, and its tiles.
#[derive(Debug, Clone)]
pub struct PuzzleConfig {
    /// The playable cells; `true` is on the board.
    pub board_layout: Grid,
    /// The meaning area of each cell; `-1` is none.
    pub meaning_areas: ValueGrid,
    /// The meaning value of each cell; `-1` is none.
    pub meaning_values: ValueGrid,
    /// The tiles that must cover the board.
    pub tiles: Vec<Tile>,
}

impl PuzzleConfig {
    pub fn new(
        board_layout: Grid,
        meaning_areas: ValueGrid,
        meaning_values: ValueGrid,
        tiles: Vec<Tile>,
    ) -> (res: PuzzleConfig)
        ensures
            res.board_layout == board_layout,
            res.meaning_areas == meaning_areas,
            res.meaning_values == meaning_values,
            res.tiles == tiles,
    {
        PuzzleConfig { board_layout, meaning_areas, meaning_values, tiles }
    }

    /// The configuration is internally consistent: the meaning grids match
    /// the board's dimensions and every tile is well formed.
    pub open spec fn wf(self) -> bool {
        &&& self.board_layout.wf()
        &&& self.meaning_areas.wf()
        &&& self.meaning_values.wf()
        &&& self.meaning_areas.spec_rows() == self.board_layout@.rows
        &&& self.meaning_areas.spec_cols() == self.board_layout@.cols
        &&& self.meaning_values.spec_rows() == self.board_layout@.rows
        &&& self.meaning_values.spec_cols() == self.board_layout@.cols
        &&& forall|k: int| 0 <= k < self.tiles@.len() ==> (#[trigger] self.tiles@[k])@.wf()
    }
}

/// Builds a tile, with all its orientations, from each shape.
pub fn create_tiles(tile_data_list: &Vec<Grid>) -> (r: Vec<Tile>)
    requires
        forall|k: int| 0 <= k < tile_data_list@.len() ==> tile_shape_ok(#[trigger] tile_data_list@[k]),
    ensures
        r@.len() == tile_data_list@.len(),
        forall|k: int|
            0 <= k < r@.len() ==> (#[trigger] r@[k])@.wf() && r@[k]@.base == tile_data_list@[k]@,
{
    let mut tiles: Vec<Tile> = Vec::new();
    let n = tile_data_list.len();
    let mut k: usize = 0;
    while k < n
        invariant
            n == tile_data_list@.len(),
            forall|m: int|
                0 <= m < tile_data_list@.len() ==> tile_shape_ok(#[trigger] tile_data_list@[m]),
            k <= n,
            tiles@.len() == k,
            forall|m: int|
                0 <= m < k ==> (#[trigger] tiles@[m])@.wf() && tiles@[m]@.base
                    == tile_data_list@[m]@,
        decreases n - k,
    {
        let tile = Tile::new(tile_data_list[k].clone());
        tiles.push(tile);
        k = k + 1;
    }
    tiles
}

/// The eight tile shapes of the date puzzle.
pub fn default_tiles() -> (r: Vec<Grid>)
    ensures
        r@.len() == 8,
        forall|k: int| 0 <= k < r@.len() ==> tile_shape_ok(#[trigger] r@[k]),
        r@[0]@ == (GridModel { rows: 3, cols: 3, cells: seq![true, false, false, true, true, true, false, false, true] }),
        r@[1]@ == (GridModel { rows: 2, cols: 4, cells: seq![true, false, false, false, true, true, true, true] }),
        r@[2]@ == (GridModel { rows: 4, cols: 2, cells: seq![true, false, true, true, true, false, true, false] }),
        r@[3]@ == (GridModel { rows: 3, cols: 2, cells: seq![true, true, true, true, true, true] }),
        r@[4]@ == (GridModel { rows: 4, cols: 2, cells: seq![true, false, true, true, false, true, false, true] }),
        r@[5]@ == (GridModel { rows: 3, cols: 2, cells: seq![true, true, true, true, true, false] }),
        r@[6]@ == (GridModel { rows: 3, cols: 2, cells: seq![true, true, true, false, true, true] }),
        r@[7]@ == (GridModel { rows: 3, cols: 3, cells: seq![true, false, false, true, false, false, true, true, true] }),
{
    let mut shapes: Vec<Grid> = Vec::new();
    {
        let cells: Vec<bool> = vec![true, false, false, true, true, true, false, false, true];
        assert(cells@ =~= seq![true, false, false, true, true, true, false, false, true]);
        let g = Grid::from_cells(3, 3, cells);
        proof {
            assert(g@.cells[0]);
            assert(g@.in_bounds(0, 0) && g@.cell(0, 0));
        }
        shapes.push(g);
    }
    {
        let cells: Vec<bool> = vec![true, false, false, false, true, true, true, true];
        assert(cells@ =~= seq![true, false, false, false, true, true, true, true]);
        let g = Grid::from_cells(2, 4, cells);
        proof {
            assert(g@.cells[0]);
            assert(g@.in_bounds(0, 0) && g@.cell(0, 0));
        }
        shapes.push(g);
    }
    {
        let cells: Vec<bool> = vec![true, false, true, true, true, false, true, false];
        assert(cells@ =~= seq![true, false, true, true, true, false, true, false]);
        let g = Grid::from_cells(4, 2, cells);
        proof {
            assert(g@.cells[0]);
            assert(g@.in_bounds(0, 0) && g@.cell(0, 0));
        }
        shapes.push(g);
    }
    {
        let cells: Vec<bool> = vec![true, true, true, true, true, true];
        assert(cells@ =~= seq![true, true, true, true, true, true]);
        let g = Grid::from_cells(3, 2, cells);
        proof {
            assert(g@.cells[0]);
            assert(g@.in_bounds(0, 0) && g@.cell(0, 0));
        }
        shapes.push(g);
    }
    {
        let cells: Vec<bool> = vec![true, false, true, true, false, true, false, true];
        assert(cells@ =~= seq![true, false, true, true, false, true, false, true]);
        let g = Grid::from_cells(4, 2, cells);
        proof {
            assert(g@.cells[0]);
            assert(g@.in_bounds(0, 0) && g@.cell(0, 0));
        }
        shapes.push(g);
    }
    {
        let cells: Vec<bool> = vec![true, true, true, true, true, false];
        assert(cells@ =~= seq![true, true, true, true, true, false]);
        let g = Grid::from_cells(3, 2, cells);
        proof {
            assert(g@.cells[0]);
            assert(g@.in_bounds(0, 0) && g@.cell(0, 0));
        }
        shapes.push(g);
    }
    {
        let cells: Vec<bool> = vec![true, true, true, false, true, true];
        assert(cells@ =~= seq![true, true, true, false, true, true]);
        let g = Grid::from_cells(3, 2, cells);
        proof {
            assert(g@.cells[0]);
            assert(g@.in_bounds(0, 0) && g@.cell(0, 0));
        }
        shapes.push(g);
    }
    {
        let cells: Vec<bool> = vec![true, false, false, true, false, false, true, true, true];
        assert(cells@ =~= seq![true, false, false, true, false, false, true, true, true]);
        let g = Grid::from_cells(3, 3, cells);
        proof {
            assert(g@.cells[0]);
            assert(g@.in_bounds(0, 0) && g@.cell(0, 0));
        }
        shapes.push(g);
    }
    shapes
}

/// The playable cells of the date puzzle board; `true` is on the board.
pub fn default_board_layout() -> (r: Grid)
    ensures
        r.wf(),
        r@.rows == 7,
        r@.cols == 7,
        r@.cells == seq![true, true, true, true, true, true, false, true, true, true, true, true, true, false, true, true, true, true, true, true, true, true, true, true, true, true, true, true, true, true, true, true, true, true, true, true, true, true, true, true, true, true, true, true, true, false, false, false, false],
{
    let cells: Vec<bool> = vec![true, true, true, true, true, true, false, true, true, true, true, true, true, false, true, true, true, true, true, true, true, true, true, true, true, true, true, true, true, true, true, true, true, true, true, true, true, true, true, true, true, true, true, true, true, false, false, false, false];
    assert(cells@ =~= seq![true, true, true, true, true, true, false, true, true, true, true, true, true, false, true, true, true, true, true, true, true, true, true, true, true, true, true, true, true, true, true, true, true, true, true, true, true, true, true, true, true, true, true, true, true, false, false, false, false]);
    Grid::from_cells(7, 7, cells)
}

/// Which meaning area each cell of the date puzzle belongs to; `-1` is none.
pub fn default_board_meaning_areas() -> (r: ValueGrid)
    ensures
        r.wf(),
        r.spec_rows() == 7,
        r.spec_cols() == 7,
        r.spec_cells() == seq![1i32, 1i32, 1i32, 1i32, 1i32, 1i32, -1i32, 1i32, 1i32, 1i32, 1i32, 1i32, 1i32, -1i32, 0i32, 0i32, 0i32, 0i32, 0i32, 0i32, 0i32, 0i32, 0i32, 0i32, 0i32, 0i32, 0i32, 0i32, 0i32, 0i32, 0i32, 0i32, 0i32, 0i32, 0i32, 0i32, 0i32, 0i32, 0i32, 0i32, 0i32, 0i32, 0i32, 0i32, 0i32, -1i32, -1i32, -1i32, -1i32],
{
    let cells: Vec<i32> = vec![1i32, 1i32, 1i32, 1i32, 1i32, 1i32, -1i32, 1i32, 1i32, 1i32, 1i32, 1i32, 1i32, -1i32, 0i32, 0i32, 0i32, 0i32, 0i32, 0i32, 0i32, 0i32, 0i32, 0i32, 0i32, 0i32, 0i32, 0i32, 0i32, 0i32, 0i32, 0i32, 0i32, 0i32, 0i32, 0i32, 0i32, 0i32, 0i32, 0i32, 0i32, 0i32, 0i32, 0i32, 0i32, -1i32, -1i32, -1i32, -1i32];
    assert(cells@ =~= seq![1i32, 1i32, 1i32, 1i32, 1i32, 1i32, -1i32, 1i32, 1i32, 1i32, 1i32, 1i32, 1i32, -1i32, 0i32, 0i32, 0i32, 0i32, 0i32, 0i32, 0i32, 0i32, 0i32, 0i32, 0i32, 0i32, 0i32, 0i32, 0i32, 0i32, 0i32, 0i32, 0i32, 0i32, 0i32, 0i32, 0i32, 0i32, 0i32, 0i32, 0i32, 0i32, 0i32, 0i32, 0i32, -1i32, -1i32, -1i32, -1i32]);
    ValueGrid::from_cells(7, 7, cells)
}

/// The meaning value of each cell of the date puzzle; `-1` is none.
pub fn default_board_meaning_values() -> (r: ValueGrid)
    ensures
        r.wf(),
        r.spec_rows() == 7,
        r.spec_cols() == 7,
        r.spec_cells() == seq![1i32, 2i32, 3i32, 4i32, 5i32, 6i32, -1i32, 7i32, 8i32, 9i32, 10i32, 11i32, 12i32, -1i32, 1i32, 2i32, 3i32, 4i32, 5i32, 6i32, 7i32, 8i32, 9i32, 10i32, 11i32, 12i32, 13i32, 14i32, 15i32, 16i32, 17i32, 18i32, 19i32, 20i32, 21i32, 22i32, 23i32, 24i32, 25i32, 26i32, 27i32, 28i32, 29i32, 30i32, 31i32, -1i32, -1i32, -1i32, -1i32],
{
    let cells: Vec<i32> = vec![1i32, 2i32, 3i32, 4i32, 5i32, 6i32, -1i32, 7i32, 8i32, 9i32, 10i32, 11i32, 12i32, -1i32, 1i32, 2i32, 3i32, 4i32, 5i32, 6i32, 7i32, 8i32, 9i32, 10i32, 11i32, 12i32, 13i32, 14i32, 15i32, 16i32, 17i32, 18i32, 19i32, 20i32, 21i32, 22i32, 23i32, 24i32, 25i32, 26i32, 27i32, 28i32, 29i32, 30i32, 31i32, -1i32, -1i32, -1i32, -1i32];
    assert(cells@ =~= seq![1i32, 2i32, 3i32, 4i32, 5i32, 6i32, -1i32, 7i32, 8i32, 9i32, 10i32, 11i32, 12i32, -1i32, 1i32, 2i32, 3i32, 4i32, 5i32, 6i32, 7i32, 8i32, 9i32, 10i32, 11i32, 12i32, 13i32, 14i32, 15i32, 16i32, 17i32, 18i32, 19i32, 20i32, 21i32, 22i32, 23i32, 24i32, 25i32, 26i32, 27i32, 28i32, 29i32, 30i32, 31i32, -1i32, -1i32, -1i32, -1i32]);
    ValueGrid::from_cells(7, 7, cells)
}

/// The twelve tile shapes of the year puzzle.
pub fn year_tiles() -> (r: Vec<Grid>)
    ensures
        r@.len() == 12,
        forall|k: int| 0 <= k < r@.len() ==> tile_shape_ok(#[trigger] r@[k]),
        r@[0]@ == (GridModel { rows: 3, cols: 3, cells: seq![true, false, false, true, true, true, false, false, true] }),
        r@[1]@ == (GridModel { rows: 2, cols: 4, cells: seq![true, false, false, false, true, true, true, true] }),
        r@[2]@ == (GridModel { rows: 4, cols: 2, cells: seq![true, false, true, true, true, false, true, false] }),
        r@[3]@ == (GridModel { rows: 3, cols: 2, cells: seq![true, true, true, true, true, true] }),
        r@[4]@ == (GridModel { rows: 4, cols: 2, cells: seq![true, false, true, true, false, true, false, true] }),
        r@[5]@ == (GridModel { rows: 3, cols: 2, cells: seq![true, true, true, true, true, false] }),
        r@[6]@ == (GridModel { rows: 3, cols: 2, cells: seq![true, true, true, false, true, true] }),
        r@[7]@ == (GridModel { rows: 3, cols: 3, cells: seq![true, false, false, true, false, false, true, true, true] }),
        r@[8]@ == (GridModel { rows: 3, cols: 3, cells: seq![true, true, false, false, true, true, false, true, true] }),
        r@[9]@ == (GridModel { rows: 2, cols: 3, cells: seq![true, true, true, false, true, false] }),
        r@[10]@ == (GridModel { rows: 2, cols: 3, cells: seq![true, true, true, true, false, false] }),
        r@[11]@ == (GridModel { rows: 2, cols: 3, cells: seq![true, true, false, false, true, true] }),
{
    let mut shapes: Vec<Grid> = Vec::new();
    {
        let cells: Vec<bool> = vec![true, false, false, true, true, true, false, false, true];
        assert(cells@ =~= seq![true, false, false, true, true, true, false, false, true]);
        let g = Grid::from_cells(3, 3, cells);
        proof {
            assert(g@.cells[0]);
            assert(g@.in_bounds(0, 0) && g@.cell(0, 0));
        }
        shapes.push(g);
    }
    {
        let cells: Vec<bool> = vec![true, false, false, false, true, true, true, true];
        assert(cells@ =~= seq![true, false, false, false, true, true, true, true]);
        let g = Grid::from_cells(2, 4, cells);
        proof {
            assert(g@.cells[0]);
            assert(g@.in_bounds(0, 0) && g@.cell(0, 0));
        }
        shapes.push(g);
    }
    {
        let cells: Vec<bool> = vec![true, false, true, true, true, false, true, false];
        assert(cells@ =~= seq![true, false, true, true, true, false, true, false]);
        let g = Grid::from_cells(4, 2, cells);
        proof {
            assert(g@.cells[0]);
            assert(g@.in_bounds(0, 0) && g@.cell(0, 0));
        }
        shapes.push(g);
    }
    {
        let cells: Vec<bool> = vec![true, true, true, true, true, true];
        assert(cells@ =~= seq![true, true, true, true, true, true]);
        let g = Grid::from_cells(3, 2, cells);
        proof {
            assert(g@.cells[0]);
            assert(g@.in_bounds(0, 0) && g@.cell(0, 0));
        }
        shapes.push(g);
    }
    {
        let cells: Vec<bool> = vec![true, false, true, true, false, true, false, true];
        assert(cells@ =~= seq![true, false, true, true, false, true, false, true]);
        let g = Grid::from_cells(4, 2, cells);
        proof {
            assert(g@.cells[0]);
            assert(g@.in_bounds(0, 0) && g@.cell(0, 0));
        }
        shapes.push(g);
    }
    {
        let cells: Vec<bool> = vec![true, true, true, true, true, false];
        assert(cells@ =~= seq![true, true, true, true, true, false]);
        let g = Grid::from_cells(3, 2, cells);
        proof {
            assert(g@.cells[0]);
            assert(g@.in_bounds(0, 0) && g@.cell(0, 0));
        }
        shapes.push(g);
    }
    {
        let cells: Vec<bool> = vec![true, true, true, false, true, true];
        assert(cells@ =~= seq![true, true, true, false, true, true]);
        let g = Grid::from_cells(3, 2, cells);
        proof {
            assert(g@.cells[0]);
            assert(g@.in_bounds(0, 0) && g@.cell(0, 0));
        }
        shapes.push(g);
    }
    {
        let cells: Vec<bool> = vec![true, false, false, true, false, false, true, true, true];
        assert(cells@ =~= seq![true, false, false, true, false, false, true, true, true]);
        let g = Grid::from_cells(3, 3, cells);
        proof {
            assert(g@.cells[0]);
            assert(g@.in_bounds(0, 0) && g@.cell(0, 0));
        }
        shapes.push(g);
    }
    {
        let cells: Vec<bool> = vec![true, true, false, false, true, true, false, true, true];
        assert(cells@ =~= seq![true, true, false, false, true, true, false, true, true]);
        let g = Grid::from_cells(3, 3, cells);
        proof {
            assert(g@.cells[0]);
            assert(g@.in_bounds(0, 0) && g@.cell(0, 0));
        }
        shapes.push(g);
    }
    {
        let cells: Vec<bool> = vec![true, true, true, false, true, false];
        assert(cells@ =~= seq![true, true, true, false, true, false]);
        let g = Grid::from_cells(2, 3, cells);
        proof {
            assert(g@.cells[0]);
            assert(g@.in_bounds(0, 0) && g@.cell(0, 0));
        }
        shapes.push(g);
    }
    {
        let cells: Vec<bool> = vec![true, true, true, true, false, false];
        assert(cells@ =~= seq![true, true, true, true, false, false]);
        let g = Grid::from_cells(2, 3, cells);
        proof {
            assert(g@.cells[0]);
            assert(g@.in_bounds(0, 0) && g@.cell(0, 0));
        }
        shapes.push(g);
    }
    {
        let cells: Vec<bool> = vec![true, true, false, false, true, true];
        assert(cells@ =~= seq![true, true, false, false, true, true]);
        let g = Grid::from_cells(2, 3, cells);
        proof {
            assert(g@.cells[0]);
            assert(g@.in_bounds(0, 0) && g@.cell(0, 0));
        }
        shapes.push(g);
    }
    shapes
}

/// The playable cells of the year puzzle board; `true` is on the board.
pub fn year_board_layout() -> (r: Grid)
    ensures
        r.wf(),
        r@.rows == 7,
        r@.cols == 11,
        r@.cells == seq![true, true, true, true, true, true, false, false, false, false, false, true, true, true, true, true, true, false, true, true, true, true, true, true, true, true, true, true, true, true, true, true, true, true, true, true, true, true, true, true, true, true, true, true, true, true, true, true, true, true, true, true, true, true, true, true, true, true, true, true, true, true, true, true, true, true, true, true, true, false, false, false, false, false, false, false, false],
{
    let cells: Vec<bool> = vec![true, true, true, true, true, true, false, false, false, false, false, true, true, true, true, true, true, false, true, true, true, true, true, true, true, true, true, true, true, true, true, true, true, true, true, true, true, true, true, true, true, true, true, true, true, true, true, true, true, true, true, true, true, true, true, true, true, true, true, true, true, true, true, true, true, true, true, true, true, false, false, false, false, false, false, false, false];
    assert(cells@ =~= seq![true, true, true, true, true, true, false, false, false, false, false, true, true, true, true, true, true, false, true, true, true, true, true, true, true, true, true, true, true, true, true, true, true, true, true, true, true, true, true, true, true, true, true, true, true, true, true, true, true, true, true, true, true, true, true, true, true, true, true, true, true, true, true, true, true, true, true, true, true, false, false, false, false, false, false, false, false]);
    Grid::from_cells(7, 11, cells)
}

/// Which meaning area each cell of the year puzzle belongs to; `-1` is none.
pub fn year_board_meaning_areas() -> (r: ValueGrid)
    ensures
        r.wf(),
        r.spec_rows() == 7,
        r.spec_cols() == 11,
        r.spec_cells() == seq![1i32, 1i32, 1i32, 1i32, 1i32, 1i32, -1i32, -1i32, -1i32, -1i32, -1i32, 1i32, 1i32, 1i32, 1i32, 1i32, 1i32, -1i32, 2i32, 2i32, 3i32, 3i32, 0i32, 0i32, 0i32, 0i32, 0i32, 0i32, 0i32, 2i32, 2i32, 3i32, 3i32, 0i32, 0i32, 0i32, 0i32, 0i32, 0i32, 0i32, 2i32, 2i32, 3i32, 3i32, 0i32, 0i32, 0i32, 0i32, 0i32, 0i32, 0i32, 2i32, 2i32, 3i32, 3i32, 0i32, 0i32, 0i32, 0i32, 0i32, 0i32, 0i32, 2i32, 2i32, 3i32, 3i32, 0i32, 0i32, 0i32, -1i32, -1i32, -1i32, -1i32, -1i32, -1i32, -1i32, -1i32],
{
    let cells: Vec<i32> = vec![1i32, 1i32, 1i32, 1i32, 1i32, 1i32, -1i32, -1i32, -1i32, -1i32, -1i32, 1i32, 1i32, 1i32, 1i32, 1i32, 1i32, -1i32, 2i32, 2i32, 3i32, 3i32, 0i32, 0i32, 0i32, 0i32, 0i32, 0i32, 0i32, 2i32, 2i32, 3i32, 3i32, 0i32, 0i32, 0i32, 0i32, 0i32, 0i32, 0i32, 2i32, 2i32, 3i32, 3i32, 0i32, 0i32, 0i32, 0i32, 0i32, 0i32, 0i32, 2i32, 2i32, 3i32, 3i32, 0i32, 0i32, 0i32, 0i32, 0i32, 0i32, 0i32, 2i32, 2i32, 3i32, 3i32, 0i32, 0i32, 0i32, -1i32, -1i32, -1i32, -1i32, -1i32, -1i32, -1i32, -1i32];
    assert(cells@ =~= seq![1i32, 1i32, 1i32, 1i32, 1i32, 1i32, -1i32, -1i32, -1i32, -1i32, -1i32, 1i32, 1i32, 1i32, 1i32, 1i32, 1i32, -1i32, 2i32, 2i32, 3i32, 3i32, 0i32, 0i32, 0i32, 0i32, 0i32, 0i32, 0i32, 2i32, 2i32, 3i32, 3i32, 0i32, 0i32, 0i32, 0i32, 0i32, 0i32, 0i32, 2i32, 2i32, 3i32, 3i32, 0i32, 0i32, 0i32, 0i32, 0i32, 0i32, 0i32, 2i32, 2i32, 3i32, 3i32, 0i32, 0i32, 0i32, 0i32, 0i32, 0i32, 0i32, 2i32, 2i32, 3i32, 3i32, 0i32, 0i32, 0i32, -1i32, -1i32, -1i32, -1i32, -1i32, -1i32, -1i32, -1i32]);
    ValueGrid::from_cells(7, 11, cells)
}

/// The meaning value of each cell of the year puzzle; `-1` is none.
pub fn year_board_meaning_values() -> (r: ValueGrid)
    ensures
        r.wf(),
        r.spec_rows() == 7,
        r.spec_cols() == 11,
        r.spec_cells() == seq![1i32, 2i32, 3i32, 4i32, 5i32, 6i32, -1i32, -1i32, -1i32, -1i32, -1i32, 7i32, 8i32, 9i32, 10i32, 11i32, 12i32, -1i32, 1i32, 2i32, 1i32, 2i32, 1i32, 2i32, 3i32, 4i32, 5i32, 6i32, 7i32, 3i32, 4i32, 3i32, 4i32, 8i32, 9i32, 10i32, 11i32, 12i32, 13i32, 14i32, 5i32, 6i32, 5i32, 6i32, 15i32, 16i32, 17i32, 18i32, 19i32, 20i32, 21i32, 7i32, 8i32, 7i32, 8i32, 22i32, 23i32, 24i32, 25i32, 26i32, 27i32, 28i32, 9i32, 0i32, 9i32, 0i32, 29i32, 30i32, 31i32, -1i32, -1i32, -1i32, -1i32, -1i32, -1i32, -1i32, -1i32],
{
    let cells: Vec<i32> = vec![1i32, 2i32, 3i32, 4i32, 5i32, 6i32, -1i32, -1i32, -1i32, -1i32, -1i32, 7i32, 8i32, 9i32, 10i32, 11i32, 12i32, -1i32, 1i32, 2i32, 1i32, 2i32, 1i32, 2i32, 3i32, 4i32, 5i32, 6i32, 7i32, 3i32, 4i32, 3i32, 4i32, 8i32, 9i32, 10i32, 11i32, 12i32, 13i32, 14i32, 5i32, 6i32, 5i32, 6i32, 15i32, 16i32, 17i32, 18i32, 19i32, 20i32, 21i32, 7i32, 8i32, 7i32, 8i32, 22i32, 23i32, 24i32, 25i32, 26i32, 27i32, 28i32, 9i32, 0i32, 9i32, 0i32, 29i32, 30i32, 31i32, -1i32, -1i32, -1i32, -1i32, -1i32, -1i32, -1i32, -1i32];
    assert(cells@ =~= seq![1i32, 2i32, 3i32, 4i32, 5i32, 6i32, -1i32, -1i32, -1i32, -1i32, -1i32, 7i32, 8i32, 9i32, 10i32, 11i32, 12i32, -1i32, 1i32, 2i32, 1i32, 2i32, 1i32, 2i32, 3i32, 4i32, 5i32, 6i32, 7i32, 3i32, 4i32, 3i32, 4i32, 8i32, 9i32, 10i32, 11i32, 12i32, 13i32, 14i32, 5i32, 6i32, 5i32, 6i32, 15i32, 16i32, 17i32, 18i32, 19i32, 20i32, 21i32, 7i32, 8i32, 7i32, 8i32, 22i32, 23i32, 24i32, 25i32, 26i32, 27i32, 28i32, 9i32, 0i32, 9i32, 0i32, 29i32, 30i32, 31i32, -1i32, -1i32, -1i32, -1i32, -1i32, -1i32, -1i32, -1i32]);
    ValueGrid::from_cells(7, 11, cells)
}

/// The display text of each cell of the date puzzle board.
pub fn default_board_display_values() -> (r: TextGrid)
    ensures
        r.wf(),
        r.spec_rows() == 7,
        r.spec_cols() == 7,
        r.spec_cells() == seq!["Jan"@, "Feb"@, "Mar"@, "Apr"@, "May"@, "Jun"@, ""@, "Jul"@, "Aug"@, "Sep"@, "Oct"@, "Nov"@, "Dec"@, ""@, "1"@, "2"@, "3"@, "4"@, "5"@, "6"@, "7"@, "8"@, "9"@, "10"@, "11"@, "12"@, "13"@, "14"@, "15"@, "16"@, "17"@, "18"@, "19"@, "20"@, "21"@, "22"@, "23"@, "24"@, "25"@, "26"@, "27"@, "28"@, "29"@, "30"@, "31"@, ""@, ""@, ""@, ""@],
{
    let cells: Vec<String> = vec!["Jan".to_owned(), "Feb".to_owned(), "Mar".to_owned(), "Apr".to_owned(), "May".to_owned(), "Jun".to_owned(), "".to_owned(), "Jul".to_owned(), "Aug".to_owned(), "Sep".to_owned(), "Oct".to_owned(), "Nov".to_owned(), "Dec".to_owned(), "".to_owned(), "1".to_owned(), "2".to_owned(), "3".to_owned(), "4".to_owned(), "5".to_owned(), "6".to_owned(), "7".to_owned(), "8".to_owned(), "9".to_owned(), "10".to_owned(), "11".to_owned(), "12".to_owned(), "13".to_owned(), "14".to_owned(), "15".to_owned(), "16".to_owned(), "17".to_owned(), "18".to_owned(), "19".to_owned(), "20".to_owned(), "21".to_owned(), "22".to_owned(), "23".to_owned(), "24".to_owned(), "25".to_owned(), "26".to_owned(), "27".to_owned(), "28".to_owned(), "29".to_owned(), "30".to_owned(), "31".to_owned(), "".to_owned(), "".to_owned(), "".to_owned(), "".to_owned()];
    let r = TextGrid::from_cells(7, 7, cells);
    proof {
        assert(r.spec_cells() =~= seq!["Jan"@, "Feb"@, "Mar"@, "Apr"@, "May"@, "Jun"@, ""@, "Jul"@, "Aug"@, "Sep"@, "Oct"@, "Nov"@, "Dec"@, ""@, "1"@, "2"@, "3"@, "4"@, "5"@, "6"@, "7"@, "8"@, "9"@, "10"@, "11"@, "12"@, "13"@, "14"@, "15"@, "16"@, "17"@, "18"@, "19"@, "20"@, "21"@, "22"@, "23"@, "24"@, "25"@, "26"@, "27"@, "28"@, "29"@, "30"@, "31"@, ""@, ""@, ""@, ""@]);
    }
    r
}

/// The display text of each cell of the year puzzle board.
pub fn year_board_meaning_display_values() -> (r: TextGrid)
    ensures
        r.wf(),
        r.spec_rows() == 7,
        r.spec_cols() == 11,
        r.spec_cells() == seq!["Jan"@, "Feb"@, "Mar"@, "Apr"@, "May"@, "Jun"@, ""@, ""@, ""@, ""@, ""@, "Jul"@, "Aug"@, "Sep"@, "Oct"@, "Nov"@, "Dec"@, ""@, "1"@, "2"@, "1"@, "2"@, "1"@, "2"@, "3"@, "4"@, "5"@, "6"@, "7"@, "3"@, "4"@, "3"@, "4"@, "8"@, "9"@, "10"@, "11"@, "12"@, "13"@, "14"@, "5"@, "6"@, "5"@, "6"@, "15"@, "16"@, "17"@, "18"@, "19"@, "20"@, "21"@, "7"@, "8"@, "7"@, "8"@, "22"@, "23"@, "24"@, "25"@, "26"@, "27"@, "28"@, "9"@, "0"@, "9"@, "0"@, "29"@, "30"@, "31"@, ""@, ""@, ""@, ""@, ""@, ""@, ""@, ""@],
{
    let cells: Vec<String> = vec!["Jan".to_owned(), "Feb".to_owned(), "Mar".to_owned(), "Apr".to_owned(), "May".to_owned(), "Jun".to_owned(), "".to_owned(), "".to_owned(), "".to_owned(), "".to_owned(), "".to_owned(), "Jul".to_owned(), "Aug".to_owned(), "Sep".to_owned(), "Oct".to_owned(), "Nov".to_owned(), "Dec".to_owned(), "".to_owned(), "1".to_owned(), "2".to_owned(), "1".to_owned(), "2".to_owned(), "1".to_owned(), "2".to_owned(), "3".to_owned(), "4".to_owned(), "5".to_owned(), "6".to_owned(), "7".to_owned(), "3".to_owned(), "4".to_owned(), "3".to_owned(), "4".to_owned(), "8".to_owned(), "9".to_owned(), "10".to_owned(), "11".to_owned(), "12".to_owned(), "13".to_owned(), "14".to_owned(), "5".to_owned(), "6".to_owned(), "5".to_owned(), "6".to_owned(), "15".to_owned(), "16".to_owned(), "17".to_owned(), "18".to_owned(), "19".to_owned(), "20".to_owned(), "21".to_owned(), "7".to_owned(), "8".to_owned(), "7".to_owned(), "8".to_owned(), "22".to_owned(), "23".to_owned(), "24".to_owned(), "25".to_owned(), "26".to_owned(), "27".to_owned(), "28".to_owned(), "9".to_owned(), "0".to_owned(), "9".to_owned(), "0".to_owned(), "29".to_owned(), "30".to_owned(), "31".to_owned(), "".to_owned(), "".to_owned(), "".to_owned(), "".to_owned(), "".to_owned(), "".to_owned(), "".to_owned(), "".to_owned()];
    let r = TextGrid::from_cells(7, 11, cells);
    proof {
        assert(r.spec_cells() =~= seq!["Jan"@, "Feb"@, "Mar"@, "Apr"@, "May"@, "Jun"@, ""@, ""@, ""@, ""@, ""@, "Jul"@, "Aug"@, "Sep"@, "Oct"@, "Nov"@, "Dec"@, ""@, "1"@, "2"@, "1"@, "2"@, "1"@, "2"@, "3"@, "4"@, "5"@, "6"@, "7"@, "3"@, "4"@, "3"@, "4"@, "8"@, "9"@, "10"@, "11"@, "12"@, "13"@, "14"@, "5"@, "6"@, "5"@, "6"@, "15"@, "16"@, "17"@, "18"@, "19"@, "20"@, "21"@, "7"@, "8"@, "7"@, "8"@, "22"@, "23"@, "24"@, "25"@, "26"@, "27"@, "28"@, "9"@, "0"@, "9"@, "0"@, "29"@, "30"@, "31"@, ""@, ""@, ""@, ""@, ""@, ""@, ""@, ""@]);
    }
    r
}

/// The date puzzle: a seven-by-seven calendar board and eight tiles.
pub fn get_default_config() -> (r: PuzzleConfig)
    ensures
        r.wf(),
        r.board_layout@.rows == 7,
        r.board_layout@.cols == 7,
        r.tiles@.len() == 8,
{
    let tiles = create_tiles(&default_tiles());
    PuzzleConfig::new(
        default_board_layout(),
        default_board_meaning_areas(),
        default_board_meaning_values(),
        tiles,
    )
}

impl Default for PuzzleConfig {
    /// The date puzzle.
    fn default() -> (res: Self)
        ensures
            res.wf(),
            res.board_layout@.rows == 7,
            res.board_layout@.cols == 7,
            res.tiles@.len() == 8,
    {
        get_default_config()
    }
}

/// The year puzzle: a seven-by-eleven board and twelve tiles.
pub fn get_year_config() -> (r: PuzzleConfig)
    ensures
        r.wf(),
        r.board_layout@.rows == 7,
        r.board_layout@.cols == 11,
        r.tiles@.len() == 12,
{
    let tiles = create_tiles(&year_tiles());
    PuzzleConfig::new(
        year_board_layout(),
        year_board_meaning_areas(),
        year_board_meaning_values(),
        tiles,
    )
}

} // verus!
