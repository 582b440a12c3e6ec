//! The catalog of predefined tile shapes: dominoes, trominoes, tetrominoes
//! and pentominoes, each as a base grid for the solver to orient.

use vstd::prelude::*;

use crate::grid::{Grid, GridModel};
use crate::text::str_eq;
use crate::tile::has_filled;

verus! {

/// Configuration for a tile that can be placed on the board.
#[derive(Debug, Clone)]
pub struct TileConfig {
    /// Base shape of the tile; a filled cell belongs to the tile.
    base: Grid,
}

impl TileConfig {
    /// The base shape of the tile.
    pub closed spec fn spec_base(self) -> GridModel {
        self.base@
    }

    pub fn new(base: Grid) -> (res: TileConfig)
        ensures
            res.spec_base() == base@,
    {
        TileConfig { base }
    }

    pub fn base(&self) -> (r: &Grid)
        ensures
            r@ == self.spec_base(),
    {
        &self.base
    }
}

/// The shape the given predefined tile name stands for, or nothing when the
/// name is not in the catalog.
pub open spec fn spec_predefined(name: Seq<char>) -> Option<GridModel> {
    if name == "D2"@ {
        Some(GridModel { rows: 1 as nat, cols: 2 as nat, cells: seq![true, true] })
    } else     if name == "I3"@ {
        Some(GridModel { rows: 1 as nat, cols: 3 as nat, cells: seq![true, true, true] })
    } else     if name == "L3"@ {
        Some(GridModel { rows: 2 as nat, cols: 2 as nat, cells: seq![true, false, true, true] })
    } else     if name == "I4"@ {
        Some(GridModel { rows: 1 as nat, cols: 4 as nat, cells: seq![true, true, true, true] })
    } else     if name == "O4"@ {
        Some(GridModel { rows: 2 as nat, cols: 2 as nat, cells: seq![true, true, true, true] })
    } else     if name == "T4"@ {
        Some(GridModel { rows: 2 as nat, cols: 3 as nat, cells: seq![false, true, false, true, true, true] })
    } else     if name == "J4"@ {
        Some(GridModel { rows: 2 as nat, cols: 3 as nat, cells: seq![true, false, false, true, true, true] })
    } else     if name == "L4"@ {
        Some(GridModel { rows: 2 as nat, cols: 3 as nat, cells: seq![false, false, true, true, true, true] })
    } else     if name == "S4"@ {
        Some(GridModel { rows: 2 as nat, cols: 3 as nat, cells: seq![false, true, true, true, true, false] })
    } else     if name == "Z4"@ {
        Some(GridModel { rows: 2 as nat, cols: 3 as nat, cells: seq![true, true, false, false, true, true] })
    } else     if name == "F5"@ {
        Some(GridModel { rows: 3 as nat, cols: 3 as nat, cells: seq![false, true, true, true, true, false, false, true, false] })
    } else     if name == "I5"@ {
        Some(GridModel { rows: 1 as nat, cols: 5 as nat, cells: seq![true, true, true, true, true] })
    } else     if name == "L5"@ {
        Some(GridModel { rows: 2 as nat, cols: 4 as nat, cells: seq![true, false, false, false, true, true, true, true] })
    } else     if name == "N5"@ {
        Some(GridModel { rows: 2 as nat, cols: 4 as nat, cells: seq![true, true, false, false, false, true, true, true] })
    } else     if name == "P5"@ {
        Some(GridModel { rows: 2 as nat, cols: 3 as nat, cells: seq![true, true, false, true, true, true] })
    } else     if name == "T5"@ {
        Some(GridModel { rows: 3 as nat, cols: 3 as nat, cells: seq![true, true, true, false, true, false, false, true, false] })
    } else     if name == "U5"@ {
        Some(GridModel { rows: 2 as nat, cols: 3 as nat, cells: seq![true, false, true, true, true, true] })
    } else     if name == "V5"@ {
        Some(GridModel { rows: 3 as nat, cols: 3 as nat, cells: seq![true, false, false, true, false, false, true, true, true] })
    } else     if name == "W5"@ {
        Some(GridModel { rows: 3 as nat, cols: 3 as nat, cells: seq![true, false, false, true, true, false, false, true, true] })
    } else     if name == "X5"@ {
        Some(GridModel { rows: 3 as nat, cols: 3 as nat, cells: seq![false, true, false, true, true, true, false, true, false] })
    } else     if name == "Y5"@ {
        Some(GridModel { rows: 2 as nat, cols: 4 as nat, cells: seq![false, true, false, false, true, true, true, true] })
    } else     if name == "Z5"@ {
        Some(GridModel { rows: 3 as nat, cols: 3 as nat, cells: seq![true, true, false, false, true, false, false, true, true] })
    } else     {
        None
    }
}

/// Looks a predefined tile shape up by name.  The result is the catalog
/// shape for exactly the names the catalog holds; every catalog shape is a
/// well-formed, nonempty grid.
pub fn from_predefined_tile(name: &str) -> (r: Option<TileConfig>)
    ensures
        r matches Some(tc) ==> {
            &&& Some(tc.spec_base()) == spec_predefined(name@)
            &&& tc.spec_base().wf()
            &&& tc.spec_base().rows >= 1
            &&& tc.spec_base().cols >= 1
            &&& has_filled(tc.spec_base())
        },
        (r is Some) <==> (spec_predefined(name@) is Some),
{
    if str_eq(name, "D2") {
        let cells: Vec<bool> = vec![true, true];
        assert(cells@ =~= seq![true, true]);
        let g = Grid::from_cells(1, 2, cells);
        proof {
            assert(g@ =~= (GridModel { rows: 1 as nat, cols: 2 as nat, cells: seq![true, true] }));
            assert(g@.cells[0]);
            assert(g@.in_bounds(0, 0) && g@.cell(0, 0));
        }
        return Some(TileConfig::new(g));
    }
    if str_eq(name, "I3") {
        let cells: Vec<bool> = vec![true, true, true];
        assert(cells@ =~= seq![true, true, true]);
        let g = Grid::from_cells(1, 3, cells);
        proof {
            assert(g@ =~= (GridModel { rows: 1 as nat, cols: 3 as nat, cells: seq![true, true, true] }));
            assert(g@.cells[0]);
            assert(g@.in_bounds(0, 0) && g@.cell(0, 0));
        }
        return Some(TileConfig::new(g));
    }
    if str_eq(name, "L3") {
        let cells: Vec<bool> = vec![true, false, true, true];
        assert(cells@ =~= seq![true, false, true, true]);
        let g = Grid::from_cells(2, 2, cells);
        proof {
            assert(g@ =~= (GridModel { rows: 2 as nat, cols: 2 as nat, cells: seq![true, false, true, true] }));
            assert(g@.cells[0]);
            assert(g@.in_bounds(0, 0) && g@.cell(0, 0));
        }
        return Some(TileConfig::new(g));
    }
    if str_eq(name, "I4") {
        let cells: Vec<bool> = vec![true, true, true, true];
        assert(cells@ =~= seq![true, true, true, true]);
        let g = Grid::from_cells(1, 4, cells);
        proof {
            assert(g@ =~= (GridModel { rows: 1 as nat, cols: 4 as nat, cells: seq![true, true, true, true] }));
            assert(g@.cells[0]);
            assert(g@.in_bounds(0, 0) && g@.cell(0, 0));
        }
        return Some(TileConfig::new(g));
    }
    if str_eq(name, "O4") {
        let cells: Vec<bool> = vec![true, true, true, true];
        assert(cells@ =~= seq![true, true, true, true]);
        let g = Grid::from_cells(2, 2, cells);
        proof {
            assert(g@ =~= (GridModel { rows: 2 as nat, cols: 2 as nat, cells: seq![true, true, true, true] }));
            assert(g@.cells[0]);
            assert(g@.in_bounds(0, 0) && g@.cell(0, 0));
        }
        return Some(TileConfig::new(g));
    }
    if str_eq(name, "T4") {
        let cells: Vec<bool> = vec![false, true, false, true, true, true];
        assert(cells@ =~= seq![false, true, false, true, true, true]);
        let g = Grid::from_cells(2, 3, cells);
        proof {
            assert(g@ =~= (GridModel { rows: 2 as nat, cols: 3 as nat, cells: seq![false, true, false, true, true, true] }));
            assert(g@.cells[1]);
            assert(g@.in_bounds(0, 1) && g@.cell(0, 1));
        }
        return Some(TileConfig::new(g));
    }
    if str_eq(name, "J4") {
        let cells: Vec<bool> = vec![true, false, false, true, true, true];
        assert(cells@ =~= seq![true, false, false, true, true, true]);
        let g = Grid::from_cells(2, 3, cells);
        proof {
            assert(g@ =~= (GridModel { rows: 2 as nat, cols: 3 as nat, cells: seq![true, false, false, true, true, true] }));
            assert(g@.cells[0]);
            assert(g@.in_bounds(0, 0) && g@.cell(0, 0));
        }
        return Some(TileConfig::new(g));
    }
    if str_eq(name, "L4") {
        let cells: Vec<bool> = vec![false, false, true, true, true, true];
        assert(cells@ =~= seq![false, false, true, true, true, true]);
        let g = Grid::from_cells(2, 3, cells);
        proof {
            assert(g@ =~= (GridModel { rows: 2 as nat, cols: 3 as nat, cells: seq![false, false, true, true, true, true] }));
            assert(g@.cells[2]);
            assert(g@.in_bounds(0, 2) && g@.cell(0, 2));
        }
        return Some(TileConfig::new(g));
    }
    if str_eq(name, "S4") {
        let cells: Vec<bool> = vec![false, true, true, true, true, false];
        assert(cells@ =~= seq![false, true, true, true, true, false]);
        let g = Grid::from_cells(2, 3, cells);
        proof {
            assert(g@ =~= (GridModel { rows: 2 as nat, cols: 3 as nat, cells: seq![false, true, true, true, true, false] }));
            assert(g@.cells[1]);
            assert(g@.in_bounds(0, 1) && g@.cell(0, 1));
        }
        return Some(TileConfig::new(g));
    }
    if str_eq(name, "Z4") {
        let cells: Vec<bool> = vec![true, true, false, false, true, true];
        assert(cells@ =~= seq![true, true, false, false, true, true]);
        let g = Grid::from_cells(2, 3, cells);
        proof {
            assert(g@ =~= (GridModel { rows: 2 as nat, cols: 3 as nat, cells: seq![true, true, false, false, true, true] }));
            assert(g@.cells[0]);
            assert(g@.in_bounds(0, 0) && g@.cell(0, 0));
        }
        return Some(TileConfig::new(g));
    }
    if str_eq(name, "F5") {
        let cells: Vec<bool> = vec![false, true, true, true, true, false, false, true, false];
        assert(cells@ =~= seq![false, true, true, true, true, false, false, true, false]);
        let g = Grid::from_cells(3, 3, cells);
        proof {
            assert(g@ =~= (GridModel { rows: 3 as nat, cols: 3 as nat, cells: seq![false, true, true, true, true, false, false, true, false] }));
            assert(g@.cells[1]);
            assert(g@.in_bounds(0, 1) && g@.cell(0, 1));
        }
        return Some(TileConfig::new(g));
    }
    if str_eq(name, "I5") {
        let cells: Vec<bool> = vec![true, true, true, true, true];
        assert(cells@ =~= seq![true, true, true, true, true]);
        let g = Grid::from_cells(1, 5, cells);
        proof {
            assert(g@ =~= (GridModel { rows: 1 as nat, cols: 5 as nat, cells: seq![true, true, true, true, true] }));
            assert(g@.cells[0]);
            assert(g@.in_bounds(0, 0) && g@.cell(0, 0));
        }
        return Some(TileConfig::new(g));
    }
    if str_eq(name, "L5") {
        let cells: Vec<bool> = vec![true, false, false, false, true, true, true, true];
        assert(cells@ =~= seq![true, false, false, false, true, true, true, true]);
        let g = Grid::from_cells(2, 4, cells);
        proof {
            assert(g@ =~= (GridModel { rows: 2 as nat, cols: 4 as nat, cells: seq![true, false, false, false, true, true, true, true] }));
            assert(g@.cells[0]);
            assert(g@.in_bounds(0, 0) && g@.cell(0, 0));
        }
        return Some(TileConfig::new(g));
    }
    if str_eq(name, "N5") {
        let cells: Vec<bool> = vec![true, true, false, false, false, true, true, true];
        assert(cells@ =~= seq![true, true, false, false, false, true, true, true]);
        let g = Grid::from_cells(2, 4, cells);
        proof {
            assert(g@ =~= (GridModel { rows: 2 as nat, cols: 4 as nat, cells: seq![true, true, false, false, false, true, true, true] }));
            assert(g@.cells[0]);
            assert(g@.in_bounds(0, 0) && g@.cell(0, 0));
        }
        return Some(TileConfig::new(g));
    }
    if str_eq(name, "P5") {
        let cells: Vec<bool> = vec![true, true, false, true, true, true];
        assert(cells@ =~= seq![true, true, false, true, true, true]);
        let g = Grid::from_cells(2, 3, cells);
        proof {
            assert(g@ =~= (GridModel { rows: 2 as nat, cols: 3 as nat, cells: seq![true, true, false, true, true, true] }));
            assert(g@.cells[0]);
            assert(g@.in_bounds(0, 0) && g@.cell(0, 0));
        }
        return Some(TileConfig::new(g));
    }
    if str_eq(name, "T5") {
        let cells: Vec<bool> = vec![true, true, true, false, true, false, false, true, false];
        assert(cells@ =~= seq![true, true, true, false, true, false, false, true, false]);
        let g = Grid::from_cells(3, 3, cells);
        proof {
            assert(g@ =~= (GridModel { rows: 3 as nat, cols: 3 as nat, cells: seq![true, true, true, false, true, false, false, true, false] }));
            assert(g@.cells[0]);
            assert(g@.in_bounds(0, 0) && g@.cell(0, 0));
        }
        return Some(TileConfig::new(g));
    }
    if str_eq(name, "U5") {
        let cells: Vec<bool> = vec![true, false, true, true, true, true];
        assert(cells@ =~= seq![true, false, true, true, true, true]);
        let g = Grid::from_cells(2, 3, cells);
        proof {
            assert(g@ =~= (GridModel { rows: 2 as nat, cols: 3 as nat, cells: seq![true, false, true, true, true, true] }));
            assert(g@.cells[0]);
            assert(g@.in_bounds(0, 0) && g@.cell(0, 0));
        }
        return Some(TileConfig::new(g));
    }
    if str_eq(name, "V5") {
        let cells: Vec<bool> = vec![true, false, false, true, false, false, true, true, true];
        assert(cells@ =~= seq![true, false, false, true, false, false, true, true, true]);
        let g = Grid::from_cells(3, 3, cells);
        proof {
            assert(g@ =~= (GridModel { rows: 3 as nat, cols: 3 as nat, cells: seq![true, false, false, true, false, false, true, true, true] }));
            assert(g@.cells[0]);
            assert(g@.in_bounds(0, 0) && g@.cell(0, 0));
        }
        return Some(TileConfig::new(g));
    }
    if str_eq(name, "W5") {
        let cells: Vec<bool> = vec![true, false, false, true, true, false, false, true, true];
        assert(cells@ =~= seq![true, false, false, true, true, false, false, true, true]);
        let g = Grid::from_cells(3, 3, cells);
        proof {
            assert(g@ =~= (GridModel { rows: 3 as nat, cols: 3 as nat, cells: seq![true, false, false, true, true, false, false, true, true] }));
            assert(g@.cells[0]);
            assert(g@.in_bounds(0, 0) && g@.cell(0, 0));
        }
        return Some(TileConfig::new(g));
    }
    if str_eq(name, "X5") {
        let cells: Vec<bool> = vec![false, true, false, true, true, true, false, true, false];
        assert(cells@ =~= seq![false, true, false, true, true, true, false, true, false]);
        let g = Grid::from_cells(3, 3, cells);
        proof {
            assert(g@ =~= (GridModel { rows: 3 as nat, cols: 3 as nat, cells: seq![false, true, false, true, true, true, false, true, false] }));
            assert(g@.cells[1]);
            assert(g@.in_bounds(0, 1) && g@.cell(0, 1));
        }
        return Some(TileConfig::new(g));
    }
    if str_eq(name, "Y5") {
        let cells: Vec<bool> = vec![false, true, false, false, true, true, true, true];
        assert(cells@ =~= seq![false, true, false, false, true, true, true, true]);
        let g = Grid::from_cells(2, 4, cells);
        proof {
            assert(g@ =~= (GridModel { rows: 2 as nat, cols: 4 as nat, cells: seq![false, true, false, false, true, true, true, true] }));
            assert(g@.cells[1]);
            assert(g@.in_bounds(0, 1) && g@.cell(0, 1));
        }
        return Some(TileConfig::new(g));
    }
    if str_eq(name, "Z5") {
        let cells: Vec<bool> = vec![true, true, false, false, true, false, false, true, true];
        assert(cells@ =~= seq![true, true, false, false, true, false, false, true, true]);
        let g = Grid::from_cells(3, 3, cells);
        proof {
            assert(g@ =~= (GridModel { rows: 3 as nat, cols: 3 as nat, cells: seq![true, true, false, false, true, false, false, true, true] }));
            assert(g@.cells[0]);
            assert(g@.in_bounds(0, 0) && g@.cell(0, 0));
        }
        return Some(TileConfig::new(g));
    }
    None
}

} // verus!
