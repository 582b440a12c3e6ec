//! Tile orientation generation and the grid transforms behind it.

use puzzlemoredays::grid::Grid;
use puzzlemoredays::tile::Tile;

fn contains_grid(tiles: &Tile, g: &Grid) -> bool {
    tiles.all_rotations.iter().any(|v| v.grid_eq(g))
}

#[test]
fn tile_keeps_its_base_shape() {
    let base = Grid::from_cells(2, 2, vec![true, false, true, true]);
    let tile = Tile::new(base.clone());
    assert!(contains_grid(&tile, &base));
}

#[test]
fn square_has_one_variant() {
    let tile = Tile::new(Grid::from_cells(2, 2, vec![true, true, true, true]));
    assert_eq!(tile.all_rotations.len(), 1);
}

#[test]
fn domino_has_two_variants() {
    let tile = Tile::new(Grid::from_cells(1, 2, vec![true, true]));
    assert_eq!(tile.all_rotations.len(), 2);
}

#[test]
fn l_tromino_has_four_variants() {
    let tile = Tile::new(Grid::from_cells(2, 2, vec![true, false, true, true]));
    assert_eq!(tile.all_rotations.len(), 4);
}

#[test]
fn l_tetromino_has_eight_variants() {
    let tile = Tile::new(Grid::from_cells(2, 3, vec![true, false, false, true, true, true]));
    assert_eq!(tile.all_rotations.len(), 8);
}

#[test]
fn variants_are_pairwise_distinct() {
    let tile = Tile::new(Grid::from_cells(2, 3, vec![false, true, false, true, true, true]));
    for (i, a) in tile.all_rotations.iter().enumerate() {
        for (j, b) in tile.all_rotations.iter().enumerate() {
            if i != j {
                assert!(!a.grid_eq(b));
            }
        }
    }
}

#[test]
fn rotation_turns_clockwise() {
    // 1 2     3 1
    // 3 4  -> 4 2
    let g = Grid::from_cells(2, 2, vec![true, true, false, true]);
    let r = g.rotate_cw();
    assert_eq!(r.rows(), 2);
    assert_eq!(r.cols(), 2);
    assert!(!r.get(0, 0));
    assert!(r.get(0, 1));
    assert!(r.get(1, 0));
    assert!(r.get(1, 1));
}

#[test]
fn four_rotations_restore_the_grid() {
    let g = Grid::from_cells(2, 3, vec![true, false, true, false, true, false]);
    let back = g.rotate_cw().rotate_cw().rotate_cw().rotate_cw();
    assert!(g.grid_eq(&back));
}

#[test]
fn transpose_swaps_axes() {
    let g = Grid::from_cells(1, 3, vec![true, false, true]);
    let t = g.transpose();
    assert_eq!(t.rows(), 3);
    assert_eq!(t.cols(), 1);
    assert!(t.get(0, 0));
    assert!(!t.get(1, 0));
    assert!(t.get(2, 0));
}

#[test]
fn count_filled_counts_true_cells() {
    let g = Grid::from_cells(2, 2, vec![true, false, true, true]);
    assert_eq!(g.count_filled(), 3);
}
