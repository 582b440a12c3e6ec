//! The built-in date puzzle end to end: a real target day is solvable and
//! the witness covers exactly the open cells.

use puzzlemoredays::config::target::{Target, TargetIndex};
use puzzlemoredays::result::SolveResult;
use puzzlemoredays::puzzle::config::get_default_config;
use puzzlemoredays::session::create_board;
use puzzlemoredays::solver::solve_all_filling;
use puzzlemoredays::grid::Grid;
use tokio_util::sync::CancellationToken;

#[test]
fn first_of_january_is_solvable() {
    let config = get_default_config();
    let rows = config.board_layout.rows();
    let cols = config.board_layout.cols();
    let occupied = Grid::from_cells(rows, cols, vec![false; rows * cols]);
    // Jan sits at (0, 0), day 1 at (2, 0).
    let target = Target { indices: vec![TargetIndex(0, 0), TargetIndex(2, 0)] };
    let board = create_board(&config.board_layout, &occupied, &target);
    let token = CancellationToken::new();
    match solve_all_filling(&board, &config.tiles, &token) {
        SolveResult::Solved(solution) => {
            assert_eq!(solution.placements.len(), 8);
            // Every placement names a distinct tile.
            for (i, p) in solution.placements.iter().enumerate() {
                for (j, q) in solution.placements.iter().enumerate() {
                    if i != j {
                        assert_ne!(p.tile_index, q.tile_index);
                    }
                }
            }
        }
        other => panic!("expected a covering, got {:?}", std::mem::discriminant(&other)),
    }
}
