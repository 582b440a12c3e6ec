//! End-to-end solver scenarios: witnessed coverings, exhaustion, pruning and
//! cancellation.

use puzzlemoredays::board::Board;
use puzzlemoredays::grid::Grid;
use puzzlemoredays::pruner::Pruner;
use puzzlemoredays::result::{SolveResult, UnsolvableReason};
use puzzlemoredays::solver::solve_all_filling;
use puzzlemoredays::tile::Tile;
use tokio_util::sync::CancellationToken;

fn domino() -> Tile {
    Tile::new(Grid::from_cells(1, 2, vec![true, true]))
}

fn square() -> Tile {
    Tile::new(Grid::from_cells(2, 2, vec![true, true, true, true]))
}

#[test]
fn domino_fills_two_cell_row() {
    let board = Board::new(1, 2);
    let tiles = vec![domino()];
    let token = CancellationToken::new();
    match solve_all_filling(&board, &tiles, &token) {
        SolveResult::Solved(solution) => {
            assert_eq!(solution.placements.len(), 1);
            let p = &solution.placements[0];
            assert_eq!(p.tile_index, 0);
            assert_eq!(p.position, (0, 0));
            assert_eq!(p.rotation.rows(), 1);
            assert_eq!(p.rotation.cols(), 2);
            assert!(p.rotation.get(0, 0));
            assert!(p.rotation.get(0, 1));
            assert_eq!(p.base.rows(), 1);
            assert_eq!(p.base.cols(), 2);
        }
        _ => panic!("expected a solution"),
    }
}

#[test]
fn domino_cannot_fill_three_cell_row() {
    let board = Board::new(1, 3);
    let tiles = vec![domino()];
    let token = CancellationToken::new();
    match solve_all_filling(&board, &tiles, &token) {
        SolveResult::Unsolvable(reason) => {
            assert_eq!(reason, UnsolvableReason::NoFit);
        }
        _ => panic!("expected no fit"),
    }
}

#[test]
fn square_tetromino_fills_two_by_two() {
    let board = Board::new(2, 2);
    let tiles = vec![square()];
    let token = CancellationToken::new();
    match solve_all_filling(&board, &tiles, &token) {
        SolveResult::Solved(solution) => {
            assert_eq!(solution.placements.len(), 1);
            let p = &solution.placements[0];
            assert_eq!(p.position, (0, 0));
            for i in 0..2 {
                for j in 0..2 {
                    assert!(p.rotation.get(i, j));
                }
            }
        }
        _ => panic!("expected a solution"),
    }
}

#[test]
fn isolated_cell_is_pruned_and_unsolvable() {
    // Two open corners of a three-by-three board, everything else blocked:
    // no domino placement covers a corner without touching a blocked cell.
    let mut board = Board::new(3, 3);
    for i in 0..3 {
        for j in 0..3 {
            if !((i == 0 && j == 0) || (i == 2 && j == 2)) {
                board.set(i, j, true);
            }
        }
    }
    let tiles = vec![domino()];

    let pruner = Pruner::new_for_filling(&board, &tiles);
    assert!(pruner.prune(&board.to_bitmask()));

    let token = CancellationToken::new();
    match solve_all_filling(&board, &tiles, &token) {
        SolveResult::Unsolvable(reason) => {
            assert_eq!(reason, UnsolvableReason::NoFit);
        }
        _ => panic!("expected no fit"),
    }
}

#[test]
fn pruner_accepts_solvable_start() {
    // The pruner never rejects a state a covering is reachable from.
    let board = Board::new(1, 2);
    let tiles = vec![domino()];
    let pruner = Pruner::new_for_filling(&board, &tiles);
    assert!(!pruner.prune(&board.to_bitmask()));
}

#[test]
fn cancellation_yields_cancelled_not_unsolvable() {
    // A ten-by-ten all-open board with a single domino cannot be covered,
    // but a cancellation request must end the search as Cancelled.
    let board = Board::new(10, 10);
    let tiles = vec![domino()];
    let token = CancellationToken::new();
    token.cancel();
    match solve_all_filling(&board, &tiles, &token) {
        SolveResult::Cancelled => {}
        _ => panic!("expected cancellation"),
    }
}

#[test]
fn oversized_board_is_rejected_before_searching() {
    let mut board = Board::new(20, 20);
    // Open cells in opposite corners keep the trimmed board at 20 x 20,
    // which exceeds the 128-bit capacity.
    for i in 0..20 {
        for j in 0..20 {
            if !((i == 0 && j == 0) || (i == 19 && j == 19)) {
                board.set(i, j, true);
            }
        }
    }
    let tiles = vec![domino()];
    let token = CancellationToken::new();
    match solve_all_filling(&board, &tiles, &token) {
        SolveResult::Unsolvable(reason) => {
            assert_eq!(reason, UnsolvableReason::BoardTooLarge);
        }
        _ => panic!("expected the capacity check to fail"),
    }
}

#[test]
fn two_dominoes_fill_square_without_overlap() {
    let board = Board::new(2, 2);
    let tiles = vec![domino(), domino()];
    let token = CancellationToken::new();
    match solve_all_filling(&board, &tiles, &token) {
        SolveResult::Solved(solution) => {
            assert_eq!(solution.placements.len(), 2);
            let mut covered = [[0u32; 2]; 2];
            for p in &solution.placements {
                let (r, c) = p.position;
                for i in 0..p.rotation.rows() {
                    for j in 0..p.rotation.cols() {
                        if p.rotation.get(i, j) {
                            covered[r + i][c + j] += 1;
                        }
                    }
                }
            }
            for row in &covered {
                for &count in row {
                    assert_eq!(count, 1);
                }
            }
            assert_ne!(
                solution.placements[0].tile_index,
                solution.placements[1].tile_index
            );
        }
        _ => panic!("expected a solution"),
    }
}

#[test]
fn blocked_cells_are_never_covered() {
    // A two-by-three board with a blocked middle column cell; two dominoes
    // cover the remaining four cells.
    let mut board = Board::new(2, 3);
    board.set(0, 1, true);
    board.set(1, 1, true);
    let tiles = vec![domino(), domino()];
    let token = CancellationToken::new();
    match solve_all_filling(&board, &tiles, &token) {
        SolveResult::Solved(solution) => {
            assert_eq!(solution.placements.len(), 2);
        }
        _ => panic!("expected a solution"),
    }
}
