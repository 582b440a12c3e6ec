//! The configuration version check and the bordered playing field.

use puzzlemoredays::config::version::matches_version;
use puzzlemoredays::puzzle_state::{is_adjacent_to_allowed, PuzzleState};
use puzzlemoredays::grid::Grid;

#[test]
fn test_matches_version() {
    let test_str = r#"{
            "config_version": 1,
            "other_field": "value"
        }"#;

    assert!(matches_version(test_str, 1));
}

#[test]
fn test_matches_version_wrong_version() {
    let test_str = r#"{
            "config_version": 11,
            "other_field": "value"
        }"#;

    assert!(!matches_version(test_str, 1));
}

#[test]
fn test_matches_version_wrong_format() {
    let test_str = r#"{
            "other_field": "value",
            "config_version": 1
        }"#;

    assert!(!matches_version(test_str, 1));
}

#[test]
fn version_digits_must_match_exactly() {
    assert!(matches_version("{\"config_version\":12,", 12));
    assert!(!matches_version("{\"config_version\":12,", 1));
    assert!(!matches_version("{\"config_version\":1,", 12));
    assert!(!matches_version("\"config_version\": 1,", 1));
    assert!(!matches_version("", 1));
}

#[test]
fn playing_field_adds_a_border() {
    // A one-by-one board: the field is three-by-three, only the centre is
    // on the board, and the cells next to it are not free to hold a tile.
    let layout = Grid::from_cells(1, 1, vec![true]);
    let state = PuzzleState::new(&layout);
    assert_eq!(state.rows(), 3);
    assert_eq!(state.cols(), 3);
    let centre = state.get(1, 1);
    assert!(centre.is_on_board);
    assert!(centre.allowed);
    let above = state.get(0, 1);
    assert!(!above.is_on_board);
    assert!(!above.allowed);
    let corner = state.get(0, 0);
    assert!(!corner.is_on_board);
    assert!(corner.allowed);
    assert_eq!(centre.position.0, 1);
    assert_eq!(centre.position.1, 1);
}

#[test]
fn adjacency_looks_at_edge_neighbours() {
    let layout = Grid::from_cells(1, 2, vec![true, false]);
    assert!(is_adjacent_to_allowed((0, 1), &layout));
    assert!(is_adjacent_to_allowed((1, 0), &layout));
    assert!(!is_adjacent_to_allowed((1, 2), &layout));
}
