//! Board trimming and the packed bitmask operations.

use puzzlemoredays::bitmask::Bitmask;
use puzzlemoredays::board::Board;

#[test]
fn trim_shrinks_to_open_bounding_box() {
    let mut board = Board::new(4, 4);
    for i in 0..4 {
        for j in 0..4 {
            board.set(i, j, true);
        }
    }
    board.set(1, 1, false);
    board.set(2, 2, false);
    board.trim();
    assert_eq!(board.rows(), 2);
    assert_eq!(board.cols(), 2);
    assert!(!board.get(0, 0));
    assert!(board.get(0, 1));
    assert!(board.get(1, 0));
    assert!(!board.get(1, 1));
}

#[test]
fn trim_is_idempotent_on_values() {
    let mut once = Board::new(5, 3);
    for i in 0..5 {
        for j in 0..3 {
            once.set(i, j, true);
        }
    }
    once.set(3, 1, false);
    once.set(4, 2, false);
    once.trim();
    let mut twice = once.clone();
    twice.trim();
    assert_eq!(once.rows(), twice.rows());
    assert_eq!(once.cols(), twice.cols());
    for i in 0..once.rows() {
        for j in 0..once.cols() {
            assert_eq!(once.get(i, j), twice.get(i, j));
        }
    }
}

#[test]
fn trim_of_fully_blocked_board_is_empty() {
    let mut board = Board::new(3, 3);
    for i in 0..3 {
        for j in 0..3 {
            board.set(i, j, true);
        }
    }
    board.trim();
    assert_eq!(board.rows(), 0);
    assert_eq!(board.cols(), 0);
}

#[test]
fn fully_blocked_detection() {
    let mut board = Board::new(2, 2);
    assert!(!board.is_fully_blocked());
    for i in 0..2 {
        for j in 0..2 {
            board.set(i, j, true);
        }
    }
    assert!(board.is_fully_blocked());
}

#[test]
fn bitmask_operations_behave_like_sets() {
    let a = Bitmask::none().set(0).set(5);
    let b = Bitmask::none().set(5).set(9);
    let c = Bitmask::none().set(1);
    assert!(a.test(0));
    assert!(a.test(5));
    assert!(!a.test(1));
    assert!(a.overlaps(&b));
    assert!(!a.overlaps(&c));
    let ab = a.or(&b);
    assert!(ab.test(0));
    assert!(ab.test(5));
    assert!(ab.test(9));
    assert!(!ab.test(1));
    assert!(ab.equals(&Bitmask::none().set(0).set(5).set(9)));
    assert!(!ab.equals(&a));
}

#[test]
fn full_mask_holds_exactly_the_cell_range() {
    let full = Bitmask::full_up_to(7);
    for i in 0..7 {
        assert!(full.test(i));
    }
    for i in 7..128 {
        assert!(!full.test(i));
    }
}

#[test]
fn board_packs_blocked_cells_row_major() {
    let mut board = Board::new(2, 3);
    board.set(0, 2, true);
    board.set(1, 0, true);
    let mask = board.to_bitmask();
    assert!(!mask.test(0));
    assert!(!mask.test(1));
    assert!(mask.test(2));
    assert!(mask.test(3));
    assert!(!mask.test(4));
    assert!(!mask.test(5));
}

#[test]
fn covers_is_the_subset_test() {
    let a = Bitmask::none().set(1).set(2).set(7);
    let b = Bitmask::none().set(1).set(7);
    assert!(a.covers(&b));
    assert!(!b.covers(&a));
    assert!(a.covers(&Bitmask::none()));
}

#[test]
fn count_ones_counts_set_bits() {
    assert_eq!(Bitmask::none().count_ones(), 0);
    assert_eq!(Bitmask::none().set(0).set(64).set(127).count_ones(), 3);
    assert_eq!(Bitmask::full_up_to(128).count_ones(), 128);
}
