use gomoku::board::{find_first_empty_cell, is_board_full, Board, Player};
use gomoku::rules::{check_immediate_win, check_win};

const B: Player = Player::Black;
const W: Player = Player::White;

fn board_with(stones: &[(usize, usize, Player)]) -> Board {
    let mut b = Board::new();
    for &(x, y, p) in stones {
        b.set(x, y, Some(p));
    }
    b
}

#[test]
fn opponent_swaps_players() {
    assert_eq!(B.opponent(), W);
    assert_eq!(W.opponent(), B);
}

#[test]
fn new_board_is_empty() {
    let b = Board::new();
    for y in 0..15 {
        for x in 0..15 {
            assert_eq!(b.get(x, y), None);
        }
    }
    assert!(!is_board_full(&b));
    assert_eq!(find_first_empty_cell(&b), Some((0, 0)));
}

#[test]
fn set_and_get_use_column_then_row() {
    let b = board_with(&[(3, 11, B), (11, 3, W)]);
    assert_eq!(b.get(3, 11), Some(B));
    assert_eq!(b.get(11, 3), Some(W));
    assert_eq!(b.get(3, 3), None);
}

#[test]
fn copy_keeps_every_cell() {
    let b = board_with(&[(0, 0, B), (14, 14, W), (7, 3, B)]);
    let c = b.copy();
    for y in 0..15 {
        for x in 0..15 {
            assert_eq!(b.get(x, y), c.get(x, y));
        }
    }
}

#[test]
fn first_empty_cell_scans_rows_first() {
    let mut stones = Vec::new();
    for x in 0..15 {
        stones.push((x, 0, B));
    }
    stones.push((0, 1, W));
    stones.push((1, 1, W));
    let b = board_with(&stones);
    assert_eq!(find_first_empty_cell(&b), Some((2, 1)));
}

#[test]
fn full_board_has_no_empty_cell() {
    let mut b = Board::new();
    for y in 0..15 {
        for x in 0..15 {
            b.set(x, y, Some(if (x + y) % 2 == 0 { B } else { W }));
        }
    }
    assert!(is_board_full(&b));
    assert_eq!(find_first_empty_cell(&b), None);
}

#[test]
fn check_win_horizontal_five() {
    let b = board_with(&[(3, 7, B), (4, 7, B), (5, 7, B), (6, 7, B), (7, 7, B)]);
    assert!(check_win(&b, 7, 7, B));
    assert!(check_win(&b, 5, 7, B));
    assert!(!check_win(&b, 7, 7, W));
}

#[test]
fn check_win_needs_five_in_a_row() {
    let b = board_with(&[(3, 7, B), (4, 7, B), (5, 7, B), (7, 7, B), (8, 7, B)]);
    assert!(!check_win(&b, 8, 7, B));
    let four = board_with(&[(10, 2, W), (9, 3, W), (8, 4, W), (7, 5, W)]);
    assert!(!check_win(&four, 8, 4, W));
}

#[test]
fn check_win_vertical_and_diagonals() {
    let v = board_with(&[(2, 1, W), (2, 2, W), (2, 3, W), (2, 4, W), (2, 5, W)]);
    assert!(check_win(&v, 2, 3, W));
    let d = board_with(&[(3, 3, B), (4, 4, B), (5, 5, B), (6, 6, B), (7, 7, B)]);
    assert!(check_win(&d, 5, 5, B));
    let a = board_with(&[(10, 2, W), (9, 3, W), (8, 4, W), (7, 5, W), (6, 6, W)]);
    assert!(check_win(&a, 8, 4, W));
    assert!(check_win(&a, 10, 2, W));
}

#[test]
fn check_win_counts_six_in_a_row() {
    let b = board_with(&[(0, 7, B), (1, 7, B), (2, 7, B), (3, 7, B), (4, 7, B), (5, 7, B)]);
    assert!(check_win(&b, 5, 7, B));
}

#[test]
fn immediate_win_none_without_five() {
    assert_eq!(check_immediate_win(&Board::new()), None);
    let b = board_with(&[(3, 7, B), (4, 7, B), (5, 7, B), (7, 7, B), (8, 7, B)]);
    assert_eq!(check_immediate_win(&b), None);
}

#[test]
fn immediate_win_finds_each_direction() {
    let h = board_with(&[(0, 0, W), (1, 0, W), (2, 0, W), (3, 0, W), (4, 0, W), (0, 1, B)]);
    assert_eq!(check_immediate_win(&h), Some(W));
    let d = board_with(&[(3, 3, B), (4, 4, B), (5, 5, B), (6, 6, B), (7, 7, B)]);
    assert_eq!(check_immediate_win(&d), Some(B));
    let a = board_with(&[(10, 2, W), (9, 3, W), (8, 4, W), (7, 5, W), (6, 6, W)]);
    assert_eq!(check_immediate_win(&a), Some(W));
    let v = board_with(&[(14, 10, B), (14, 11, B), (14, 12, B), (14, 13, B), (14, 14, B)]);
    assert_eq!(check_immediate_win(&v), Some(B));
}

#[test]
fn immediate_win_reports_first_five_in_scan_order() {
    let mut stones = Vec::new();
    for x in 5..10 {
        stones.push((x, 3, B));
    }
    for y in 1..6 {
        stones.push((2, y, W));
    }
    let b = board_with(&stones);
    assert_eq!(check_immediate_win(&b), Some(W));
}

#[test]
fn check_win_counts_from_just_off_the_board() {
    let b = board_with(&[(11, 7, B), (12, 7, B), (13, 7, B), (14, 7, B)]);
    assert!(check_win(&b, 15, 7, B));
    assert!(!check_win(&b, 16, 7, B));
}
