use gomoku::board::{Board, Player};
use gomoku::search::{ai_choose_move, find_best_move, minimax, AiChoice, AI_DEPTH};

const B: Player = Player::Black;
const W: Player = Player::White;

fn board_with(stones: &[(usize, usize, Player)]) -> Board {
    let mut b = Board::new();
    for &(x, y, p) in stones {
        b.set(x, y, Some(p));
    }
    b
}

fn cells(b: &Board) -> Vec<Option<Player>> {
    let mut v = Vec::new();
    for y in 0..15 {
        for x in 0..15 {
            v.push(b.get(x, y));
        }
    }
    v
}

const FULL: (i32, i32) = (i32::MIN + 1, i32::MAX - 1);

#[test]
fn empty_board_opens_in_the_centre() {
    assert_eq!(find_best_move(&Board::new(), B, 1), Some((7, 7)));
    let mut b = Board::new();
    assert_eq!(minimax(&mut b, 3, FULL.0, FULL.1, true, B), (300, Some((7, 7))));
}

#[test]
fn search_completes_an_open_four() {
    let stones = [(4, 7, B), (5, 7, B), (6, 7, B), (7, 7, B), (4, 8, W), (5, 8, W), (6, 8, W)];
    let mut b = board_with(&stones);
    assert_eq!(minimax(&mut b, 1, FULL.0, FULL.1, true, B), (100000, Some((3, 7))));
    assert_eq!(minimax(&mut b, 2, FULL.0, FULL.1, true, B), (100001, Some((3, 7))));
    assert_eq!(cells(&b), cells(&board_with(&stones)));
}

#[test]
fn search_blocks_a_four_of_the_opponent() {
    let stones = [(4, 7, W), (5, 7, W), (6, 7, W), (7, 7, W), (3, 7, B), (5, 8, B), (6, 9, B)];
    let mut b = board_with(&stones);
    assert_eq!(minimax(&mut b, 1, FULL.0, FULL.1, true, B), (210, Some((8, 7))));
    assert_eq!(minimax(&mut b, 2, FULL.0, FULL.1, true, B), (-590, Some((8, 7))));
    assert_eq!(find_best_move(&board_with(&stones), B, 2), Some((8, 7)));
}

#[test]
fn search_on_scattered_stones() {
    let stones = [(4, 2, B), (10, 9, B), (6, 14, W), (10, 13, W), (0, 13, B), (1, 1, B), (5, 4, W), (0, 2, B)];
    let mut b = board_with(&stones);
    assert_eq!(minimax(&mut b, 1, FULL.0, FULL.1, true, B), (300, Some((5, 2))));
    assert_eq!(minimax(&mut b, 1, FULL.0, FULL.1, true, W), (300, Some((4, 3))));
    assert_eq!(minimax(&mut b, 2, FULL.0, FULL.1, true, B), (0, Some((9, 8))));
    assert_eq!(find_best_move(&board_with(&stones), W, 2), Some((6, 3)));
}

#[test]
fn search_with_a_narrow_window_fails_soft() {
    let stones = [(4, 2, B), (10, 9, B), (6, 14, W), (10, 13, W), (0, 13, B), (1, 1, B), (5, 4, W), (0, 2, B)];
    let mut b = board_with(&stones);
    assert_eq!(minimax(&mut b, 1, 0, 10, true, B), (100, Some((0, 1))));
    assert_eq!(minimax(&mut b, 1, -10, 0, false, B), (-200, Some((3, 2))));
}

#[test]
fn search_five_stones() {
    let stones = [(10, 7, B), (11, 14, W), (8, 9, W), (9, 14, B), (4, 13, W)];
    assert_eq!(find_best_move(&board_with(&stones), B, 2), Some((9, 6)));
    assert_eq!(find_best_move(&board_with(&stones), W, 2), Some((7, 8)));
}

#[test]
fn search_stops_on_a_won_board() {
    let stones = [(0, 0, W), (1, 0, W), (2, 0, W), (3, 0, W), (4, 0, W)];
    let mut b = board_with(&stones);
    assert_eq!(minimax(&mut b, 3, FULL.0, FULL.1, true, B), (-100003, None));
    assert_eq!(find_best_move(&b, B, 3), None);
    assert_eq!(minimax(&mut b, 3, FULL.0, FULL.1, false, W), (100003, None));
}

#[test]
fn search_at_depth_zero_evaluates() {
    let mut b = board_with(&[(6, 7, B), (7, 7, B)]);
    assert_eq!(minimax(&mut b, 0, FULL.0, FULL.1, true, B), (300, None));
    assert_eq!(find_best_move(&b, B, 0), None);
}

#[test]
fn search_on_full_board_is_a_draw() {
    let mut b = Board::new();
    for y in 0..15 {
        for x in 0..15 {
            let p = if ((x / 2) + y) % 2 == 0 { B } else { W };
            b.set(x, y, Some(p));
        }
    }
    assert_eq!(gomoku::rules::check_immediate_win(&b), None);
    assert_eq!(minimax(&mut b, 2, FULL.0, FULL.1, true, B), (0, None));
    assert_eq!(find_best_move(&b, B, 2), None);
    assert_eq!(ai_choose_move(&b, W), AiChoice::NoMove);
}

#[test]
fn ai_answers_in_the_corner() {
    assert_eq!(AI_DEPTH, 3);
    assert_eq!(ai_choose_move(&board_with(&[(0, 0, W)]), B), AiChoice::Best(1, 1));
    assert_eq!(ai_choose_move(&Board::new(), W), AiChoice::Best(7, 7));
}

#[test]
fn ai_falls_back_to_first_empty_cell() {
    let b = board_with(&[(0, 0, W), (1, 0, W), (2, 0, W), (3, 0, W), (4, 0, W)]);
    assert_eq!(ai_choose_move(&b, B), AiChoice::Fallback(5, 0));
}

#[test]
fn search_is_zero_sum() {
    let stones = [(4, 2, B), (10, 9, B), (6, 14, W), (10, 13, W), (0, 13, B), (1, 1, B), (5, 4, W), (0, 2, B)];
    let mut b = board_with(&stones);
    assert_eq!(minimax(&mut b, 1, FULL.0, FULL.1, true, B), (300, Some((5, 2))));
    assert_eq!(minimax(&mut b, 1, FULL.0, FULL.1, false, W), (-300, Some((5, 2))));
    assert_eq!(minimax(&mut b, 2, FULL.0, FULL.1, false, B), (0, Some((6, 3))));
}
