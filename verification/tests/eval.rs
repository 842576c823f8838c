use gomoku::board::{Board, Player};
use gomoku::eval::{evaluate_board, evaluate_line_detailed};
use gomoku::moves::generate_moves;
use gomoku::patterns::{match_patterns, Threat, ThreatType};

const B: Player = Player::Black;
const W: Player = Player::White;

fn board_with(stones: &[(usize, usize, Player)]) -> Board {
    let mut b = Board::new();
    for &(x, y, p) in stones {
        b.set(x, y, Some(p));
    }
    b
}

/// The threats grouped by position, in the order each position was first threatened and,
/// for each position, in the order they were recorded.
fn grouped(th: &[Threat]) -> Vec<(usize, Vec<(ThreatType, Player)>)> {
    let mut out: Vec<(usize, Vec<(ThreatType, Player)>)> = Vec::new();
    for &(i, t, p) in th {
        match out.iter_mut().find(|(j, _)| *j == i) {
            Some((_, v)) => v.push((t, p)),
            None => out.push((i, vec![(t, p)])),
        }
    }
    out.sort_by_key(|(i, _)| *i);
    out
}

fn window_result(w: [Option<Player>; 6], start: usize) -> (i32, Vec<(usize, Vec<(ThreatType, Player)>)>) {
    let mut score = 0;
    let mut th = Vec::new();
    match_patterns(&w, B, W, start, &mut score, &mut th);
    (score, grouped(&th))
}

const N: Option<Player> = None;
const P: Option<Player> = Some(Player::Black);
const O: Option<Player> = Some(Player::White);

#[test]
fn moves_on_empty_board_is_centre() {
    assert_eq!(generate_moves(&Board::new()), vec![(7, 7)]);
}

#[test]
fn moves_around_corner_stone() {
    let b = board_with(&[(0, 0, B)]);
    assert_eq!(generate_moves(&b), vec![(1, 0), (0, 1), (1, 1)]);
}

#[test]
fn moves_around_centre_stones_in_row_major_order() {
    let b = board_with(&[(7, 7, B)]);
    assert_eq!(
        generate_moves(&b),
        vec![(6, 6), (7, 6), (8, 6), (6, 7), (8, 7), (6, 8), (7, 8), (8, 8)]
    );
    let b2 = board_with(&[(7, 7, B), (8, 7, W)]);
    assert_eq!(
        generate_moves(&b2),
        vec![(6, 6), (7, 6), (8, 6), (9, 6), (6, 7), (9, 7), (6, 8), (7, 8), (8, 8), (9, 8)]
    );
}

#[test]
fn moves_on_full_board_is_empty() {
    let mut b = Board::new();
    for y in 0..15 {
        for x in 0..15 {
            b.set(x, y, Some(if (x + y) % 2 == 0 { B } else { W }));
        }
    }
    assert!(generate_moves(&b).is_empty());
}

#[test]
fn pattern_five_sets_win_score() {
    let mut score = 123;
    let mut th = Vec::new();
    match_patterns(&[P, P, P, P, P, N], B, W, 3, &mut score, &mut th);
    assert_eq!(score, 100_000);
    assert!(th.is_empty());
    let mut big = 200_000;
    match_patterns(&[N, P, P, P, P, P], B, W, 0, &mut big, &mut th);
    assert_eq!(big, 200_000);
}

#[test]
fn pattern_live_four() {
    assert_eq!(
        window_result([N, P, P, P, P, N], 3),
        (8000, vec![(3, vec![(ThreatType::LiveFour, B)]), (8, vec![(ThreatType::LiveFour, B)])])
    );
}

#[test]
fn pattern_dead_fours() {
    assert_eq!(
        window_result([O, P, P, P, P, N], 3),
        (1000, vec![(8, vec![(ThreatType::DeadFour, B)])])
    );
    assert_eq!(
        window_result([N, P, P, N, P, P], 3),
        (1000, vec![(6, vec![(ThreatType::DeadFour, B)])])
    );
}

#[test]
fn pattern_jump_live_three() {
    assert_eq!(
        window_result([N, P, N, P, P, N], 3),
        (
            850,
            vec![
                (3, vec![(ThreatType::LiveThree, B)]),
                (5, vec![(ThreatType::LiveThree, B)]),
                (8, vec![(ThreatType::LiveThree, B)]),
            ]
        )
    );
}

#[test]
fn pattern_sleepy_three() {
    assert_eq!(
        window_result([O, P, P, P, N, N], 3),
        (150, vec![(7, vec![(ThreatType::SleepyThree, B)]), (8, vec![(ThreatType::SleepyThree, B)])])
    );
    assert_eq!(
        window_result([O, P, P, N, P, N], 3),
        (150, vec![(6, vec![(ThreatType::SleepyThree, B)]), (8, vec![(ThreatType::SleepyThree, B)])])
    );
}

#[test]
fn pattern_twos() {
    assert_eq!(
        window_result([N, N, P, P, N, N], 3),
        (100, vec![(4, vec![(ThreatType::LiveTwo, B)]), (7, vec![(ThreatType::LiveTwo, B)])])
    );
    assert_eq!(
        window_result([O, P, P, N, N, N], 3),
        (
            10,
            vec![
                (6, vec![(ThreatType::SleepyTwo, B)]),
                (7, vec![(ThreatType::SleepyTwo, B)]),
                (8, vec![(ThreatType::SleepyTwo, B)]),
            ]
        )
    );
}

#[test]
fn pattern_empty_window_is_worth_nothing() {
    assert_eq!(window_result([N, N, N, N, N, N], 0), (0, vec![]));
}

#[test]
fn pattern_threat_not_recorded_twice() {
    let mut score = 0;
    let mut th = Vec::new();
    match_patterns(&[N, P, P, P, N, N], B, W, 1, &mut score, &mut th);
    match_patterns(&[N, N, P, P, P, N], B, W, 0, &mut score, &mut th);
    assert_eq!(score, 1800);
    assert_eq!(
        grouped(&th),
        vec![(1, vec![(ThreatType::LiveThree, B)]), (5, vec![(ThreatType::LiveThree, B)])]
    );
}

#[test]
fn line_live_three() {
    let line = [N, N, P, P, P, N, N, N, N, N];
    let (a, o, th) = evaluate_line_detailed(&line, B, W);
    assert_eq!((a, o), (1800, 0));
    assert_eq!(
        grouped(&th),
        vec![(1, vec![(ThreatType::LiveThree, B)]), (5, vec![(ThreatType::LiveThree, B)])]
    );
}

#[test]
fn line_sleepy_three_beside_live_three() {
    let line = [O, P, P, P, N, N, P, N, P, P, N, O, N, N, N];
    let (a, o, th) = evaluate_line_detailed(&line, B, W);
    assert_eq!((a, o), (1000, 0));
    assert_eq!(
        grouped(&th),
        vec![
            (4, vec![(ThreatType::SleepyThree, B)]),
            (5, vec![(ThreatType::SleepyThree, B), (ThreatType::LiveThree, B)]),
            (7, vec![(ThreatType::LiveThree, B)]),
            (10, vec![(ThreatType::LiveThree, B)]),
        ]
    );
}

#[test]
fn line_dead_fours() {
    let (a, o, th) = evaluate_line_detailed(&[O, P, P, P, P, N, N, N], B, W);
    assert_eq!((a, o), (1000, 0));
    assert_eq!(grouped(&th), vec![(5, vec![(ThreatType::DeadFour, B)])]);
    let (a2, o2, th2) = evaluate_line_detailed(&[N, P, P, N, P, P, N, O], B, W);
    assert_eq!((a2, o2), (2000, 0));
    assert_eq!(grouped(&th2), vec![(3, vec![(ThreatType::DeadFour, B)])]);
}

#[test]
fn evaluate_empty_board_is_zero() {
    assert_eq!(evaluate_board(&Board::new(), B), 0);
    assert_eq!(evaluate_board(&Board::new(), W), 0);
}

#[test]
fn evaluate_two_in_a_row() {
    let b = board_with(&[(6, 7, B), (7, 7, B)]);
    assert_eq!(evaluate_board(&b, B), 300);
    assert_eq!(evaluate_board(&b, W), -300);
}

#[test]
fn evaluate_double_live_three() {
    let b = board_with(&[(5, 7, B), (6, 7, B), (7, 7, B), (8, 4, B), (8, 5, B), (8, 6, B)]);
    assert_eq!(evaluate_board(&b, B), 9100);
    assert_eq!(evaluate_board(&b, W), -9100);
}

#[test]
fn evaluate_live_four_counts_four_three() {
    let b = board_with(&[(4, 7, B), (5, 7, B), (6, 7, B), (7, 7, B)]);
    assert_eq!(evaluate_board(&b, B), 58000);
    assert_eq!(evaluate_board(&b, W), -58000);
}

#[test]
fn evaluate_blocked_four_of_opponent() {
    let b = board_with(&[(4, 7, W), (5, 7, W), (6, 7, W), (7, 7, W), (3, 7, B)]);
    assert_eq!(evaluate_board(&b, B), -1000);
    assert_eq!(evaluate_board(&b, W), 1000);
}

#[test]
fn evaluate_five() {
    let b = board_with(&[(3, 7, B), (4, 7, B), (5, 7, B), (6, 7, B), (7, 7, B)]);
    assert_eq!(evaluate_board(&b, B), 100000);
    assert_eq!(evaluate_board(&b, W), -100000);
}

#[test]
fn evaluate_board_random_8_stones() {
    let b = board_with(&[(4, 2, B), (10, 9, B), (6, 14, W), (10, 13, W), (0, 13, B), (1, 1, B), (5, 4, W), (0, 2, B)]);
    assert_eq!(evaluate_board(&b, B), 0);
    assert_eq!(evaluate_board(&b, W), 0);
}

#[test]
fn evaluate_board_random_20_stones() {
    let b = board_with(&[(10, 14, W), (7, 14, W), (14, 0, W), (8, 1, W), (6, 1, W), (2, 6, B), (3, 14, W), (13, 2, W), (8, 12, W), (12, 13, W), (6, 11, B), (8, 14, W), (3, 5, W), (4, 4, B), (5, 10, W), (9, 3, B), (9, 0, B), (13, 9, B), (9, 11, B), (10, 2, B)]);
    assert_eq!(evaluate_board(&b, B), -950);
    assert_eq!(evaluate_board(&b, W), 950);
}

#[test]
fn evaluate_board_random_35_stones() {
    let b = board_with(&[(0, 4, W), (1, 10, W), (4, 9, B), (3, 2, B), (4, 6, W), (4, 10, B), (1, 8, W), (10, 10, W), (13, 9, W), (1, 1, W), (5, 10, B), (3, 0, W), (0, 8, B), (6, 4, W), (6, 9, W), (14, 3, B), (4, 3, B), (3, 12, B), (2, 14, W), (3, 9, B), (5, 9, W), (8, 14, B), (11, 6, W), (13, 10, B), (8, 2, B), (14, 13, W), (12, 10, W), (5, 13, W), (13, 8, W), (9, 6, W), (9, 12, W), (3, 14, W), (6, 11, W), (5, 14, B), (10, 2, W)]);
    assert_eq!(evaluate_board(&b, B), 20);
    assert_eq!(evaluate_board(&b, W), -20);
}

#[test]
fn evaluate_board_random_50_stones() {
    let b = board_with(&[(0, 4, W), (2, 5, B), (11, 1, B), (4, 12, W), (11, 6, B), (2, 8, W), (9, 2, B), (8, 1, B), (2, 1, B), (5, 0, B), (12, 6, B), (5, 9, B), (14, 4, W), (9, 13, B), (0, 13, B), (0, 1, W), (11, 3, W), (13, 8, W), (2, 9, W), (2, 6, B), (10, 4, W), (4, 13, B), (14, 2, W), (12, 1, W), (7, 4, B), (9, 3, B), (6, 0, B), (14, 10, W), (6, 4, W), (9, 4, B), (4, 3, B), (12, 2, W), (4, 5, W), (2, 14, B), (10, 10, W), (7, 12, W), (5, 6, B), (7, 1, W), (5, 10, B), (11, 5, B), (6, 11, B), (9, 6, B), (9, 8, W), (3, 4, B), (0, 3, W), (1, 12, B), (1, 8, B), (11, 4, B), (9, 12, B), (3, 14, W)]);
    assert_eq!(evaluate_board(&b, B), 55020);
    assert_eq!(evaluate_board(&b, W), -55020);
}

#[test]
fn evaluate_board_random_80_stones() {
    let b = board_with(&[(9, 10, B), (5, 4, B), (9, 12, B), (1, 6, W), (8, 13, W), (11, 11, B), (5, 14, B), (12, 14, W), (1, 11, B), (0, 9, B), (7, 0, W), (14, 7, B), (3, 13, W), (3, 4, W), (6, 14, W), (13, 0, B), (10, 2, B), (13, 1, W), (5, 6, B), (0, 8, W), (1, 14, W), (7, 6, B), (4, 9, B), (11, 1, W), (11, 9, W), (9, 13, B), (3, 0, B), (7, 12, B), (10, 3, W), (14, 6, B), (11, 4, W), (1, 3, B), (9, 6, B), (13, 13, B), (3, 1, W), (5, 2, B), (8, 10, W), (8, 12, B), (8, 7, W), (2, 2, W), (3, 2, W), (0, 0, B), (1, 0, B), (8, 3, W), (1, 13, B), (12, 2, W), (14, 11, W), (14, 4, B), (5, 5, W), (5, 3, B), (3, 9, B), (8, 11, W), (10, 10, B), (7, 3, W), (13, 12, W), (10, 11, W), (8, 6, B), (1, 5, B), (5, 0, W), (2, 6, W), (1, 7, B), (13, 11, W), (7, 2, B), (7, 4, B), (1, 1, B), (9, 5, B), (2, 5, B), (4, 10, B), (0, 10, W), (3, 12, W), (2, 10, B), (11, 5, W), (7, 11, W), (4, 5, W), (0, 6, B), (3, 5, B), (3, 8, B), (9, 14, W), (2, 3, B), (13, 9, W)]);
    assert_eq!(evaluate_board(&b, B), 58180);
    assert_eq!(evaluate_board(&b, W), -58180);
}

#[test]
fn evaluate_board_random_120_stones() {
    let b = board_with(&[(8, 13, B), (11, 9, B), (0, 14, W), (5, 1, W), (4, 8, B), (0, 13, W), (6, 4, B), (9, 0, W), (0, 0, W), (7, 2, B), (4, 11, W), (0, 10, B), (0, 8, W), (14, 12, B), (8, 12, W), (5, 6, B), (6, 5, W), (2, 13, W), (5, 0, W), (9, 4, B), (5, 8, B), (5, 3, W), (6, 12, W), (0, 7, B), (2, 9, W), (3, 9, B), (9, 11, W), (9, 1, B), (4, 3, B), (9, 9, B), (6, 9, W), (14, 11, W), (7, 13, W), (7, 4, B), (4, 14, W), (6, 10, W), (10, 11, W), (7, 1, B), (3, 7, W), (10, 5, W), (8, 1, W), (2, 6, W), (14, 6, B), (4, 4, W), (8, 7, W), (13, 12, W), (12, 13, B), (14, 14, W), (12, 10, B), (14, 4, W), (13, 11, W), (11, 0, B), (3, 14, B), (6, 3, B), (2, 11, W), (3, 12, W), (10, 14, W), (1, 13, B), (11, 8, B), (12, 9, B), (8, 8, W), (7, 0, W), (11, 11, B), (10, 12, B), (2, 4, B), (4, 10, W), (5, 7, W), (2, 5, B), (1, 6, B), (7, 11, W), (0, 2, B), (7, 12, B), (14, 10, W), (14, 8, W), (12, 11, W), (14, 1, B), (8, 4, W), (4, 5, B), (5, 10, W), (7, 6, W), (3, 8, B), (12, 3, B), (5, 2, W), (8, 3, W), (13, 8, B), (3, 0, W), (3, 3, B), (13, 2, B), (4, 0, W), (5, 12, B), (3, 5, W), (14, 13, W), (6, 6, B), (9, 6, B), (12, 14, B), (2, 2, B), (9, 13, W), (13, 0, B), (4, 12, B), (9, 3, B), (1, 5, B), (5, 9, B), (13, 14, W), (12, 0, B), (11, 3, W), (1, 2, B), (13, 6, W), (8, 11, W), (9, 7, B), (7, 10, B), (0, 9, W), (6, 7, W), (8, 9, W), (7, 7, B), (10, 6, B), (1, 7, W), (4, 13, B), (11, 6, W), (7, 14, B), (8, 14, B)]);
    assert_eq!(evaluate_board(&b, B), -301880);
    assert_eq!(evaluate_board(&b, W), 301880);
}

#[test]
fn evaluate_board_random_200_stones() {
    let b = board_with(&[(7, 5, B), (8, 2, B), (11, 6, B), (1, 11, B), (12, 0, W), (3, 1, W), (0, 14, B), (2, 9, B), (9, 1, B), (3, 6, B), (14, 9, B), (14, 0, W), (9, 8, W), (9, 3, B), (9, 0, B), (7, 1, B), (6, 7, B), (2, 7, B), (2, 1, B), (1, 4, W), (8, 1, B), (6, 9, B), (3, 7, W), (0, 1, W), (9, 9, B), (1, 2, W), (12, 3, B), (11, 10, W), (10, 10, W), (4, 14, W), (6, 13, W), (12, 9, B), (0, 13, B), (12, 14, B), (10, 14, W), (11, 3, W), (11, 0, W), (7, 9, B), (4, 2, B), (14, 4, W), (12, 13, W), (6, 2, W), (3, 9, W), (0, 2, W), (11, 9, W), (3, 5, B), (8, 9, W), (9, 11, B), (1, 3, B), (11, 1, B), (13, 9, B), (0, 12, B), (13, 10, W), (3, 3, W), (5, 6, B), (6, 14, W), (5, 9, W), (1, 1, W), (5, 13, B), (14, 12, B), (8, 10, B), (7, 3, B), (7, 8, B), (1, 9, W), (4, 7, W), (5, 5, W), (14, 7, B), (12, 12, W), (11, 7, W), (2, 6, B), (1, 5, W), (3, 4, W), (11, 11, W), (2, 4, W), (5, 1, B), (13, 12, B), (4, 10, W), (14, 8, B), (6, 8, W), (12, 5, W), (9, 7, B), (13, 4, B), (9, 14, W), (1, 12, W), (11, 8, B), (4, 12, B), (12, 2, B), (10, 9, W), (13, 14, W), (5, 8, B), (4, 9, W), (10, 0, W), (4, 1, W), (9, 10, B), (7, 14, W), (14, 5, B), (12, 10, B), (6, 10, W), (8, 0, W), (7, 10, W), (8, 12, W), (0, 8, B), (6, 12, W), (0, 4, W), (2, 14, B), (10, 5, B), (8, 11, B), (7, 0, B), (5, 14, W), (3, 8, B), (9, 2, B), (14, 14, B), (13, 11, W), (10, 8, B), (0, 7, B), (3, 13, W), (3, 12, W), (1, 6, B), (4, 3, W), (14, 10, W), (14, 2, W), (2, 0, W), (14, 3, B), (0, 3, B), (6, 1, B), (14, 11, B), (3, 14, W), (3, 10, B), (12, 7, B), (12, 1, W), (7, 13, W), (2, 11, B), (4, 13, W), (5, 3, W), (0, 9, W), (7, 6, B), (13, 8, W), (10, 6, B), (1, 13, B), (6, 3, W), (10, 4, W), (5, 2, W), (11, 13, W), (10, 3, W), (9, 5, B), (8, 5, W), (8, 3, W), (11, 12, W), (6, 11, W), (14, 1, B), (12, 8, W), (13, 5, B), (14, 13, W), (5, 12, W), (0, 5, W), (3, 11, W), (1, 0, B), (1, 10, W), (9, 13, W), (3, 2, W), (4, 6, B), (0, 0, B), (8, 14, B), (10, 11, B), (2, 8, B), (6, 4, B), (11, 14, W), (4, 4, W), (0, 10, W), (13, 7, B), (14, 6, W), (2, 2, W), (13, 3, B), (11, 2, W), (13, 2, W), (2, 3, B), (3, 0, W), (9, 4, B), (0, 6, B), (4, 5, W), (10, 1, W), (1, 14, B), (2, 10, B), (2, 12, W), (6, 0, B), (8, 13, B), (5, 7, B), (12, 11, W), (10, 12, B), (4, 0, W), (13, 0, B), (13, 1, B), (7, 7, B), (6, 6, W), (9, 6, W), (11, 4, B), (8, 4, W), (7, 2, W), (10, 7, W), (7, 12, B)]);
    assert_eq!(evaluate_board(&b, B), -305290);
    assert_eq!(evaluate_board(&b, W), 305290);
}
