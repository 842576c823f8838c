//! The computer player: a depth-limited minimax search with alpha-beta pruning.
use vstd::prelude::*;

use crate::board::{Board, Cells, Player, board_full, find_first_empty_cell, is_board_full, put};
use crate::eval::{eval_spec, evaluate_board};
use crate::moves::{generate_moves, moves_spec};
use crate::patterns::SCORE_FIVE;
use crate::rules::{check_immediate_win, immediate_winner};

verus! {

/// How deep the computer player searches.
pub const AI_DEPTH: u32 = 3;

/// The deepest search for which a won position, adjusted by the remaining depth, still fits
/// in an `i32`.
pub const MAX_DEPTH: u32 = 2_147_383_647;

/// A move: (column, row).
pub type Move = (usize, usize);

/// Who moves at a node: the computer at maximizing nodes, its opponent at the others.
pub open spec fn mover(maximizing: bool, ai: Player) -> Player {
    if maximizing {
        ai
    } else {
        ai.spec_opponent()
    }
}

/// The board after `p` plays `m`.
pub open spec fn child(b: Cells, m: Move, p: Player) -> Cells {
    put(b, m.0 as int, m.1 as int, Some(p))
}

/// The value of a won position: a win of `ai` is worth `SCORE_FIVE`, a loss `-SCORE_FIVE`;
/// wins found with more depth left count a little less at maximizing nodes and a little
/// more at minimizing ones.
pub open spec fn win_value(winner: Player, ai: Player, depth: nat, maximizing: bool) -> int {
    (if winner == ai {
        SCORE_FIVE as int
    } else {
        -SCORE_FIVE
    }) + if maximizing {
        -depth
    } else {
        depth as int
    }
}

/// The alpha-beta search: the value of the position and the chosen move.
pub open spec fn ab(b: Cells, depth: nat, alpha: int, beta: int, maximizing: bool, ai: Player) -> (
    int,
    Option<Move>,
)
    decreases depth, 1nat, 0int,
{
    match immediate_winner(b) {
        Some(w) => (win_value(w, ai, depth, maximizing), None),
        None => if board_full(b) {
            (0, None)
        } else if depth == 0 {
            (eval_spec(b, ai), None)
        } else {
            let ms = moves_spec(b);
            if ms.len() == 0 {
                (eval_spec(b, ai), None)
            } else {
                let (v, bm) = ab_loop(
                    b,
                    ms,
                    0,
                    depth,
                    alpha,
                    beta,
                    if maximizing {
                        i32::MIN as int
                    } else {
                        i32::MAX as int
                    },
                    None,
                    maximizing,
                    ai,
                );
                (v, if bm is Some {
                    bm
                } else {
                    Some(ms[0])
                })
            }
        },
    }
}

/// The alpha-beta loop over the moves from index `i` on, with the window, the best value and
/// the best move so far.
pub open spec fn ab_loop(
    b: Cells,
    ms: Seq<Move>,
    i: int,
    depth: nat,
    alpha: int,
    beta: int,
    best: int,
    best_move: Option<Move>,
    maximizing: bool,
    ai: Player,
) -> (int, Option<Move>)
    decreases depth, 0nat, ms.len() - i,
{
    if i < 0 || i >= ms.len() || depth == 0 {
        (best, best_move)
    } else {
        let m = ms[i];
        let e = ab(
            child(b, m, mover(maximizing, ai)),
            (depth - 1) as nat,
            alpha,
            beta,
            !maximizing,
            ai,
        ).0;
        if maximizing {
            let nb = if e > best {
                e
            } else {
                best
            };
            let nm = if e > best {
                Some(m)
            } else {
                best_move
            };
            let na = if e > alpha {
                e
            } else {
                alpha
            };
            if beta <= na {
                (nb, nm)
            } else {
                ab_loop(b, ms, i + 1, depth, na, beta, nb, nm, maximizing, ai)
            }
        } else {
            let nb = if e < best {
                e
            } else {
                best
            };
            let nm = if e < best {
                Some(m)
            } else {
                best_move
            };
            let nbeta = if e < beta {
                e
            } else {
                beta
            };
            if nbeta <= alpha {
                (nb, nm)
            } else {
                ab_loop(b, ms, i + 1, depth, alpha, nbeta, nb, nm, maximizing, ai)
            }
        }
    }
}

/// The best move found, or else the first candidate.
fn or_first(best_move: Option<Move>, first: Move) -> (r: Option<Move>)
    ensures
        r == (if best_move is Some {
            best_move
        } else {
            Some(first)
        }),
{
    match best_move {
        Some(m) => Some(m),
        None => Some(first),
    }
}

/// Searches `depth` plies ahead with alpha-beta pruning and returns the value of the
/// position for `ai_player` and the move chosen at this node.
///
/// A position with five in a row is worth `SCORE_FIVE` for the side that has it (the first
/// five found in a row-by-row scan decides), a full board 0, and a position at depth 0 or
/// without moves its evaluation. Otherwise each candidate move is played in turn by the side
/// to move, searched one ply less deep and taken back; the best value for that side (the
/// highest at maximizing nodes, the lowest at the others) and the first move that reached it
/// are kept, and the loop stops as soon as the window closes. Without a better move the
/// first candidate is returned. The board is left as it was.
pub fn minimax(
    board: &mut Board,
    depth: u32,
    alpha: i32,
    beta: i32,
    maximizing_player: bool,
    ai_player: Player,
) -> (r: (i32, Option<Move>))
    requires
        old(board).wf(),
        depth <= MAX_DEPTH,
    ensures
        final(board).wf(),
        final(board)@ == old(board)@,
        (r.0 as int, r.1) == ab(
            old(board)@,
            depth as nat,
            alpha as int,
            beta as int,
            maximizing_player,
            ai_player,
        ),
    decreases depth,
{
    let ghost b0 = board@;
    if let Some(winner) = check_immediate_win(board) {
        let score = if winner == ai_player {
            SCORE_FIVE
        } else {
            -SCORE_FIVE
        };
        return (score + if maximizing_player {
            -(depth as i32)
        } else {
            depth as i32
        }, None);
    }
    if is_board_full(board) {
        return (0, None);
    }
    if depth == 0 {
        return (evaluate_board(board, ai_player), None);
    }
    let current_eval_player = if maximizing_player {
        ai_player
    } else {
        ai_player.opponent()
    };
    let moves = generate_moves(board);
    if moves.len() == 0 {
        return (evaluate_board(board, ai_player), None);
    }
    proof {
        crate::moves::lemma_moves(b0);
    }
    let first_move_fallback = moves[0];
    let mut best_move: Option<Move> = None;
    let ghost ms = moves@;
    if maximizing_player {
        let mut max_eval = i32::MIN;
        let mut a = alpha;
        let mut i: usize = 0;
        while i < moves.len()
            invariant
                board.wf(),
                board@ == b0,
                b0 == old(board)@,
                immediate_winner(b0) is None,
                !board_full(b0),
                ms == moves@,
                ms == moves_spec(b0),
                0 < depth <= MAX_DEPTH,
                i <= ms.len(),
                ms.len() > 0,
                first_move_fallback == ms[0],
                current_eval_player == mover(true, ai_player),
                maximizing_player,
                forall|k: int|
                    0 <= k < ms.len() ==> crate::board::empty_at(
                        b0,
                        (#[trigger] ms[k]).0 as int,
                        ms[k].1 as int,
                    ),
                ab_loop(
                    b0,
                    ms,
                    0,
                    depth as nat,
                    alpha as int,
                    beta as int,
                    i32::MIN as int,
                    None,
                    true,
                    ai_player,
                ) == ab_loop(
                    b0,
                    ms,
                    i as int,
                    depth as nat,
                    a as int,
                    beta as int,
                    max_eval as int,
                    best_move,
                    true,
                    ai_player,
                ),
            decreases ms.len() - i,
        {
            let (x, y) = moves[i];
            assert(crate::board::empty_at(b0, x as int, y as int));
            board.set(x, y, Some(current_eval_player));
            let (eval, _) = minimax(board, depth - 1, a, beta, false, ai_player);
            board.set(x, y, None);
            assert(board@ =~= b0);
            if eval > max_eval {
                max_eval = eval;
                best_move = Some((x, y));
            }
            if eval > a {
                a = eval;
            }
            if beta <= a {
                // Beta cut-off.
                return (max_eval, or_first(best_move, first_move_fallback));
            }
            i = i + 1;
        }
        (max_eval, or_first(best_move, first_move_fallback))
    } else {
        let mut min_eval = i32::MAX;
        let mut bt = beta;
        let mut i: usize = 0;
        while i < moves.len()
            invariant
                board.wf(),
                board@ == b0,
                b0 == old(board)@,
                immediate_winner(b0) is None,
                !board_full(b0),
                ms == moves@,
                ms == moves_spec(b0),
                0 < depth <= MAX_DEPTH,
                i <= ms.len(),
                ms.len() > 0,
                first_move_fallback == ms[0],
                current_eval_player == mover(false, ai_player),
                !maximizing_player,
                forall|k: int|
                    0 <= k < ms.len() ==> crate::board::empty_at(
                        b0,
                        (#[trigger] ms[k]).0 as int,
                        ms[k].1 as int,
                    ),
                ab_loop(
                    b0,
                    ms,
                    0,
                    depth as nat,
                    alpha as int,
                    beta as int,
                    i32::MAX as int,
                    None,
                    false,
                    ai_player,
                ) == ab_loop(
                    b0,
                    ms,
                    i as int,
                    depth as nat,
                    alpha as int,
                    bt as int,
                    min_eval as int,
                    best_move,
                    false,
                    ai_player,
                ),
            decreases ms.len() - i,
        {
            let (x, y) = moves[i];
            assert(crate::board::empty_at(b0, x as int, y as int));
            board.set(x, y, Some(current_eval_player));
            let (eval, _) = minimax(board, depth - 1, alpha, bt, true, ai_player);
            board.set(x, y, None);
            assert(board@ =~= b0);
            if eval < min_eval {
                min_eval = eval;
                best_move = Some((x, y));
            }
            if eval < bt {
                bt = eval;
            }
            if bt <= alpha {
                // Alpha cut-off.
                return (min_eval, or_first(best_move, first_move_fallback));
            }
            i = i + 1;
        }
        (min_eval, or_first(best_move, first_move_fallback))
    }
}

/// The move that the computer player `ai_player` picks: a full-window alpha-beta search of
/// `depth` plies; `None` when the position is already won, the board is full, or the depth is
/// 0.
pub fn find_best_move(board: &Board, ai_player: Player, depth: u32) -> (r: Option<Move>)
    requires
        board.wf(),
        depth <= MAX_DEPTH,
    ensures
        r == ab(board@, depth as nat, i32::MIN + 1, i32::MAX - 1, true, ai_player).1,
{
    let mut work = board.copy();
    let (_, best_move_opt) = minimax(&mut work, depth, i32::MIN + 1, i32::MAX - 1, true, ai_player);
    best_move_opt
}

/// The answer of the computer player's search thread.
#[derive(Debug, Clone, Copy, PartialEq, Eq, Structural)]
pub enum AiChoice {
    /// The move the search picked, as (column, row).
    Best(usize, usize),
    /// The search picked nothing; the first empty cell instead, as (column, row).
    Fallback(usize, usize),
    /// The search picked nothing and the board is full.
    NoMove,
}

/// The move of an answer, if any.
pub open spec fn choice_move(c: AiChoice) -> Option<Move> {
    match c {
        AiChoice::Best(x, y) => Some((x, y)),
        AiChoice::Fallback(x, y) => Some((x, y)),
        AiChoice::NoMove => None,
    }
}

/// The move the computer player answers with: the search's choice at depth `AI_DEPTH`, or else
/// the first empty cell.
pub open spec fn ai_choice(b: Cells, ai: Player) -> Option<Move> {
    match ab(b, AI_DEPTH as nat, i32::MIN + 1, i32::MAX - 1, true, ai).1 {
        Some(m) => Some(m),
        None => crate::board::first_empty(b),
    }
}

/// The computer player's answer is an empty cell, and there is one exactly when the board is
/// not full.
pub proof fn lemma_ai_choice_legal(b: Cells, ai: Player)
    requires
        b.len() == 225,
    ensures
        ai_choice(b, ai) is Some <==> !board_full(b),
        ai_choice(b, ai) matches Some(m) ==> crate::board::empty_at(b, m.0 as int, m.1 as int),
{
    lemma_best_move_optimal(b, AI_DEPTH as nat, ai);
    crate::board::lemma_first_empty(b);
}

/// The move the computer player answers with, as the search thread of the game computes it:
/// the search's choice at depth `AI_DEPTH`, or else the first empty cell. It is an empty cell,
/// and there is one exactly when the board is not full.
pub fn ai_choose_move(board: &Board, ai_player: Player) -> (r: AiChoice)
    requires
        board.wf(),
    ensures
        ({
            let best = ab(board@, AI_DEPTH as nat, i32::MIN + 1, i32::MAX - 1, true, ai_player).1;
            match r {
                AiChoice::Best(x, y) => best == Some((x, y)),
                AiChoice::Fallback(x, y) => best is None && crate::board::first_empty(board@) == Some(
                    (x, y),
                ),
                AiChoice::NoMove => best is None && crate::board::first_empty(board@) is None,
            }
        }),
        choice_move(r) == ai_choice(board@, ai_player),
        choice_move(r) is Some <==> !board_full(board@),
        choice_move(r) matches Some(m) ==> crate::board::empty_at(board@, m.0 as int, m.1 as int),
{
    proof {
        lemma_ai_choice_legal(board@, ai_player);
    }
    match find_best_move(board, ai_player, AI_DEPTH) {
        Some((x, y)) => AiChoice::Best(x, y),
        None => match find_first_empty_cell(board) {
            Some((x, y)) => AiChoice::Fallback(x, y),
            None => AiChoice::NoMove,
        },
    }
}

/// The plain minimax value of a position for `ai`, searching `depth` plies: the same
/// terminal values as the search, and otherwise the best value, for the side to move, of the
/// positions after each candidate move.
pub open spec fn minimax_value(b: Cells, depth: nat, maximizing: bool, ai: Player) -> int
    decreases depth, 1nat, 0int,
{
    match immediate_winner(b) {
        Some(w) => win_value(w, ai, depth, maximizing),
        None => if board_full(b) {
            0
        } else if depth == 0 {
            eval_spec(b, ai)
        } else {
            let ms = moves_spec(b);
            if ms.len() == 0 {
                eval_spec(b, ai)
            } else {
                best_of(b, ms, ms.len() as int, depth, maximizing, ai)
            }
        },
    }
}

/// The best value, for the side to move, over the first `n` moves of `ms` (the largest at
/// maximizing nodes, the smallest at the others), starting from the extreme `i32` value.
pub open spec fn best_of(b: Cells, ms: Seq<Move>, n: int, depth: nat, maximizing: bool, ai: Player) -> int
    decreases depth, 0nat, n,
{
    if n <= 0 || depth == 0 {
        if maximizing {
            i32::MIN as int
        } else {
            i32::MAX as int
        }
    } else {
        let prev = best_of(b, ms, n - 1, depth, maximizing, ai);
        let v = minimax_value(
            child(b, ms[n - 1], mover(maximizing, ai)),
            (depth - 1) as nat,
            !maximizing,
            ai,
        );
        if maximizing {
            if v > prev {
                v
            } else {
                prev
            }
        } else {
            if v < prev {
                v
            } else {
                prev
            }
        }
    }
}

/// The minimax value of the position after the `j`-th move.
pub open spec fn child_value(b: Cells, ms: Seq<Move>, j: int, depth: nat, maximizing: bool, ai: Player) -> int {
    minimax_value(child(b, ms[j], mover(maximizing, ai)), (depth - 1) as nat, !maximizing, ai)
}

proof fn lemma_best_of_mono(b: Cells, ms: Seq<Move>, i: int, n: int, depth: nat, maximizing: bool, ai: Player)
    requires
        0 <= i <= n,
        depth > 0,
    ensures
        maximizing ==> best_of(b, ms, n, depth, maximizing, ai) >= best_of(b, ms, i, depth, maximizing, ai),
        !maximizing ==> best_of(b, ms, n, depth, maximizing, ai) <= best_of(b, ms, i, depth, maximizing, ai),
    decreases n,
{
    if n > i {
        lemma_best_of_mono(b, ms, i, n - 1, depth, maximizing, ai);
    }
}

/// Fail-soft alpha-beta, at maximizing nodes: the loop from move `i` on, with `best` the best
/// value so far and `a == max(a0, best)` the raised lower bound of the window.
proof fn lemma_loop_max(
    b: Cells,
    ms: Seq<Move>,
    i: int,
    depth: nat,
    a0: int,
    a: int,
    beta: int,
    best: int,
    bm: Option<Move>,
    ai: Player,
)
    requires
        b.len() == 225,
        depth > 0,
        0 <= i <= ms.len(),
        forall|k: int|
            0 <= k < ms.len() ==> crate::board::on_board(
                (#[trigger] ms[k]).0 as int,
                ms[k].1 as int,
            ),
        a0 >= i32::MIN,
        beta <= i32::MAX,
        a == (if best > a0 {
            best
        } else {
            a0
        }),
        a < beta,
        best_of(b, ms, i, depth, true, ai) <= best,
        best > a0 ==> best_of(b, ms, i, depth, true, ai) == best,
        best > a0 ==> (bm matches Some(m) && exists|j: int|
            0 <= j < i && ms[j] == m && child_value(b, ms, j, depth, true, ai) == best),
    ensures
        ({
            let (v, rm) = ab_loop(b, ms, i, depth, a, beta, best, bm, true, ai);
            let big_m = best_of(b, ms, ms.len() as int, depth, true, ai);
            &&& v <= a0 ==> big_m <= v
            &&& v >= beta ==> big_m >= v
            &&& a0 < v < beta ==> big_m == v
            &&& a0 < v < beta ==> (rm matches Some(m) && exists|j: int|
                0 <= j < ms.len() && ms[j] == m && child_value(b, ms, j, depth, true, ai) == v)
        }),
    decreases depth, 0nat, ms.len() - i,
{
    if i < ms.len() {
        let m = ms[i];
        let cb = child(b, m, mover(true, ai));
        lemma_alpha_beta(cb, (depth - 1) as nat, a, beta, false, ai);
        let e = ab(cb, (depth - 1) as nat, a, beta, false, ai).0;
        let nb = if e > best {
            e
        } else {
            best
        };
        let nm = if e > best {
            Some(m)
        } else {
            bm
        };
        let na = if e > a {
            e
        } else {
            a
        };
        if beta <= na {
            lemma_best_of_mono(b, ms, i + 1, ms.len() as int, depth, true, ai);
        } else {
            if nb > a0 && e > best {
                assert(child_value(b, ms, i, depth, true, ai) == e);
            }
            lemma_loop_max(b, ms, i + 1, depth, a0, na, beta, nb, nm, ai);
        }
    }
}

/// Fail-soft alpha-beta, at minimizing nodes: the loop from move `i` on, with `best` the
/// best value so far and `bt == min(b0, best)` the lowered upper bound of the window.
proof fn lemma_loop_min(
    b: Cells,
    ms: Seq<Move>,
    i: int,
    depth: nat,
    alpha: int,
    b0: int,
    bt: int,
    best: int,
    bm: Option<Move>,
    ai: Player,
)
    requires
        b.len() == 225,
        depth > 0,
        0 <= i <= ms.len(),
        forall|k: int|
            0 <= k < ms.len() ==> crate::board::on_board(
                (#[trigger] ms[k]).0 as int,
                ms[k].1 as int,
            ),
        alpha >= i32::MIN,
        b0 <= i32::MAX,
        bt == (if best < b0 {
            best
        } else {
            b0
        }),
        alpha < bt,
        best_of(b, ms, i, depth, false, ai) >= best,
        best < b0 ==> best_of(b, ms, i, depth, false, ai) == best,
        best < b0 ==> (bm matches Some(m) && exists|j: int|
            0 <= j < i && ms[j] == m && child_value(b, ms, j, depth, false, ai) == best),
    ensures
        ({
            let (v, rm) = ab_loop(b, ms, i, depth, alpha, bt, best, bm, false, ai);
            let big_m = best_of(b, ms, ms.len() as int, depth, false, ai);
            &&& v >= b0 ==> big_m >= v
            &&& v <= alpha ==> big_m <= v
            &&& alpha < v < b0 ==> big_m == v
            &&& alpha < v < b0 ==> (rm matches Some(m) && exists|j: int|
                0 <= j < ms.len() && ms[j] == m && child_value(b, ms, j, depth, false, ai) == v)
        }),
    decreases depth, 0nat, ms.len() - i,
{
    if i < ms.len() {
        let m = ms[i];
        let cb = child(b, m, mover(false, ai));
        lemma_alpha_beta(cb, (depth - 1) as nat, alpha, bt, true, ai);
        let e = ab(cb, (depth - 1) as nat, alpha, bt, true, ai).0;
        let nb = if e < best {
            e
        } else {
            best
        };
        let nm = if e < best {
            Some(m)
        } else {
            bm
        };
        let nbt = if e < bt {
            e
        } else {
            bt
        };
        if nbt <= alpha {
            lemma_best_of_mono(b, ms, i + 1, ms.len() as int, depth, false, ai);
        } else {
            if nb < b0 && e < best {
                assert(child_value(b, ms, i, depth, false, ai) == e);
            }
            lemma_loop_min(b, ms, i + 1, depth, alpha, b0, nbt, nb, nm, ai);
        }
    }
}

/// Alpha-beta search is fail-soft minimax: with a window `alpha < beta`, a value inside the
/// window is the exact minimax value, a value at or below `alpha` is an upper bound of it, and
/// a value at or above `beta` a lower bound.
pub proof fn lemma_alpha_beta(b: Cells, depth: nat, alpha: int, beta: int, maximizing: bool, ai: Player)
    requires
        b.len() == 225,
        i32::MIN <= alpha < beta <= i32::MAX,
    ensures
        ({
            let v = ab(b, depth, alpha, beta, maximizing, ai).0;
            let big_v = minimax_value(b, depth, maximizing, ai);
            &&& v <= alpha ==> big_v <= v
            &&& v >= beta ==> big_v >= v
            &&& alpha < v < beta ==> big_v == v
        }),
    decreases depth, 1nat, 0int,
{
    if immediate_winner(b) is None && !board_full(b) && depth > 0 {
        let ms = moves_spec(b);
        crate::moves::lemma_moves(b);
        if ms.len() > 0 {
            if maximizing {
                lemma_loop_max(b, ms, 0, depth, alpha, alpha, beta, i32::MIN as int, None, ai);
            } else {
                lemma_loop_min(b, ms, 0, depth, alpha, beta, beta, i32::MAX as int, None, ai);
            }
        }
    }
}

/// The largest value, in size, of a search `depth` plies deep.
pub open spec fn value_bound(depth: nat) -> int {
    if crate::eval::eval_bound() > SCORE_FIVE + depth {
        crate::eval::eval_bound()
    } else {
        SCORE_FIVE + depth
    }
}

proof fn lemma_loop_bound(
    b: Cells,
    ms: Seq<Move>,
    i: int,
    depth: nat,
    alpha: int,
    beta: int,
    best: int,
    bm: Option<Move>,
    maximizing: bool,
    ai: Player,
)
    requires
        b.len() == 225,
        depth > 0,
        depth <= MAX_DEPTH,
        0 <= i <= ms.len(),
        i < ms.len() || i > 0,
        forall|k: int|
            0 <= k < ms.len() ==> crate::board::on_board(
                (#[trigger] ms[k]).0 as int,
                ms[k].1 as int,
            ),
        i > 0 ==> -value_bound(depth) <= best <= value_bound(depth),
        i == 0 ==> best == (if maximizing {
            i32::MIN as int
        } else {
            i32::MAX as int
        }),
    ensures
        -value_bound(depth) <= ab_loop(b, ms, i, depth, alpha, beta, best, bm, maximizing, ai).0
            <= value_bound(depth),
    decreases depth, 0nat, ms.len() - i,
{
    if i < ms.len() {
        let cb = child(b, ms[i], mover(maximizing, ai));
        lemma_ab_bound(cb, (depth - 1) as nat, alpha, beta, !maximizing, ai);
        let e = ab(cb, (depth - 1) as nat, alpha, beta, !maximizing, ai).0;
        let nb = if maximizing {
            if e > best {
                e
            } else {
                best
            }
        } else {
            if e < best {
                e
            } else {
                best
            }
        };
        let nm = if (maximizing && e > best) || (!maximizing && e < best) {
            Some(ms[i])
        } else {
            bm
        };
        if maximizing {
            let na = if e > alpha {
                e
            } else {
                alpha
            };
            if !(beta <= na) {
                lemma_loop_bound(b, ms, i + 1, depth, na, beta, nb, nm, maximizing, ai);
            }
        } else {
            let nbt = if e < beta {
                e
            } else {
                beta
            };
            if !(nbt <= alpha) {
                lemma_loop_bound(b, ms, i + 1, depth, alpha, nbt, nb, nm, maximizing, ai);
            }
        }
    }
}

/// Every value of the search lies within `value_bound(depth)`.
pub proof fn lemma_ab_bound(b: Cells, depth: nat, alpha: int, beta: int, maximizing: bool, ai: Player)
    requires
        b.len() == 225,
        depth <= MAX_DEPTH,
    ensures
        -value_bound(depth) <= ab(b, depth, alpha, beta, maximizing, ai).0 <= value_bound(depth),
    decreases depth, 1nat, 0int,
{
    crate::eval::lemma_eval_bounds(b, ai);
    if immediate_winner(b) is None && !board_full(b) && depth > 0 {
        let ms = moves_spec(b);
        crate::moves::lemma_moves(b);
        if ms.len() > 0 {
            lemma_loop_bound(
                b,
                ms,
                0,
                depth,
                alpha,
                beta,
                if maximizing {
                    i32::MIN as int
                } else {
                    i32::MAX as int
                },
                None,
                maximizing,
                ai,
            );
        }
    }
}

/// The move the computer player picks is optimal. A full-window search `depth` plies deep
/// returns exactly the minimax value of the position; it picks a move exactly when nobody has
/// five in a row, the board is not full and the depth is not 0; and then the move is one of
/// the candidates, an empty cell, and the position after it has that same minimax value.
pub proof fn lemma_best_move_optimal(b: Cells, depth: nat, ai: Player)
    requires
        b.len() == 225,
        depth < MAX_DEPTH - 1,
    ensures
        ({
            let (v, m) = ab(b, depth, i32::MIN + 1, i32::MAX - 1, true, ai);
            &&& v == minimax_value(b, depth, true, ai)
            &&& m is Some <==> (immediate_winner(b) is None && !board_full(b) && depth > 0)
            &&& m matches Some(mv) ==> {
                &&& moves_spec(b).contains(mv)
                &&& crate::board::empty_at(b, mv.0 as int, mv.1 as int)
                &&& minimax_value(child(b, mv, ai), (depth - 1) as nat, false, ai) == v
            }
        }),
{
    let lo = i32::MIN + 1;
    let hi = i32::MAX - 1;
    lemma_ab_bound(b, depth, lo as int, hi as int, true, ai);
    lemma_alpha_beta(b, depth, lo as int, hi as int, true, ai);
    crate::moves::lemma_moves(b);
    if immediate_winner(b) is None && !board_full(b) && depth > 0 {
        let ms = moves_spec(b);
        lemma_loop_max(b, ms, 0, depth, lo as int, lo as int, hi as int, i32::MIN as int, None, ai);
        let (v, rm) = ab_loop(b, ms, 0, depth, lo as int, hi as int, i32::MIN as int, None, true, ai);
        let j = choose|j: int|
            0 <= j < ms.len() && Some(ms[j]) == rm && child_value(b, ms, j, depth, true, ai) == v;
        assert(ms.contains(ms[j]));
    }
}

proof fn lemma_best_of_bound(b: Cells, ms: Seq<Move>, n: int, depth: nat, maximizing: bool, ai: Player)
    requires
        b.len() == 225,
        0 < depth <= MAX_DEPTH,
        1 <= n <= ms.len(),
        forall|k: int|
            0 <= k < ms.len() ==> crate::board::on_board(
                (#[trigger] ms[k]).0 as int,
                ms[k].1 as int,
            ),
    ensures
        -value_bound(depth) <= best_of(b, ms, n, depth, maximizing, ai) <= value_bound(depth),
    decreases depth, 0nat, n,
{
    lemma_minimax_bound(child(b, ms[n - 1], mover(maximizing, ai)), (depth - 1) as nat, !maximizing, ai);
    assert(crate::eval::eval_bound() == 12_290_000);
    assert(value_bound((depth - 1) as nat) <= value_bound(depth) <= i32::MAX);
    if n > 1 {
        lemma_best_of_bound(b, ms, n - 1, depth, maximizing, ai);
    } else {
        assert(best_of(b, ms, 0, depth, maximizing, ai) == if maximizing {
            i32::MIN as int
        } else {
            i32::MAX as int
        });
    }
}

/// Every minimax value lies within `value_bound(depth)`.
pub proof fn lemma_minimax_bound(b: Cells, depth: nat, maximizing: bool, ai: Player)
    requires
        b.len() == 225,
        depth <= MAX_DEPTH,
    ensures
        -value_bound(depth) <= minimax_value(b, depth, maximizing, ai) <= value_bound(depth),
    decreases depth, 1nat, 0int,
{
    crate::eval::lemma_eval_bounds(b, ai);
    if immediate_winner(b) is None && !board_full(b) && depth > 0 {
        let ms = moves_spec(b);
        crate::moves::lemma_moves(b);
        if ms.len() > 0 {
            lemma_best_of_bound(b, ms, ms.len() as int, depth, maximizing, ai);
        }
    }
}

proof fn lemma_best_of_swap(b: Cells, ms: Seq<Move>, n: int, depth: nat, maximizing: bool, ai: Player)
    requires
        b.len() == 225,
        0 < depth <= MAX_DEPTH,
        1 <= n <= ms.len(),
        forall|k: int|
            0 <= k < ms.len() ==> crate::board::on_board(
                (#[trigger] ms[k]).0 as int,
                ms[k].1 as int,
            ),
    ensures
        best_of(b, ms, n, depth, maximizing, ai) == -best_of(
            b,
            ms,
            n,
            depth,
            !maximizing,
            ai.spec_opponent(),
        ),
    decreases depth, 0nat, n,
{
    let opp = ai.spec_opponent();
    assert(mover(maximizing, ai) == mover(!maximizing, opp));
    let c = child(b, ms[n - 1], mover(maximizing, ai));
    lemma_minimax_swap(c, (depth - 1) as nat, !maximizing, ai);
    lemma_minimax_bound(c, (depth - 1) as nat, !maximizing, ai);
    assert(crate::eval::eval_bound() == 12_290_000);
    assert(value_bound((depth - 1) as nat) <= value_bound(depth) <= i32::MAX);
    if n > 1 {
        lemma_best_of_swap(b, ms, n - 1, depth, maximizing, ai);
    } else {
        assert(best_of(b, ms, 0, depth, maximizing, ai) == if maximizing {
            i32::MIN as int
        } else {
            i32::MAX as int
        });
        assert(best_of(b, ms, 0, depth, !maximizing, ai.spec_opponent()) == if !maximizing {
            i32::MIN as int
        } else {
            i32::MAX as int
        });
    }
}

/// The search is zero-sum: the value of a position for one player, with one side to move, is
/// minus its value for the other player with the same side to move.
pub proof fn lemma_minimax_swap(b: Cells, depth: nat, maximizing: bool, ai: Player)
    requires
        b.len() == 225,
        depth <= MAX_DEPTH,
    ensures
        minimax_value(b, depth, maximizing, ai) == -minimax_value(
            b,
            depth,
            !maximizing,
            ai.spec_opponent(),
        ),
    decreases depth, 1nat, 0int,
{
    let opp = ai.spec_opponent();
    assert(opp.spec_opponent() == ai);
    crate::balance::lemma_eval_zero_sum(b, ai);
    if immediate_winner(b) is None && !board_full(b) && depth > 0 {
        let ms = moves_spec(b);
        crate::moves::lemma_moves(b);
        if ms.len() > 0 {
            lemma_best_of_swap(b, ms, ms.len() as int, depth, maximizing, ai);
        }
    }
}

} // verus!
