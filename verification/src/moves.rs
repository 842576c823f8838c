//! Candidate moves for the search: the empty cells next to a stone.
use vstd::prelude::*;

use crate::board::{
    Board, BOARD_SIZE, Cells, board_empty, board_full, cell, cell_index, empty_at,
    find_first_empty_cell, first_empty, lemma_first_empty, occupied,
};

verus! {

/// Some stone stands on one of the eight cells around column `x`, row `y`.
pub open spec fn near_stone(b: Cells, x: int, y: int) -> bool {
    ||| occupied(b, x - 1, y - 1)
    ||| occupied(b, x, y - 1)
    ||| occupied(b, x + 1, y - 1)
    ||| occupied(b, x - 1, y)
    ||| occupied(b, x + 1, y)
    ||| occupied(b, x - 1, y + 1)
    ||| occupied(b, x, y + 1)
    ||| occupied(b, x + 1, y + 1)
}

/// An empty cell next to a stone.
pub open spec fn candidate(b: Cells, x: int, y: int) -> bool {
    empty_at(b, x, y) && near_stone(b, x, y)
}

/// The candidates, as (column, row), in row-major order, that come before column `x` of row
/// `y`.
pub open spec fn candidates_before(b: Cells, y: int, x: int) -> Seq<(usize, usize)>
    decreases y, x,
{
    if x <= 0 {
        if y <= 0 {
            Seq::empty()
        } else {
            candidates_before(b, y - 1, 15)
        }
    } else {
        candidates_before(b, y, x - 1) + if candidate(b, x - 1, y) {
            seq![((x - 1) as usize, y as usize)]
        } else {
            Seq::empty()
        }
    }
}

/// Every candidate of the board, in row-major order.
pub open spec fn candidates(b: Cells) -> Seq<(usize, usize)> {
    candidates_before(b, 15, 0)
}

/// The row-major position of a move.
pub open spec fn move_key(m: (usize, usize)) -> int {
    cell_index(m.0 as int, m.1 as int)
}

/// The moves the search considers: the centre on an empty board; otherwise the candidates;
/// and if there are none, the first empty cell, if any.
pub open spec fn moves_spec(b: Cells) -> Seq<(usize, usize)> {
    if board_empty(b) {
        seq![(7usize, 7usize)]
    } else if candidates(b).len() > 0 {
        candidates(b)
    } else {
        match first_empty(b) {
            Some(m) => seq![m],
            None => Seq::empty(),
        }
    }
}

/// Whether the board holds no stone.
fn board_is_empty(board: &Board) -> (r: bool)
    requires
        board.wf(),
    ensures
        r == board_empty(board@),
{
    let mut y: usize = 0;
    while y < BOARD_SIZE
        invariant
            y <= 15,
            board.wf(),
            forall|i: int| 0 <= i < y * 15 ==> (#[trigger] board@[i]) is None,
        decreases 15 - y,
    {
        let mut x: usize = 0;
        while x < BOARD_SIZE
            invariant
                x <= 15,
                y < 15,
                board.wf(),
                forall|i: int| 0 <= i < y * 15 + x ==> (#[trigger] board@[i]) is None,
            decreases 15 - x,
        {
            if board.get(x, y).is_some() {
                return false;
            }
            x = x + 1;
        }
        y = y + 1;
    }
    true
}

/// Whether some stone stands at column `x`, row `y` (possibly off the board).
fn occupied_at(board: &Board, x: isize, y: isize) -> (r: bool)
    requires
        board.wf(),
    ensures
        r == occupied(board@, x as int, y as int),
{
    if x < 0 || y < 0 || x >= 15 || y >= 15 {
        return false;
    }
    board.get(x as usize, y as usize).is_some()
}

/// Whether column `x`, row `y` is empty and next to a stone.
fn is_candidate(board: &Board, x: usize, y: usize) -> (r: bool)
    requires
        board.wf(),
        x < 15,
        y < 15,
    ensures
        r == candidate(board@, x as int, y as int),
{
    if board.get(x, y).is_some() {
        return false;
    }
    let x = x as isize;
    let y = y as isize;
    occupied_at(board, x - 1, y - 1) || occupied_at(board, x, y - 1) || occupied_at(
        board,
        x + 1,
        y - 1,
    ) || occupied_at(board, x - 1, y) || occupied_at(board, x + 1, y) || occupied_at(
        board,
        x - 1,
        y + 1,
    ) || occupied_at(board, x, y + 1) || occupied_at(board, x + 1, y + 1)
}

/// The candidate moves of a position, as (column, row): the centre on an empty board; else
/// every empty cell within one step, in any of the eight directions, of a stone, in row-major
/// order; else the first empty cell, if there is one.
pub fn generate_moves(board: &Board) -> (moves: Vec<(usize, usize)>)
    requires
        board.wf(),
    ensures
        moves@ == moves_spec(board@),
{
    if board_is_empty(board) {
        let mut moves: Vec<(usize, usize)> = Vec::new();
        moves.push((BOARD_SIZE / 2, BOARD_SIZE / 2));
        return moves;
    }
    let mut moves: Vec<(usize, usize)> = Vec::new();
    let mut y: usize = 0;
    while y < BOARD_SIZE
        invariant
            y <= 15,
            board.wf(),
            moves@ == candidates_before(board@, y as int, 0),
        decreases 15 - y,
    {
        let mut x: usize = 0;
        while x < BOARD_SIZE
            invariant
                x <= 15,
                y < 15,
                board.wf(),
                moves@ == candidates_before(board@, y as int, x as int),
            decreases 15 - x,
        {
            if is_candidate(board, x, y) {
                moves.push((x, y));
            }
            x = x + 1;
        }
        assert(candidates_before(board@, y + 1, 0) == candidates_before(board@, y as int, 15));
        y = y + 1;
    }
    if moves.len() == 0 {
        if let Some(fallback) = find_first_empty_cell(board) {
            moves.push(fallback);
        }
    }
    moves
}

proof fn lemma_candidates_before(b: Cells, y: int, x: int)
    requires
        b.len() == 225,
        0 <= y <= 15,
        0 <= x <= 15,
    ensures
        forall|i: int|
            0 <= i < candidates_before(b, y, x).len() ==> {
                let m = #[trigger] candidates_before(b, y, x)[i];
                &&& candidate(b, m.0 as int, m.1 as int)
                &&& move_key(m) < cell_index(x, y)
            },
        forall|i: int, j: int|
            0 <= i < j < candidates_before(b, y, x).len() ==> move_key(
                #[trigger] candidates_before(b, y, x)[i],
            ) < move_key(#[trigger] candidates_before(b, y, x)[j]),
        forall|cx: int, cy: int|
            candidate(b, cx, cy) && cell_index(cx, cy) < cell_index(x, y) ==> #[trigger] candidates_before(
                b,
                y,
                x,
            ).contains((cx as usize, cy as usize)),
    decreases y, x,
{
    if x <= 0 {
        if y <= 0 {
        } else {
            lemma_candidates_before(b, y - 1, 15);
            assert(candidates_before(b, y, x) == candidates_before(b, y - 1, 15));
        }
    } else {
        lemma_candidates_before(b, y, x - 1);
        let prev = candidates_before(b, y, x - 1);
        let cur = candidates_before(b, y, x);
        if candidate(b, x - 1, y) {
            assert(cur == prev.push(((x - 1) as usize, y as usize)));
            assert forall|i: int| 0 <= i < cur.len() implies {
                let m = #[trigger] cur[i];
                &&& candidate(b, m.0 as int, m.1 as int)
                &&& move_key(m) < cell_index(x, y)
            } by {
                if i < prev.len() {
                    assert(cur[i] == prev[i]);
                }
            }
            assert forall|i: int, j: int| 0 <= i < j < cur.len() implies move_key(
                #[trigger] cur[i],
            ) < move_key(#[trigger] cur[j]) by {
                assert(cur[i] == prev[i]);
                if j < prev.len() {
                    assert(cur[j] == prev[j]);
                }
            }
            assert forall|cx: int, cy: int|
                candidate(b, cx, cy) && cell_index(cx, cy) < cell_index(
                    x,
                    y,
                ) implies #[trigger] cur.contains((cx as usize, cy as usize)) by {
                if cx == x - 1 && cy == y {
                    assert(cur[prev.len() as int] == (cx as usize, cy as usize));
                } else {
                    assert(cell_index(cx, cy) < cell_index(x - 1, y));
                    assert(prev.contains((cx as usize, cy as usize)));
                    let k = choose|k: int|
                        0 <= k < prev.len() && prev[k] == (cx as usize, cy as usize);
                    assert(cur[k] == prev[k]);
                }
            }
        } else {
            assert(cur == prev);
            assert forall|cx: int, cy: int|
                candidate(b, cx, cy) && cell_index(cx, cy) < cell_index(
                    x,
                    y,
                ) implies #[trigger] cur.contains((cx as usize, cy as usize)) by {
                assert(cell_index(cx, cy) < cell_index(x - 1, y));
                assert(prev.contains((cx as usize, cy as usize)));
            }
        }
    }
}

/// The candidates are exactly the empty cells next to a stone, each once, in row-major
/// order.
pub proof fn lemma_candidates(b: Cells)
    requires
        b.len() == 225,
    ensures
        forall|i: int|
            0 <= i < candidates(b).len() ==> candidate(
                b,
                (#[trigger] candidates(b)[i]).0 as int,
                candidates(b)[i].1 as int,
            ),
        forall|i: int, j: int|
            0 <= i < j < candidates(b).len() ==> move_key(#[trigger] candidates(b)[i]) < move_key(
                #[trigger] candidates(b)[j],
            ),
        forall|cx: int, cy: int|
            #[trigger] candidate(b, cx, cy) ==> candidates(b).contains((cx as usize, cy as usize)),
{
    lemma_candidates_before(b, 15, 0);
}

/// Every move of the search is an empty cell, no move comes twice, and there is a move
/// exactly when the board is not full.
pub proof fn lemma_moves(b: Cells)
    requires
        b.len() == 225,
    ensures
        forall|i: int|
            0 <= i < moves_spec(b).len() ==> empty_at(
                b,
                (#[trigger] moves_spec(b)[i]).0 as int,
                moves_spec(b)[i].1 as int,
            ),
        forall|i: int, j: int|
            0 <= i < j < moves_spec(b).len() ==> moves_spec(b)[i] != moves_spec(b)[j],
        moves_spec(b).len() == 0 <==> board_full(b),
{
    lemma_candidates(b);
    lemma_first_empty(b);
    if board_empty(b) {
        assert(cell(b, 7, 7) is None);
        assert(b[0] is None);
    } else if candidates(b).len() > 0 {
        assert forall|i: int, j: int| 0 <= i < j < moves_spec(b).len() implies moves_spec(b)[i]
            != moves_spec(b)[j] by {
            assert(move_key(candidates(b)[i]) < move_key(candidates(b)[j]));
        }
        let m = candidates(b)[0];
        assert(empty_at(b, m.0 as int, m.1 as int));
        assert(b[cell_index(m.0 as int, m.1 as int)] is None);
    }
}

} // verus!
