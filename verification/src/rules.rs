//! Five in a row: the win check around a placed stone and the scan of a whole board.
use vstd::prelude::*;

use crate::board::{Board, BOARD_SIZE, Cells, Player, cell, cell_index, on_board, put, stone_at};

verus! {

/// Five stones of `p` in a row, from column `sx`, row `sy` on, in direction (`dx`, `dy`).
pub open spec fn five_line(b: Cells, sx: int, sy: int, dx: int, dy: int, p: Player) -> bool {
    &&& stone_at(b, sx, sy, p)
    &&& stone_at(b, sx + dx, sy + dy, p)
    &&& stone_at(b, sx + 2 * dx, sy + 2 * dy, p)
    &&& stone_at(b, sx + 3 * dx, sy + 3 * dy, p)
    &&& stone_at(b, sx + 4 * dx, sy + 4 * dy, p)
}

/// A five of `p` starting at (`sx`, `sy`) in one of the four directions: along a row, along a
/// column, down-right or down-left.
pub open spec fn five_from(b: Cells, sx: int, sy: int, p: Player) -> bool {
    ||| five_line(b, sx, sy, 1, 0, p)
    ||| five_line(b, sx, sy, 0, 1, p)
    ||| five_line(b, sx, sy, 1, 1, p)
    ||| five_line(b, sx, sy, -1, 1, p)
}

/// The board holds five stones of `p` in a row somewhere.
pub open spec fn has_five(b: Cells, p: Player) -> bool {
    exists|sx: int, sy: int| #[trigger] five_from(b, sx, sy, p)
}

/// Some five of `p` in direction (`dx`, `dy`) covers column `x`, row `y`.
pub open spec fn five_through_dir(b: Cells, x: int, y: int, dx: int, dy: int, p: Player) -> bool {
    ||| five_line(b, x, y, dx, dy, p)
    ||| five_line(b, x - dx, y - dy, dx, dy, p)
    ||| five_line(b, x - 2 * dx, y - 2 * dy, dx, dy, p)
    ||| five_line(b, x - 3 * dx, y - 3 * dy, dx, dy, p)
    ||| five_line(b, x - 4 * dx, y - 4 * dy, dx, dy, p)
}

/// Some five of `p` covers column `x`, row `y`.
pub open spec fn five_through(b: Cells, x: int, y: int, p: Player) -> bool {
    ||| five_through_dir(b, x, y, 1, 0, p)
    ||| five_through_dir(b, x, y, 0, 1, p)
    ||| five_through_dir(b, x, y, 1, 1, p)
    ||| five_through_dir(b, x, y, -1, 1, p)
}

/// How many stones of `p` follow (`x`, `y`) in direction (`dx`, `dy`), looking at most `left`
/// steps ahead and stopping at the first cell that is off the board or not `p`'s.
pub open spec fn ray(b: Cells, x: int, y: int, dx: int, dy: int, p: Player, left: nat) -> nat
    decreases left,
{
    if left == 0 {
        0
    } else if stone_at(b, x + dx, y + dy, p) {
        1 + ray(b, x + dx, y + dy, dx, dy, p, (left - 1) as nat)
    } else {
        0
    }
}

/// The length of the run through (`x`, `y`) along (`dx`, `dy`): the cell itself and at most
/// four stones of `p` on each side.
pub open spec fn run_length(b: Cells, x: int, y: int, dx: int, dy: int, p: Player) -> nat {
    1 + ray(b, x, y, dx, dy, p, 4) + ray(b, x, y, -dx, -dy, p, 4)
}

/// The win check: some run through (`x`, `y`) reaches five.
pub open spec fn wins_through(b: Cells, x: int, y: int, p: Player) -> bool {
    ||| run_length(b, x, y, 0, 1, p) >= 5
    ||| run_length(b, x, y, 1, 0, p) >= 5
    ||| run_length(b, x, y, 1, 1, p) >= 5
    ||| run_length(b, x, y, 1, -1, p) >= 5
}

/// The owner of a five that starts at (`x`, `y`), if any.
pub open spec fn five_at(b: Cells, x: int, y: int) -> Option<Player> {
    match cell(b, x, y) {
        Some(p) => if five_from(b, x, y, p) {
            Some(p)
        } else {
            None
        },
        None => None,
    }
}

/// The owner of the first five found scanning from column `x` of row `y` on, in row-major
/// order of the five's first stone.
pub open spec fn winner_from(b: Cells, y: int, x: int) -> Option<Player>
    decreases 15 - y, 15 - x,
{
    if y >= 15 || y < 0 || x < 0 {
        None
    } else if x >= 15 {
        winner_from(b, y + 1, 0)
    } else {
        match five_at(b, x, y) {
            Some(p) => Some(p),
            None => winner_from(b, y, x + 1),
        }
    }
}

/// The owner of the first five of the board, scanned row by row.
pub open spec fn immediate_winner(b: Cells) -> Option<Player> {
    winner_from(b, 0, 0)
}

/// Counts the stones of `p` that follow (`x`, `y`) in direction (`dx`, `dy`), at most four.
fn count_ray(board: &Board, x: isize, y: isize, dx: isize, dy: isize, p: Player) -> (n: usize)
    requires
        board.wf(),
        0 <= x <= isize::MAX - 4,
        0 <= y <= isize::MAX - 4,
        -1 <= dx <= 1,
        -1 <= dy <= 1,
    ensures
        n == ray(board@, x as int, y as int, dx as int, dy as int, p, 4),
        n <= 4,
{
    let mut n: usize = 0;
    let mut cx = x;
    let mut cy = y;
    let mut left: usize = 4;
    while left > 0
        invariant
            board.wf(),
            0 <= x <= isize::MAX - 4,
            0 <= y <= isize::MAX - 4,
            left <= 4,
            n + left == 4,
            x - (4 - left) <= cx <= x + (4 - left),
            y - (4 - left) <= cy <= y + (4 - left),
            -1 <= dx <= 1,
            -1 <= dy <= 1,
            ray(board@, x as int, y as int, dx as int, dy as int, p, 4) == n + ray(
                board@,
                cx as int,
                cy as int,
                dx as int,
                dy as int,
                p,
                left as nat,
            ),
        decreases left,
    {
        let nx = cx + dx;
        let ny = cy + dy;
        if board.has_stone(nx, ny, p) {
            n = n + 1;
            cx = nx;
            cy = ny;
            left = left - 1;
        } else {
            return n;
        }
    }
    n
}

/// The length of the run through (`x`, `y`) along (`dx`, `dy`).
fn run_through(board: &Board, x: usize, y: usize, dx: isize, dy: isize, p: Player) -> (n: usize)
    requires
        board.wf(),
        x + 4 <= isize::MAX,
        y + 4 <= isize::MAX,
        -1 <= dx <= 1,
        -1 <= dy <= 1,
    ensures
        n == run_length(board@, x as int, y as int, dx as int, dy as int, p),
{
    let forward = count_ray(board, x as isize, y as isize, dx, dy, p);
    let backward = count_ray(board, x as isize, y as isize, -dx, -dy, p);
    1 + forward + backward
}

/// Whether the stone of `player` at column `x`, row `y` completes five in a row: along each of
/// the four directions it counts the stones of `player` on both sides, at most four each.
pub fn check_win(board: &Board, x: usize, y: usize, player: Player) -> (r: bool)
    requires
        board.wf(),
        x + 4 <= isize::MAX,
        y + 4 <= isize::MAX,
    ensures
        r == wins_through(board@, x as int, y as int, player),
{
    if run_through(board, x, y, 0, 1, player) >= 5 {
        return true;
    }
    if run_through(board, x, y, 1, 0, player) >= 5 {
        return true;
    }
    if run_through(board, x, y, 1, 1, player) >= 5 {
        return true;
    }
    if run_through(board, x, y, 1, -1, player) >= 5 {
        return true;
    }
    false
}

/// Whether five stones of `p` stand in a row from (`x`, `y`) on, in direction (`dx`, `dy`).
fn five_in_direction(board: &Board, x: usize, y: usize, dx: isize, dy: isize, p: Player) -> (r:
    bool)
    requires
        board.wf(),
        x < 15,
        y < 15,
        -1 <= dx <= 1,
        -1 <= dy <= 1,
    ensures
        r == five_line(board@, x as int, y as int, dx as int, dy as int, p),
{
    let x = x as isize;
    let y = y as isize;
    board.has_stone(x, y, p) && board.has_stone(x + dx, y + dy, p) && board.has_stone(
        x + 2 * dx,
        y + 2 * dy,
        p,
    ) && board.has_stone(x + 3 * dx, y + 3 * dy, p) && board.has_stone(x + 4 * dx, y + 4 * dy, p)
}

/// The owner of the first five on the board, scanning the cells row by row and looking from
/// each stone to the right, down, down-right and down-left.
pub fn check_immediate_win(board: &Board) -> (r: Option<Player>)
    requires
        board.wf(),
    ensures
        r == immediate_winner(board@),
{
    let mut r: usize = 0;
    while r < BOARD_SIZE
        invariant
            r <= 15,
            board.wf(),
            immediate_winner(board@) == winner_from(board@, r as int, 0),
        decreases 15 - r,
    {
        let mut c: usize = 0;
        while c < BOARD_SIZE
            invariant
                c <= 15,
                r < 15,
                board.wf(),
                immediate_winner(board@) == winner_from(board@, r as int, c as int),
            decreases 15 - c,
        {
            if let Some(player) = board.get(c, r) {
                if five_in_direction(board, c, r, 1, 0, player) {
                    return Some(player);
                }
                if five_in_direction(board, c, r, 0, 1, player) {
                    return Some(player);
                }
                if five_in_direction(board, c, r, 1, 1, player) {
                    return Some(player);
                }
                if five_in_direction(board, c, r, -1, 1, player) {
                    return Some(player);
                }
            }
            c = c + 1;
        }
        r = r + 1;
    }
    None
}

proof fn lemma_ray_dir(b: Cells, x: int, y: int, dx: int, dy: int, p: Player)
    ensures
        ray(b, x, y, dx, dy, p, 4) == (if !stone_at(b, x + dx, y + dy, p) {
            0nat
        } else if !stone_at(b, x + 2 * dx, y + 2 * dy, p) {
            1nat
        } else if !stone_at(b, x + 3 * dx, y + 3 * dy, p) {
            2nat
        } else if !stone_at(b, x + 4 * dx, y + 4 * dy, p) {
            3nat
        } else {
            4nat
        }),
{
    reveal_with_fuel(ray, 5);
}

proof fn lemma_run_dir(b: Cells, x: int, y: int, dx: int, dy: int, p: Player)
    requires
        stone_at(b, x, y, p),
    ensures
        run_length(b, x, y, dx, dy, p) >= 5 <==> five_through_dir(b, x, y, dx, dy, p),
{
    lemma_ray_dir(b, x, y, dx, dy, p);
    lemma_ray_dir(b, x, y, -dx, -dy, p);
}

/// The win check is exact: for the stone of `p` at (`x`, `y`), it reports a win if and only
/// if some five of `p` in a row covers that stone.
pub proof fn lemma_win_check_exact(b: Cells, x: int, y: int, p: Player)
    requires
        b.len() == 225,
        stone_at(b, x, y, p),
    ensures
        wins_through(b, x, y, p) <==> five_through(b, x, y, p),
{
    lemma_run_dir(b, x, y, 0, 1, p);
    lemma_run_dir(b, x, y, 1, 0, p);
    lemma_run_dir(b, x, y, 1, 1, p);
    lemma_run_dir(b, x, y, 1, -1, p);
    // A five down-left from the top is a five up-right from the bottom.
    if five_through_dir(b, x, y, 1, -1, p) {
        if five_line(b, x, y, 1, -1, p) {
            assert(five_line(b, x + 4, y - 4, -1, 1, p));
        } else if five_line(b, x - 1, y + 1, 1, -1, p) {
            assert(five_line(b, x + 3, y - 3, -1, 1, p));
        } else if five_line(b, x - 2, y + 2, 1, -1, p) {
            assert(five_line(b, x + 2, y - 2, -1, 1, p));
        } else if five_line(b, x - 3, y + 3, 1, -1, p) {
            assert(five_line(b, x + 1, y - 1, -1, 1, p));
        } else {
            assert(five_line(b, x, y, -1, 1, p));
        }
    }
    if five_through_dir(b, x, y, -1, 1, p) {
        if five_line(b, x, y, -1, 1, p) {
            assert(five_line(b, x - 4, y + 4, 1, -1, p));
        } else if five_line(b, x + 1, y - 1, -1, 1, p) {
            assert(five_line(b, x - 3, y + 3, 1, -1, p));
        } else if five_line(b, x + 2, y - 2, -1, 1, p) {
            assert(five_line(b, x - 2, y + 2, 1, -1, p));
        } else if five_line(b, x + 3, y - 3, -1, 1, p) {
            assert(five_line(b, x - 1, y + 1, 1, -1, p));
        } else {
            assert(five_line(b, x, y, 1, -1, p));
        }
    }
}

proof fn lemma_dir_has_five(b: Cells, x: int, y: int, dx: int, dy: int, p: Player)
    requires
        (dx == 1 && dy == 0) || (dx == 0 && dy == 1) || (dx == 1 && dy == 1) || (dx == -1 && dy
            == 1),
        five_through_dir(b, x, y, dx, dy, p),
    ensures
        has_five(b, p),
{
    if five_line(b, x, y, dx, dy, p) {
        assert(five_from(b, x, y, p));
    } else if five_line(b, x - dx, y - dy, dx, dy, p) {
        assert(five_from(b, x - dx, y - dy, p));
    } else if five_line(b, x - 2 * dx, y - 2 * dy, dx, dy, p) {
        assert(five_from(b, x - 2 * dx, y - 2 * dy, p));
    } else if five_line(b, x - 3 * dx, y - 3 * dy, dx, dy, p) {
        assert(five_from(b, x - 3 * dx, y - 3 * dy, p));
    } else {
        assert(five_from(b, x - 4 * dx, y - 4 * dy, p));
    }
}

/// A five through a stone is a five on the board.
pub proof fn lemma_five_through_has_five(b: Cells, x: int, y: int, p: Player)
    requires
        five_through(b, x, y, p),
    ensures
        has_five(b, p),
{
    if five_through_dir(b, x, y, 1, 0, p) {
        lemma_dir_has_five(b, x, y, 1, 0, p);
    } else if five_through_dir(b, x, y, 0, 1, p) {
        lemma_dir_has_five(b, x, y, 0, 1, p);
    } else if five_through_dir(b, x, y, 1, 1, p) {
        lemma_dir_has_five(b, x, y, 1, 1, p);
    } else {
        lemma_dir_has_five(b, x, y, -1, 1, p);
    }
}

/// A stone whose win check succeeds leaves a five of its owner on the board.
pub proof fn lemma_win_check_has_five(b: Cells, x: int, y: int, p: Player)
    requires
        b.len() == 225,
        stone_at(b, x, y, p),
        wins_through(b, x, y, p),
    ensures
        has_five(b, p),
{
    lemma_win_check_exact(b, x, y, p);
    lemma_five_through_has_five(b, x, y, p);
}

proof fn lemma_winner_from(b: Cells, y: int, x: int)
    requires
        b.len() == 225,
        0 <= y <= 15,
        0 <= x <= 15,
    ensures
        winner_from(b, y, x) matches Some(p) ==> has_five(b, p),
        winner_from(b, y, x) is None ==> forall|sx: int, sy: int, p: Player|
            on_board(sx, sy) && cell_index(x, y) <= cell_index(sx, sy) ==> !#[trigger] five_from(
                b,
                sx,
                sy,
                p,
            ),
    decreases 15 - y, 15 - x,
{
    if y >= 15 {
    } else if x >= 15 {
        lemma_winner_from(b, y + 1, 0);
    } else {
        match five_at(b, x, y) {
            Some(p) => {
                assert(five_from(b, x, y, p));
            },
            None => {
                lemma_winner_from(b, y, x + 1);
                if winner_from(b, y, x + 1) is None {
                    assert forall|sx: int, sy: int, p: Player|
                        on_board(sx, sy) && cell_index(x, y) <= cell_index(
                            sx,
                            sy,
                        ) implies !#[trigger] five_from(b, sx, sy, p) by {
                        if sx == x && sy == y {
                            if five_from(b, sx, sy, p) {
                                assert(stone_at(b, x, y, p));
                                assert(five_at(b, x, y) == Some(p));
                            }
                        } else {
                            assert(cell_index(x + 1, y) <= cell_index(sx, sy));
                        }
                    }
                }
            },
        }
    }
}

/// The board scan reports a player only if that player has a five, and reports nobody only
/// if neither player has one.
pub proof fn lemma_immediate_winner(b: Cells)
    requires
        b.len() == 225,
    ensures
        immediate_winner(b) matches Some(p) ==> has_five(b, p),
        immediate_winner(b) is None <==> (!has_five(b, Player::Black) && !has_five(
            b,
            Player::White,
        )),
{
    lemma_winner_from(b, 0, 0);
    if immediate_winner(b) is None {
        assert forall|p: Player| !has_five(b, p) by {
            assert forall|sx: int, sy: int| !#[trigger] five_from(b, sx, sy, p) by {
                if on_board(sx, sy) {
                    assert(cell_index(0, 0) <= cell_index(sx, sy));
                }
            }
        }
    }
}

proof fn lemma_put_other(b: Cells, x: int, y: int, v: Option<Player>, cx: int, cy: int, q: Player)
    requires
        b.len() == 225,
        on_board(x, y),
        !(cx == x && cy == y),
    ensures
        stone_at(put(b, x, y, v), cx, cy, q) == stone_at(b, cx, cy, q),
{
    if on_board(cx, cy) {
        assert(cell_index(cx, cy) != cell_index(x, y));
    }
}

proof fn lemma_new_line(
    b: Cells,
    x: int,
    y: int,
    p: Player,
    q: Player,
    sx: int,
    sy: int,
    dx: int,
    dy: int,
)
    requires
        b.len() == 225,
        on_board(x, y),
        five_line(put(b, x, y, Some(p)), sx, sy, dx, dy, q),
        !five_line(b, sx, sy, dx, dy, q),
    ensures
        q == p,
        five_through_dir(put(b, x, y, Some(p)), x, y, dx, dy, p),
{
    let b2 = put(b, x, y, Some(p));
    if !(sx == x && sy == y) {
        lemma_put_other(b, x, y, Some(p), sx, sy, q);
    }
    if !(sx + dx == x && sy + dy == y) {
        lemma_put_other(b, x, y, Some(p), sx + dx, sy + dy, q);
    }
    if !(sx + 2 * dx == x && sy + 2 * dy == y) {
        lemma_put_other(b, x, y, Some(p), sx + 2 * dx, sy + 2 * dy, q);
    }
    if !(sx + 3 * dx == x && sy + 3 * dy == y) {
        lemma_put_other(b, x, y, Some(p), sx + 3 * dx, sy + 3 * dy, q);
    }
    if !(sx + 4 * dx == x && sy + 4 * dy == y) {
        lemma_put_other(b, x, y, Some(p), sx + 4 * dx, sy + 4 * dy, q);
    }
    assert(cell(b2, x, y) == Some(p));
}

/// A stone put on an empty cell makes a new five only through itself: if the board had no
/// five of `q` and has one after `p` plays at (`x`, `y`), then `q` is `p` and the five covers
/// that cell.
pub proof fn lemma_new_five(b: Cells, x: int, y: int, p: Player, q: Player)
    requires
        b.len() == 225,
        on_board(x, y),
        !has_five(b, q),
        has_five(put(b, x, y, Some(p)), q),
    ensures
        q == p,
        five_through(put(b, x, y, Some(p)), x, y, p),
{
    let b2 = put(b, x, y, Some(p));
    let (sx, sy) = choose|sx: int, sy: int| #[trigger] five_from(b2, sx, sy, q);
    assert(!five_from(b, sx, sy, q));
    if five_line(b2, sx, sy, 1, 0, q) {
        lemma_new_line(b, x, y, p, q, sx, sy, 1, 0);
    } else if five_line(b2, sx, sy, 0, 1, q) {
        lemma_new_line(b, x, y, p, q, sx, sy, 0, 1);
    } else if five_line(b2, sx, sy, 1, 1, q) {
        lemma_new_line(b, x, y, p, q, sx, sy, 1, 1);
    } else {
        lemma_new_line(b, x, y, p, q, sx, sy, -1, 1);
    }
}

/// Taking a stone off the board makes no new five.
pub proof fn lemma_cleared_five(b: Cells, x: int, y: int, q: Player)
    requires
        b.len() == 225,
        on_board(x, y),
        has_five(put(b, x, y, None), q),
    ensures
        has_five(b, q),
{
    let b2 = put(b, x, y, None);
    let (sx, sy) = choose|sx: int, sy: int| #[trigger] five_from(b2, sx, sy, q);
    assert forall|cx: int, cy: int| #[trigger] stone_at(b2, cx, cy, q) implies stone_at(b, cx, cy, q) by {
        if !(cx == x && cy == y) {
            lemma_put_other(b, x, y, None, cx, cy, q);
        }
    }
    assert(five_from(b, sx, sy, q));
}

} // verus!
