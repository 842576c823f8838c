//! The heuristic value of a position for the computer player: the shapes on every line of
//! at least six cells, and the double threats where those lines cross.
use vstd::prelude::*;

use crate::board::{Board, Cells, Player, cell, cell_index, on_board};
use crate::patterns::{
    SCORE_DOUBLE_DEAD_FOUR, SCORE_DOUBLE_LIVE_THREE, SCORE_FIVE, SCORE_FOUR_THREE,
    SCORE_LIVE_FOUR, Threat, ThreatType, match_patterns, match_spec, window_codes,
};

verus! {

/// The six cells of `line` from position `i` on.
pub open spec fn window_at(line: Seq<Option<Player>>, i: int) -> Seq<Option<Player>> {
    line.subrange(i, i + 6)
}

/// The scores of `ai` and of its opponent and the threats after the windows before position
/// `k` of `line` have been looked at, each first for `ai`, then for the opponent.
pub open spec fn line_upto(line: Seq<Option<Player>>, ai: Player, k: int) -> (int, int, Seq<
    Threat,
>)
    decreases k,
{
    if k <= 0 {
        (0, 0, Seq::empty())
    } else {
        let (a, o, th) = line_upto(line, ai, k - 1);
        let w = window_at(line, k - 1);
        let (a2, th2) = match_spec(window_codes(w, ai), ai, (k - 1) as usize, a, th);
        let (o2, th3) = match_spec(
            window_codes(w, ai.spec_opponent()),
            ai.spec_opponent(),
            (k - 1) as usize,
            o,
            th2,
        );
        (a2, o2, th3)
    }
}

/// The evaluation of one line of at least six cells: every window of six cells, from the
/// start of the line on.
pub open spec fn line_eval(line: Seq<Option<Player>>, ai: Player) -> (int, int, Seq<Threat>) {
    line_upto(line, ai, line.len() - 5)
}

/// The most a line's score can reach after `k` windows.
pub open spec fn line_score_bound(k: int) -> int {
    SCORE_FIVE + SCORE_LIVE_FOUR * k
}

proof fn lemma_add_threats_len(
    th: Seq<Threat>,
    idxs: Seq<usize>,
    t: ThreatType,
    who: Player,
    blocker: Option<ThreatType>,
)
    ensures
        crate::patterns::add_threats(th, idxs, t, who, blocker).len() <= th.len() + idxs.len(),
    decreases idxs.len(),
{
    if idxs.len() > 0 {
        lemma_add_threats_len(th, idxs.drop_last(), t, who, blocker);
    }
}

/// Looking at one window keeps a score that was between 0 and the bound below the bound
/// for one more window, never lowers it, and records at most ten threats.
proof fn lemma_match_bounds(w: Seq<u8>, who: Player, s: usize, score: int, th: Seq<Threat>)
    requires
        0 <= score,
    ensures
        score <= match_spec(w, who, s, score, th).0,
        match_spec(w, who, s, score, th).0 <= (if score >= SCORE_FIVE {
            score
        } else {
            SCORE_FIVE as int
        }) + SCORE_LIVE_FOUR,
        match_spec(w, who, s, score, th).1.len() <= th.len() + 10,
{
    let d4 = crate::patterns::dead_four_cells(w, s);
    lemma_add_threats_len(th, d4, ThreatType::DeadFour, who, None);
    let th1 = if d4.len() > 0 {
        crate::patterns::add_threats(th, d4, ThreatType::DeadFour, who, None)
    } else {
        th
    };
    let l3 = crate::patterns::live_three(w, s);
    if let Some((_, idxs)) = l3 {
        lemma_add_threats_len(th1, idxs, ThreatType::LiveThree, who, None);
    }
    let th2 = match l3 {
        Some((_, idxs)) => crate::patterns::add_threats(
            th1,
            idxs,
            ThreatType::LiveThree,
            who,
            None,
        ),
        None => th1,
    };
    let s3 = crate::patterns::sleepy_three(w, s);
    if let Some(idxs) = s3 {
        lemma_add_threats_len(
            th2,
            idxs,
            ThreatType::SleepyThree,
            who,
            Some(ThreatType::LiveThree),
        );
    }
    let th3 = match (s3, l3) {
        (Some(idxs), None) => crate::patterns::add_threats(
            th2,
            idxs,
            ThreatType::SleepyThree,
            who,
            Some(ThreatType::LiveThree),
        ),
        _ => th2,
    };
    if let Some(idxs) = crate::patterns::live_two(w, s) {
        lemma_add_threats_len(th3, idxs, ThreatType::LiveTwo, who, None);
    }
    if let Some(idxs) = crate::patterns::sleepy_two(w, s) {
        lemma_add_threats_len(th3, idxs, ThreatType::SleepyTwo, who, Some(ThreatType::LiveTwo));
    }
}

/// After `k` windows both scores of a line lie between 0 and `line_score_bound(k)`, and at
/// most twenty threats per window have been recorded.
pub proof fn lemma_line_upto_bounds(line: Seq<Option<Player>>, ai: Player, k: int)
    requires
        0 <= k,
    ensures
        0 <= line_upto(line, ai, k).0 <= line_score_bound(k),
        0 <= line_upto(line, ai, k).1 <= line_score_bound(k),
        line_upto(line, ai, k).2.len() <= 20 * k,
    decreases k,
{
    if k > 0 {
        lemma_line_upto_bounds(line, ai, k - 1);
        let (a, o, th) = line_upto(line, ai, k - 1);
        let w = window_at(line, k - 1);
        lemma_match_bounds(window_codes(w, ai), ai, (k - 1) as usize, a, th);
        let (a2, th2) = match_spec(window_codes(w, ai), ai, (k - 1) as usize, a, th);
        lemma_match_bounds(
            window_codes(w, ai.spec_opponent()),
            ai.spec_opponent(),
            (k - 1) as usize,
            o,
            th2,
        );
    }
}

/// Evaluates one line of six to fifteen cells: every window of six cells, first for `ai`,
/// then for `opp`. Returns both scores and the threats found, by position in the line.
pub fn evaluate_line_detailed(line: &[Option<Player>], ai: Player, opp: Player) -> (r: (
    i32,
    i32,
    Vec<Threat>,
))
    requires
        6 <= line@.len() <= 268_000,
        opp == ai.spec_opponent(),
    ensures
        (r.0 as int, r.1 as int, r.2@) == line_eval(line@, ai),
{
    let mut ai_score: i32 = 0;
    let mut opp_score: i32 = 0;
    let mut threats: Vec<Threat> = Vec::new();
    let n = line.len();
    let window_size: usize = 6;
    let mut i: usize = 0;
    while i <= n - window_size
        invariant
            6 <= n <= 268_000,
            n == line@.len(),
            window_size == 6,
            i <= n - 5,
            opp == ai.spec_opponent(),
            (ai_score as int, opp_score as int, threats@) == line_upto(line@, ai, i as int),
        decreases n - 5 - i,
    {
        proof {
            lemma_line_upto_bounds(line@, ai, i as int + 1);
        }
        let window = &line[i..(i + window_size)];
        assert(window@ == window_at(line@, i as int));
        match_patterns(window, ai, opp, i, &mut ai_score, &mut threats);
        match_patterns(window, opp, ai, i, &mut opp_score, &mut threats);
        i = i + 1;
    }
    (ai_score, opp_score, threats)
}


/// Number of lines of at least six cells: 15 rows, 15 columns, 19 diagonals going down to
/// the right and 19 going down to the left.
pub const NUM_LINES: usize = 68;

/// Number of counters: for each cell, each kind of threat and each side.
pub const NUM_SLOTS: usize = 2700;

/// The first row of line `l`, for a diagonal one.
pub open spec fn line_start(l: int) -> int {
    if l < 30 {
        0
    } else if l < 49 {
        if l - 39 < 0 {
            39 - l
        } else {
            0
        }
    } else {
        if l - 44 > 14 {
            l - 58
        } else {
            0
        }
    }
}

/// The number of cells of line `l`. Lines 0 to 14 are the rows, 15 to 29 the columns, 30 to
/// 48 the diagonals going down to the right (column minus row from -9 to 9), 49 to 67 those
/// going down to the left (column plus row from 5 to 23).
pub open spec fn line_len(l: int) -> int {
    if l < 30 {
        15
    } else if l < 49 {
        if l - 39 < 0 {
            15 + (l - 39)
        } else {
            15 - (l - 39)
        }
    } else {
        if l - 44 <= 14 {
            l - 43
        } else {
            29 - (l - 44)
        }
    }
}

/// The column of the `i`-th cell of line `l`.
pub open spec fn line_x(l: int, i: int) -> int {
    if l < 15 {
        i
    } else if l < 30 {
        l - 15
    } else if l < 49 {
        line_start(l) + i + (l - 39)
    } else {
        (l - 44) - (line_start(l) + i)
    }
}

/// The row of the `i`-th cell of line `l`.
pub open spec fn line_y(l: int, i: int) -> int {
    if l < 15 {
        l
    } else if l < 30 {
        i
    } else {
        line_start(l) + i
    }
}

/// The cells of line `l`.
pub open spec fn line_cells(b: Cells, l: int) -> Seq<Option<Player>> {
    Seq::new(line_len(l) as nat, |i: int| cell(b, line_x(l, i), line_y(l, i)))
}

/// The (column, row) of each cell of line `l`.
pub open spec fn line_coords(l: int) -> Seq<(usize, usize)> {
    Seq::new(line_len(l) as nat, |i: int| (line_x(l, i) as usize, line_y(l, i) as usize))
}

/// Every line has six to fifteen cells, all on the board.
pub proof fn lemma_line_geometry(l: int)
    requires
        0 <= l < 68,
    ensures
        6 <= line_len(l) <= 15,
        forall|i: int| 0 <= i < line_len(l) ==> on_board(line_x(l, i), line_y(l, i)),
{
}

/// The coordinates of a line name the cells the line reads: for each position `i` of line
/// `l`, the cell at `line_coords(l)[i]` on any board is the `i`-th cell of the line, and it is
/// on the board. Consecutive positions are neighbouring cells in the line's direction: rows
/// (lines 0 to 14) go right along row `l`, columns (15 to 29) go down column `l - 15`, lines
/// 30 to 48 go down to the right with column minus row `l - 39`, and lines 49 to 67 go down
/// to the left with column plus row `l - 44`.
pub proof fn lemma_line_coords_name_cells(b: Cells, l: int)
    requires
        0 <= l < 68,
        b.len() == 225,
    ensures
        line_coords(l).len() == line_cells(b, l).len(),
        forall|i: int|
            #![trigger line_coords(l)[i]]
            0 <= i < line_len(l) ==> {
                let (x, y) = line_coords(l)[i];
                &&& on_board(x as int, y as int)
                &&& cell(b, x as int, y as int) == line_cells(b, l)[i]
                &&& l < 15 ==> y == l
                &&& 15 <= l < 30 ==> x == l - 15
                &&& 30 <= l < 49 ==> x - y == l - 39
                &&& 49 <= l ==> x + y == l - 44
            },
        forall|i: int|
            #![trigger line_coords(l)[i]]
            0 <= i && i + 1 < line_len(l) ==> {
                let (x, y) = line_coords(l)[i];
                let (x2, y2) = line_coords(l)[i + 1];
                &&& l < 15 ==> x2 == x + 1 && y2 == y
                &&& 15 <= l < 30 ==> x2 == x && y2 == y + 1
                &&& 30 <= l < 49 ==> x2 == x + 1 && y2 == y + 1
                &&& 49 <= l ==> x2 == x - 1 && y2 == y + 1
            },
{
    lemma_line_geometry(l);
}

/// 0 for the side of `ai`, 1 for the other.
pub open spec fn side_of(p: Player, ai: Player) -> int {
    if p == ai {
        0
    } else {
        1
    }
}

pub open spec fn kind_index(t: ThreatType) -> int {
    match t {
        ThreatType::LiveFour => 0,
        ThreatType::DeadFour => 1,
        ThreatType::LiveThree => 2,
        ThreatType::SleepyThree => 3,
        ThreatType::LiveTwo => 4,
        ThreatType::SleepyTwo => 5,
    }
}

/// The counter of threats of kind `t` by side `side` at the cell with row-major index `c`.
pub open spec fn slot(c: int, t: ThreatType, side: int) -> int {
    c * 12 + kind_index(t) * 2 + side
}

/// The counter that a threat of a line with cells at `coords` counts in; -1 for a position
/// past the end of the line.
pub open spec fn entry_slot(e: Threat, coords: Seq<(usize, usize)>, ai: Player) -> int {
    if e.0 < coords.len() {
        slot(
            cell_index(coords[e.0 as int].0 as int, coords[e.0 as int].1 as int),
            e.1,
            side_of(e.2, ai),
        )
    } else {
        -1
    }
}

/// How many of the threats `th` count in counter `k`.
pub open spec fn count_slot(th: Seq<Threat>, coords: Seq<(usize, usize)>, k: int, ai: Player) -> nat
    decreases th.len(),
{
    if th.len() == 0 {
        0
    } else {
        count_slot(th.drop_last(), coords, k, ai) + if entry_slot(th.last(), coords, ai) == k {
            1nat
        } else {
            0nat
        }
    }
}

/// The threats that line `l` records, by position in the line.
pub open spec fn line_threats(b: Cells, ai: Player, l: int) -> Seq<Threat> {
    line_eval(line_cells(b, l), ai).2
}

/// Counter `k` summed over the lines before line `n`.
pub open spec fn total_slot(b: Cells, ai: Player, n: int, k: int) -> nat
    decreases n,
{
    if n <= 0 {
        0
    } else {
        total_slot(b, ai, n - 1, k) + count_slot(line_threats(b, ai, n - 1), line_coords(n - 1), k, ai)
    }
}

/// The line scores of `ai` and of the opponent summed over the lines before line `n`.
pub open spec fn base_upto(b: Cells, ai: Player, n: int) -> (int, int)
    decreases n,
{
    if n <= 0 {
        (0, 0)
    } else {
        let (a, o) = base_upto(b, ai, n - 1);
        let (la, lo, _) = line_eval(line_cells(b, n - 1), ai);
        (a + la, o + lo)
    }
}

/// What crossing threats on one cell are worth: a live four, or a dead four with a live
/// three; else two live threes; else two dead fours.
pub open spec fn compound_value(l4: int, d4: int, l3: int) -> int {
    if l4 > 0 || (d4 > 0 && l3 > 0) {
        SCORE_FOUR_THREE as int
    } else if l3 >= 2 {
        SCORE_DOUBLE_LIVE_THREE as int
    } else if d4 >= 2 {
        SCORE_DOUBLE_DEAD_FOUR as int
    } else {
        0
    }
}

/// What the crossing threats of side `side` are worth on cell `c`, over all the lines.
pub open spec fn compound_at(b: Cells, ai: Player, c: int, side: int) -> int {
    compound_value(
        total_slot(b, ai, 68, slot(c, ThreatType::LiveFour, side)) as int,
        total_slot(b, ai, 68, slot(c, ThreatType::DeadFour, side)) as int,
        total_slot(b, ai, 68, slot(c, ThreatType::LiveThree, side)) as int,
    )
}

/// The best crossing threat of side `side` over the cells before index `n` (0 if none).
pub open spec fn compound_upto(b: Cells, ai: Player, side: int, n: int) -> int
    decreases n,
{
    if n <= 0 {
        0
    } else {
        let prev = compound_upto(b, ai, side, n - 1);
        let here = compound_at(b, ai, n - 1, side);
        if here > prev {
            here
        } else {
            prev
        }
    }
}

/// What crossing threats on one cell are worth, by the counts of live fours `l4`, dead fours
/// `d4` and live threes `l3` there: a live four, or a dead four together with a live three,
/// is worth `SCORE_FOUR_THREE`; two live threes at least `SCORE_DOUBLE_LIVE_THREE`; two dead
/// fours at least `SCORE_DOUBLE_DEAD_FOUR`; a single threat of one kind nothing. More threats
/// are never worth less.
pub proof fn lemma_compound_value_rules(l4: int, d4: int, l3: int)
    requires
        0 <= l4,
        0 <= d4,
        0 <= l3,
    ensures
        0 <= compound_value(l4, d4, l3) <= SCORE_FOUR_THREE,
        l4 >= 1 ==> compound_value(l4, d4, l3) == SCORE_FOUR_THREE,
        d4 >= 1 && l3 >= 1 ==> compound_value(l4, d4, l3) == SCORE_FOUR_THREE,
        l3 >= 2 ==> compound_value(l4, d4, l3) >= SCORE_DOUBLE_LIVE_THREE,
        d4 >= 2 ==> compound_value(l4, d4, l3) >= SCORE_DOUBLE_DEAD_FOUR,
        l4 == 0 && l3 == 0 && d4 >= 2 ==> compound_value(l4, d4, l3) == SCORE_DOUBLE_DEAD_FOUR,
        l4 == 0 && d4 == 0 && l3 >= 2 ==> compound_value(l4, d4, l3) == SCORE_DOUBLE_LIVE_THREE,
        l4 == 0 && d4 <= 1 && l3 <= 1 && (d4 == 0 || l3 == 0) ==> compound_value(l4, d4, l3) == 0,
        forall|m4: int, n4: int, m3: int|
            l4 <= m4 && d4 <= n4 && l3 <= m3 ==> compound_value(l4, d4, l3) <= #[trigger] compound_value(
                m4,
                n4,
                m3,
            ),
{
}

/// The best crossing threat of a side over the first `n` cells is worth at least what the
/// crossing threats on each of those cells are worth, and is either 0 or the worth of one of
/// them.
pub proof fn lemma_compound_upto_best(b: Cells, ai: Player, side: int, n: int)
    requires
        0 <= n,
    ensures
        forall|c: int| 0 <= c < n ==> #[trigger] compound_at(b, ai, c, side) <= compound_upto(b, ai, side, n),
        compound_upto(b, ai, side, n) == 0 || exists|c: int|
            0 <= c < n && #[trigger] compound_at(b, ai, c, side) == compound_upto(b, ai, side, n),
    decreases n,
{
    if n > 0 {
        lemma_compound_upto_best(b, ai, side, n - 1);
    }
}

/// Two dead fours of one side gathered on a cell of the board, over all the lines, make that
/// side's best crossing threat worth at least `SCORE_DOUBLE_DEAD_FOUR`; two live threes at
/// least `SCORE_DOUBLE_LIVE_THREE`; a live four, or a dead four with a live three,
/// `SCORE_FOUR_THREE`.
pub proof fn lemma_crossing_threats_count(b: Cells, ai: Player, side: int, c: int)
    requires
        0 <= c < 225,
    ensures
        total_slot(b, ai, 68, slot(c, ThreatType::DeadFour, side)) >= 2 ==> compound_upto(
            b,
            ai,
            side,
            225,
        ) >= SCORE_DOUBLE_DEAD_FOUR,
        total_slot(b, ai, 68, slot(c, ThreatType::LiveThree, side)) >= 2 ==> compound_upto(
            b,
            ai,
            side,
            225,
        ) >= SCORE_DOUBLE_LIVE_THREE,
        total_slot(b, ai, 68, slot(c, ThreatType::LiveFour, side)) >= 1 || (total_slot(
            b,
            ai,
            68,
            slot(c, ThreatType::DeadFour, side),
        ) >= 1 && total_slot(b, ai, 68, slot(c, ThreatType::LiveThree, side)) >= 1)
            ==> compound_upto(b, ai, side, 225) == SCORE_FOUR_THREE,
{
    lemma_compound_upto_best(b, ai, side, 225);
    lemma_compound_bounds(b, ai, side, 225);
    assert(compound_at(b, ai, c, side) <= compound_upto(b, ai, side, 225));
    lemma_compound_value_rules(
        total_slot(b, ai, 68, slot(c, ThreatType::LiveFour, side)) as int,
        total_slot(b, ai, 68, slot(c, ThreatType::DeadFour, side)) as int,
        total_slot(b, ai, 68, slot(c, ThreatType::LiveThree, side)) as int,
    );
}

/// The value of the board for `ai`: its line scores and best crossing threat, minus those
/// of the opponent.
pub open spec fn eval_spec(b: Cells, ai: Player) -> int {
    let (a, o) = base_upto(b, ai, 68);
    (a + compound_upto(b, ai, 0, 225)) - (o + compound_upto(b, ai, 1, 225))
}

/// The most a line's score can be.
pub open spec fn line_max() -> int {
    180_000
}

/// The largest value the evaluation can take, in size.
pub open spec fn eval_bound() -> int {
    68 * line_max() + SCORE_FOUR_THREE
}

proof fn lemma_line_eval_bounds(b: Cells, ai: Player, l: int)
    requires
        0 <= l < 68,
    ensures
        0 <= line_eval(line_cells(b, l), ai).0 <= line_max(),
        0 <= line_eval(line_cells(b, l), ai).1 <= line_max(),
        line_eval(line_cells(b, l), ai).2.len() <= 200,
{
    lemma_line_geometry(l);
    let line = line_cells(b, l);
    lemma_line_upto_bounds(line, ai, line.len() - 5);
    assert(line_score_bound(line.len() - 5) <= line_max());
}

proof fn lemma_base_bounds(b: Cells, ai: Player, n: int)
    requires
        0 <= n <= 68,
    ensures
        0 <= base_upto(b, ai, n).0 <= n * line_max(),
        0 <= base_upto(b, ai, n).1 <= n * line_max(),
    decreases n,
{
    if n > 0 {
        lemma_base_bounds(b, ai, n - 1);
        lemma_line_eval_bounds(b, ai, n - 1);
    }
}

proof fn lemma_compound_bounds(b: Cells, ai: Player, side: int, n: int)
    ensures
        0 <= compound_upto(b, ai, side, n) <= SCORE_FOUR_THREE,
    decreases n,
{
    if n > 0 {
        lemma_compound_bounds(b, ai, side, n - 1);
    }
}

/// The evaluation never exceeds `eval_bound()` in size.
pub proof fn lemma_eval_bounds(b: Cells, ai: Player)
    ensures
        -eval_bound() <= eval_spec(b, ai) <= eval_bound(),
{
    lemma_base_bounds(b, ai, 68);
    lemma_compound_bounds(b, ai, 0, 225);
    lemma_compound_bounds(b, ai, 1, 225);
}

/// The number of cells of line `l` and the row of its first cell.
fn line_shape(l: usize) -> (r: (usize, usize))
    requires
        l < 68,
    ensures
        r.0 == line_len(l as int),
        r.1 == line_start(l as int),
{
    if l < 30 {
        (15, 0)
    } else if l < 39 {
        (l - 24, 39 - l)
    } else if l < 49 {
        (54 - l, 0)
    } else if l <= 58 {
        (l - 43, 0)
    } else {
        (73 - l, l - 58)
    }
}

/// The cells of line `l` and their (column, row) coordinates.
fn build_line(board: &Board, l: usize) -> (r: (Vec<Option<Player>>, Vec<(usize, usize)>))
    requires
        board.wf(),
        l < 68,
    ensures
        r.0@ == line_cells(board@, l as int),
        r.1@ == line_coords(l as int),
{
    proof {
        lemma_line_geometry(l as int);
    }
    let (len, start) = line_shape(l);
    let mut line: Vec<Option<Player>> = Vec::new();
    let mut coords: Vec<(usize, usize)> = Vec::new();
    let mut i: usize = 0;
    while i < len
        invariant
            board.wf(),
            l < 68,
            len == line_len(l as int),
            start == line_start(l as int),
            6 <= len <= 15,
            i <= len,
            forall|j: int| 0 <= j < len ==> on_board(line_x(l as int, j), line_y(l as int, j)),
            line@ == line_cells(board@, l as int).take(i as int),
            coords@ == line_coords(l as int).take(i as int),
        decreases len - i,
    {
        assert(on_board(line_x(l as int, i as int), line_y(l as int, i as int)));
        let (x, y) = if l < 15 {
            (i, l)
        } else if l < 30 {
            (l - 15, i)
        } else if l < 39 {
            (start + i - (39 - l), start + i)
        } else if l < 49 {
            (start + i + (l - 39), start + i)
        } else {
            ((l - 44) - (start + i), start + i)
        };
        line.push(board.get(x, y));
        coords.push((x, y));
        i = i + 1;
        assert(line@ =~= line_cells(board@, l as int).take(i as int));
        assert(coords@ =~= line_coords(l as int).take(i as int));
    }
    assert(line@ =~= line_cells(board@, l as int));
    assert(coords@ =~= line_coords(l as int));
    (line, coords)
}

proof fn lemma_count_slot_le(th: Seq<Threat>, coords: Seq<(usize, usize)>, k: int, ai: Player)
    ensures
        count_slot(th, coords, k, ai) <= th.len(),
    decreases th.len(),
{
    if th.len() > 0 {
        lemma_count_slot_le(th.drop_last(), coords, k, ai);
    }
}

fn kind_number(t: ThreatType) -> (r: usize)
    ensures
        r == kind_index(t),
{
    match t {
        ThreatType::LiveFour => 0,
        ThreatType::DeadFour => 1,
        ThreatType::LiveThree => 2,
        ThreatType::SleepyThree => 3,
        ThreatType::LiveTwo => 4,
        ThreatType::SleepyTwo => 5,
    }
}

/// Counts each threat of a line, whose cells stand at `coords`, on the board cell it
/// threatens at, by kind and by side.
fn add_line_threats(
    counts: &mut Vec<u32>,
    th: &Vec<Threat>,
    coords: &Vec<(usize, usize)>,
    ai: Player,
)
    requires
        old(counts)@.len() == NUM_SLOTS,
        forall|i: int| 0 <= i < coords@.len() ==> on_board(#[trigger] coords@[i].0 as int, coords@[i].1 as int),
        forall|k: int| 0 <= k < NUM_SLOTS ==> #[trigger] old(counts)@[k] + th@.len() <= u32::MAX,
    ensures
        final(counts)@.len() == NUM_SLOTS,
        forall|k: int|
            0 <= k < NUM_SLOTS ==> #[trigger] final(counts)@[k] == old(counts)@[k] + count_slot(
                th@,
                coords@,
                k,
                ai,
            ),
{
    let ghost start = counts@;
    let mut j: usize = 0;
    while j < th.len()
        invariant
            j <= th@.len(),
            counts@.len() == NUM_SLOTS,
            forall|i: int| 0 <= i < coords@.len() ==> on_board(#[trigger] coords@[i].0 as int, coords@[i].1 as int),
            forall|k: int| 0 <= k < NUM_SLOTS ==> #[trigger] start[k] + th@.len() <= u32::MAX,
            forall|k: int|
                0 <= k < NUM_SLOTS ==> #[trigger] counts@[k] == start[k] + count_slot(
                    th@.take(j as int),
                    coords@,
                    k,
                    ai,
                ),
        decreases th@.len() - j,
    {
        assert(th@.take(j + 1).drop_last() == th@.take(j as int));
        assert(th@.take(j + 1).last() == th@[j as int]);
        let e = th[j];
        if e.0 < coords.len() {
            let (x, y) = coords[e.0];
            assert(on_board(coords@[e.0 as int].0 as int, coords@[e.0 as int].1 as int));
            let side: usize = if e.2 == ai {
                0
            } else {
                1
            };
            let k = (y * 15 + x) * 12 + kind_number(e.1) * 2 + side;
            assert(k == entry_slot(e, coords@, ai));
            proof {
                lemma_count_slot_le(th@.take(j as int), coords@, k as int, ai);
            }
            let v = counts[k];
            counts.set(k, v + 1);
        }
        j = j + 1;
    }
    assert(th@.take(th@.len() as int) == th@);
}

/// What crossing threats on one cell are worth.
fn compound_category(l4: u32, d4: u32, l3: u32) -> (r: i32)
    ensures
        r == compound_value(l4 as int, d4 as int, l3 as int),
{
    if l4 > 0 || (d4 > 0 && l3 > 0) {
        SCORE_FOUR_THREE
    } else if l3 >= 2 {
        SCORE_DOUBLE_LIVE_THREE
    } else if d4 >= 2 {
        SCORE_DOUBLE_DEAD_FOUR
    } else {
        0
    }
}

/// The value of the board for `ai_player`. Every line of at least six cells (rows, columns
/// and both kinds of diagonals) is evaluated for both sides; the threats found are gathered
/// on the cells they point at, and on each cell a live four, or a dead four together with a
/// live three, is worth `SCORE_FOUR_THREE`, else two live threes `SCORE_DOUBLE_LIVE_THREE`,
/// else two dead fours `SCORE_DOUBLE_DEAD_FOUR`. The result is the AI's line scores plus its
/// best such cell, minus the same for the opponent.
pub fn evaluate_board(board: &Board, ai_player: Player) -> (r: i32)
    requires
        board.wf(),
    ensures
        r == eval_spec(board@, ai_player),
{
    let opponent_player = ai_player.opponent();
    let mut ai_base_score: i32 = 0;
    let mut opp_base_score: i32 = 0;
    let mut counts: Vec<u32> = vec![0u32; NUM_SLOTS];
    let mut l: usize = 0;
    while l < NUM_LINES
        invariant
            board.wf(),
            l <= 68,
            opponent_player == ai_player.spec_opponent(),
            (ai_base_score as int, opp_base_score as int) == base_upto(board@, ai_player, l as int),
            0 <= ai_base_score <= l * line_max(),
            0 <= opp_base_score <= l * line_max(),
            counts@.len() == NUM_SLOTS,
            forall|k: int|
                0 <= k < NUM_SLOTS ==> #[trigger] counts@[k] == total_slot(
                    board@,
                    ai_player,
                    l as int,
                    k,
                ),
            forall|k: int| 0 <= k < NUM_SLOTS ==> #[trigger] counts@[k] <= 200 * l,
        decreases 68 - l,
    {
        let (line, coords) = build_line(board, l);
        proof {
            lemma_line_geometry(l as int);
            lemma_line_eval_bounds(board@, ai_player, l as int);
        }
        let (line_ai_score, line_opp_score, line_threats) = evaluate_line_detailed(
            line.as_slice(),
            ai_player,
            opponent_player,
        );
        ai_base_score = ai_base_score + line_ai_score;
        opp_base_score = opp_base_score + line_opp_score;
        let ghost before = counts@;
        add_line_threats(&mut counts, &line_threats, &coords, ai_player);
        proof {
            assert forall|k: int| 0 <= k < NUM_SLOTS implies #[trigger] counts@[k] <= 200 * (l + 1) by {
                lemma_count_slot_le(line_threats@, coords@, k, ai_player);
                assert(before[k] <= 200 * l);
            }
        }
        l = l + 1;
    }
    let mut ai_compound_score: i32 = 0;
    let mut opp_compound_score: i32 = 0;
    let mut c: usize = 0;
    while c < 225
        invariant
            c <= 225,
            counts@.len() == NUM_SLOTS,
            forall|k: int|
                0 <= k < NUM_SLOTS ==> #[trigger] counts@[k] == total_slot(
                    board@,
                    ai_player,
                    68,
                    k,
                ),
            ai_compound_score == compound_upto(board@, ai_player, 0, c as int),
            opp_compound_score == compound_upto(board@, ai_player, 1, c as int),
        decreases 225 - c,
    {
        let here_ai = compound_category(counts[c * 12], counts[c * 12 + 2], counts[c * 12 + 4]);
        if here_ai > ai_compound_score {
            ai_compound_score = here_ai;
        }
        let here_opp = compound_category(
            counts[c * 12 + 1],
            counts[c * 12 + 3],
            counts[c * 12 + 5],
        );
        if here_opp > opp_compound_score {
            opp_compound_score = here_opp;
        }
        c = c + 1;
    }
    proof {
        lemma_compound_bounds(board@, ai_player, 0, 225);
        lemma_compound_bounds(board@, ai_player, 1, 225);
    }
    (ai_base_score + ai_compound_score) - (opp_base_score + opp_compound_score)
}

} // verus!
