//! Shapes of stones in a six-cell window: the score each shape is worth and the empty cells
//! where it threatens to grow.
use vstd::prelude::*;

use crate::board::Player;

verus! {

/// Five in a row: a won position.
pub const SCORE_FIVE: i32 = 100_000;

/// A live four, or a four and a live three, on one cell.
pub const SCORE_FOUR_THREE: i32 = 50_000;

/// Two live threes on one cell.
pub const SCORE_DOUBLE_LIVE_THREE: i32 = 5_000;

/// Four stones with both ends open.
pub const SCORE_LIVE_FOUR: i32 = 8_000;

/// Two dead fours on one cell.
pub const SCORE_DOUBLE_DEAD_FOUR: i32 = 4_000;

/// Four stones that one move completes, with one end blocked or a gap.
pub const SCORE_DEAD_FOUR: i32 = 1_000;

/// Three stones in a row with both ends open.
pub const SCORE_LIVE_THREE: i32 = 900;

/// Three stones with one gap and both ends open.
pub const SCORE_JUMP_LIVE_THREE: i32 = 850;

/// Three stones with one end blocked.
pub const SCORE_SLEEPY_THREE: i32 = 150;

/// Two stones with room on both sides.
pub const SCORE_LIVE_TWO: i32 = 100;

/// Two stones with one end blocked.
pub const SCORE_SLEEPY_TWO: i32 = 10;

/// Code of an empty cell in a window.
pub const E: u8 = 0;

/// Code of a stone of the player whose shapes are looked for.
pub const P: u8 = 1;

/// Code of a stone of the other player.
pub const O: u8 = 2;

/// The kind of threat that a stone played on an empty cell would make.
#[derive(Debug, Clone, Copy, PartialEq, Eq, Hash, Structural)]
pub enum ThreatType {
    LiveFour,
    DeadFour,
    LiveThree,
    SleepyThree,
    LiveTwo,
    SleepyTwo,
}

/// A threat: the position of an empty cell in a line, the kind, and whose threat it is.
pub type Threat = (usize, ThreatType, Player);

/// The code of a cell as seen by `p`.
pub open spec fn code(c: Option<Player>, p: Player) -> u8 {
    match c {
        None => E,
        Some(q) => if q == p {
            P
        } else {
            O
        },
    }
}

/// The codes of a window of cells as seen by `p`.
pub open spec fn window_codes(w: Seq<Option<Player>>, p: Player) -> Seq<u8> {
    Seq::new(w.len(), |i: int| code(w[i], p))
}

/// The six codes of `w` are exactly `a` to `f`.
pub open spec fn pat6(w: Seq<u8>, a: u8, b: u8, c: u8, d: u8, e: u8, f: u8) -> bool {
    w[0] == a && w[1] == b && w[2] == c && w[3] == d && w[4] == e && w[5] == f
}

/// The five codes of `w` from position `i` on are exactly `a` to `e`.
pub open spec fn pat5(w: Seq<u8>, i: int, a: u8, b: u8, c: u8, d: u8, e: u8) -> bool {
    w[i] == a && w[i + 1] == b && w[i + 2] == c && w[i + 3] == d && w[i + 4] == e
}

/// Five own stones in a row inside the window.
pub open spec fn five_in_window(w: Seq<u8>) -> bool {
    pat5(w, 0, P, P, P, P, P) || pat5(w, 1, P, P, P, P, P)
}

/// The dead four with four stones in the middle: the open end, if exactly one end is open
/// and the other blocked.
pub open spec fn dead_four_middle(w: Seq<u8>, s: usize) -> Seq<usize> {
    if w[1] == P && w[2] == P && w[3] == P && w[4] == P {
        if w[0] == O && w[5] == E {
            seq![(s + 5) as usize]
        } else if w[0] == E && w[5] == O {
            seq![s]
        } else {
            Seq::empty()
        }
    } else {
        Seq::empty()
    }
}

/// A four with one gap at the first of the two five-cell positions where it fits: the gap,
/// `off` cells into the five.
pub open spec fn dead_four_gap(
    w: Seq<u8>,
    s: usize,
    a: u8,
    b: u8,
    c: u8,
    d: u8,
    e: u8,
    off: usize,
) -> Seq<usize> {
    if pat5(w, 0, a, b, c, d, e) {
        seq![(s + off) as usize]
    } else if pat5(w, 1, a, b, c, d, e) {
        seq![(s + 1 + off) as usize]
    } else {
        Seq::empty()
    }
}

/// The cells that complete the dead fours of the window, in the order they are found.
pub open spec fn dead_four_cells(w: Seq<u8>, s: usize) -> Seq<usize> {
    dead_four_middle(w, s) + dead_four_gap(w, s, P, P, P, E, P, 3) + dead_four_gap(
        w,
        s,
        P,
        P,
        E,
        P,
        P,
        2,
    ) + dead_four_gap(w, s, P, E, P, P, P, 1)
}

/// A live three: whether it has a gap, and the cells it threatens at.
pub open spec fn live_three(w: Seq<u8>, s: usize) -> Option<(bool, Seq<usize>)> {
    if pat6(w, E, P, P, P, E, E) {
        Some((false, seq![s, (s + 4) as usize]))
    } else if pat6(w, E, E, P, P, P, E) {
        Some((false, seq![(s + 1) as usize, (s + 5) as usize]))
    } else if pat6(w, E, P, E, P, P, E) {
        Some((true, seq![s, (s + 2) as usize, (s + 5) as usize]))
    } else if pat6(w, E, P, P, E, P, E) {
        Some((true, seq![s, (s + 3) as usize, (s + 5) as usize]))
    } else {
        None
    }
}

/// A sleepy three and the cells it threatens at.
pub open spec fn sleepy_three(w: Seq<u8>, s: usize) -> Option<Seq<usize>> {
    if pat6(w, O, P, P, P, E, E) {
        Some(seq![(s + 4) as usize, (s + 5) as usize])
    } else if pat6(w, E, E, P, P, P, O) {
        Some(seq![s, (s + 1) as usize])
    } else if pat6(w, O, P, P, E, P, E) {
        Some(seq![(s + 3) as usize, (s + 5) as usize])
    } else if pat6(w, E, P, E, P, P, O) {
        Some(seq![s, (s + 2) as usize])
    } else if pat6(w, O, P, E, P, P, E) {
        Some(seq![(s + 2) as usize, (s + 5) as usize])
    } else if pat6(w, E, P, P, E, P, O) {
        Some(seq![s, (s + 3) as usize])
    } else if pat6(w, E, P, P, P, E, O) {
        Some(seq![(s + 4) as usize])
    } else if pat6(w, O, E, P, P, P, E) {
        Some(seq![(s + 1) as usize])
    } else if pat6(w, O, P, E, P, E, O) {
        Some(seq![(s + 2) as usize, (s + 4) as usize])
    } else {
        None
    }
}

/// A live two and the cells it threatens at.
pub open spec fn live_two(w: Seq<u8>, s: usize) -> Option<Seq<usize>> {
    if pat6(w, E, P, P, E, E, E) {
        Some(seq![s, (s + 3) as usize])
    } else if pat6(w, E, E, P, P, E, E) {
        Some(seq![(s + 1) as usize, (s + 4) as usize])
    } else if pat6(w, E, E, E, P, P, E) {
        Some(seq![(s + 2) as usize, (s + 5) as usize])
    } else if pat6(w, E, P, E, P, E, E) {
        Some(seq![s, (s + 2) as usize, (s + 4) as usize])
    } else if pat6(w, E, E, P, E, P, E) {
        Some(seq![(s + 1) as usize, (s + 3) as usize, (s + 5) as usize])
    } else {
        None
    }
}

/// A sleepy two and the cells it threatens at.
pub open spec fn sleepy_two(w: Seq<u8>, s: usize) -> Option<Seq<usize>> {
    if pat6(w, O, P, P, E, E, E) {
        Some(seq![(s + 3) as usize, (s + 4) as usize, (s + 5) as usize])
    } else if pat6(w, E, E, E, P, P, O) {
        Some(seq![s, (s + 1) as usize, (s + 2) as usize])
    } else if pat6(w, O, P, E, P, E, E) {
        Some(seq![(s + 2) as usize, (s + 4) as usize, (s + 5) as usize])
    } else if pat6(w, E, E, P, E, P, O) {
        Some(seq![s, (s + 1) as usize, (s + 3) as usize])
    } else if pat6(w, E, P, P, E, E, O) {
        Some(seq![s, (s + 3) as usize, (s + 4) as usize])
    } else if pat6(w, O, E, E, P, P, E) {
        Some(seq![(s + 1) as usize, (s + 2) as usize, (s + 5) as usize])
    } else {
        None
    }
}

/// Some threat of kind `kind`, by either player, is recorded at position `idx`.
pub open spec fn has_kind_at(th: Seq<Threat>, idx: usize, kind: ThreatType) -> bool {
    exists|j: int| 0 <= j < th.len() && (#[trigger] th[j]).0 == idx && th[j].1 == kind
}

/// Records a threat of kind `t` by `who` at each of `idxs` in turn, skipping a position that
/// already holds that very threat, or, when `blocker` is given, a threat of that kind.
pub open spec fn add_threats(
    th: Seq<Threat>,
    idxs: Seq<usize>,
    t: ThreatType,
    who: Player,
    blocker: Option<ThreatType>,
) -> Seq<Threat>
    decreases idxs.len(),
{
    if idxs.len() == 0 {
        th
    } else {
        let before = add_threats(th, idxs.drop_last(), t, who, blocker);
        let e = (idxs.last(), t, who);
        if before.contains(e) || (blocker matches Some(k) && has_kind_at(before, idxs.last(), k)) {
            before
        } else {
            before.push(e)
        }
    }
}

/// The score and the threats after the shapes of `who` in the window `w` (codes as seen by
/// `who`), which starts at position `s` of its line, have been looked for.
pub open spec fn match_spec(w: Seq<u8>, who: Player, s: usize, score: int, th: Seq<Threat>) -> (
    int,
    Seq<Threat>,
) {
    if five_in_window(w) {
        (if score >= SCORE_FIVE {
            score
        } else {
            SCORE_FIVE as int
        }, th)
    } else if pat6(w, E, P, P, P, P, E) {
        (
            score + SCORE_LIVE_FOUR,
            th.push((s, ThreatType::LiveFour, who)).push(
                ((s + 5) as usize, ThreatType::LiveFour, who),
            ),
        )
    } else {
        let d4 = dead_four_cells(w, s);
        let score1 = if d4.len() > 0 {
            score + SCORE_DEAD_FOUR
        } else {
            score
        };
        let th1 = if d4.len() > 0 {
            add_threats(th, d4, ThreatType::DeadFour, who, None)
        } else {
            th
        };
        let l3 = live_three(w, s);
        let score2 = match l3 {
            Some((jump, _)) => score1 + if jump {
                SCORE_JUMP_LIVE_THREE
            } else {
                SCORE_LIVE_THREE
            },
            None => score1,
        };
        let th2 = match l3 {
            Some((_, idxs)) => add_threats(th1, idxs, ThreatType::LiveThree, who, None),
            None => th1,
        };
        let s3 = sleepy_three(w, s);
        let score3 = if s3 is Some && l3 is None {
            score2 + SCORE_SLEEPY_THREE
        } else {
            score2
        };
        let th3 = match (s3, l3) {
            (Some(idxs), None) => add_threats(
                th2,
                idxs,
                ThreatType::SleepyThree,
                who,
                Some(ThreatType::LiveThree),
            ),
            _ => th2,
        };
        if l3 is None && s3 is None {
            match live_two(w, s) {
                Some(idxs) => (
                    score3 + SCORE_LIVE_TWO,
                    add_threats(th3, idxs, ThreatType::LiveTwo, who, None),
                ),
                None => match sleepy_two(w, s) {
                    Some(idxs) => (
                        score3 + SCORE_SLEEPY_TWO,
                        add_threats(
                            th3,
                            idxs,
                            ThreatType::SleepyTwo,
                            who,
                            Some(ThreatType::LiveTwo),
                        ),
                    ),
                    None => (score3, th3),
                },
            }
        } else {
            (score3, th3)
        }
    }
}

/// Whether the threat `e` is recorded.
fn contains_threat(th: &Vec<Threat>, e: Threat) -> (r: bool)
    ensures
        r == th@.contains(e),
{
    let mut i: usize = 0;
    while i < th.len()
        invariant
            i <= th@.len(),
            forall|j: int| 0 <= j < i ==> th@[j] != e,
        decreases th@.len() - i,
    {
        let f = th[i];
        if f.0 == e.0 && f.1 == e.1 && f.2 == e.2 {
            assert(th@[i as int] == e);
            return true;
        }
        i = i + 1;
    }
    false
}

/// Whether a threat of kind `kind` is recorded at position `idx`.
fn kind_recorded_at(th: &Vec<Threat>, idx: usize, kind: ThreatType) -> (r: bool)
    ensures
        r == has_kind_at(th@, idx, kind),
{
    let mut i: usize = 0;
    while i < th.len()
        invariant
            i <= th@.len(),
            forall|j: int| 0 <= j < i ==> !((#[trigger] th@[j]).0 == idx && th@[j].1 == kind),
        decreases th@.len() - i,
    {
        if th[i].0 == idx && th[i].1 == kind {
            return true;
        }
        i = i + 1;
    }
    false
}

/// Records a threat of kind `t` by `who` at each of `idxs`, as `add_threats` says.
fn push_threats(
    th: &mut Vec<Threat>,
    idxs: &Vec<usize>,
    t: ThreatType,
    who: Player,
    blocker: Option<ThreatType>,
)
    ensures
        final(th)@ == add_threats(old(th)@, idxs@, t, who, blocker),
{
    let ghost start = th@;
    let mut k: usize = 0;
    while k < idxs.len()
        invariant
            k <= idxs@.len(),
            th@ == add_threats(start, idxs@.take(k as int), t, who, blocker),
        decreases idxs@.len() - k,
    {
        assert(idxs@.take(k + 1).drop_last() == idxs@.take(k as int));
        let idx = idxs[k];
        let e = (idx, t, who);
        let blocked = match blocker {
            Some(kind) => kind_recorded_at(th, idx, kind),
            None => false,
        };
        if !contains_threat(th, e) && !blocked {
            th.push(e);
        }
        k = k + 1;
    }
    assert(idxs@.take(idxs@.len() as int) == idxs@);
}

/// The codes of a window of six cells as seen by `p`.
fn codes_of(window: &[Option<Player>], p: Player) -> (w: [u8; 6])
    requires
        window@.len() == 6,
    ensures
        w@ == window_codes(window@, p),
{
    let mut w: [u8; 6] = [E; 6];
    let mut i: usize = 0;
    while i < 6
        invariant
            i <= 6,
            window@.len() == 6,
            w@.len() == 6,
            forall|j: int| 0 <= j < i ==> w@[j] == code(window@[j], p),
        decreases 6 - i,
    {
        let c = match window[i] {
            None => E,
            Some(q) => if q == p {
                P
            } else {
                O
            },
        };
        w[i] = c;
        i = i + 1;
    }
    assert(w@ == window_codes(window@, p));
    w
}

/// Whether the window's codes are `a` to `f`.
fn is_pattern(w: &[u8; 6], a: u8, b: u8, c: u8, d: u8, e: u8, f: u8) -> (r: bool)
    ensures
        r == pat6(w@, a, b, c, d, e, f),
{
    w[0] == a && w[1] == b && w[2] == c && w[3] == d && w[4] == e && w[5] == f
}

/// Whether the five codes of the window from position `i` on are `a` to `e`.
fn is_pattern5(w: &[u8; 6], i: usize, a: u8, b: u8, c: u8, d: u8, e: u8) -> (r: bool)
    requires
        i <= 1,
    ensures
        r == pat5(w@, i as int, a, b, c, d, e),
{
    w[i] == a && w[i + 1] == b && w[i + 2] == c && w[i + 3] == d && w[i + 4] == e
}

/// Appends the gap cell of a four with one gap, if the window holds one.
fn find_gap_four(
    w: &[u8; 6],
    s: usize,
    a: u8,
    b: u8,
    c: u8,
    d: u8,
    e: u8,
    off: usize,
    cells: &mut Vec<usize>,
) -> (found: bool)
    requires
        s + off + 1 <= usize::MAX,
    ensures
        final(cells)@ == old(cells)@ + dead_four_gap(w@, s, a, b, c, d, e, off),
        found == (dead_four_gap(w@, s, a, b, c, d, e, off).len() > 0),
{
    let mut i: usize = 0;
    while i <= 1
        invariant
            i <= 2,
            s + off + 1 <= usize::MAX,
            cells@ == old(cells)@,
            forall|j: int| 0 <= j < i ==> !pat5(w@, j, a, b, c, d, e),
        decreases 2 - i,
    {
        if is_pattern5(w, i, a, b, c, d, e) {
            cells.push(s + i + off);
            return true;
        }
        i = i + 1;
    }
    assert(dead_four_gap(w@, s, a, b, c, d, e, off) =~= Seq::<usize>::empty());
    false
}

/// The cells where a live three in the window threatens, and whether it has a gap.
fn find_live_three(w: &[u8; 6], s: usize) -> (r: Option<(bool, Vec<usize>)>)
    requires
        s + 5 <= usize::MAX,
    ensures
        match (r, live_three(w@, s)) {
            (Some((j, v)), Some((sj, sv))) => j == sj && v@ == sv,
            (None, None) => true,
            _ => false,
        },
{
    if is_pattern(w, E, P, P, P, E, E) {
        Some((false, vec![s, s + 4]))
    } else if is_pattern(w, E, E, P, P, P, E) {
        Some((false, vec![s + 1, s + 5]))
    } else if is_pattern(w, E, P, E, P, P, E) {
        Some((true, vec![s, s + 2, s + 5]))
    } else if is_pattern(w, E, P, P, E, P, E) {
        Some((true, vec![s, s + 3, s + 5]))
    } else {
        None
    }
}

/// The cells where a sleepy three in the window threatens.
fn find_sleepy_three(w: &[u8; 6], s: usize) -> (r: Option<Vec<usize>>)
    requires
        s + 5 <= usize::MAX,
    ensures
        match (r, sleepy_three(w@, s)) {
            (Some(v), Some(sv)) => v@ == sv,
            (None, None) => true,
            _ => false,
        },
{
    if is_pattern(w, O, P, P, P, E, E) {
        Some(vec![s + 4, s + 5])
    } else if is_pattern(w, E, E, P, P, P, O) {
        Some(vec![s, s + 1])
    } else if is_pattern(w, O, P, P, E, P, E) {
        Some(vec![s + 3, s + 5])
    } else if is_pattern(w, E, P, E, P, P, O) {
        Some(vec![s, s + 2])
    } else if is_pattern(w, O, P, E, P, P, E) {
        Some(vec![s + 2, s + 5])
    } else if is_pattern(w, E, P, P, E, P, O) {
        Some(vec![s, s + 3])
    } else if is_pattern(w, E, P, P, P, E, O) {
        Some(vec![s + 4])
    } else if is_pattern(w, O, E, P, P, P, E) {
        Some(vec![s + 1])
    } else if is_pattern(w, O, P, E, P, E, O) {
        Some(vec![s + 2, s + 4])
    } else {
        None
    }
}

/// The cells where a live two in the window threatens.
fn find_live_two(w: &[u8; 6], s: usize) -> (r: Option<Vec<usize>>)
    requires
        s + 5 <= usize::MAX,
    ensures
        match (r, live_two(w@, s)) {
            (Some(v), Some(sv)) => v@ == sv,
            (None, None) => true,
            _ => false,
        },
{
    if is_pattern(w, E, P, P, E, E, E) {
        Some(vec![s, s + 3])
    } else if is_pattern(w, E, E, P, P, E, E) {
        Some(vec![s + 1, s + 4])
    } else if is_pattern(w, E, E, E, P, P, E) {
        Some(vec![s + 2, s + 5])
    } else if is_pattern(w, E, P, E, P, E, E) {
        Some(vec![s, s + 2, s + 4])
    } else if is_pattern(w, E, E, P, E, P, E) {
        Some(vec![s + 1, s + 3, s + 5])
    } else {
        None
    }
}

/// The cells where a sleepy two in the window threatens.
fn find_sleepy_two(w: &[u8; 6], s: usize) -> (r: Option<Vec<usize>>)
    requires
        s + 5 <= usize::MAX,
    ensures
        match (r, sleepy_two(w@, s)) {
            (Some(v), Some(sv)) => v@ == sv,
            (None, None) => true,
            _ => false,
        },
{
    if is_pattern(w, O, P, P, E, E, E) {
        Some(vec![s + 3, s + 4, s + 5])
    } else if is_pattern(w, E, E, E, P, P, O) {
        Some(vec![s, s + 1, s + 2])
    } else if is_pattern(w, O, P, E, P, E, E) {
        Some(vec![s + 2, s + 4, s + 5])
    } else if is_pattern(w, E, E, P, E, P, O) {
        Some(vec![s, s + 1, s + 3])
    } else if is_pattern(w, E, P, P, E, E, O) {
        Some(vec![s, s + 3, s + 4])
    } else if is_pattern(w, O, E, E, P, P, E) {
        Some(vec![s + 1, s + 2, s + 5])
    } else {
        None
    }
}

/// Looks for the shapes of `player` in a window of six cells that starts at position
/// `window_start_index` of its line, adds what they are worth to `score` and records the
/// threats they make.
///
/// Five in a row lifts the score to at least `SCORE_FIVE` and ends the search. A live four
/// (`_XXXX_`) adds `SCORE_LIVE_FOUR`, a threat at both ends, and ends it too. Otherwise dead
/// fours, live threes, sleepy threes (unless a live three was found) and, when there is no
/// three at all, a live two or else a sleepy two each add their score once and record a
/// threat at each empty cell that would extend them, unless the same threat is already there
/// (or, for sleepy shapes, a live one of the same size).
pub fn match_patterns(
    window: &[Option<Player>],
    player: Player,
    opponent: Player,
    window_start_index: usize,
    score: &mut i32,
    threats: &mut Vec<Threat>,
)
    requires
        window@.len() == 6,
        opponent == player.spec_opponent(),
        match_spec(
            window_codes(window@, player),
            player,
            window_start_index,
            *old(score) as int,
            old(threats)@,
        ).0 <= i32::MAX,
        window_start_index + 6 <= usize::MAX,
    ensures
        (*final(score) as int, final(threats)@) == match_spec(
            window_codes(window@, player),
            player,
            window_start_index,
            *old(score) as int,
            old(threats)@,
        ),
{
    let w = codes_of(window, player);
    let s = window_start_index;
    proof {
        assert(w@ == window_codes(window@, player));
    }
    // Five in a row.
    if is_pattern5(&w, 0, P, P, P, P, P) || is_pattern5(&w, 1, P, P, P, P, P) {
        if *score < SCORE_FIVE {
            *score = SCORE_FIVE;
        }
        return;
    }
    // Live four: _XXXX_
    if is_pattern(&w, E, P, P, P, P, E) {
        *score = *score + SCORE_LIVE_FOUR;
        threats.push((s, ThreatType::LiveFour, player));
        threats.push((s + 5, ThreatType::LiveFour, player));
        return;
    }
    // Dead fours: four in the middle with exactly one open end, or four with one gap.

    let mut d4_cells: Vec<usize> = Vec::new();
    let mut is_dead_four = false;
    if w[1] == P && w[2] == P && w[3] == P && w[4] == P {
        if w[0] == O && w[5] == E {
            is_dead_four = true;
            d4_cells.push(s + 5);
        } else if w[0] == E && w[5] == O {
            is_dead_four = true;
            d4_cells.push(s);
        }
    }
    proof {
        assert(d4_cells@ == dead_four_middle(w@, s));
        assert(is_dead_four == (dead_four_middle(w@, s).len() > 0));
    }
    let f1 = find_gap_four(&w, s, P, P, P, E, P, 3, &mut d4_cells);
    let f2 = find_gap_four(&w, s, P, P, E, P, P, 2, &mut d4_cells);
    let f3 = find_gap_four(&w, s, P, E, P, P, P, 1, &mut d4_cells);
    is_dead_four = is_dead_four || f1 || f2 || f3;
    proof {
        assert(d4_cells@ == dead_four_cells(w@, s));
        assert(is_dead_four == (dead_four_cells(w@, s).len() > 0));
    }
    if is_dead_four {
        *score = *score + SCORE_DEAD_FOUR;
        push_threats(threats, &d4_cells, ThreatType::DeadFour, player, None);
    }
    // Live three.

    let l3 = find_live_three(&w, s);
    let is_live_three = l3.is_some();
    match l3 {
        Some((jump, cells)) => {
            *score = *score + if jump {
                SCORE_JUMP_LIVE_THREE
            } else {
                SCORE_LIVE_THREE
            };
            push_threats(threats, &cells, ThreatType::LiveThree, player, None);
        },
        None => {},
    }
    // Sleepy three, unless a live three was found.

    let s3 = find_sleepy_three(&w, s);
    let is_sleepy_three = s3.is_some();
    match s3 {
        Some(cells) => {
            if !is_live_three {
                *score = *score + SCORE_SLEEPY_THREE;
                push_threats(
                    threats,
                    &cells,
                    ThreatType::SleepyThree,
                    player,
                    Some(ThreatType::LiveThree),
                );
            }
        },
        None => {},
    }
    // Twos, only when there is no three.

    if !is_live_three && !is_sleepy_three {
        match find_live_two(&w, s) {
            Some(cells) => {
                *score = *score + SCORE_LIVE_TWO;
                push_threats(threats, &cells, ThreatType::LiveTwo, player, None);
            },
            None => {
                match find_sleepy_two(&w, s) {
                    Some(cells) => {
                        *score = *score + SCORE_SLEEPY_TWO;
                        push_threats(
                            threats,
                            &cells,
                            ThreatType::SleepyTwo,
                            player,
                            Some(ThreatType::LiveTwo),
                        );
                    },
                    None => {},
                }
            },
        }
    }
}

} // verus!
