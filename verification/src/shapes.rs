//! What looking at one window promises, stated over the window's cells alone: every threat it
//! records lies on an empty cell of the window and belongs to the player looked for; a four's
//! threat is the cell that completes five and a live three's threat a cell that makes four;
//! and the cells that a live three or a four with one open end needs are all recorded.
use vstd::prelude::*;

use crate::board::Player;
use crate::patterns::{
    E, O, P, SCORE_DEAD_FOUR, SCORE_JUMP_LIVE_THREE, SCORE_LIVE_THREE, Threat, ThreatType,
    add_threats, dead_four_cells, live_three, live_two, match_spec, sleepy_three, sleepy_two,
};

verus! {

/// Position `m` of the window, other than `k`, holds a stone of the player.
pub open spec fn stone_besides(w: Seq<u8>, m: int, k: int) -> bool {
    m == k || w[m] == P
}

/// A stone of the player on position `k` of the window `w` gives five in a row inside it.
pub open spec fn completes_five(w: Seq<u8>, k: int) -> bool {
    ||| (0 <= k < 5 && stone_besides(w, 0, k) && stone_besides(w, 1, k) && stone_besides(w, 2, k)
        && stone_besides(w, 3, k) && stone_besides(w, 4, k))
    ||| (1 <= k < 6 && stone_besides(w, 1, k) && stone_besides(w, 2, k) && stone_besides(w, 3, k)
        && stone_besides(w, 4, k) && stone_besides(w, 5, k))
}

/// 1 if position `m`, other than `k`, holds a stone of the player, else 0.
pub open spec fn own(w: Seq<u8>, m: int, k: int) -> int {
    if m != k && w[m] == P {
        1
    } else {
        0
    }
}

/// The five cells from position `j` on hold `k`, no stone of the other player, and three
/// stones of the player besides `k`: a stone on `k` makes four there.
pub open spec fn four_in(w: Seq<u8>, j: int, k: int) -> bool {
    &&& j <= k < j + 5
    &&& w[j] != O && w[j + 1] != O && w[j + 2] != O && w[j + 3] != O && w[j + 4] != O
    &&& own(w, j, k) + own(w, j + 1, k) + own(w, j + 2, k) + own(w, j + 3, k) + own(w, j + 4, k)
        == 3
}

/// A stone of the player on position `k` of the window makes four in five open cells.
pub open spec fn makes_four(w: Seq<u8>, k: int) -> bool {
    four_in(w, 0, k) || four_in(w, 1, k)
}

/// A threat of kind `t` at line position `i` fits the window that starts at `s`: the cell is
/// in the window and empty, a four's cell completes five and a live three's cell makes four.
pub open spec fn threat_fits(w: Seq<u8>, s: usize, i: usize, t: ThreatType) -> bool {
    &&& s <= i < s + 6
    &&& w[i - s] == E
    &&& (t == ThreatType::LiveFour || t == ThreatType::DeadFour) ==> completes_five(w, i - s)
    &&& t == ThreatType::LiveThree ==> makes_four(w, i - s)
}

/// Every threat of `b` past the prefix `a` is one of `who` that fits the window.
pub open spec fn grows_fitting(a: Seq<Threat>, b: Seq<Threat>, w: Seq<u8>, who: Player, s: usize) -> bool {
    &&& a.len() <= b.len()
    &&& b.subrange(0, a.len() as int) == a
    &&& forall|j: int|
        a.len() <= j < b.len() ==> (#[trigger] b[j]).2 == who && threat_fits(w, s, b[j].0, b[j].1)
}

/// Each of the positions `idxs` fits the window for a threat of kind `t`.
pub open spec fn all_fit(w: Seq<u8>, s: usize, idxs: Seq<usize>, t: ThreatType) -> bool {
    forall|k: int| 0 <= k < idxs.len() ==> threat_fits(w, s, #[trigger] idxs[k], t)
}

proof fn lemma_all_fit_concat(w: Seq<u8>, s: usize, a: Seq<usize>, b: Seq<usize>, t: ThreatType)
    requires
        all_fit(w, s, a, t),
        all_fit(w, s, b, t),
    ensures
        all_fit(w, s, a + b, t),
{
    assert forall|k: int| 0 <= k < (a + b).len() implies threat_fits(w, s, #[trigger] (a + b)[k], t) by {
        if k < a.len() {
            assert((a + b)[k] == a[k]);
        } else {
            assert((a + b)[k] == b[k - a.len()]);
        }
    }
}

/// Recording threats keeps what was there, and each new one is of kind `t`, of `who` and at
/// one of `idxs`.
proof fn lemma_add_new(
    th: Seq<Threat>,
    idxs: Seq<usize>,
    t: ThreatType,
    who: Player,
    blocker: Option<ThreatType>,
)
    ensures
        ({
            let r = add_threats(th, idxs, t, who, blocker);
            &&& th.len() <= r.len()
            &&& r.subrange(0, th.len() as int) == th
            &&& forall|j: int|
                th.len() <= j < r.len() ==> (#[trigger] r[j]).1 == t && r[j].2 == who && exists|
                    k: int,
                | 0 <= k < idxs.len() && #[trigger] idxs[k] == r[j].0
        }),
    decreases idxs.len(),
{
    if idxs.len() > 0 {
        let d = idxs.drop_last();
        lemma_add_new(th, d, t, who, blocker);
        let b = add_threats(th, d, t, who, blocker);
        let r = add_threats(th, idxs, t, who, blocker);
        assert forall|j: int| th.len() <= j < r.len() implies (#[trigger] r[j]).1 == t && r[j].2
            == who && exists|k: int| 0 <= k < idxs.len() && #[trigger] idxs[k] == r[j].0 by {
            if j < b.len() {
                assert(r[j] == b[j]);
                let k = choose|k: int| 0 <= k < d.len() && #[trigger] d[k] == b[j].0;
                assert(idxs[k] == d[k]);
            } else {
                assert(idxs[idxs.len() - 1] == r[j].0);
            }
        }
        assert(r.subrange(0, th.len() as int) =~= b.subrange(0, th.len() as int));
    }
}

/// Recording threats with no blocking kind leaves a threat of kind `t` by `who` at each of
/// `idxs`, and keeps every threat that was there.
proof fn lemma_add_records(th: Seq<Threat>, idxs: Seq<usize>, t: ThreatType, who: Player)
    ensures
        forall|k: int|
            0 <= k < idxs.len() ==> add_threats(th, idxs, t, who, None).contains(
                (#[trigger] idxs[k], t, who),
            ),
        forall|x: Threat| th.contains(x) ==> add_threats(th, idxs, t, who, None).contains(x),
    decreases idxs.len(),
{
    if idxs.len() > 0 {
        let d = idxs.drop_last();
        lemma_add_records(th, d, t, who);
        let b = add_threats(th, d, t, who, None);
        let r = add_threats(th, idxs, t, who, None);
        let e = (idxs.last(), t, who);
        assert(forall|x: Threat| b.contains(x) ==> r.contains(x)) by {
            assert forall|x: Threat| b.contains(x) implies r.contains(x) by {
                let j = choose|j: int| 0 <= j < b.len() && b[j] == x;
                assert(r[j] == x);
            }
        }
        if !b.contains(e) {
            assert(r[b.len() as int] == e);
        }
        assert forall|k: int| 0 <= k < idxs.len() implies r.contains((#[trigger] idxs[k], t, who)) by {
            if k < d.len() {
                assert(d[k] == idxs[k]);
            }
        }
    }
}

/// Recording threats at positions that all fit the window only adds fitting threats of `who`.
proof fn lemma_add_fitting(
    th: Seq<Threat>,
    idxs: Seq<usize>,
    t: ThreatType,
    who: Player,
    blocker: Option<ThreatType>,
    w: Seq<u8>,
    s: usize,
)
    requires
        all_fit(w, s, idxs, t),
    ensures
        grows_fitting(th, add_threats(th, idxs, t, who, blocker), w, who, s),
{
    lemma_add_new(th, idxs, t, who, blocker);
    let r = add_threats(th, idxs, t, who, blocker);
    assert forall|j: int| th.len() <= j < r.len() implies (#[trigger] r[j]).2 == who && threat_fits(
        w,
        s,
        r[j].0,
        r[j].1,
    ) by {
        let k = choose|k: int| 0 <= k < idxs.len() && #[trigger] idxs[k] == r[j].0;
    }
}

proof fn lemma_grows_trans(
    a: Seq<Threat>,
    b: Seq<Threat>,
    c: Seq<Threat>,
    w: Seq<u8>,
    who: Player,
    s: usize,
)
    requires
        grows_fitting(a, b, w, who, s),
        grows_fitting(b, c, w, who, s),
    ensures
        grows_fitting(a, c, w, who, s),
{
    assert(c.subrange(0, a.len() as int) =~= b.subrange(0, a.len() as int));
    assert forall|j: int| a.len() <= j < c.len() implies (#[trigger] c[j]).2 == who && threat_fits(
        w,
        s,
        c[j].0,
        c[j].1,
    ) by {
        if j < b.len() {
            assert(c[j] == b[j]);
        }
    }
}

proof fn lemma_grows_refl(a: Seq<Threat>, w: Seq<u8>, who: Player, s: usize)
    ensures
        grows_fitting(a, a, w, who, s),
{
    assert(a.subrange(0, a.len() as int) =~= a);
}

/// The cells that complete the dead fours of a window fit it.
proof fn lemma_dead_four_cells_fit(w: Seq<u8>, s: usize)
    requires
        w.len() == 6,
        s + 6 <= usize::MAX,
    ensures
        all_fit(w, s, dead_four_cells(w, s), ThreatType::DeadFour),
{
    let t = ThreatType::DeadFour;
    let m = crate::patterns::dead_four_middle(w, s);
    let g1 = crate::patterns::dead_four_gap(w, s, P, P, P, E, P, 3);
    let g2 = crate::patterns::dead_four_gap(w, s, P, P, E, P, P, 2);
    let g3 = crate::patterns::dead_four_gap(w, s, P, E, P, P, P, 1);
    assert(all_fit(w, s, m, t));
    assert(all_fit(w, s, g1, t));
    assert(all_fit(w, s, g2, t));
    assert(all_fit(w, s, g3, t));
    lemma_all_fit_concat(w, s, m, g1, t);
    lemma_all_fit_concat(w, s, m + g1, g2, t);
    lemma_all_fit_concat(w, s, m + g1 + g2, g3, t);
}

/// The cells a live three threatens at fit the window.
proof fn lemma_live_three_fits(w: Seq<u8>, s: usize)
    requires
        w.len() == 6,
        s + 6 <= usize::MAX,
    ensures
        live_three(w, s) matches Some((_, idxs)) ==> all_fit(w, s, idxs, ThreatType::LiveThree),
{
}

/// The cells the threes and twos threaten at fit the window.
proof fn lemma_small_shapes_fit(w: Seq<u8>, s: usize)
    requires
        w.len() == 6,
        s + 6 <= usize::MAX,
    ensures
        sleepy_three(w, s) matches Some(idxs) ==> all_fit(w, s, idxs, ThreatType::SleepyThree),
        live_two(w, s) matches Some(idxs) ==> all_fit(w, s, idxs, ThreatType::LiveTwo),
        sleepy_two(w, s) matches Some(idxs) ==> all_fit(w, s, idxs, ThreatType::SleepyTwo),
{
}

/// Every threat that looking at a window records is one of the player looked for, on an
/// empty cell of the window; the threat of a four (live or dead) is a cell whose stone
/// completes five in the window, and that of a live three a cell whose stone makes four in
/// five open cells. The threats that were recorded before stay as they were, in front.
pub proof fn lemma_threats_fit_window(w: Seq<u8>, who: Player, s: usize, score: int, th: Seq<Threat>)
    requires
        w.len() == 6,
        s + 6 <= usize::MAX,
    ensures
        grows_fitting(th, match_spec(w, who, s, score, th).1, w, who, s),
{
    let r = match_spec(w, who, s, score, th).1;
    lemma_grows_refl(th, w, who, s);
    if crate::patterns::five_in_window(w) {
    } else if crate::patterns::pat6(w, E, P, P, P, P, E) {
        assert(r.subrange(0, th.len() as int) =~= th);
        assert(threat_fits(w, s, s, ThreatType::LiveFour));
        assert(threat_fits(w, s, (s + 5) as usize, ThreatType::LiveFour));
        assert forall|j: int| th.len() <= j < r.len() implies (#[trigger] r[j]).2 == who
            && threat_fits(w, s, r[j].0, r[j].1) by {
            if j == th.len() {
                assert(r[j] == (s, ThreatType::LiveFour, who));
            } else {
                assert(r[j] == ((s + 5) as usize, ThreatType::LiveFour, who));
            }
        }
    } else {
        let d4 = dead_four_cells(w, s);
        lemma_dead_four_cells_fit(w, s);
        lemma_live_three_fits(w, s);
        lemma_small_shapes_fit(w, s);
        let th1 = if d4.len() > 0 {
            add_threats(th, d4, ThreatType::DeadFour, who, None)
        } else {
            th
        };
        if d4.len() > 0 {
            lemma_add_fitting(th, d4, ThreatType::DeadFour, who, None, w, s);
        }
        let l3 = live_three(w, s);
        let th2 = match l3 {
            Some((_, idxs)) => add_threats(th1, idxs, ThreatType::LiveThree, who, None),
            None => th1,
        };
        match l3 {
            Some((_, idxs)) => {
                lemma_add_fitting(th1, idxs, ThreatType::LiveThree, who, None, w, s);
                lemma_grows_trans(th, th1, th2, w, who, s);
            },
            None => {},
        }
        let s3 = sleepy_three(w, s);
        let th3 = match (s3, l3) {
            (Some(idxs), None) => add_threats(
                th2,
                idxs,
                ThreatType::SleepyThree,
                who,
                Some(ThreatType::LiveThree),
            ),
            _ => th2,
        };
        match (s3, l3) {
            (Some(idxs), None) => {
                lemma_add_fitting(
                    th2,
                    idxs,
                    ThreatType::SleepyThree,
                    who,
                    Some(ThreatType::LiveThree),
                    w,
                    s,
                );
                lemma_grows_trans(th, th2, th3, w, who, s);
            },
            _ => {},
        }
        if l3 is None && s3 is None {
            match live_two(w, s) {
                Some(idxs) => {
                    lemma_add_fitting(th3, idxs, ThreatType::LiveTwo, who, None, w, s);
                    lemma_grows_trans(th, th3, r, w, who, s);
                },
                None => match sleepy_two(w, s) {
                    Some(idxs) => {
                        lemma_add_fitting(
                            th3,
                            idxs,
                            ThreatType::SleepyTwo,
                            who,
                            Some(ThreatType::LiveTwo),
                            w,
                            s,
                        );
                        lemma_grows_trans(th, th3, r, w, who, s);
                    },
                    None => {},
                },
            }
        }
    }
}

/// A live three: open cells at both ends of the window and three stones of the player with
/// one empty cell `k` among the four inside. Looking at the window records a live-three
/// threat on `k`, on the left end unless the stones touch it, on the right end unless the
/// stones touch it, and adds `SCORE_LIVE_THREE` for three in a row or
/// `SCORE_JUMP_LIVE_THREE` for three with a gap. So the gap of a jump three is recorded.
pub proof fn lemma_live_three_records_open_cells(
    w: Seq<u8>,
    who: Player,
    s: usize,
    score: int,
    th: Seq<Threat>,
    k: int,
)
    requires
        w.len() == 6,
        s + 6 <= usize::MAX,
        w[0] == E,
        w[5] == E,
        1 <= k <= 4,
        w[k] == E,
        forall|m: int| 1 <= m <= 4 && m != k ==> w[m] == P,
    ensures
        ({
            let (sc, r) = match_spec(w, who, s, score, th);
            &&& r.contains(((s + k) as usize, ThreatType::LiveThree, who))
            &&& k > 1 ==> r.contains((s, ThreatType::LiveThree, who))
            &&& k < 4 ==> r.contains(((s + 5) as usize, ThreatType::LiveThree, who))
            &&& sc == score + if k == 1 || k == 4 {
                SCORE_LIVE_THREE
            } else {
                SCORE_JUMP_LIVE_THREE
            }
        }),
{
    assert(w[1] == P || k == 1);
    assert(w[2] == P || k == 2);
    assert(w[3] == P || k == 3);
    assert(w[4] == P || k == 4);
    assert(dead_four_cells(w, s) =~= Seq::<usize>::empty());
    let idxs = live_three(w, s).unwrap().1;
    lemma_add_records(th, idxs, ThreatType::LiveThree, who);
    if k == 1 {
        assert(idxs[0] == (s + 1) as usize && idxs[1] == (s + 5) as usize);
    } else if k == 2 {
        assert(idxs[0] == s && idxs[1] == (s + 2) as usize && idxs[2] == (s + 5) as usize);
    } else if k == 3 {
        assert(idxs[0] == s && idxs[1] == (s + 3) as usize && idxs[2] == (s + 5) as usize);
    } else {
        assert(idxs[0] == s && idxs[1] == (s + 4) as usize);
    }
}

/// Four stones of the player in the middle of the window with one end open and the other
/// blocked: looking at the window records a dead-four threat on the open end, the cell that
/// completes five, and adds `SCORE_DEAD_FOUR`.
pub proof fn lemma_blocked_four_records_open_end(
    w: Seq<u8>,
    who: Player,
    s: usize,
    score: int,
    th: Seq<Threat>,
)
    requires
        w.len() == 6,
        s + 6 <= usize::MAX,
        w[1] == P && w[2] == P && w[3] == P && w[4] == P,
        (w[0] == E && w[5] == O) || (w[0] == O && w[5] == E),
    ensures
        ({
            let (sc, r) = match_spec(w, who, s, score, th);
            let open = if w[0] == E {
                s
            } else {
                (s + 5) as usize
            };
            &&& r.contains((open, ThreatType::DeadFour, who))
            &&& sc == score + SCORE_DEAD_FOUR
        }),
{
    let d4 = dead_four_cells(w, s);
    let open = if w[0] == E {
        s
    } else {
        (s + 5) as usize
    };
    assert(d4 =~= seq![open]);
    lemma_add_records(th, d4, ThreatType::DeadFour, who);
    assert(d4[0] == open);
    let th1 = add_threats(th, d4, ThreatType::DeadFour, who, None);
    assert(live_three(w, s) is None);
    assert(sleepy_three(w, s) is None);
    assert(live_two(w, s) is None);
    assert(sleepy_two(w, s) is None);
}

/// The window read from its other end.
pub open spec fn mirrored(w: Seq<u8>) -> Seq<u8> {
    seq![w[5], w[4], w[3], w[2], w[1], w[0]]
}

/// Shapes do not depend on the direction they are read in: a window and its mirror image
/// add the same score, wherever they stand in their lines and whatever was recorded before.
/// The one exception is the sleepy three with two gaps between blocked ends, which is
/// looked for in one direction only (`O X _ X _ O`, not `O _ X _ X O`).
#[verifier::rlimit(50)]
pub proof fn lemma_score_mirror(
    w: Seq<u8>,
    who: Player,
    s: usize,
    t: usize,
    score: int,
    th: Seq<Threat>,
    th2: Seq<Threat>,
)
    requires
        w.len() == 6,
        s + 6 <= usize::MAX,
        t + 6 <= usize::MAX,
        !crate::patterns::pat6(w, O, P, E, P, E, O),
        !crate::patterns::pat6(w, O, E, P, E, P, O),
    ensures
        match_spec(mirrored(w), who, t, score, th2).0 == match_spec(w, who, s, score, th).0,
{
    let m = mirrored(w);
    assert(m[0] == w[5] && m[1] == w[4] && m[2] == w[3] && m[3] == w[2] && m[4] == w[1] && m[5]
        == w[0]);
    assert((dead_four_cells(m, t).len() > 0) == (dead_four_cells(w, s).len() > 0));
    assert((live_three(m, t) is Some) == (live_three(w, s) is Some));
    assert(live_three(w, s) matches Some((j, _)) ==> live_three(m, t) matches Some((j2, _)) && j
        == j2);
    assert((sleepy_three(m, t) is Some) == (sleepy_three(w, s) is Some));
    assert((live_two(m, t) is Some) == (live_two(w, s) is Some));
    assert((sleepy_two(m, t) is Some) == (sleepy_two(w, s) is Some));
}

} // verus!
