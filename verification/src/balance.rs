//! The evaluation is zero-sum: what a position is worth to one player, it costs the other.
use vstd::prelude::*;

use crate::board::{Cells, Player};
use crate::eval::{
    base_upto, compound_at, compound_upto, count_slot, entry_slot, eval_spec, line_cells,
    line_coords, line_eval, line_threats, line_upto, side_of, slot, total_slot, window_at,
};
use crate::patterns::{
    add_threats, dead_four_cells, has_kind_at, live_three, live_two, match_spec, sleepy_three,
    sleepy_two, window_codes, Threat, ThreatType, E, O, P,
};

verus! {

broadcast use vstd::seq_lib::group_to_multiset_ensures, vstd::multiset::group_multiset_axioms;

/// The window holds a stone of the player it is coded for.
pub open spec fn has_own_stone(w: Seq<u8>) -> bool {
    exists|i: int| 0 <= i < 6 && w[i] == P
}

/// No entry of `e` is a threat of `who`.
pub open spec fn none_of(e: Seq<Threat>, who: Player) -> bool {
    forall|j: int| 0 <= j < e.len() ==> (#[trigger] e[j]).2 != who
}

/// No entry of `e` is of kind `k`.
pub open spec fn no_kind(e: Seq<Threat>, k: ThreatType) -> bool {
    forall|j: int| 0 <= j < e.len() ==> (#[trigger] e[j]).1 != k
}

proof fn lemma_has_kind_ms(a: Seq<Threat>, b: Seq<Threat>, idx: usize, k: ThreatType)
    requires
        a.to_multiset() == b.to_multiset(),
    ensures
        has_kind_at(a, idx, k) == has_kind_at(b, idx, k),
{
    if has_kind_at(a, idx, k) {
        let j = choose|j: int| 0 <= j < a.len() && (#[trigger] a[j]).0 == idx && a[j].1 == k;
        assert(a.contains(a[j]));
        assert(a.to_multiset().count(a[j]) > 0);
        assert(b.to_multiset().count(a[j]) > 0);
        assert(b.contains(a[j]));
    }
    if has_kind_at(b, idx, k) {
        let j = choose|j: int| 0 <= j < b.len() && (#[trigger] b[j]).0 == idx && b[j].1 == k;
        assert(b.contains(b[j]));
        assert(b.to_multiset().count(b[j]) > 0);
        assert(a.to_multiset().count(b[j]) > 0);
        assert(a.contains(b[j]));
    }
}

proof fn lemma_has_kind_concat(a: Seq<Threat>, e: Seq<Threat>, idx: usize, k: ThreatType)
    requires
        no_kind(e, k),
    ensures
        has_kind_at(a + e, idx, k) == has_kind_at(a, idx, k),
{
    if has_kind_at(a + e, idx, k) {
        let j = choose|j: int|
            0 <= j < (a + e).len() && (#[trigger] (a + e)[j]).0 == idx && (a + e)[j].1 == k;
        if j >= a.len() {
            assert(e[j - a.len()] == (a + e)[j]);
        } else {
            assert(a[j] == (a + e)[j]);
        }
    }
    if has_kind_at(a, idx, k) {
        let j = choose|j: int| 0 <= j < a.len() && (#[trigger] a[j]).0 == idx && a[j].1 == k;
        assert((a + e)[j] == a[j]);
    }
}

proof fn lemma_contains_concat(a: Seq<Threat>, e: Seq<Threat>, x: Threat)
    requires
        none_of(e, x.2),
    ensures
        (a + e).contains(x) == a.contains(x),
{
    if (a + e).contains(x) {
        let j = choose|j: int| 0 <= j < (a + e).len() && (a + e)[j] == x;
        if j >= a.len() {
            assert(e[j - a.len()] == (a + e)[j]);
        } else {
            assert(a[j] == x);
        }
    }
    if a.contains(x) {
        let j = choose|j: int| 0 <= j < a.len() && a[j] == x;
        assert((a + e)[j] == x);
    }
}

/// Recording threats of `who` on `u`, which holds what `t` and `e` hold together, gives what
/// recording them on `t` and adding `e` gives, when `e` has no threat of `who` and none of the
/// blocking kind.
proof fn lemma_add_frame(
    t: Seq<Threat>,
    e: Seq<Threat>,
    u: Seq<Threat>,
    idxs: Seq<usize>,
    kind: ThreatType,
    who: Player,
    blocker: Option<ThreatType>,
)
    requires
        u.to_multiset() == (t + e).to_multiset(),
        none_of(e, who),
        blocker matches Some(k) ==> no_kind(e, k),
    ensures
        add_threats(u, idxs, kind, who, blocker).to_multiset() == (add_threats(
            t,
            idxs,
            kind,
            who,
            blocker,
        ) + e).to_multiset(),
    decreases idxs.len(),
{
    if idxs.len() > 0 {
        let prev = idxs.drop_last();
        lemma_add_frame(t, e, u, prev, kind, who, blocker);
        let bu = add_threats(u, prev, kind, who, blocker);
        let bt = add_threats(t, prev, kind, who, blocker);
        let x = (idxs.last(), kind, who);
        assert(bu.contains(x) == (bt + e).contains(x)) by {
            assert(bu.to_multiset().count(x) == (bt + e).to_multiset().count(x));
        }
        lemma_contains_concat(bt, e, x);
        if let Some(k) = blocker {
            lemma_has_kind_ms(bu, bt + e, idxs.last(), k);
            lemma_has_kind_concat(bt, e, idxs.last(), k);
        }
        vstd::seq_lib::lemma_multiset_commutative(bt, e);
        vstd::seq_lib::lemma_multiset_commutative(bt.push(x), e);
    }
}

/// The shapes of a window without a stone of its own player change nothing.
proof fn lemma_match_no_stone(w: Seq<u8>, who: Player, s: usize, score: int, th: Seq<Threat>)
    requires
        w.len() == 6,
        !has_own_stone(w),
    ensures
        match_spec(w, who, s, score, th) == (score, th),
{
    assert(w[0] != P && w[1] != P && w[2] != P && w[3] != P && w[4] != P && w[5] != P);
    assert(dead_four_cells(w, s) =~= Seq::<usize>::empty());
}

/// Recording the threats of a window on `u`, which holds what `t` and `e` hold together, gives
/// what recording them on `t` and adding `e` gives, when `e` has no threat of the window's
/// player, and no live three or live two when the window holds a stone of that player.
proof fn lemma_match_frame(
    w: Seq<u8>,
    who: Player,
    s: usize,
    score: int,
    t: Seq<Threat>,
    e: Seq<Threat>,
    u: Seq<Threat>,
)
    requires
        w.len() == 6,
        u.to_multiset() == (t + e).to_multiset(),
        none_of(e, who),
        has_own_stone(w) ==> no_kind(e, ThreatType::LiveThree) && no_kind(e, ThreatType::LiveTwo),
    ensures
        match_spec(w, who, s, score, u).1.to_multiset() == (match_spec(w, who, s, score, t).1
            + e).to_multiset(),
{
    if !has_own_stone(w) {
        lemma_match_no_stone(w, who, s, score, u);
        lemma_match_no_stone(w, who, s, score, t);
    } else if crate::patterns::five_in_window(w) {
    } else if crate::patterns::pat6(w, E, P, P, P, P, E) {
        let a = (s, ThreatType::LiveFour, who);
        let b = ((s + 5) as usize, ThreatType::LiveFour, who);
        vstd::seq_lib::lemma_multiset_commutative(t, e);
        vstd::seq_lib::lemma_multiset_commutative(t.push(a).push(b), e);
    } else {
        let d4 = dead_four_cells(w, s);
        let (u1, t1) = if d4.len() > 0 {
            lemma_add_frame(t, e, u, d4, ThreatType::DeadFour, who, None);
            (
                add_threats(u, d4, ThreatType::DeadFour, who, None),
                add_threats(t, d4, ThreatType::DeadFour, who, None),
            )
        } else {
            (u, t)
        };
        let l3 = live_three(w, s);
        let (u2, t2) = match l3 {
            Some((_, idxs)) => {
                lemma_add_frame(t1, e, u1, idxs, ThreatType::LiveThree, who, None);
                (
                    add_threats(u1, idxs, ThreatType::LiveThree, who, None),
                    add_threats(t1, idxs, ThreatType::LiveThree, who, None),
                )
            },
            None => (u1, t1),
        };
        let s3 = sleepy_three(w, s);
        let (u3, t3) = match (s3, l3) {
            (Some(idxs), None) => {
                lemma_add_frame(
                    t2,
                    e,
                    u2,
                    idxs,
                    ThreatType::SleepyThree,
                    who,
                    Some(ThreatType::LiveThree),
                );
                (
                    add_threats(
                        u2,
                        idxs,
                        ThreatType::SleepyThree,
                        who,
                        Some(ThreatType::LiveThree),
                    ),
                    add_threats(
                        t2,
                        idxs,
                        ThreatType::SleepyThree,
                        who,
                        Some(ThreatType::LiveThree),
                    ),
                )
            },
            _ => (u2, t2),
        };
        if l3 is None && s3 is None {
            match live_two(w, s) {
                Some(idxs) => {
                    lemma_add_frame(t3, e, u3, idxs, ThreatType::LiveTwo, who, None);
                },
                None => match sleepy_two(w, s) {
                    Some(idxs) => {
                        lemma_add_frame(
                            t3,
                            e,
                            u3,
                            idxs,
                            ThreatType::SleepyTwo,
                            who,
                            Some(ThreatType::LiveTwo),
                        );
                    },
                    None => {},
                },
            }
        }
    }
}

/// Recording threats only appends threats of kind `kind` by `who`.
proof fn lemma_add_extends(
    t: Seq<Threat>,
    idxs: Seq<usize>,
    kind: ThreatType,
    who: Player,
    blocker: Option<ThreatType>,
)
    ensures
        ({
            let r = add_threats(t, idxs, kind, who, blocker);
            &&& t.len() <= r.len()
            &&& r.subrange(0, t.len() as int) == t
            &&& forall|j: int| t.len() <= j < r.len() ==> (#[trigger] r[j]).1 == kind && r[j].2 == who
        }),
    decreases idxs.len(),
{
    if idxs.len() > 0 {
        lemma_add_extends(t, idxs.drop_last(), kind, who, blocker);
        let b = add_threats(t, idxs.drop_last(), kind, who, blocker);
        let x = (idxs.last(), kind, who);
        assert(b.push(x).subrange(0, t.len() as int) =~= b.subrange(0, t.len() as int));
    }
}

/// The threats of the window `w`, recorded on `t`.
pub open spec fn window_delta(w: Seq<u8>, who: Player, s: usize, score: int, t: Seq<Threat>) -> Seq<Threat> {
    match_spec(w, who, s, score, t).1.skip(t.len() as int)
}

/// Looking at a window appends threats of its player to what was recorded, and a live three
/// or live two only when the window holds one.
proof fn lemma_match_extends(w: Seq<u8>, who: Player, s: usize, score: int, t: Seq<Threat>)
    ensures
        match_spec(w, who, s, score, t).1 == t + window_delta(w, who, s, score, t),
        none_of(window_delta(w, who, s, score, t), who.spec_opponent()),
        live_three(w, s) is None && live_two(w, s) is None ==> no_kind(
            window_delta(w, who, s, score, t),
            ThreatType::LiveThree,
        ) && no_kind(window_delta(w, who, s, score, t), ThreatType::LiveTwo),
{
    let r = match_spec(w, who, s, score, t).1;
    let extends = |a: Seq<Threat>, b: Seq<Threat>, may_l3: bool, may_l2: bool|
        a.len() <= b.len() && b.subrange(0, a.len() as int) == a && forall|j: int|
            a.len() <= j < b.len() ==> (#[trigger] b[j]).2 == who && (!may_l3 ==> b[j].1
                != ThreatType::LiveThree) && (!may_l2 ==> b[j].1 != ThreatType::LiveTwo);
    let may3 = live_three(w, s) is Some;
    let may2 = live_two(w, s) is Some;
    assert(t.subrange(0, t.len() as int) =~= t);
    if crate::patterns::five_in_window(w) {
        assert(extends(t, r, may3, may2));
    } else if crate::patterns::pat6(w, E, P, P, P, P, E) {
        assert(r.subrange(0, t.len() as int) =~= t);
        assert(extends(t, r, may3, may2));
    } else {
        let d4 = dead_four_cells(w, s);
        lemma_add_extends(t, d4, ThreatType::DeadFour, who, None);
        let t1 = if d4.len() > 0 {
            add_threats(t, d4, ThreatType::DeadFour, who, None)
        } else {
            t
        };
        assert(extends(t, t1, may3, may2));
        assert(t1.subrange(0, t1.len() as int) =~= t1);
        let l3 = live_three(w, s);
        let t2 = match l3 {
            Some((_, idxs)) => {
                lemma_add_extends(t1, idxs, ThreatType::LiveThree, who, None);
                add_threats(t1, idxs, ThreatType::LiveThree, who, None)
            },
            None => t1,
        };
        assert(extends(t1, t2, may3, may2));
        assert(t2.subrange(0, t2.len() as int) =~= t2);
        let s3 = sleepy_three(w, s);
        let t3 = match (s3, l3) {
            (Some(idxs), None) => {
                lemma_add_extends(
                    t2,
                    idxs,
                    ThreatType::SleepyThree,
                    who,
                    Some(ThreatType::LiveThree),
                );
                add_threats(t2, idxs, ThreatType::SleepyThree, who, Some(ThreatType::LiveThree))
            },
            _ => t2,
        };
        assert(extends(t2, t3, may3, may2));
        assert(t3.subrange(0, t3.len() as int) =~= t3);
        if l3 is None && s3 is None {
            match live_two(w, s) {
                Some(idxs) => {
                    lemma_add_extends(t3, idxs, ThreatType::LiveTwo, who, None);
                },
                None => match sleepy_two(w, s) {
                    Some(idxs) => {
                        lemma_add_extends(
                            t3,
                            idxs,
                            ThreatType::SleepyTwo,
                            who,
                            Some(ThreatType::LiveTwo),
                        );
                    },
                    None => {},
                },
            }
        }
        assert(extends(t3, r, may3, may2));
        assert(extends(t, r, may3, may2)) by {
            assert(t1.subrange(0, t.len() as int) == t);
            assert(t2.subrange(0, t1.len() as int) == t1);
            assert(t3.subrange(0, t2.len() as int) == t2);
            assert(r.subrange(0, t3.len() as int) == t3);
            assert forall|j: int| 0 <= j < t.len() implies r[j] == t[j] by {
                assert(r[j] == t3[j]);
                assert(t3[j] == t2[j]);
                assert(t2[j] == t1[j]);
                assert(t1[j] == t[j]);
            }
            assert(r.subrange(0, t.len() as int) =~= t);
            assert forall|j: int| t.len() <= j < r.len() implies (#[trigger] r[j]).2 == who && (!may3
                ==> r[j].1 != ThreatType::LiveThree) && (!may2 ==> r[j].1 != ThreatType::LiveTwo) by {
                if j < t3.len() {
                    assert(r[j] == t3[j]);
                    if j < t2.len() {
                        assert(t3[j] == t2[j]);
                        if j < t1.len() {
                            assert(t2[j] == t1[j]);
                        }
                    }
                }
            }
        }
    }
    let d = window_delta(w, who, s, score, t);
    assert(r =~= t + d);
    assert forall|j: int| 0 <= j < d.len() implies (#[trigger] d[j]).2 != who.spec_opponent() by {
        assert(d[j] == r[t.len() + j]);
    }
    assert forall|j: int| 0 <= j < d.len() && !may3 implies (#[trigger] d[j]).1 != ThreatType::LiveThree by {
        assert(d[j] == r[t.len() + j]);
    }
    assert forall|j: int| 0 <= j < d.len() && !may2 implies (#[trigger] d[j]).1 != ThreatType::LiveTwo by {
        assert(d[j] == r[t.len() + j]);
    }
}

proof fn lemma_match_score(w: Seq<u8>, who: Player, s: usize, score: int, t1: Seq<Threat>, t2: Seq<Threat>)
    ensures
        match_spec(w, who, s, score, t1).0 == match_spec(w, who, s, score, t2).0,
{
}

/// Seen by the other player, a window has its own stones where it had the opponent's.
proof fn lemma_codes_swap(w: Seq<Option<Player>>, x: Player, s: usize)
    requires
        w.len() == 6,
    ensures
        window_codes(w, x).len() == 6,
        window_codes(w, x.spec_opponent()).len() == 6,
        has_own_stone(window_codes(w, x.spec_opponent())) ==> live_three(window_codes(w, x), s)
            is None && live_two(window_codes(w, x), s) is None,
{
    let a = window_codes(w, x);
    let b = window_codes(w, x.spec_opponent());
    if has_own_stone(b) {
        let i = choose|i: int| 0 <= i < 6 && b[i] == P;
        assert(a[i] == O);
    }
}

/// The threats of a window looked at first for `x`, then for its opponent, are those looked at
/// in the other order.
proof fn lemma_window_swap(
    w: Seq<Option<Player>>,
    x: Player,
    s: usize,
    xs: int,
    ys: int,
    th_a: Seq<Threat>,
    th_b: Seq<Threat>,
)
    requires
        w.len() == 6,
        th_a.to_multiset() == th_b.to_multiset(),
    ensures
        ({
            let y = x.spec_opponent();
            let wa = window_codes(w, x);
            let wb = window_codes(w, y);
            let ta = match_spec(wb, y, s, ys, match_spec(wa, x, s, xs, th_a).1).1;
            let tb = match_spec(wa, x, s, xs, match_spec(wb, y, s, ys, th_b).1).1;
            ta.to_multiset() == tb.to_multiset()
        }),
{
    let y = x.spec_opponent();
    let wa = window_codes(w, x);
    let wb = window_codes(w, y);
    assert(y.spec_opponent() == x);
    lemma_codes_swap(w, x, s);
    lemma_codes_swap(w, y, s);
    lemma_match_extends(wa, x, s, xs, th_a);
    lemma_match_extends(wb, y, s, ys, th_a);
    let dx = window_delta(wa, x, s, xs, th_a);
    let dy = window_delta(wb, y, s, ys, th_a);
    // x first: the threats of y are recorded on top of those of x.
    lemma_match_frame(wb, y, s, ys, th_a, dx, th_a + dx);
    // y first.
    assert(th_b.to_multiset() == (th_a + Seq::<Threat>::empty()).to_multiset()) by {
        assert(th_a + Seq::<Threat>::empty() =~= th_a);
    }
    lemma_match_frame(wb, y, s, ys, th_a, Seq::<Threat>::empty(), th_b);
    let u1 = match_spec(wb, y, s, ys, th_b).1;
    assert(match_spec(wb, y, s, ys, th_a).1 + Seq::<Threat>::empty() =~= th_a + dy);
    lemma_match_frame(wa, x, s, xs, th_a, dy, u1);
    // Both orders hold the same threats.
    vstd::seq_lib::lemma_multiset_commutative(th_a + dy, dx);
    vstd::seq_lib::lemma_multiset_commutative(th_a + dx, dy);
    vstd::seq_lib::lemma_multiset_commutative(th_a, dy);
    vstd::seq_lib::lemma_multiset_commutative(th_a, dx);
}

/// A line evaluated for the opponent has the two scores swapped and the same threats.
pub proof fn lemma_line_swap(line: Seq<Option<Player>>, ai: Player, k: int)
    requires
        0 <= k <= line.len() - 5,
    ensures
        line_upto(line, ai.spec_opponent(), k).0 == line_upto(line, ai, k).1,
        line_upto(line, ai.spec_opponent(), k).1 == line_upto(line, ai, k).0,
        line_upto(line, ai.spec_opponent(), k).2.to_multiset() == line_upto(line, ai, k).2.to_multiset(),
    decreases k,
{
    let opp = ai.spec_opponent();
    assert(opp.spec_opponent() == ai);
    if k > 0 {
        lemma_line_swap(line, ai, k - 1);
        let (a, o, th) = line_upto(line, ai, k - 1);
        let (a2, o2, th2) = line_upto(line, opp, k - 1);
        let w = window_at(line, k - 1);
        let s = (k - 1) as usize;
        let wa = window_codes(w, ai);
        let wb = window_codes(w, opp);
        lemma_match_score(wb, opp, s, o, th2, match_spec(wa, ai, s, a, th).1);
        lemma_match_score(wa, ai, s, a, th, match_spec(wb, opp, s, o, th2).1);
        lemma_window_swap(w, ai, s, a, o, th, th2);
    }
}

proof fn lemma_count_concat(a: Seq<Threat>, b: Seq<Threat>, coords: Seq<(usize, usize)>, k: int, ai: Player)
    ensures
        count_slot(a + b, coords, k, ai) == count_slot(a, coords, k, ai) + count_slot(b, coords, k, ai),
    decreases b.len(),
{
    if b.len() == 0 {
        assert(a + b =~= a);
    } else {
        lemma_count_concat(a, b.drop_last(), coords, k, ai);
        assert((a + b).drop_last() =~= a + b.drop_last());
        assert((a + b).last() == b.last());
    }
}

/// The count of a counter depends only on which threats were recorded, not on their order.
proof fn lemma_count_ms(t1: Seq<Threat>, t2: Seq<Threat>, coords: Seq<(usize, usize)>, k: int, ai: Player)
    requires
        t1.to_multiset() == t2.to_multiset(),
    ensures
        count_slot(t1, coords, k, ai) == count_slot(t2, coords, k, ai),
    decreases t1.len(),
{
    if t1.len() == 0 {
        assert(t2.to_multiset().len() == 0);
        assert(t2 =~= Seq::<Threat>::empty());
    } else {
        let x = t1.last();
        let r1 = t1.drop_last();
        assert(r1.push(x) =~= t1);
        assert(t1.to_multiset().count(x) > 0);
        assert(t2.contains(x));
        let j = choose|j: int| 0 <= j < t2.len() && t2[j] == x;
        let r2 = t2.remove(j);
        assert(r2.to_multiset() =~= t2.to_multiset().remove(x));
        assert(r1.to_multiset() =~= t1.to_multiset().remove(x));
        lemma_count_ms(r1, r2, coords, k, ai);
        let pre = t2.take(j);
        let post = t2.skip(j + 1);
        assert(t2 =~= pre + seq![x] + post);
        assert(r2 =~= pre + post);
        lemma_count_concat(pre + seq![x], post, coords, k, ai);
        lemma_count_concat(pre, seq![x], coords, k, ai);
        lemma_count_concat(pre, post, coords, k, ai);
        assert(seq![x].drop_last() =~= Seq::<Threat>::empty());
        let ind: nat = if entry_slot(x, coords, ai) == k {
            1
        } else {
            0
        };
        assert(count_slot(Seq::<Threat>::empty(), coords, k, ai) == 0);
        assert(seq![x].last() == x);
        assert(count_slot(seq![x], coords, k, ai) == ind);
        assert(count_slot(t1, coords, k, ai) == count_slot(r1, coords, k, ai) + ind);
        assert(count_slot(t2, coords, k, ai) == count_slot(pre, coords, k, ai) + ind + count_slot(
            post,
            coords,
            k,
            ai,
        ));
        assert(count_slot(r2, coords, k, ai) == count_slot(pre, coords, k, ai) + count_slot(
            post,
            coords,
            k,
            ai,
        ));
    }
}

/// Counting for the opponent swaps the two sides of each counter.
proof fn lemma_count_side(
    th: Seq<Threat>,
    coords: Seq<(usize, usize)>,
    c: int,
    t: ThreatType,
    side: int,
    ai: Player,
)
    requires
        0 <= c < 225,
        0 <= side <= 1,
        forall|i: int|
            0 <= i < coords.len() ==> crate::board::on_board(
                (#[trigger] coords[i]).0 as int,
                coords[i].1 as int,
            ),
    ensures
        count_slot(th, coords, slot(c, t, side), ai.spec_opponent()) == count_slot(
            th,
            coords,
            slot(c, t, 1 - side),
            ai,
        ),
    decreases th.len(),
{
    if th.len() > 0 {
        lemma_count_side(th.drop_last(), coords, c, t, side, ai);
        let e = th.last();
        if e.0 < coords.len() {
            assert(crate::board::on_board(coords[e.0 as int].0 as int, coords[e.0 as int].1 as int));
        }
        assert(side_of(e.2, ai.spec_opponent()) == 1 - side_of(e.2, ai));
        assert((entry_slot(e, coords, ai.spec_opponent()) == slot(c, t, side)) == (entry_slot(
            e,
            coords,
            ai,
        ) == slot(c, t, 1 - side)));
    }
}

proof fn lemma_line_threats_swap(b: Cells, ai: Player, l: int)
    requires
        0 <= l < 68,
    ensures
        line_threats(b, ai.spec_opponent(), l).to_multiset() == line_threats(b, ai, l).to_multiset(),
        line_eval(line_cells(b, l), ai.spec_opponent()).0 == line_eval(line_cells(b, l), ai).1,
        line_eval(line_cells(b, l), ai.spec_opponent()).1 == line_eval(line_cells(b, l), ai).0,
{
    crate::eval::lemma_line_geometry(l);
    let line = line_cells(b, l);
    lemma_line_swap(line, ai, line.len() - 5);
}

proof fn lemma_total_swap(b: Cells, ai: Player, n: int, c: int, t: ThreatType, side: int)
    requires
        0 <= n <= 68,
        0 <= c < 225,
        0 <= side <= 1,
    ensures
        total_slot(b, ai.spec_opponent(), n, slot(c, t, side)) == total_slot(b, ai, n, slot(c, t, 1 - side)),
    decreases n,
{
    if n > 0 {
        lemma_total_swap(b, ai, n - 1, c, t, side);
        let l = n - 1;
        crate::eval::lemma_line_geometry(l);
        lemma_line_threats_swap(b, ai, l);
        let coords = line_coords(l);
        assert forall|i: int| 0 <= i < coords.len() implies crate::board::on_board(
            (#[trigger] coords[i]).0 as int,
            coords[i].1 as int,
        ) by {
            assert(crate::board::on_board(crate::eval::line_x(l, i), crate::eval::line_y(l, i)));
        }
        lemma_count_side(line_threats(b, ai.spec_opponent(), l), coords, c, t, side, ai);
        lemma_count_ms(
            line_threats(b, ai.spec_opponent(), l),
            line_threats(b, ai, l),
            coords,
            slot(c, t, 1 - side),
            ai,
        );
    }
}

proof fn lemma_compound_swap(b: Cells, ai: Player, side: int, n: int)
    requires
        0 <= n <= 225,
        0 <= side <= 1,
    ensures
        compound_upto(b, ai.spec_opponent(), side, n) == compound_upto(b, ai, 1 - side, n),
    decreases n,
{
    if n > 0 {
        lemma_compound_swap(b, ai, side, n - 1);
        lemma_total_swap(b, ai, 68, n - 1, ThreatType::LiveFour, side);
        lemma_total_swap(b, ai, 68, n - 1, ThreatType::DeadFour, side);
        lemma_total_swap(b, ai, 68, n - 1, ThreatType::LiveThree, side);
        assert(compound_at(b, ai.spec_opponent(), n - 1, side) == compound_at(b, ai, n - 1, 1 - side));
    }
}

proof fn lemma_base_swap(b: Cells, ai: Player, n: int)
    requires
        0 <= n <= 68,
    ensures
        base_upto(b, ai.spec_opponent(), n).0 == base_upto(b, ai, n).1,
        base_upto(b, ai.spec_opponent(), n).1 == base_upto(b, ai, n).0,
    decreases n,
{
    if n > 0 {
        lemma_base_swap(b, ai, n - 1);
        lemma_line_threats_swap(b, ai, n - 1);
    }
}

/// The evaluation is zero-sum: a position is worth to one player exactly what it costs the
/// other.
pub proof fn lemma_eval_zero_sum(b: Cells, ai: Player)
    ensures
        eval_spec(b, ai.spec_opponent()) == -eval_spec(b, ai),
{
    lemma_base_swap(b, ai, 68);
    lemma_compound_swap(b, ai, 0, 225);
    lemma_compound_swap(b, ai, 1, 225);
}

} // verus!
