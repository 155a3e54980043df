//! What holds of every plan.

use crate::arithmetic::{Fixed, FixedPoint, Precision, Real};
use crate::partitioner::{
    best_from, best_in_pairs, best_in_turn, block_best, block_scan, blocks_best, dp_choice,
    lemma_choice, lemma_greedy_len, lemma_run_end, next_row, row, select, suffix_best,
    suffix_depth, values, GreedyPartitioner, Op, Segment, SHORT_WINDOW,
};
use crate::scratch::BLOCK;
use std::sync::Arc;
use vstd::prelude::*;

verus! {

// ---------------------------------------------------------------------------
// The shape of a plan
// ---------------------------------------------------------------------------
/// A segment of a pipeline: not empty, in bounds, no longer than `limit`, and
/// the GPU can run all of it.
pub open spec fn sound_segment<W>(ops: Seq<Arc<dyn Op<W>>>, limit: int, s: Segment) -> bool {
    &&& s.start < s.end <= ops.len()
    &&& s.end - s.start <= limit
    &&& forall|j: int| s.start <= j < s.end ==> (#[trigger] ops[j]).spec_gpu_capable()
}

/// Sound segments in order, none overlapping another, none before `from`.
pub open spec fn sound_plan<W>(
    ops: Seq<Arc<dyn Op<W>>>,
    limit: int,
    from: int,
    plan: Seq<Segment>,
) -> bool {
    &&& forall|k: int| 0 <= k < plan.len() ==> sound_segment(ops, limit, #[trigger] plan[k])
    &&& forall|k: int| 0 <= k < plan.len() ==> from <= (#[trigger] plan[k]).start
    &&& forall|j: int, k: int|
        0 <= j < k < plan.len() ==> (#[trigger] plan[j]).end <= (#[trigger] plan[k]).start
}

proof fn lemma_chosen<P: Precision>(
    p: &GreedyPartitioner<P>,
    ops: Seq<Arc<dyn Op<P::Wide>>>,
    i: int,
)
    ensures
        p.chosen(ops, i) matches Some(len) ==> 0 < len <= p.window_len(ops, i),
{
    lemma_choice(p, ops, i, p.window_len(ops, i));
}

/// Every plan is sound: its segments are not empty, lie in the pipeline in
/// order without overlap, hold only operators that the GPU can run, and are
/// no longer than `max_ops_in_fusion`.
pub proof fn law_plans_are_sound<P: Precision>(
    p: &GreedyPartitioner<P>,
    ops: Seq<Arc<dyn Op<P::Wide>>>,
    i: int,
)
    requires
        0 <= i,
        ops.len() <= usize::MAX,
    ensures
        sound_plan(ops, p.max_ops_in_fusion as int, i, p.plan(ops, i)),
    decreases
            (if i < ops.len() {
                ops.len() - i
            } else {
                0
            }),
{
    if i < ops.len() {
        let next = p.advance(ops, i);
        lemma_chosen(p, ops, i);
        lemma_run_end(ops, i, i + p.max_ops_in_fusion);
        law_plans_are_sound(p, ops, next);
        let rest = p.plan(ops, next);
        match p.chosen(ops, i) {
            Some(len) => {
                let s = Segment { start: i as usize, end: (i + len) as usize };
                let plan = seq![s] + rest;
                assert(sound_segment(ops, p.max_ops_in_fusion as int, s));
                assert(plan[0] == s);
                assert forall|k: int| 1 <= k < plan.len() implies #[trigger] plan[k] == rest[k
                    - 1] by {}
            },
            None => {},
        }
    }
}

/// An operator that the GPU cannot run is in no segment.
pub proof fn law_cpu_operators_stay_out<P: Precision>(
    p: &GreedyPartitioner<P>,
    ops: Seq<Arc<dyn Op<P::Wide>>>,
    j: int,
    k: int,
)
    requires
        ops.len() <= usize::MAX,
        0 <= j < ops.len(),
        !ops[j].spec_gpu_capable(),
        0 <= k < p.plan(ops, 0).len(),
    ensures
        !(p.plan(ops, 0)[k].start <= j < p.plan(ops, 0)[k].end),
{
    law_plans_are_sound(p, ops, 0);
    let s = p.plan(ops, 0)[k];
    assert(sound_segment(ops, p.max_ops_in_fusion as int, s));
}

// ---------------------------------------------------------------------------
// Greedy plans
// ---------------------------------------------------------------------------
/// A segment that grew while its benefit was positive, and no longer.
pub open spec fn grown_segment<P: Precision>(
    p: &GreedyPartitioner<P>,
    ops: Seq<Arc<dyn Op<P::Wide>>>,
    s: Segment,
) -> bool {
    let len = (s.end - s.start) as nat;
    &&& forall|j: nat|
        0 < j <= len ==> (#[trigger] p.benefit(ops, s.start as int, j)).spec_above(
            P::Wide::spec_zero(),
        )
    &&& len == p.window_len(ops, s.start as int) || !p.benefit(
        ops,
        s.start as int,
        len + 1,
    ).spec_above(P::Wide::spec_zero())
}

/// Without lookahead every segment is grown: each of its prefixes has a
/// positive benefit, and it ends where the window ends or where one operator
/// more would not.
pub proof fn law_greedy_segments_are_grown<P: Precision>(
    p: &GreedyPartitioner<P>,
    ops: Seq<Arc<dyn Op<P::Wide>>>,
    i: int,
)
    requires
        0 <= i,
        ops.len() <= usize::MAX,
        p.lookahead <= 1,
    ensures
        forall|k: int| 0 <= k < p.plan(ops, i).len() ==> grown_segment(p, ops, #[trigger] p.plan(ops, i)[k]),
    decreases
            (if i < ops.len() {
                ops.len() - i
            } else {
                0
            }),
{
    if i < ops.len() {
        let next = p.advance(ops, i);
        lemma_chosen(p, ops, i);
        lemma_run_end(ops, i, i + p.max_ops_in_fusion);
        lemma_greedy_len(p, ops, i, 0, p.window_len(ops, i));
        law_greedy_segments_are_grown(p, ops, next);
        let rest = p.plan(ops, next);
        match p.chosen(ops, i) {
            Some(len) => {
                let s = Segment { start: i as usize, end: (i + len) as usize };
                let plan = seq![s] + rest;
                assert(grown_segment(p, ops, s));
                assert forall|k: int| 0 <= k < plan.len() implies grown_segment(
                    p,
                    ops,
                    #[trigger] plan[k],
                ) by {
                    if k > 0 {
                        assert(plan[k] == rest[k - 1]);
                    }
                }
            },
            None => {},
        }
    }
}

proof fn lemma_same_growth<P: Precision>(
    p: &GreedyPartitioner<P>,
    q: &GreedyPartitioner<P>,
    ops: Seq<Arc<dyn Op<P::Wide>>>,
    i: int,
    k: nat,
    n: nat,
)
    requires
        p.bytes_per_ms == q.bytes_per_ms,
    ensures
        p.greedy_len(ops, i, k, n) == q.greedy_len(ops, i, k, n),
    decreases n - k,
{
    if k < n && p.benefit(ops, i, k + 1).spec_above(P::Wide::spec_zero()) {
        lemma_same_growth(p, q, ops, i, k + 1, n);
    }
}

/// A lookahead of none and of one plan alike.
pub proof fn law_lookahead_of_one_is_none<P: Precision>(
    p: &GreedyPartitioner<P>,
    q: &GreedyPartitioner<P>,
    ops: Seq<Arc<dyn Op<P::Wide>>>,
    i: int,
)
    requires
        p.lookahead <= 1,
        q.lookahead <= 1,
        p.bytes_per_ms == q.bytes_per_ms,
        p.max_ops_in_fusion == q.max_ops_in_fusion,
    ensures
        p.plan(ops, i) == q.plan(ops, i),
    decreases
            (if i < ops.len() {
                ops.len() - i
            } else {
                0
            }),
{
    if i < ops.len() {
        lemma_same_growth(p, q, ops, i, 0, p.window_len(ops, i));
        law_lookahead_of_one_is_none(p, q, ops, p.advance(ops, i));
    }
}

/// Whether a place lies in a segment of a plan.
pub open spec fn covered(plan: Seq<Segment>, j: int) -> bool {
    exists|k: int| 0 <= k < plan.len() && (#[trigger] plan[k]).start <= j < plan[k].end
}

/// An operator that the GPU can run and whose own benefit is positive is in a
/// segment, whatever the lookahead.
pub proof fn law_paying_operators_are_planned<P: Precision>(
    p: &GreedyPartitioner<P>,
    ops: Seq<Arc<dyn Op<P::Wide>>>,
    i: int,
    j: int,
)
    requires
        0 <= i <= j < ops.len() <= usize::MAX,
        p.max_ops_in_fusion > 0,
        ops[j].spec_gpu_capable(),
        p.benefit(ops, j, 1).spec_above(P::Wide::spec_zero()),
    ensures
        covered(p.plan(ops, i), j),
    decreases ops.len() - i,
{
    let next = p.advance(ops, i);
    let rest = p.plan(ops, next);
    lemma_chosen(p, ops, i);
    lemma_run_end(ops, i, i + p.max_ops_in_fusion);
    lemma_greedy_len(p, ops, i, 0, p.window_len(ops, i));
    match p.chosen(ops, i) {
        Some(len) => {
            let s = Segment { start: i as usize, end: (i + len) as usize };
            let plan = seq![s] + rest;
            if j < i + len {
                assert(plan[0] == s);
            } else {
                law_paying_operators_are_planned(p, ops, next, j);
                let k = choose|k: int|
                    0 <= k < rest.len() && (#[trigger] rest[k]).start <= j < rest[k].end;
                assert(plan[k + 1] == rest[k]);
            }
        },
        None => {
            if i == j {
                assert(p.has_window(ops, i));
                assert(p.window_len(ops, i) > 0);
                assert(p.greedy_len(ops, i, 0, p.window_len(ops, i)) == 0);
            }
            law_paying_operators_are_planned(p, ops, next, j);
        },
    }
}

/// Where the total that lookahead finds is not positive, the segment is the one
/// that is accumulated without lookahead, or there is none.
pub proof fn law_lookahead_falls_back<P: Precision>(
    p: &GreedyPartitioner<P>,
    ops: Seq<Arc<dyn Op<P::Wide>>>,
    i: int,
    n: nat,
)
    requires
        p.lookahead > 1,
        dp_choice::<P>(p.scores(ops, i, n), p.lookahead as int) is None,
    ensures
        p.choice(ops, i, n) == p.accumulated(ops, i, n),
        p.choice(ops, i, n) is None <==> n == 0 || !p.benefit(ops, i, 1).spec_above(
            P::Wide::spec_zero(),
        ),
{
    lemma_greedy_len(p, ops, i, 0, n);
}

// ---------------------------------------------------------------------------
// Plans with lookahead, in fixed-point numbers
// ---------------------------------------------------------------------------
/// The greatest score from position `e` on.
pub open spec fn tail_max(a: Seq<Fixed>, e: int) -> int
    decreases a.len() - e,
{
    if e >= a.len() - 1 {
        a[e].units as int
    } else if a[e].units > tail_max(a, e + 1) {
        a[e].units as int
    } else {
        tail_max(a, e + 1)
    }
}

/// The smaller of the two.
pub open spec fn least(x: int, y: int) -> int {
    if x < y {
        x
    } else {
        y
    }
}

/// Every score is far enough from the ends of the range for the totals to
/// stay inside it.
pub open spec fn moderate(a: Seq<Fixed>) -> bool {
    forall|k: int|
        0 <= k < a.len() ==> -0x1000_0000_0000_0000 <= (#[trigger] a[k]).units <= 0x1000_0000_0000_0000
}

proof fn lemma_tail_max(a: Seq<Fixed>, e: int)
    requires
        moderate(a),
        0 <= e < a.len(),
    ensures
        -0x1000_0000_0000_0000 <= tail_max(a, e) <= 0x1000_0000_0000_0000,
    decreases a.len() - e,
{
    assert(-0x1000_0000_0000_0000 <= a[e].units <= 0x1000_0000_0000_0000);
    if e < a.len() - 1 {
        lemma_tail_max(a, e + 1);
    }
}

proof fn lemma_tail_max_falls(a: Seq<Fixed>, e: int, f: int)
    requires
        0 <= e <= f < a.len(),
    ensures
        tail_max(a, f) <= tail_max(a, e),
    decreases f - e,
{
    if e < f {
        lemma_tail_max_falls(a, e + 1, f);
    }
}

/// The row for `k` segments holds, at each position, the greatest score that
/// is at least `k` positions further on (or the last), less the score there.
spec fn is_row(a: Seq<Fixed>, k: int, r: Seq<Fixed>) -> bool {
    &&& r.len() == a.len()
    &&& forall|e: int|
        0 <= e < a.len() ==> (#[trigger] r[e]).units == tail_max(a, least(e + k, a.len() - 1))
            - a[e].units
}

proof fn lemma_suffix_best_zero(a: Seq<Fixed>, prev: Seq<Fixed>, e: int)
    requires
        moderate(a),
        prev.len() == a.len(),
        forall|x: int| 0 <= x < a.len() ==> (#[trigger] prev[x]).units == 0,
        0 <= e < a.len(),
    ensures
        suffix_best(prev, a, e).units == tail_max(a, e),
    decreases a.len() - e,
{
    lemma_tail_max(a, e);
    assert(prev[e].units == 0);
    if e < a.len() - 1 {
        lemma_suffix_best_zero(a, prev, e + 1);
    }
}

proof fn lemma_suffix_best(a: Seq<Fixed>, prev: Seq<Fixed>, k: int, e: int)
    requires
        moderate(a),
        k >= 1,
        is_row(a, k, prev),
        0 <= e < a.len(),
    ensures
        suffix_best(prev, a, e).units == tail_max(a, least(e + k, a.len() - 1)),
    decreases a.len() - e,
{
    let last = a.len() - 1;
    let at = least(e + k, last);
    lemma_tail_max(a, at);
    assert(prev[e].units == tail_max(a, at) - a[e].units);
    assert(prev[e].spec_plus(a[e]).units == tail_max(a, at));
    if e < last {
        lemma_suffix_best(a, prev, k, e + 1);
        lemma_tail_max_falls(a, at, least(e + 1 + k, last));
    }
}

/// The greatest of the values from `from` up to `to`.
spec fn greatest(v: Seq<Fixed>, from: int, to: int, m: int) -> bool {
    &&& forall|k: int| from <= k < to ==> (#[trigger] v[k]).units <= m
    &&& exists|k: int| from <= k < to && (#[trigger] v[k]).units == m
}

proof fn lemma_turns(v: Seq<Fixed>, from: int, to: int)
    requires
        0 <= from < to <= v.len(),
    ensures
        greatest(v, from, to, best_in_turn(v, from, to).units as int),
    decreases to - from,
{
    let last = v[to - 1];
    if from < to - 1 {
        lemma_turns(v, from, to - 1);
    } else {
        assert(best_in_turn(v, from, to - 1).units == i64::MIN);
        assert(best_in_turn(v, from, to).units == last.units);
    }
    assert(v[to - 1].units == last.units);
}

proof fn lemma_pairs(v: Seq<Fixed>, from: int)
    requires
        0 <= from,
        from + 8 <= v.len(),
    ensures
        greatest(v, from, from + 8, best_in_pairs(v, from).units as int),
{
    let m = best_in_pairs(v, from).units as int;
    assert forall|k: int| from <= k < from + 8 implies (#[trigger] v[k]).units <= m by {
        assert(k == from || k == from + 1 || k == from + 2 || k == from + 3 || k == from + 4 || k
            == from + 5 || k == from + 6 || k == from + 7);
    }
    assert(v[from].units == m || v[from + 1].units == m || v[from + 2].units == m || v[from
        + 3].units == m || v[from + 4].units == m || v[from + 5].units == m || v[from + 6].units == m
        || v[from + 7].units == m);
}

proof fn lemma_blocks(v: Seq<Fixed>, b: int)
    requires
        0 <= b,
        b * BLOCK < v.len(),
    ensures
        greatest(v, b * BLOCK, v.len() as int, blocks_best(v, b).units as int),
    decreases v.len() - b * BLOCK,
{
    let from = b * BLOCK;
    let mid = if from + 8 <= v.len() {
        from + 8
    } else {
        v.len() as int
    };
    assert((b + 1) * BLOCK == from + 8);
    if from + 8 <= v.len() {
        lemma_pairs(v, from);
    } else {
        lemma_turns(v, from, v.len() as int);
    }
    let m = block_best(v, b).units as int;
    assert(greatest(v, from, mid, m));
    if from + 8 < v.len() {
        lemma_blocks(v, b + 1);
        lemma_greatest(v, from, mid, v.len() as int, m, blocks_best(v, b + 1).units as int);
    }
}

proof fn lemma_greatest(v: Seq<Fixed>, from: int, mid: int, to: int, m: int, n: int)
    requires
        from <= mid <= to,
        greatest(v, from, mid, m),
        greatest(v, mid, to, n),
    ensures
        greatest(
            v,
            from,
            to,
            if n > m {
                n
            } else {
                m
            },
        ),
{
    let k = choose|k: int| from <= k < mid && (#[trigger] v[k]).units == m;
    let j = choose|j: int| mid <= j < to && (#[trigger] v[j]).units == n;
    assert(v[k].units == m && v[j].units == n);
}

proof fn lemma_scan(v: Seq<Fixed>, e: int)
    requires
        0 <= e < v.len(),
    ensures
        greatest(v, e, v.len() as int, block_scan(v, e).units as int),
    decreases v.len() - e,
{
    let here = v[e].units as int;
    assert(greatest(v, e, e + 1, here)) by {
        assert(v[e].units == here);
    }
    if e + 1 < v.len() {
        let rest = if (e + 1) % BLOCK as int == 0 {
            let b = (e + 1) / BLOCK as int;
            assert(b * BLOCK == e + 1);
            lemma_blocks(v, b);
            blocks_best(v, b).units as int
        } else {
            lemma_scan(v, e + 1);
            block_scan(v, e + 1).units as int
        };
        lemma_greatest(v, e, e + 1, v.len() as int, here, rest);
    }
}

proof fn lemma_suffix(prev: Seq<Fixed>, a: Seq<Fixed>, e: int)
    requires
        0 <= e < a.len(),
    ensures
        greatest(values(prev, a), e, a.len() as int, suffix_best(prev, a, e).units as int),
    decreases a.len() - e,
{
    let v = values(prev, a);
    let here = v[e].units as int;
    assert(greatest(v, e, e + 1, here)) by {
        assert(v[e].units == here);
    }
    if e < a.len() - 1 {
        lemma_suffix(prev, a, e + 1);
        lemma_greatest(
            v,
            e,
            e + 1,
            a.len() as int,
            here,
            suffix_best(prev, a, e + 1).units as int,
        );
    }
}

/// Looking at a long window by blocks changes nothing: the best value from a
/// position on is the one that looking at all of them in turn finds.
pub proof fn law_blocks_change_nothing(prev: Seq<Fixed>, a: Seq<Fixed>, e: int)
    requires
        0 <= e < a.len(),
    ensures
        best_from(prev, a, e) == suffix_best(prev, a, e),
{
    let v = values(prev, a);
    if a.len() > SHORT_WINDOW && e < a.len() - 1 {
        lemma_scan(v, e);
        lemma_suffix(prev, a, e);
        let m = block_scan(v, e).units as int;
        let n = suffix_best(prev, a, e).units as int;
        let i = choose|i: int| e <= i < v.len() && (#[trigger] v[i]).units == m;
        let j = choose|j: int| e <= j < v.len() && (#[trigger] v[j]).units == n;
        assert(v[i].units <= n && v[j].units <= m);
    }
}

proof fn lemma_row(a: Seq<Fixed>, k: nat)
    requires
        moderate(a),
        a.len() > 0,
        k >= 1,
    ensures
        is_row(a, k as int, row(a, k)),
    decreases k,
{
    let last = a.len() - 1;
    let prev = row(a, (k - 1) as nat);
    let r = next_row(prev, a);
    assert(row(a, k) == r);
    if k > 1 {
        lemma_row(a, (k - 1) as nat);
    }
    assert forall|e: int| 0 <= e < a.len() implies (#[trigger] r[e]).units == tail_max(
        a,
        least(e + k, last),
    ) - a[e].units by {
        if e < last {
            law_blocks_change_nothing(prev, a, e + 1);
            if k == 1 {
                lemma_suffix_best_zero(a, prev, e + 1);
            } else {
                lemma_suffix_best(a, prev, k - 1, e + 1);
            }
            lemma_tail_max(a, least(e + k, last));
            assert(-0x1000_0000_0000_0000 <= a[e].units <= 0x1000_0000_0000_0000);
        }
    }
}

proof fn lemma_select(a: Seq<Fixed>, dp: Seq<Fixed>, k: int, upto: nat)
    requires
        moderate(a),
        k >= 1,
        is_row(a, k, dp),
        1 <= upto < a.len(),
    ensures
        ({
            let last = a.len() - 1;
            let best = tail_max(a, least(1 + k, last));
            let (v, end) = select::<FixedPoint>(dp, a, upto);
            &&& v.units == best
            &&& 1 <= end <= upto
            &&& tail_max(a, least(end + k, last)) >= best - 1
            &&& end < upto ==> tail_max(a, least(end + 1 + k, last)) < best - 1
        }),
    decreases upto,
{
    let last = a.len() - 1;
    let best = tail_max(a, least(1 + k, last));
    let here = tail_max(a, least(upto + k, last));
    lemma_tail_max(a, least(1 + k, last));
    lemma_tail_max(a, least(upto + k, last));
    lemma_tail_max_falls(a, least(1 + k, last), least(upto + k, last));
    assert(dp[upto as int].units == here - a[upto as int].units);
    assert(dp[upto as int].spec_plus(a[upto as int]).units == here);
    if upto == 1 {
        assert(select::<FixedPoint>(dp, a, 0).0.units == i64::MIN);
    } else {
        lemma_select(a, dp, k, (upto - 1) as nat);
        let end = select::<FixedPoint>(dp, a, (upto - 1) as nat).1;
        if end < upto - 1 {
            lemma_tail_max_falls(a, least(end + 1 + k, last), least(upto + k, last));
        }
    }
}

/// With lookahead, what a window is worth is decided by the best of the scores
/// that `lookahead` segments, one operator or more each, can end at: the search
/// finds a first segment exactly where that beats the score of nothing, and it
/// is the longest one after which the best score, to within the tolerance, is
/// still in reach.
pub proof fn law_lookahead_keeps_best_score_in_reach(a: Seq<Fixed>, lookahead: int)
    requires
        moderate(a),
        a.len() >= 2,
        lookahead >= 2,
    ensures
        ({
            let last = a.len() - 1;
            let depth = suffix_depth(lookahead, last) as int;
            let best = tail_max(a, least(1 + depth, last));
            match dp_choice::<FixedPoint>(a, lookahead) {
                None => best <= a[0].units,
                Some(len) => {
                    &&& best > a[0].units
                    &&& 1 <= len <= last
                    &&& tail_max(a, least(len + depth, last)) >= best - 1
                    &&& len < last ==> tail_max(a, least(len + 1 + depth, last)) < best - 1
                },
            }
        }),
{
    let last = a.len() - 1;
    let depth = suffix_depth(lookahead, last);
    lemma_row(a, depth);
    lemma_select(a, row(a, depth), depth as int, last as nat);
    lemma_tail_max(a, least(1 + depth as int, last));
    assert(-0x1000_0000_0000_0000 <= a[0].units <= 0x1000_0000_0000_0000);
}

} // verus!
