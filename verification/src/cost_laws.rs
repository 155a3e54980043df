//! What plans are made for, in fixed-point numbers: the time that operators
//! save, less the time that their bytes take at the planner's bandwidth.

use crate::arithmetic::{quotient, Fixed, FixedPoint, Precision, Real, UNITS};
use crate::partitioner::{
    compute_sum, dp_choice, lemma_greedy_len, run_end, transfer_sum, GreedyPartitioner, Op,
    Partitioner, Segment,
};
use crate::plan_laws::{law_lookahead_keeps_best_score_in_reach, least, tail_max};
use std::sync::Arc;
use vstd::prelude::*;

verus! {

// ---------------------------------------------------------------------------
// Costs
// ---------------------------------------------------------------------------
/// The sum of the compute estimates of `k` operators from `i` on, in
/// billionths of a millisecond.
pub open spec fn compute_units(ops: Seq<Arc<dyn Op<Fixed>>>, i: int, k: nat) -> int
    decreases k,
{
    if k == 0 {
        0
    } else {
        compute_units(ops, i, (k - 1) as nat) + ops[i + k - 1].spec_estimate().0.units
    }
}

/// The sum of the bytes that `k` operators from `i` on move.
pub open spec fn byte_count<W>(ops: Seq<Arc<dyn Op<W>>>, i: int, k: nat) -> int
    decreases k,
{
    if k == 0 {
        0
    } else {
        byte_count(ops, i, (k - 1) as nat) + ops[i + k - 1].spec_estimate().1
    }
}

/// What `k` operators from `i` on cost is far from the ends of the range:
/// neither their compute estimates nor their transfers come near them.
pub open spec fn in_range(
    p: &GreedyPartitioner<FixedPoint>,
    ops: Seq<Arc<dyn Op<Fixed>>>,
    i: int,
    k: nat,
) -> bool {
    &&& -0x0800_0000_0000_0000 <= compute_units(ops, i, k) <= 0x0800_0000_0000_0000
    &&& byte_count(ops, i, k) <= usize::MAX
    &&& byte_count(ops, i, k) * 1_000_000_000 <= i64::MAX
    &&& byte_count(ops, i, k) * 1_000_000_000_000_000_000 <= 0x0800_0000_0000_0000
        * p.bytes_per_ms.units
}

/// What each prefix of `n` operators from `i` on costs is in range, and the
/// bandwidth is positive.
pub open spec fn costs_in_range(
    p: &GreedyPartitioner<FixedPoint>,
    ops: Seq<Arc<dyn Op<Fixed>>>,
    i: int,
    n: nat,
) -> bool {
    &&& p.bytes_per_ms.units > 0
    &&& forall|k: nat| k <= n ==> #[trigger] in_range(p, ops, i, k)
}

proof fn lemma_sums(
    p: &GreedyPartitioner<FixedPoint>,
    ops: Seq<Arc<dyn Op<Fixed>>>,
    i: int,
    k: nat,
)
    requires
        costs_in_range(p, ops, i, k),
    ensures
        compute_sum(ops, i, k).units == compute_units(ops, i, k),
        transfer_sum(ops, i, k) == byte_count(ops, i, k),
        byte_count(ops, i, k) >= 0,
    decreases k,
{
    assert(in_range(p, ops, i, k));
    if k > 0 {
        assert(in_range(p, ops, i, (k - 1) as nat));
        assert(costs_in_range(p, ops, i, (k - 1) as nat));
        lemma_sums(p, ops, i, (k - 1) as nat);
    }
}

proof fn lemma_floor(x: int, b: int)
    requires
        x >= 0,
        b > 0,
    ensures
        (x / b) * b <= x < (x / b + 1) * b,
        x / b >= 0,
{
    vstd::arithmetic::div_mod::lemma_fundamental_div_mod(x, b);
    vstd::arithmetic::div_mod::lemma_mod_bound(x, b);
    assert((x / b) * b <= x < (x / b + 1) * b) by (nonlinear_arith)
        requires
            x == b * (x / b) + x % b,
            0 <= x % b < b,
    ;
    assert(x / b >= 0) by (nonlinear_arith)
        requires
            x >= 0,
            b > 0,
    ;
}

/// The benefit of operators is the sum of their compute estimates less the sum
/// of their bytes divided by the planner's own bandwidth, rounded by less than
/// a billionth; so is their score, rounded by less than a billionth for each
/// byte. (With `b` billionths of a byte to a millisecond, `t` bytes take
/// `t * 10^18 / b` billionths of a millisecond.)
pub proof fn law_benefit_is_time_saved(
    p: &GreedyPartitioner<FixedPoint>,
    ops: Seq<Arc<dyn Op<Fixed>>>,
    i: int,
    k: nat,
)
    requires
        costs_in_range(p, ops, i, k),
    ensures
        ({
            let b = p.bytes_per_ms.units as int;
            let time = compute_units(ops, i, k);
            let moved = byte_count(ops, i, k) * 1_000_000_000_000_000_000;
            let benefit = time - p.benefit(ops, i, k).units;
            let score = time - p.score(ops, i, k).units;
            &&& benefit * b <= moved < (benefit + 1) * b
            &&& score * b <= moved <= (score + byte_count(ops, i, k)) * b
            &&& -0x1000_0000_0000_0000 <= p.score(ops, i, k).units <= 0x1000_0000_0000_0000
            &&& 0 <= score <= benefit
        }),
{
    let b = p.bytes_per_ms.units as int;
    let t = byte_count(ops, i, k);
    let time = compute_units(ops, i, k);
    let unit: int = 1_000_000_000;
    let square: int = 1_000_000_000_000_000_000;
    lemma_sums(p, ops, i, k);
    assert(in_range(p, ops, i, k));
    assert(transfer_sum(ops, i, k) as usize == t);
    // The benefit.
    let count = Fixed::spec_of_count(t as usize);
    assert(count.units == t * unit);
    assert((t * unit) * unit == t * square) by (nonlinear_arith)
        requires
            unit == 1_000_000_000,
            square == 1_000_000_000_000_000_000,
    ;
    assert(t * square >= 0) by (nonlinear_arith)
        requires
            t >= 0,
            square > 0,
    ;
    lemma_floor(t * square, b);
    let q = (t * square) / b;
    assert(q <= 0x0800_0000_0000_0000) by (nonlinear_arith)
        requires
            q * b <= t * square,
            t * square <= 0x0800_0000_0000_0000 * b,
            b > 0,
    ;
    assert(count.units * UNITS == t * square);
    assert(quotient(count.units * UNITS, b) == q);
    assert(count.spec_over(p.bytes_per_ms).units == q);
    assert(p.benefit(ops, i, k).units == time - q);
    // The score.
    lemma_floor(square, b);
    let r = square / b;
    assert(r <= square) by (nonlinear_arith)
        requires
            r * b <= square,
            b >= 1,
            r >= 0,
    ;
    let one = Fixed::spec_one();
    assert(one.units * UNITS == square);
    assert(p.rate().units == r);
    assert((t * unit) * r == (t * r) * unit) by (nonlinear_arith);
    assert(t * r >= 0) by (nonlinear_arith)
        requires
            t >= 0,
            r >= 0,
    ;
    let product = count.units * p.rate().units;
    assert(product == (t * r) * unit);
    vstd::arithmetic::div_mod::lemma_div_multiples_vanish(t * r, unit);
    assert(((t * r) * unit) / unit == t * r) by {
        vstd::arithmetic::mul::lemma_mul_is_commutative(t * r, unit);
    }
    assert(product >= 0) by (nonlinear_arith)
        requires
            product == (t * r) * unit,
            t * r >= 0,
            unit > 0,
    ;
    assert(quotient(product, UNITS as int) == t * r);
    assert((t * r) * b <= t * square) by (nonlinear_arith)
        requires
            r * b <= square,
            t >= 0,
    ;
    assert(t * square <= (t * r + t) * b) by (nonlinear_arith)
        requires
            square < (r + 1) * b,
            t >= 0,
    ;
    assert(t * r <= q) by (nonlinear_arith)
        requires
            (t * r) * b <= t * square,
            t * square < (q + 1) * b,
            b > 0,
    ;
    assert(count.spec_times(p.rate()).units == t * r);
    assert(p.score(ops, i, k).units == time - t * r);
}

/// An operator by itself is worth moving where its compute estimate times the
/// bandwidth exceeds its bytes, whatever the bandwidth: its benefit is then
/// positive, and else it is not.
pub proof fn law_single_benefit(
    p: &GreedyPartitioner<FixedPoint>,
    ops: Seq<Arc<dyn Op<Fixed>>>,
    i: int,
)
    requires
        costs_in_range(p, ops, i, 1),
    ensures
        ({
            let (c, t) = ops[i].spec_estimate();
            p.benefit(ops, i, 1).units > 0 <==> c.units * p.bytes_per_ms.units > t
                * 1_000_000_000_000_000_000
        }),
{
    law_benefit_is_time_saved(p, ops, i, 1);
    let b = p.bytes_per_ms.units as int;
    let (c, t) = ops[i].spec_estimate();
    reveal_with_fuel(compute_units, 2);
    reveal_with_fuel(byte_count, 2);
    assert(compute_units(ops, i, 1) == c.units);
    assert(byte_count(ops, i, 1) == t);
    let benefit = p.benefit(ops, i, 1).units as int;
    let cost = c.units - benefit;
    let moved = t * 1_000_000_000_000_000_000;
    if benefit > 0 {
        assert(c.units * b > moved) by (nonlinear_arith)
            requires
                moved < (cost + 1) * b,
                cost == c.units - benefit,
                benefit >= 1,
                b > 0,
        ;
    } else {
        assert(c.units * b <= moved) by (nonlinear_arith)
            requires
                cost * b <= moved,
                cost == c.units - benefit,
                benefit <= 0,
                b > 0,
        ;
    }
}

// ---------------------------------------------------------------------------
// Plans
// ---------------------------------------------------------------------------
/// The `n` operators from `i` on are those that a segment from `i` on can hold:
/// the GPU can run them, they are no more than `most`, and one more would be
/// past the end, too many or not for the GPU.
pub open spec fn is_window<W>(ops: Seq<Arc<dyn Op<W>>>, i: int, n: nat, most: int) -> bool {
    &&& 0 <= i
    &&& i + n <= ops.len()
    &&& n <= most
    &&& forall|j: int| i <= j < i + n ==> (#[trigger] ops[j]).spec_gpu_capable()
    &&& n == most || i + n == ops.len() || !ops[i + n].spec_gpu_capable()
}

proof fn lemma_run<W>(ops: Seq<Arc<dyn Op<W>>>, i: int, j: int, n: nat, most: int)
    requires
        is_window(ops, i, n, most),
        i <= j <= i + n,
    ensures
        run_end(ops, j, i + most) == i + n,
    decreases i + n - j,
{
    if j < i + n {
        assert(ops[j].spec_gpu_capable());
        lemma_run(ops, i, j + 1, n, most);
    }
}

/// The window of a planner.
proof fn lemma_window<P: Precision>(
    p: &GreedyPartitioner<P>,
    ops: Seq<Arc<dyn Op<P::Wide>>>,
    i: int,
    n: nat,
)
    requires
        is_window(ops, i, n, p.max_ops_in_fusion as int),
        n > 0,
    ensures
        p.has_window(ops, i),
        p.window_len(ops, i) == n,
{
    lemma_run(ops, i, i, n, p.max_ops_in_fusion as int);
    assert(ops[i].spec_gpu_capable());
}

/// The segment of `len` operators from `i` on.
pub open spec fn segment_at(i: int, len: nat) -> Segment {
    Segment { start: i as usize, end: (i + len) as usize }
}

/// What the operators from `i` on accumulate to, in a window of `n`: every
/// prefix of theirs has a positive benefit, and one operator more would not,
/// or is not in the window.
pub open spec fn accumulates<P: Precision>(
    p: &GreedyPartitioner<P>,
    ops: Seq<Arc<dyn Op<P::Wide>>>,
    i: int,
    n: nat,
    len: nat,
) -> bool {
    &&& len <= n
    &&& forall|j: nat|
        1 <= j <= len ==> (#[trigger] p.benefit(ops, i, j)).spec_above(P::Wide::spec_zero())
    &&& len == n || !p.benefit(ops, i, len + 1).spec_above(P::Wide::spec_zero())
}

/// Past the end nothing is planned, and an operator that the GPU cannot run is
/// stepped over; so is every operator where no segment may hold any.
pub proof fn law_plan_steps_over<P: Precision>(
    p: &GreedyPartitioner<P>,
    ops: Seq<Arc<dyn Op<P::Wide>>>,
    i: int,
)
    requires
        0 <= i,
    ensures
        i >= ops.len() ==> p.plan(ops, i) == Seq::<Segment>::empty(),
        i < ops.len() && (!ops[i].spec_gpu_capable() || p.max_ops_in_fusion == 0) ==> p.plan(
            ops,
            i,
        ) == p.plan(ops, i + 1),
{
}

/// Without lookahead, a plan goes on from `i` with the segment that the
/// operators there accumulate to, or, where that is none, steps over one.
pub proof fn law_plan_accumulates<P: Precision>(
    p: &GreedyPartitioner<P>,
    ops: Seq<Arc<dyn Op<P::Wide>>>,
    i: int,
    n: nat,
    len: nat,
)
    requires
        p.lookahead <= 1,
        n > 0,
        is_window(ops, i, n, p.max_ops_in_fusion as int),
        accumulates(p, ops, i, n, len),
    ensures
        p.plan(ops, i) == if len > 0 {
            seq![segment_at(i, len)] + p.plan(ops, i + len)
        } else {
            p.plan(ops, i + 1)
        },
{
    lemma_window(p, ops, i, n);
    lemma_accumulated(p, ops, i, n, len);
}

proof fn lemma_accumulated<P: Precision>(
    p: &GreedyPartitioner<P>,
    ops: Seq<Arc<dyn Op<P::Wide>>>,
    i: int,
    n: nat,
    len: nat,
)
    requires
        accumulates(p, ops, i, n, len),
    ensures
        p.greedy_len(ops, i, 0, n) == len,
{
    lemma_greedy_len(p, ops, i, 0, n);
    let got = p.greedy_len(ops, i, 0, n);
    if got < len {
        assert(p.benefit(ops, i, got + 1).spec_above(P::Wide::spec_zero()));
    } else if len < got {
        assert(p.benefit(ops, i, len + 1).spec_above(P::Wide::spec_zero()));
    }
}

/// The scores of the prefixes of a window.
pub open spec fn prefix_scores(
    p: &GreedyPartitioner<FixedPoint>,
    ops: Seq<Arc<dyn Op<Fixed>>>,
    i: int,
    n: nat,
) -> Seq<Fixed> {
    Seq::new(n + 1, |k: int| p.score(ops, i, k as nat))
}

/// With lookahead, a plan goes on from `i` in a window of `n` operators by the
/// best score that `lookahead` segments, one operator or more each, can end
/// at. Where that is positive, the next segment is the longest after which the
/// best score, to within a billionth, is still in reach; else it is the
/// segment that the operators accumulate to, or none.
pub proof fn law_plan_looks_ahead(
    p: &GreedyPartitioner<FixedPoint>,
    ops: Seq<Arc<dyn Op<Fixed>>>,
    i: int,
    n: nat,
    len: nat,
)
    requires
        p.lookahead >= 2,
        n > 0,
        is_window(ops, i, n, p.max_ops_in_fusion as int),
        costs_in_range(p, ops, i, n),
        ({
            let a = prefix_scores(p, ops, i, n);
            let segments = if p.lookahead < n {
                p.lookahead as int
            } else {
                n as int
            };
            let best = tail_max(a, segments);
            if best > 0 {
                &&& 1 <= len <= n
                &&& tail_max(a, least(len + segments - 1, n as int)) >= best - 1
                &&& len < n ==> tail_max(a, least(len + segments, n as int)) < best - 1
            } else {
                accumulates(p, ops, i, n, len)
            }
        }),
    ensures
        p.plan(ops, i) == if len > 0 {
            seq![segment_at(i, len)] + p.plan(ops, i + len)
        } else {
            p.plan(ops, i + 1)
        },
{
    let a = prefix_scores(p, ops, i, n);
    assert(a =~= p.scores(ops, i, n));
    lemma_window(p, ops, i, n);
    assert forall|k: int| 0 <= k < a.len() implies -0x1000_0000_0000_0000 <= (#[trigger] a[k]).units
        <= 0x1000_0000_0000_0000 by {
        assert(costs_in_range(p, ops, i, k as nat));
        law_benefit_is_time_saved(p, ops, i, k as nat);
    }
    assert(a[0].units == 0) by {
        assert(costs_in_range(p, ops, i, 0));
        lemma_sums(p, ops, i, 0);
        let none = Fixed::spec_of_count(0);
        assert(none.units == 0);
        let rate = p.rate().units as int;
        assert(0 * rate == 0) by (nonlinear_arith);
    }
    law_lookahead_keeps_best_score_in_reach(a, p.lookahead as int);
    let segments = if p.lookahead < n {
        p.lookahead as int
    } else {
        n as int
    };
    let best = tail_max(a, segments);
    if best > 0 {
        let found = dp_choice::<FixedPoint>(a, p.lookahead as int)->0;
        if found < len {
            lemma_falls(a, found as int + segments, len as int + segments - 1, n as int);
        } else if len < found {
            lemma_falls(a, len as int + segments, found as int + segments - 1, n as int);
        }
    } else {
        lemma_accumulated(p, ops, i, n, len);
    }
}

proof fn lemma_falls(a: Seq<Fixed>, e: int, f: int, last: int)
    requires
        a.len() == last + 1,
        0 <= e <= f,
        last >= 0,
    ensures
        tail_max(a, least(f, last)) <= tail_max(a, least(e, last)),
    decreases f - e,
{
    if e < f && e < last {
        lemma_falls(a, e + 1, f, last);
    }
}

/// What a planner returns is its plan from the first operator on.
pub proof fn law_partition_returns_the_plan<P: Precision + Send + Sync>(
    p: &GreedyPartitioner<P>,
    ops: &[Arc<dyn Op<P::Wide>>],
    r: Vec<Segment>,
) where P::Wide: Send + Sync
    requires
        call_ensures(
            <GreedyPartitioner<P> as Partitioner<P::Wide>>::partition,
            (p, ops),
            r,
        ),
    ensures
        r@ == p.plan(ops@, 0),
{
}

/// An operator that stands alone is planned exactly where its compute estimate
/// times the bandwidth exceeds its bytes; with lookahead, its bytes less one
/// rounding for each of them.
pub proof fn law_single_operators_are_planned(
    p: &GreedyPartitioner<FixedPoint>,
    ops: Seq<Arc<dyn Op<Fixed>>>,
)
    requires
        ops.len() == 1,
        ops[0].spec_gpu_capable(),
        p.max_ops_in_fusion > 0,
        costs_in_range(p, ops, 0, 1),
    ensures
        ({
            let (c, t) = ops[0].spec_estimate();
            let b = p.bytes_per_ms.units as int;
            let bytes = t * 1_000_000_000_000_000_000;
            &&& c.units * b > bytes ==> p.plan(ops, 0) == seq![Segment { start: 0, end: 1 }]
            &&& p.lookahead <= 1 && c.units * b <= bytes ==> p.plan(ops, 0) == Seq::<
                Segment,
            >::empty()
            &&& c.units * b <= bytes - t * b ==> p.plan(ops, 0) == Seq::<Segment>::empty()
        }),
{
    let (c, t) = ops[0].spec_estimate();
    let b = p.bytes_per_ms.units as int;
    let bytes = t * 1_000_000_000_000_000_000;
    law_single_benefit(p, ops, 0);
    law_benefit_is_time_saved(p, ops, 0, 1);
    reveal_with_fuel(compute_units, 2);
    reveal_with_fuel(byte_count, 2);
    let one: nat = 1;
    assert(is_window(ops, 0, one, p.max_ops_in_fusion as int));
    let pays = p.benefit(ops, 0, 1).units > 0;
    let grown: nat = if pays {
        1
    } else {
        0
    };
    assert(accumulates(p, ops, 0, one, grown));
    assert(p.plan(ops, 1) == Seq::<Segment>::empty());
    let s = segment_at(0, 1);
    assert(seq![s] + p.plan(ops, 1) =~= seq![Segment { start: 0, end: 1 }]);
    let score = p.score(ops, 0, 1).units as int;
    if p.lookahead <= 1 {
        law_plan_accumulates(p, ops, 0, one, grown);
    } else {
        let a = prefix_scores(p, ops, 0, one);
        assert(tail_max(a, 1) == score);
        law_plan_looks_ahead(p, ops, 0, one, if score > 0 { one } else { grown });
    }
    if c.units * b <= bytes - t * b {
        let cost = c.units - score;
        assert(score <= 0) by (nonlinear_arith)
            requires
                c.units * b <= bytes - t * b,
                bytes <= (cost + t) * b,
                cost == c.units - score,
                b > 0,
        ;
        assert(!pays) by (nonlinear_arith)
            requires
                pays ==> c.units * b > bytes,
                c.units * b <= bytes - t * b,
                t >= 0,
                b > 0,
        ;
    }
}

} // verus!
