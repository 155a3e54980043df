//! Partitioning a pipeline into segments that run on the GPU.

use crate::arithmetic::{Precision, Real};
use crate::scratch::{grown, Instrumentation, Mark, Probe, Scratch, Silent, BLOCK};
use std::sync::Arc;
use vstd::pervasive::arbitrary;
use vstd::prelude::*;

verus! {

/// An operator of a pipeline, as far as planning goes: whether the GPU can
/// run it, and what it costs there.
pub trait Op<W>: Send + Sync {
    /// The operator's name.
    closed spec fn spec_name(&self) -> Seq<char> {
        arbitrary()
    }

    /// Whether the GPU can run it.
    closed spec fn spec_gpu_capable(&self) -> bool {
        arbitrary()
    }

    /// Milliseconds of compute, and bytes that move.
    closed spec fn spec_estimate(&self) -> (W, usize) {
        arbitrary()
    }

    /// The operator's name.
    fn name(&self) -> (r: &str)
        ensures
            r@ == self.spec_name(),
    ;

    /// Whether the GPU can run it.
    fn gpu_capable(&self) -> (r: bool)
        ensures
            r == self.spec_gpu_capable(),
    ;

    /// A rough cost: milliseconds of compute, and the bytes that move in and
    /// out.
    fn estimate(&self) -> (r: (W, usize))
        ensures
            r == self.spec_estimate(),
    ;
}

/// A contiguous run of operators planned to run on the GPU.
#[derive(Debug, Clone, Copy, PartialEq, Eq, Structural)]
pub struct Segment {
    pub start: usize,
    /// One past the last operator.
    pub end: usize,
}

/// A way to plan.
pub trait Partitioner<W>: Send + Sync {
    /// The pipelines that the planner's counters can hold.
    closed spec fn accepts(&self, ops: Seq<Arc<dyn Op<W>>>) -> bool {
        arbitrary()
    }

    /// The plan for a pipeline.
    closed spec fn planned(&self, ops: Seq<Arc<dyn Op<W>>>) -> Seq<Segment> {
        arbitrary()
    }

    /// Plans a pipeline.
    fn partition(&self, ops: &[Arc<dyn Op<W>>]) -> (r: Vec<Segment>)
        requires
            self.accepts(ops@),
        ensures
            r@ == self.planned(ops@),
    ;
}

/// Accumulates consecutive GPU-capable operators while their benefit is
/// positive. The benefit is the sum of the compute estimates less the time of
/// the transfers, that is the bytes divided by `bytes_per_ms`.
///
/// With a `lookahead` of more than one, the end of a segment is chosen by the
/// best total over that many adjoining segments, fewer only where the window
/// ends. Where no such total is positive, operators are accumulated as without
/// lookahead, so that none that pays by itself is left out.
pub struct GreedyPartitioner<P: Precision> {
    pub lookahead: usize,
    pub bytes_per_ms: P::Wide,
    pub max_ops_in_fusion: usize,
}

// ---------------------------------------------------------------------------
// Windows and sums
// ---------------------------------------------------------------------------
/// Where the run of GPU-capable operators that starts at `i` ends, short of
/// `limit`.
pub open spec fn run_end<W>(ops: Seq<Arc<dyn Op<W>>>, i: int, limit: int) -> int
    decreases ops.len() - i,
{
    if 0 <= i < ops.len() && i < limit && ops[i].spec_gpu_capable() {
        run_end(ops, i + 1, limit)
    } else {
        i
    }
}

/// The compute estimates of `k` operators from `i` on, added up in order.
pub open spec fn compute_sum<W: Real>(ops: Seq<Arc<dyn Op<W>>>, i: int, k: nat) -> W
    decreases k,
{
    if k == 0 {
        W::spec_zero()
    } else {
        compute_sum(ops, i, (k - 1) as nat).spec_plus(ops[i + k - 1].spec_estimate().0)
    }
}

/// The bytes that `k` operators from `i` on move.
pub open spec fn transfer_sum<W>(ops: Seq<Arc<dyn Op<W>>>, i: int, k: nat) -> nat
    decreases k,
{
    if k == 0 {
        0
    } else {
        transfer_sum(ops, i, (k - 1) as nat) + ops[i + k - 1].spec_estimate().1 as nat
    }
}

// ---------------------------------------------------------------------------
// The table of totals
// ---------------------------------------------------------------------------
/// The best of `prev[u] + a[u]` over the positions from `e` on; of equal ones
/// the last.
pub open spec fn suffix_best<N: Real>(prev: Seq<N>, a: Seq<N>, e: int) -> N
    decreases a.len() - e,
{
    let v = prev[e].spec_plus(a[e]);
    if e >= a.len() - 1 {
        v
    } else {
        let rest = suffix_best(prev, a, e + 1);
        if v.spec_above(rest) {
            v
        } else {
            rest
        }
    }
}

/// The value of each position: what a segment up to it and what `prev` gives
/// from there on come to.
pub open spec fn values<N: Real>(prev: Seq<N>, a: Seq<N>) -> Seq<N> {
    Seq::new(a.len(), |e: int| prev[e].spec_plus(a[e]))
}

/// The second where it is strictly greater, else the first.
pub open spec fn better<N: Real>(m: N, v: N) -> N {
    if v.spec_above(m) {
        v
    } else {
        m
    }
}

/// The best of the values from `from` up to `to`, looked at in turn.
pub open spec fn best_in_turn<N: Real>(v: Seq<N>, from: int, to: int) -> N
    decreases to - from,
{
    if to <= from {
        N::spec_lowest()
    } else {
        better(best_in_turn(v, from, to - 1), v[to - 1])
    }
}

/// The best of the values of a whole block from `from` on, looked at in pairs.
pub open spec fn best_in_pairs<N: Real>(v: Seq<N>, from: int) -> N {
    better(
        better(
            better(v[from].spec_larger(v[from + 4]), v[from + 1].spec_larger(v[from + 5])),
            v[from + 2].spec_larger(v[from + 6]),
        ),
        v[from + 3].spec_larger(v[from + 7]),
    )
}

/// The best value of a block; the last one may be short.
pub open spec fn block_best<N: Real>(v: Seq<N>, b: int) -> N {
    if (b + 1) * BLOCK <= v.len() {
        best_in_pairs(v, b * BLOCK)
    } else {
        best_in_turn(v, b * BLOCK, v.len() as int)
    }
}

/// The best value of the blocks from `b` on.
pub open spec fn blocks_best<N: Real>(v: Seq<N>, b: int) -> N
    decreases v.len() - b * BLOCK,
{
    if (b + 1) * BLOCK >= v.len() {
        block_best(v, b)
    } else {
        better(block_best(v, b), blocks_best(v, b + 1))
    }
}

/// The best of the values from `e` on: of the rest of its block, and of the
/// blocks after that.
pub open spec fn block_scan<N: Real>(v: Seq<N>, e: int) -> N
    decreases v.len() - e,
{
    let rest = if e + 1 >= v.len() {
        N::spec_lowest()
    } else if (e + 1) % BLOCK as int == 0 {
        blocks_best(v, (e + 1) / BLOCK as int)
    } else {
        block_scan(v, e + 1)
    };
    better(rest, v[e])
}

/// Up to so many positions are looked at in turn, more by blocks.
pub const SHORT_WINDOW: usize = 32;

/// The best value from `e` on. By blocks or not, it is the same for numbers
/// that are all defined.
pub open spec fn best_from<N: Real>(prev: Seq<N>, a: Seq<N>, e: int) -> N {
    if a.len() <= SHORT_WINDOW {
        suffix_best(prev, a, e)
    } else if e == a.len() - 1 {
        values(prev, a)[e]
    } else {
        block_scan(values(prev, a), e)
    }
}

/// The totals with one segment more than in `prev`: from each position but the
/// last, the best segment to a later position followed by what `prev` gives
/// there.
pub open spec fn next_row<N: Real>(prev: Seq<N>, a: Seq<N>) -> Seq<N> {
    Seq::new(
        a.len(),
        |e: int|
            if e == a.len() - 1 {
                N::spec_zero()
            } else {
                let best = best_from(prev, a, e + 1);
                if best.spec_bounded() {
                    best.spec_minus(a[e])
                } else {
                    N::spec_lowest()
                }
            },
    )
}

/// The best total from each position with `k` adjoining segments, fewer where
/// the window ends, given the score of each prefix of the window.
pub open spec fn row<N: Real>(a: Seq<N>, k: nat) -> Seq<N>
    decreases k,
{
    if k == 0 {
        Seq::new(a.len(), |e: int| N::spec_zero())
    } else {
        next_row(row(a, (k - 1) as nat), a)
    }
}

/// The best end of a first segment among the positions `1..=upto`, with its
/// value: a value wins by more than the tolerance; within it, the later end.
pub open spec fn select<P: Precision>(
    dp: Seq<P::Narrow>,
    a: Seq<P::Narrow>,
    upto: nat,
) -> (P::Wide, nat)
    decreases upto,
{
    if upto == 0 {
        (P::Wide::spec_lowest(), 0)
    } else {
        let (best, end) = select::<P>(dp, a, (upto - 1) as nat);
        let v = P::spec_widen(dp[upto as int].spec_plus(a[upto as int]));
        if v.spec_above(best.spec_plus(P::Wide::spec_tolerance())) {
            (v, upto)
        } else if v.spec_minus(best).spec_magnitude().spec_at_most(P::Wide::spec_tolerance()) && upto
            > end {
            (best, upto)
        } else {
            (best, end)
        }
    }
}

/// How many rows of the table the choice of the first segment looks at.
pub open spec fn suffix_depth(lookahead: int, n: int) -> nat {
    let l = if lookahead < n {
        lookahead
    } else {
        n
    };
    if l >= 2 {
        (l - 1) as nat
    } else {
        l as nat
    }
}

/// The length of the first segment, given the score of each prefix of the
/// window; `None` where no total is positive.
pub open spec fn dp_choice<P: Precision>(a: Seq<P::Narrow>, lookahead: int) -> Option<nat> {
    let n = (a.len() - 1) as nat;
    let (best, end) = select::<P>(row(a, suffix_depth(lookahead, n as int)), a, n);
    let total = if best.spec_bounded() {
        best.spec_minus(P::spec_widen(a[0]))
    } else {
        P::Wide::spec_lowest()
    };
    if end > 0 && total.spec_above(P::Wide::spec_zero()) {
        Some(end)
    } else {
        None
    }
}

// ---------------------------------------------------------------------------
// The plan
// ---------------------------------------------------------------------------
impl<P: Precision> GreedyPartitioner<P> {
    /// How many operators from `i` on can be fused: consecutive, GPU-capable,
    /// and no more than the limit.
    pub open spec fn window_len(&self, ops: Seq<Arc<dyn Op<P::Wide>>>, i: int) -> nat {
        (run_end(ops, i, i + self.max_ops_in_fusion) - i) as nat
    }

    /// The benefit of fusing `k` operators from `i` on.
    pub open spec fn benefit(&self, ops: Seq<Arc<dyn Op<P::Wide>>>, i: int, k: nat) -> P::Wide {
        compute_sum(ops, i, k).spec_minus(
            P::Wide::spec_of_count(transfer_sum(ops, i, k) as usize).spec_over(self.bytes_per_ms),
        )
    }

    /// The longest prefix of the window, at least `k` long and at most `n`,
    /// on the way to which every prefix has a positive benefit.
    pub open spec fn greedy_len(
        &self,
        ops: Seq<Arc<dyn Op<P::Wide>>>,
        i: int,
        k: nat,
        n: nat,
    ) -> nat
        decreases n - k,
    {
        if k < n && self.benefit(ops, i, k + 1).spec_above(P::Wide::spec_zero()) {
            self.greedy_len(ops, i, k + 1, n)
        } else {
            k
        }
    }

    /// The reciprocal of the transfer rate.
    pub open spec fn rate(&self) -> P::Narrow {
        P::Narrow::spec_one().spec_over(P::spec_narrow(self.bytes_per_ms))
    }

    /// The score of the prefix of `k` operators: its benefit in the narrow
    /// kind of number.
    pub open spec fn score(&self, ops: Seq<Arc<dyn Op<P::Wide>>>, i: int, k: nat) -> P::Narrow {
        P::spec_narrow(compute_sum(ops, i, k)).spec_minus(
            P::Narrow::spec_of_count(transfer_sum(ops, i, k) as usize).spec_times(self.rate()),
        )
    }

    /// The scores of all prefixes of a window of `n` operators.
    pub open spec fn scores(&self, ops: Seq<Arc<dyn Op<P::Wide>>>, i: int, n: nat) -> Seq<
        P::Narrow,
    > {
        Seq::new(n + 1, |k: int| self.score(ops, i, k as nat))
    }

    /// The length of the segment accumulated in a window of `n` operators.
    pub open spec fn accumulated(&self, ops: Seq<Arc<dyn Op<P::Wide>>>, i: int, n: nat) -> Option<
        nat,
    > {
        let len = self.greedy_len(ops, i, 0, n);
        if len > 0 {
            Some(len)
        } else {
            None
        }
    }

    /// The length of the segment chosen in a window of `n` operators.
    pub open spec fn choice(&self, ops: Seq<Arc<dyn Op<P::Wide>>>, i: int, n: nat) -> Option<nat> {
        if self.lookahead <= 1 {
            self.accumulated(ops, i, n)
        } else {
            match dp_choice::<P>(self.scores(ops, i, n), self.lookahead as int) {
                Some(len) => Some(len),
                None => self.accumulated(ops, i, n),
            }
        }
    }

    /// Whether a segment can start at `i`.
    pub open spec fn has_window(&self, ops: Seq<Arc<dyn Op<P::Wide>>>, i: int) -> bool {
        ops[i].spec_gpu_capable() && self.max_ops_in_fusion > 0
    }

    /// The length of the segment that starts at `i`, if one does.
    pub open spec fn chosen(&self, ops: Seq<Arc<dyn Op<P::Wide>>>, i: int) -> Option<nat> {
        if self.has_window(ops, i) {
            self.choice(ops, i, self.window_len(ops, i))
        } else {
            None
        }
    }

    /// Where planning goes on after `i`.
    pub open spec fn advance(&self, ops: Seq<Arc<dyn Op<P::Wide>>>, i: int) -> int {
        match self.chosen(ops, i) {
            Some(len) if len > 0 => i + len,
            _ => i + 1,
        }
    }

    /// The segments planned from `i` on.
    pub open spec fn plan(&self, ops: Seq<Arc<dyn Op<P::Wide>>>, i: int) -> Seq<Segment>
        decreases
                (if i < ops.len() {
                    ops.len() - i
                } else {
                    0
                }),
    {
        if i >= ops.len() {
            Seq::empty()
        } else {
            let rest = self.plan(ops, self.advance(ops, i));
            match self.chosen(ops, i) {
                Some(len) => seq![Segment { start: i as usize, end: (i + len) as usize }] + rest,
                None => rest,
            }
        }
    }

    /// The lengths of the windows that planning looks at from `i` on.
    pub open spec fn windows(&self, ops: Seq<Arc<dyn Op<P::Wide>>>, i: int) -> Seq<nat>
        decreases
                (if i < ops.len() {
                    ops.len() - i
                } else {
                    0
                }),
    {
        if i >= ops.len() {
            Seq::empty()
        } else {
            let rest = self.windows(ops, self.advance(ops, i));
            if self.has_window(ops, i) {
                seq![self.window_len(ops, i)] + rest
            } else {
                rest
            }
        }
    }

    /// The positions and byte counts of every window that planning looks at
    /// from `i` on fit in a `usize`.
    pub open spec fn fits(&self, ops: Seq<Arc<dyn Op<P::Wide>>>, i: int) -> bool
        decreases
                (if i < ops.len() {
                    ops.len() - i
                } else {
                    0
                }),
    {
        i >= ops.len() || {
            &&& ops[i].spec_gpu_capable() ==> i + self.max_ops_in_fusion <= usize::MAX
            &&& self.has_window(ops, i) ==> self.window_len(ops, i) + 1 + BLOCK <= usize::MAX
            &&& self.has_window(ops, i) ==> transfer_sum(ops, i, self.window_len(ops, i))
                <= usize::MAX
            &&& self.fits(ops, self.advance(ops, i))
        }
    }
}

// ---------------------------------------------------------------------------
// Facts about windows and sums
// ---------------------------------------------------------------------------
pub(crate) proof fn lemma_run_end<W>(ops: Seq<Arc<dyn Op<W>>>, i: int, limit: int)
    requires
        0 <= i <= ops.len(),
    ensures
        i <= run_end(ops, i, limit) <= ops.len(),
        i <= limit ==> run_end(ops, i, limit) <= limit,
        forall|j: int| i <= j < run_end(ops, i, limit) ==> (#[trigger] ops[j]).spec_gpu_capable(),
        i < ops.len() && i < limit && ops[i].spec_gpu_capable() ==> run_end(ops, i, limit) > i,
    decreases ops.len() - i,
{
    if i < ops.len() && i < limit && ops[i].spec_gpu_capable() {
        lemma_run_end(ops, i + 1, limit);
    }
}

proof fn lemma_transfer_monotone<W>(ops: Seq<Arc<dyn Op<W>>>, i: int, j: nat, k: nat)
    requires
        j <= k,
    ensures
        transfer_sum(ops, i, j) <= transfer_sum(ops, i, k),
    decreases k,
{
    if j < k {
        lemma_transfer_monotone(ops, i, j, (k - 1) as nat);
    }
}

pub(crate) proof fn lemma_greedy_len<P: Precision>(
    p: &GreedyPartitioner<P>,
    ops: Seq<Arc<dyn Op<P::Wide>>>,
    i: int,
    k: nat,
    n: nat,
)
    requires
        k <= n,
    ensures
        k <= p.greedy_len(ops, i, k, n) <= n,
        forall|j: nat|
            k < j <= p.greedy_len(ops, i, k, n) ==> (#[trigger] p.benefit(ops, i, j)).spec_above(
                P::Wide::spec_zero(),
            ),
        p.greedy_len(ops, i, k, n) < n ==> !p.benefit(
            ops,
            i,
            p.greedy_len(ops, i, k, n) + 1,
        ).spec_above(P::Wide::spec_zero()),
    decreases n - k,
{
    if k < n && p.benefit(ops, i, k + 1).spec_above(P::Wide::spec_zero()) {
        lemma_greedy_len(p, ops, i, k + 1, n);
    }
}

pub(crate) proof fn lemma_select_end<P: Precision>(dp: Seq<P::Narrow>, a: Seq<P::Narrow>, upto: nat)
    ensures
        select::<P>(dp, a, upto).1 <= upto,
    decreases upto,
{
    if upto > 0 {
        lemma_select_end::<P>(dp, a, (upto - 1) as nat);
    }
}

pub(crate) proof fn lemma_choice<P: Precision>(
    p: &GreedyPartitioner<P>,
    ops: Seq<Arc<dyn Op<P::Wide>>>,
    i: int,
    n: nat,
)
    ensures
        p.choice(ops, i, n) matches Some(len) ==> 0 < len <= n,
{
    lemma_greedy_len(p, ops, i, 0, n);
    if p.lookahead > 1 {
        let a = p.scores(ops, i, n);
        lemma_select_end::<P>(row(a, suffix_depth(p.lookahead as int, n as int)), a, n);
    }
}

// ---------------------------------------------------------------------------
// Filling the buffers
// ---------------------------------------------------------------------------
/// Adds up the estimates of `n` operators from `i` on, prefix by prefix.
fn load_sums<W: Real>(
    ops: &[Arc<dyn Op<W>>],
    i: usize,
    n: usize,
    pref_compute: &mut Vec<W>,
    pref_transfer: &mut Vec<usize>,
)
    requires
        i + n <= ops@.len(),
        n < old(pref_compute)@.len(),
        n < old(pref_transfer)@.len(),
        transfer_sum(ops@, i as int, n as nat) <= usize::MAX,
    ensures
        final(pref_compute)@.len() == old(pref_compute)@.len(),
        final(pref_transfer)@.len() == old(pref_transfer)@.len(),
        forall|k: int|
            0 <= k <= n ==> #[trigger] final(pref_compute)@[k] == compute_sum(
                ops@,
                i as int,
                k as nat,
            ),
        forall|k: int|
            0 <= k <= n ==> #[trigger] final(pref_transfer)@[k] == transfer_sum(
                ops@,
                i as int,
                k as nat,
            ),
{
    pref_compute.set(0, W::zero());
    pref_transfer.set(0, 0);
    let len: usize = ops.len();
    let mut k: usize = 0;
    while k < n
        invariant
            k <= n,
            len == ops@.len(),
            i + n <= ops@.len(),
            n < pref_compute@.len(),
            n < pref_transfer@.len(),
            pref_compute@.len() == old(pref_compute)@.len(),
            pref_transfer@.len() == old(pref_transfer)@.len(),
            transfer_sum(ops@, i as int, n as nat) <= usize::MAX,
            forall|j: int|
                0 <= j <= k ==> #[trigger] pref_compute@[j] == compute_sum(
                    ops@,
                    i as int,
                    j as nat,
                ),
            forall|j: int|
                0 <= j <= k ==> #[trigger] pref_transfer@[j] == transfer_sum(
                    ops@,
                    i as int,
                    j as nat,
                ),
        decreases n - k,
    {
        let (c, t) = ops[i + k].estimate();
        proof {
            lemma_transfer_monotone(ops@, i as int, (k + 1) as nat, n as nat);
        }
        let next_compute = pref_compute[k].plus(c);
        let next_transfer: usize = pref_transfer[k] + t;
        pref_compute.set(k + 1, next_compute);
        pref_transfer.set(k + 1, next_transfer);
        k = k + 1;
    }
}

/// The best value of the block `b`.
fn best_of_block<N: Real>(n: usize, b: usize, val: &Vec<N>) -> (r: N)
    requires
        n < val@.len(),
        b * BLOCK <= n,
    ensures
        r == block_best(val@.take(n + 1), b as int),
{
    let ghost v = val@.take(n + 1);
    let len: usize = val.len();
    let from: usize = b * BLOCK;
    if n - from >= BLOCK - 1 {
        let mut m = val[from].larger(val[from + 4]);
        let second = val[from + 1].larger(val[from + 5]);
        let third = val[from + 2].larger(val[from + 6]);
        let fourth = val[from + 3].larger(val[from + 7]);
        if second.above(m) {
            m = second;
        }
        if third.above(m) {
            m = third;
        }
        if fourth.above(m) {
            m = fourth;
        }
        m
    } else {
        let mut m = N::lowest();
        let mut j: usize = from;
        while j <= n
            invariant
                from <= j <= n + 1,
                n < len,
                len == val@.len(),
                v == val@.take(n + 1),
                m == best_in_turn(v, from as int, j as int),
            decreases n + 1 - j,
        {
            let x = val[j];
            if x.above(m) {
                m = x;
            }
            j = j + 1;
        }
        m
    }
}

/// The best values of a long window, block by block.
fn fill_blocks<N: Real>(n: usize, val: &Vec<N>, block_max: &mut Vec<N>, best: &mut Vec<N>)
    requires
        n < val@.len(),
        n < old(best)@.len(),
        n / BLOCK + 1 <= old(block_max)@.len(),
    ensures
        final(block_max)@.len() == old(block_max)@.len(),
        final(best)@.len() == old(best)@.len(),
        forall|e: int|
            0 <= e < n ==> #[trigger] final(best)@[e] == block_scan(val@.take(n + 1), e),
        final(best)@[n as int] == val@[n as int],
{
    let ghost v = val@.take(n + 1);
    let len: usize = val.len();
    assert(n < len);
    let last: usize = n / BLOCK;
    let mut b: usize = 0;
    while b <= last
        invariant
            b <= last + 1,
            last == n / BLOCK,
            n < val@.len(),
            v == val@.take(n + 1),
            last + 1 <= block_max@.len(),
            block_max@.len() == old(block_max)@.len(),
            forall|j: int| 0 <= j < b ==> #[trigger] block_max@[j] == block_best(v, j),
        decreases last + 1 - b,
    {
        let m = best_of_block(n, b, val);
        block_max.set(b, m);
        b = b + 1;
    }
    let mut c: usize = last;
    assert(blocks_best(v, last as int) == block_best(v, last as int));
    while c > 0
        invariant
            c <= last,
            last == n / BLOCK,
            n < val@.len(),
            v == val@.take(n + 1),
            last + 1 <= block_max@.len(),
            block_max@.len() == old(block_max)@.len(),
            forall|j: int| 0 <= j < c ==> #[trigger] block_max@[j] == block_best(v, j),
            forall|j: int| c <= j <= last ==> #[trigger] block_max@[j] == blocks_best(v, j),
        decreases c,
    {
        let next = block_max[c];
        if next.above(block_max[c - 1]) {
            block_max.set(c - 1, next);
        }
        assert(c * BLOCK < v.len());
        assert(blocks_best(v, c - 1) == better(block_best(v, c - 1), blocks_best(v, c as int)));
        c = c - 1;
    }
    let mut u: usize = n + 1;
    while u > 0
        invariant
            u <= n + 1,
            last == n / BLOCK,
            n < val@.len(),
            n < best@.len(),
            v == val@.take(n + 1),
            last + 1 <= block_max@.len(),
            block_max@.len() == old(block_max)@.len(),
            best@.len() == old(best)@.len(),
            forall|j: int| 0 <= j <= last ==> #[trigger] block_max@[j] == blocks_best(v, j),
            forall|j: int| u <= j <= n ==> #[trigger] best@[j] == block_scan(v, j),
        decreases u,
    {
        let rest = if u > n {
            N::lowest()
        } else if u % BLOCK == 0 {
            block_max[u / BLOCK]
        } else {
            best[u]
        };
        let x = val[u - 1];
        assert(x == v[u - 1]);
        best.set(u - 1, if x.above(rest) { x } else { rest });
        assert(best@[u - 1] == block_scan(v, u - 1));
        u = u - 1;
    }
    best.set(n, val[n]);
}

/// One row of the table: `cur` from `prev`, with `val`, `block_max` and `best`
/// as working space.
fn fill_row<N: Real, R: Probe>(
    n: usize,
    a: &Vec<N>,
    prev: &Vec<N>,
    val: &mut Vec<N>,
    block_max: &mut Vec<N>,
    best: &mut Vec<N>,
    cur: &mut Vec<N>,
    probe: &mut R,
)
    requires
        n < a@.len(),
        n < prev@.len(),
        n < old(val)@.len(),
        n / BLOCK + 1 <= old(block_max)@.len(),
        n < old(best)@.len(),
        n < old(cur)@.len(),
    ensures
        final(val)@.len() == old(val)@.len(),
        final(block_max)@.len() == old(block_max)@.len(),
        final(best)@.len() == old(best)@.len(),
        final(cur)@.len() == old(cur)@.len(),
        final(cur)@.take(n + 1) == next_row(prev@.take(n + 1), a@.take(n + 1)),
{
    let ghost sa = a@.take(n + 1);
    let ghost sp = prev@.take(n + 1);
    let len: usize = a.len();
    let mut e: usize = 0;
    while e <= n
        invariant
            e <= n + 1,
            n < len,
            len == a@.len(),
            n < prev@.len(),
            n < val@.len(),
            val@.len() == old(val)@.len(),
            forall|j: int| 0 <= j < e ==> #[trigger] val@[j] == prev@[j].spec_plus(a@[j]),
        decreases n + 1 - e,
    {
        let v = prev[e].plus(a[e]);
        val.set(e, v);
        e = e + 1;
    }
    probe.mark(n, Mark::RowForward);
    if n < SHORT_WINDOW {
        best.set(n, val[n]);
        let mut u: usize = n;
        while u > 0
            invariant
                u <= n,
                n < a@.len(),
                n < prev@.len(),
                n < val@.len(),
                n < best@.len(),
                n < SHORT_WINDOW,
                best@.len() == old(best)@.len(),
                sa == a@.take(n + 1),
                sp == prev@.take(n + 1),
                forall|j: int| 0 <= j <= n ==> #[trigger] val@[j] == prev@[j].spec_plus(a@[j]),
                forall|j: int| u <= j <= n ==> #[trigger] best@[j] == suffix_best(sp, sa, j),
            decreases u,
        {
            let rest = best[u];
            let v = val[u - 1];
            best.set(u - 1, if v.above(rest) { v } else { rest });
            assert(val@[u - 1] == sp[u - 1].spec_plus(sa[u - 1]));
            u = u - 1;
        }
    } else {
        fill_blocks(n, val, block_max, best);
        assert(val@.take(n + 1) =~= values(sp, sa));
    }
    assert(forall|j: int| 0 <= j <= n ==> #[trigger] best@[j] == best_from(sp, sa, j));
    let mut e: usize = 0;
    while e < n
        invariant
            e <= n,
            n < a@.len(),
            n < best@.len(),
            n < cur@.len(),
            cur@.len() == old(cur)@.len(),
            sa == a@.take(n + 1),
            sp == prev@.take(n + 1),
            forall|j: int| 0 <= j <= n ==> #[trigger] best@[j] == best_from(sp, sa, j),
            forall|j: int| 0 <= j < e ==> #[trigger] cur@[j] == next_row(sp, sa)[j],
        decreases n - e,
    {
        let rest = best[e + 1];
        let c = if rest.bounded() {
            rest.minus(a[e])
        } else {
            N::lowest()
        };
        cur.set(e, c);
        assert(c == next_row(sp, sa)[e as int]);
        e = e + 1;
    }
    cur.set(n, N::zero());
    assert(cur@.take(n + 1) =~= next_row(sp, sa));
}

/// Copies the first `n + 1` numbers.
fn copy_row<N: Copy>(n: usize, from: &Vec<N>, to: &mut Vec<N>)
    requires
        n < from@.len(),
        n < old(to)@.len(),
    ensures
        final(to)@.len() == old(to)@.len(),
        final(to)@.take(n + 1) == from@.take(n + 1),
{
    let len: usize = from.len();
    let mut e: usize = 0;
    while e <= n
        invariant
            e <= n + 1,
            n < len,
            len == from@.len(),
            n < to@.len(),
            to@.len() == old(to)@.len(),
            forall|j: int| 0 <= j < e ==> #[trigger] to@[j] == from@[j],
        decreases n + 1 - e,
    {
        to.set(e, from[e]);
        e = e + 1;
    }
    assert(to@.take(n + 1) =~= from@.take(n + 1));
}

/// Sets the first `n + 1` numbers to zero.
fn clear_row<N: Real>(n: usize, v: &mut Vec<N>)
    requires
        n < old(v)@.len(),
    ensures
        final(v)@.len() == old(v)@.len(),
        forall|j: int| 0 <= j <= n ==> #[trigger] final(v)@[j] == N::spec_zero(),
{
    let len: usize = v.len();
    let mut e: usize = 0;
    while e <= n
        invariant
            e <= n + 1,
            n < len,
            len == v@.len(),
            v@.len() == old(v)@.len(),
            forall|j: int| 0 <= j < e ==> #[trigger] v@[j] == N::spec_zero(),
        decreases n + 1 - e,
    {
        v.set(e, N::zero());
        e = e + 1;
    }
}

/// The best first end in the window, with its value.
fn select_end<P: Precision>(n: usize, dp: &Vec<P::Narrow>, a: &Vec<P::Narrow>) -> (r: (
    P::Wide,
    usize,
))
    requires
        n < dp@.len(),
        n < a@.len(),
    ensures
        (r.0, r.1 as nat) == select::<P>(dp@.take(n + 1), a@.take(n + 1), n as nat),
{
    let mut best = P::Wide::lowest();
    let mut end: usize = 0;
    let mut er: usize = 0;
    while er < n
        invariant
            er <= n,
            n < dp@.len(),
            n < a@.len(),
            (best, end as nat) == select::<P>(dp@.take(n + 1), a@.take(n + 1), er as nat),
        decreases n - er,
    {
        er = er + 1;
        let v = P::widen(dp[er].plus(a[er]));
        if v.above(best.plus(P::Wide::tolerance())) {
            best = v;
            end = er;
        } else if v.minus(best).magnitude().at_most(P::Wide::tolerance()) && er > end {
            end = er;
        }
    }
    (best, end)
}

/// The buffers have room for a window of `n` operators.
pub open spec fn has_buffers<P: Precision>(s: &Scratch<P>, n: int) -> bool {
    &&& n < s.pref_compute@.len()
    &&& n < s.pref_transfer@.len()
    &&& n < s.a@.len()
    &&& n < s.prev@.len()
    &&& n < s.cur@.len()
    &&& n < s.best_from@.len()
    &&& n < s.dp_lminus1@.len()
    &&& n < s.val@.len()
    &&& n / BLOCK as int + 1 <= s.block_max@.len()
}

impl<P: Precision> GreedyPartitioner<P> {
    /// The length of the greedy segment, from the sums in the buffers.
    fn greedy(&self, ops: &[Arc<dyn Op<P::Wide>>], i: usize, n: usize, s: &Scratch<P>) -> (r: usize)
        requires
            i + n <= ops@.len(),
            has_buffers(s, n as int),
            forall|k: int|
                0 <= k <= n ==> #[trigger] s.pref_compute@[k] == compute_sum(
                    ops@,
                    i as int,
                    k as nat,
                ),
            forall|k: int|
                0 <= k <= n ==> #[trigger] s.pref_transfer@[k] == transfer_sum(
                    ops@,
                    i as int,
                    k as nat,
                ),
        ensures
            r == self.greedy_len(ops@, i as int, 0, n as nat),
            r <= n,
    {
        let mut k: usize = 0;
        while k < n
            invariant_except_break
                self.greedy_len(ops@, i as int, 0, n as nat) == self.greedy_len(
                    ops@,
                    i as int,
                    k as nat,
                    n as nat,
                ),
            invariant
                k <= n,
                has_buffers(s, n as int),
                forall|j: int|
                    0 <= j <= n ==> #[trigger] s.pref_compute@[j] == compute_sum(
                        ops@,
                        i as int,
                        j as nat,
                    ),
                forall|j: int|
                    0 <= j <= n ==> #[trigger] s.pref_transfer@[j] == transfer_sum(
                        ops@,
                        i as int,
                        j as nat,
                    ),
            ensures
                k == self.greedy_len(ops@, i as int, 0, n as nat),
            decreases n - k,
        {
            let transfer = P::Wide::of_count(s.pref_transfer[k + 1]);
            let benefit = s.pref_compute[k + 1].minus(transfer.over(self.bytes_per_ms));
            assert(benefit == self.benefit(ops@, i as int, (k + 1) as nat));
            if benefit.above(P::Wide::zero()) {
                k = k + 1;
            } else {
                break;
            }
        }
        k
    }

    /// The scores of the prefixes, from the sums in the buffers.
    fn fill_scores(
        &self,
        ops: &[Arc<dyn Op<P::Wide>>],
        i: usize,
        n: usize,
        pref_compute: &Vec<P::Wide>,
        pref_transfer: &Vec<usize>,
        a: &mut Vec<P::Narrow>,
    )
        requires
            n < pref_compute@.len(),
            n < pref_transfer@.len(),
            n < old(a)@.len(),
            forall|k: int|
                0 <= k <= n ==> #[trigger] pref_compute@[k] == compute_sum(
                    ops@,
                    i as int,
                    k as nat,
                ),
            forall|k: int|
                0 <= k <= n ==> #[trigger] pref_transfer@[k] == transfer_sum(
                    ops@,
                    i as int,
                    k as nat,
                ),
        ensures
            final(a)@.len() == old(a)@.len(),
            final(a)@.take(n + 1) == self.scores(ops@, i as int, n as nat),
    {
        let rate = P::Narrow::one().over(P::narrow(self.bytes_per_ms));
        let len: usize = pref_compute.len();
        let mut x: usize = 0;
        while x <= n
            invariant
                x <= n + 1,
                n < len,
                len == pref_compute@.len(),
                n < pref_transfer@.len(),
                n < a@.len(),
                a@.len() == old(a)@.len(),
                rate == self.rate(),
                forall|k: int|
                    0 <= k <= n ==> #[trigger] pref_compute@[k] == compute_sum(
                        ops@,
                        i as int,
                        k as nat,
                    ),
                forall|k: int|
                    0 <= k <= n ==> #[trigger] pref_transfer@[k] == transfer_sum(
                        ops@,
                        i as int,
                        k as nat,
                    ),
                forall|k: int|
                    0 <= k < x ==> #[trigger] a@[k] == self.score(ops@, i as int, k as nat),
            decreases n + 1 - x,
        {
            let transfer = P::Narrow::of_count(pref_transfer[x]);
            let v = P::narrow(pref_compute[x]).minus(transfer.times(rate));
            a.set(x, v);
            x = x + 1;
        }
        assert(a@.take(n + 1) =~= self.scores(ops@, i as int, n as nat));
    }

    /// The length of the segment with the best total, from the sums in the
    /// buffers; `None` where no total is positive.
    fn search<R: Probe>(
        &self,
        ops: &[Arc<dyn Op<P::Wide>>],
        i: usize,
        n: usize,
        s: &mut Scratch<P>,
        probe: &mut R,
    ) -> (r: Option<usize>)
        requires
            0 < n,
            self.lookahead > 1,
            i + n <= ops@.len(),
            has_buffers(old(s), n as int),
            forall|k: int|
                0 <= k <= n ==> #[trigger] old(s).pref_compute@[k] == compute_sum(
                    ops@,
                    i as int,
                    k as nat,
                ),
            forall|k: int|
                0 <= k <= n ==> #[trigger] old(s).pref_transfer@[k] == transfer_sum(
                    ops@,
                    i as int,
                    k as nat,
                ),
        ensures
            match r {
                Some(len) => dp_choice::<P>(
                    self.scores(ops@, i as int, n as nat),
                    self.lookahead as int,
                ) == Some(len as nat),
                None => dp_choice::<P>(
                    self.scores(ops@, i as int, n as nat),
                    self.lookahead as int,
                ) is None,
            },
            final(s).pref_compute == old(s).pref_compute,
            final(s).pref_transfer == old(s).pref_transfer,
            final(s).instr == old(s).instr,
            has_buffers(final(s), n as int),
    {
        probe.mark(n, Mark::Begin);
        let l: usize = if self.lookahead < n {
            self.lookahead
        } else {
            n
        };
        clear_row(n, &mut s.prev);
        self.fill_scores(ops, i, n, &s.pref_compute, &s.pref_transfer, &mut s.a);
        probe.mark(n, Mark::Scored);
        let ghost a = self.scores(ops@, i as int, n as nat);
        assert(s.prev@.take(n + 1) =~= row(a, 0));
        let mut k: usize = 0;
        while k < l
            invariant
                k <= l,
                1 <= l <= n,
                has_buffers(s, n as int),
                s.pref_compute == old(s).pref_compute,
                s.pref_transfer == old(s).pref_transfer,
                s.instr == old(s).instr,
                a == self.scores(ops@, i as int, n as nat),
                s.a@.take(n + 1) == a,
                s.prev@.take(n + 1) == row(a, k as nat),
                l >= 2 && k >= l - 1 ==> s.dp_lminus1@.take(n + 1) == row(a, (l - 1) as nat),
            decreases l - k,
        {
            k = k + 1;
            probe.mark(n, Mark::RowBegin);
            fill_row(
                n,
                &s.a,
                &s.prev,
                &mut s.val,
                &mut s.block_max,
                &mut s.best_from,
                &mut s.cur,
                probe,
            );
            probe.mark(n, Mark::RowDone);
            if l >= 2 && k == l - 1 {
                copy_row(n, &s.cur, &mut s.dp_lminus1);
            }
            std::mem::swap(&mut s.prev, &mut s.cur);
            probe.mark(n, Mark::RowRotated);
        }
        probe.mark(n, Mark::TableDone);
        let (best, end) = if l >= 2 {
            select_end::<P>(n, &s.dp_lminus1, &s.a)
        } else {
            select_end::<P>(n, &s.prev, &s.a)
        };
        probe.mark(n, Mark::Selected);
        assert(a[0] == s.a@[0]);
        let total = if best.bounded() {
            best.minus(P::widen(s.a[0]))
        } else {
            P::Wide::lowest()
        };
        if end > 0 && total.above(P::Wide::zero()) {
            Some(end)
        } else {
            None
        }
    }
}

// ---------------------------------------------------------------------------
// Counters
// ---------------------------------------------------------------------------
/// How often `w` occurs in `ws`.
pub open spec fn occurrences(ws: Seq<nat>, w: nat) -> nat
    decreases ws.len(),
{
    if ws.len() == 0 {
        0
    } else {
        occurrences(ws.drop_last(), w) + if ws.last() == w {
            1nat
        } else {
            0
        }
    }
}

proof fn lemma_occurrences_bound(ws: Seq<nat>, w: nat)
    ensures
        occurrences(ws, w) <= ws.len(),
    decreases ws.len(),
{
    if ws.len() > 0 {
        lemma_occurrences_bound(ws.drop_last(), w);
    }
}

/// The entry at `w`, zero past the end.
pub open spec fn entry(s: Seq<u64>, w: int) -> int {
    if 0 <= w < s.len() {
        s[w] as int
    } else {
        0
    }
}

/// The entry at `w`, zero past the end.
pub open spec fn wide_entry(s: Seq<u128>, w: int) -> int {
    if 0 <= w < s.len() {
        s[w] as int
    } else {
        0
    }
}

/// The counts after looking at windows of the lengths `ws`: every window is a
/// call, of the greedy kind or of the other; the histogram counts the windows
/// of the other kind by length. Times and cycles stay.
pub open spec fn counted(
    before: &Instrumentation,
    after: &Instrumentation,
    greedy: bool,
    ws: Seq<nat>,
) -> bool {
    &&& after.total_calls == before.total_calls + ws.len()
    &&& after.greedy_calls == before.greedy_calls + if greedy {
        ws.len()
    } else {
        0
    }
    &&& after.dp_calls == before.dp_calls + if greedy {
        0
    } else {
        ws.len()
    }
    &&& forall|w: nat|
        #[trigger] entry(after.dp_window_hist@, w as int) == entry(before.dp_window_hist@, w as int)
            + if greedy {
            0
        } else {
            occurrences(ws, w)
        }
    &&& forall|i: int, w: int|
        0 <= i < 12 ==> #[trigger] wide_entry(after.lists()[i], w) == wide_entry(
            before.lists()[i],
            w,
        )
}

/// Whether every counter can take `k` more.
pub open spec fn has_headroom(instr: &Instrumentation, k: int) -> bool {
    &&& instr.total_calls + k <= u64::MAX
    &&& instr.greedy_calls + k <= u64::MAX
    &&& instr.dp_calls + k <= u64::MAX
    &&& forall|w: int|
        0 <= w < instr.dp_window_hist@.len() ==> #[trigger] instr.dp_window_hist@[w] + k <= u64::MAX
}

/// Counts one more window.
fn count_window(
    instr: &mut Instrumentation,
    greedy: bool,
    n: usize,
    Ghost(first): Ghost<&Instrumentation>,
    Ghost(mid): Ghost<&Instrumentation>,
    Ghost(ws): Ghost<Seq<nat>>,
)
    requires
        counted(first, mid, greedy, ws),
        mid.extended(old(instr), n + 1),
        has_headroom(first, ws.len() as int + 1),
    ensures
        counted(first, final(instr), greedy, ws.push(n as nat)),
{
    let ghost ext = *old(instr);
    assert forall|w: nat| #[trigger]
        entry(ext.dp_window_hist@, w as int) == entry(mid.dp_window_hist@, w as int) by {}
    assert forall|i: int, w: int| 0 <= i < 12 implies #[trigger] wide_entry(ext.lists()[i], w)
        == wide_entry(mid.lists()[i], w) by {
        assert(ext.lists()[i] == grown(mid.lists()[i], n + 1, 0u128));
    }
    assert(ws.push(n as nat).drop_last() == ws);
    proof {
        lemma_occurrences_bound(ws, n as nat);
    }
    assert(entry(first.dp_window_hist@, n as int) + ws.len() + 1 <= u64::MAX);
    assert(entry(mid.dp_window_hist@, n as nat as int) == entry(first.dp_window_hist@, n as int)
        + if greedy {
        0
    } else {
        occurrences(ws, n as nat)
    });
    assert(ext.dp_window_hist@[n as int] == entry(ext.dp_window_hist@, n as nat as int));
    instr.total_calls = instr.total_calls + 1;
    if greedy {
        instr.greedy_calls = instr.greedy_calls + 1;
    } else {
        instr.dp_calls = instr.dp_calls + 1;
        let seen: u64 = instr.dp_window_hist[n] + 1;
        instr.dp_window_hist.set(n, seen);
    }
    assert forall|i: int, w: int| 0 <= i < 12 implies #[trigger] wide_entry(instr.lists()[i], w)
        == wide_entry(first.lists()[i], w) by {
        assert(instr.lists()[i] == ext.lists()[i]);
        assert(wide_entry(ext.lists()[i], w) == wide_entry(mid.lists()[i], w));
    }
    assert forall|w: nat| #[trigger]
        entry(instr.dp_window_hist@, w as int) == entry(first.dp_window_hist@, w as int)
            + if greedy {
            0
        } else {
            occurrences(ws.push(n as nat), w)
        } by {
        assert(entry(ext.dp_window_hist@, w as int) == entry(mid.dp_window_hist@, w as int));
    }
}

// ---------------------------------------------------------------------------
// Planning
// ---------------------------------------------------------------------------
impl<P: Precision> GreedyPartitioner<P> {
    /// Where the window that starts at `i` ends.
    fn window_end(&self, ops: &[Arc<dyn Op<P::Wide>>], i: usize) -> (r: usize)
        requires
            i < ops@.len(),
            i + self.max_ops_in_fusion <= usize::MAX,
        ensures
            r == run_end(ops@, i as int, i + self.max_ops_in_fusion),
    {
        let limit: usize = i + self.max_ops_in_fusion;
        let mut end: usize = i;
        while end < ops.len() && end < limit && ops[end].gpu_capable()
            invariant
                i <= end <= ops@.len(),
                limit == i + self.max_ops_in_fusion,
                run_end(ops@, i as int, limit as int) == run_end(ops@, end as int, limit as int),
            decreases ops@.len() - end,
        {
            end = end + 1;
        }
        end
    }

    /// Plans a pipeline in the given buffers, telling `probe` of every search.
    pub fn partition_with<R: Probe>(
        &self,
        ops: &[Arc<dyn Op<P::Wide>>],
        scratch: &mut Scratch<P>,
        probe: &mut R,
    ) -> (r: Vec<Segment>)
        requires
            self.fits(ops@, 0),
            has_headroom(&old(scratch).instr, ops@.len() as int),
        ensures
            r@ == self.plan(ops@, 0),
            counted(
                &old(scratch).instr,
                &final(scratch).instr,
                self.lookahead <= 1,
                self.windows(ops@, 0),
            ),
    {
        let mut segments: Vec<Segment> = Vec::new();
        let mut i: usize = 0;
        let ghost mut seen: Seq<nat> = Seq::empty();
        let ghost first = scratch.instr;
        assert(segments@ + self.plan(ops@, 0) =~= self.plan(ops@, 0));
        assert(seen + self.windows(ops@, 0) =~= self.windows(ops@, 0));
        while i < ops.len()
            invariant
                i <= ops@.len(),
                self.fits(ops@, i as int),
                first == old(scratch).instr,
                has_headroom(&first, ops@.len() as int),
                segments@ + self.plan(ops@, i as int) == self.plan(ops@, 0),
                seen + self.windows(ops@, i as int) == self.windows(ops@, 0),
                seen.len() <= i,
                counted(&first, &scratch.instr, self.lookahead <= 1, seen),
            decreases ops@.len() - i,
        {
            let ghost rest = self.plan(ops@, self.advance(ops@, i as int));
            let ghost rest_windows = self.windows(ops@, self.advance(ops@, i as int));
            if !ops[i].gpu_capable() {
                i = i + 1;
                continue;
            }
            let end: usize = self.window_end(ops, i);
            proof {
                lemma_run_end(ops@, i as int, i + self.max_ops_in_fusion);
            }
            let n: usize = end - i;
            if n == 0 {
                i = i + 1;
                continue;
            }
            let ghost mid = scratch.instr;
            scratch.ensure_len(n + 1);
            count_window(
                &mut scratch.instr,
                self.lookahead <= 1,
                n,
                Ghost(&first),
                Ghost(&mid),
                Ghost(seen),
            );
            proof {
                assert(seen.push(n as nat) + rest_windows =~= seen + (seq![n as nat] + rest_windows));
                seen = seen.push(n as nat);
                lemma_choice(self, ops@, i as int, n as nat);
            }
            load_sums(ops, i, n, &mut scratch.pref_compute, &mut scratch.pref_transfer);
            let found: Option<usize> = if self.lookahead <= 1 {
                None
            } else {
                self.search(ops, i, n, scratch, probe)
            };
            let chosen: Option<usize> = match found {
                Some(len) => Some(len),
                None => {
                    let len: usize = self.greedy(ops, i, n, scratch);
                    if len > 0 {
                        Some(len)
                    } else {
                        None
                    }
                },
            };
            match chosen {
                Some(len) => {
                    let segment = Segment { start: i, end: i + len };
                    assert(segments@.push(segment) + rest =~= segments@ + (seq![segment] + rest));
                    segments.push(segment);
                    i = i + len;
                },
                None => {
                    i = i + 1;
                },
            }
        }
        assert(segments@ + self.plan(ops@, i as int) =~= segments@);
        assert(seen + self.windows(ops@, i as int) =~= seen);
        segments
    }
}

impl<P: Precision> Default for GreedyPartitioner<P> {
    fn default() -> (r: Self)
        ensures
            r.lookahead == 2,
            r.bytes_per_ms == P::Wide::spec_of_count(1_000_000),
            r.max_ops_in_fusion == 128,
    {
        GreedyPartitioner {
            lookahead: 2,
            bytes_per_ms: P::Wide::of_count(1_000_000),
            max_ops_in_fusion: 128,
        }
    }
}

impl<P: Precision> Partitioner<P::Wide> for GreedyPartitioner<P> where
    P: Send + Sync,
    P::Wide: Send + Sync,
 {
    open spec fn accepts(&self, ops: Seq<Arc<dyn Op<P::Wide>>>) -> bool {
        self.fits(ops, 0)
    }

    open spec fn planned(&self, ops: Seq<Arc<dyn Op<P::Wide>>>) -> Seq<Segment> {
        self.plan(ops, 0)
    }

    fn partition(&self, ops: &[Arc<dyn Op<P::Wide>>]) -> (r: Vec<Segment>) {
        let len: usize = ops.len();
        let mut scratch: Scratch<P> = Scratch::new();
        let mut probe = Silent;
        self.partition_with(ops, &mut scratch, &mut probe)
    }
}

} // verus!
