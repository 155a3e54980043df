//! Stages applied one after the other.

use crate::nd::F32;
use crate::tensor::share;
use std::sync::Arc;
use vstd::prelude::*;

verus! {

/// A function of one number.
pub struct Stage<F>(Arc<F>);

impl<F: Fn(F32) -> F32> Stage<F> {
    /// The function.
    pub closed spec fn func(&self) -> F {
        *self.0
    }

    /// The stage that applies a function.
    pub fn new(f: F) -> (r: Self)
        ensures
            r.func() == f,
    {
        Stage(Arc::new(f))
    }

    /// The stage that applies a shared function, such as one of a registry.
    pub fn from_arc(f: Arc<F>) -> (r: Self)
        ensures
            r.func() == *f,
    {
        Stage(f)
    }

    /// Applies the function.
    pub fn call(&self, x: F32) -> (r: F32)
        requires
            call_requires(self.func(), (x,)),
        ensures
            call_ensures(self.func(), (x,), r),
    {
        let f: &F = &self.0;
        f(x)
    }
}

impl<F: Fn(F32) -> F32> Clone for Stage<F> {
    fn clone(&self) -> (r: Self)
        ensures
            r.func() == self.func(),
    {
        Stage(share(&self.0))
    }
}

/// The functions of a list of stages.
pub open spec fn funcs<F: Fn(F32) -> F32>(stages: Seq<Stage<F>>) -> Seq<F> {
    Seq::new(stages.len(), |i: int| stages[i].func())
}

/// `y` may come of `x` through the functions from `i` on, in order.
pub open spec fn chain_ensures<F: Fn(F32) -> F32>(fs: Seq<F>, i: int, x: F32, y: F32) -> bool
    decreases fs.len() - i,
{
    if i < 0 || i >= fs.len() {
        x == y
    } else {
        exists|z: F32| #[trigger]
            call_ensures(fs[i], (x,), z) && chain_ensures(fs, i + 1, z, y)
    }
}

/// Whatever the functions from `i` on come to, each accepts what the one
/// before it returned.
pub open spec fn chain_requires<F: Fn(F32) -> F32>(fs: Seq<F>, i: int, x: F32) -> bool
    decreases fs.len() - i,
{
    if i < 0 || i >= fs.len() {
        true
    } else {
        &&& call_requires(fs[i], (x,))
        &&& forall|z: F32| #[trigger]
            call_ensures(fs[i], (x,), z) ==> chain_requires(fs, i + 1, z)
    }
}

/// Stages applied in order, and a last one.
pub struct Neuron<F> {
    stages: Vec<Stage<F>>,
    output: Stage<F>,
}

impl<F: Fn(F32) -> F32> Neuron<F> {
    /// The functions in the order in which they are applied.
    pub closed spec fn chain(&self) -> Seq<F> {
        funcs(self.stages@).push(self.output.func())
    }

    /// A neuron of these stages and this output.
    pub fn new(stages: Vec<Stage<F>>, output: Stage<F>) -> (r: Self)
        ensures
            r.chain() == funcs(stages@).push(output.func()),
    {
        Neuron { stages, output }
    }

    /// Applies the stages in order, then the output.
    pub fn forward(&self, x: F32) -> (r: F32)
        requires
            chain_requires(self.chain(), 0, x),
        ensures
            chain_ensures(self.chain(), 0, x, r),
    {
        let ghost fs = self.chain();
        let mut v: F32 = x;
        let mut i: usize = 0;
        while i < self.stages.len()
            invariant
                i <= self.stages@.len(),
                fs == self.chain(),
                chain_requires(fs, i as int, v),
                forall|y: F32| #[trigger]
                    chain_ensures(fs, i as int, v, y) ==> chain_ensures(fs, 0, x, y),
            decreases self.stages@.len() - i,
        {
            let ghost before = v;
            assert(fs[i as int] == self.stages@[i as int].func());
            v = self.stages[i].call(v);
            assert(call_ensures(fs[i as int], (before,), v));
            assert forall|y: F32| #[trigger] chain_ensures(fs, i + 1, v, y) implies chain_ensures(
                fs,
                0,
                x,
                y,
            ) by {
                assert(chain_ensures(fs, i as int, before, y));
            }
            i = i + 1;
        }
        assert(fs[i as int] == self.output.func());
        let y = self.output.call(v);
        assert(call_ensures(fs[i as int], (v,), y));
        assert(chain_ensures(fs, i + 1, y, y));
        assert(chain_ensures(fs, i as int, v, y));
        y
    }
}

proof fn lemma_split<F: Fn(F32) -> F32>(fs: Seq<F>, gs: Seq<F>, i: int, x: F32, y: F32)
    requires
        0 <= i <= fs.len(),
    ensures
        chain_ensures(fs + gs, i, x, y) <==> exists|z: F32|
            chain_ensures(fs, i, x, z) && #[trigger] chain_ensures(gs, 0, z, y),
    decreases fs.len() - i,
{
    let all = fs + gs;
    if i == fs.len() {
        lemma_skip(fs, gs, 0, x, y);
        if chain_ensures(gs, 0, x, y) {
            assert(chain_ensures(fs, i, x, x) && chain_ensures(gs, 0, x, y));
        }
    } else {
        assert(all[i] == fs[i]);
        if chain_ensures(all, i, x, y) {
            let w = choose|w: F32| #[trigger]
                call_ensures(all[i], (x,), w) && chain_ensures(all, i + 1, w, y);
            lemma_split(fs, gs, i + 1, w, y);
            let z = choose|z: F32|
                chain_ensures(fs, i + 1, w, z) && #[trigger] chain_ensures(gs, 0, z, y);
            assert(call_ensures(fs[i], (x,), w) && chain_ensures(fs, i + 1, w, z));
            assert(chain_ensures(fs, i, x, z) && chain_ensures(gs, 0, z, y));
        }
        if exists|z: F32| chain_ensures(fs, i, x, z) && #[trigger] chain_ensures(gs, 0, z, y) {
            let z = choose|z: F32|
                chain_ensures(fs, i, x, z) && #[trigger] chain_ensures(gs, 0, z, y);
            let w = choose|w: F32| #[trigger]
                call_ensures(fs[i], (x,), w) && chain_ensures(fs, i + 1, w, z);
            assert(chain_ensures(fs, i + 1, w, z) && chain_ensures(gs, 0, z, y));
            lemma_split(fs, gs, i + 1, w, y);
            assert(call_ensures(all[i], (x,), w) && chain_ensures(all, i + 1, w, y));
        }
    }
}

proof fn lemma_skip<F: Fn(F32) -> F32>(fs: Seq<F>, gs: Seq<F>, j: int, x: F32, y: F32)
    requires
        0 <= j <= gs.len(),
    ensures
        chain_ensures(fs + gs, fs.len() + j, x, y) <==> chain_ensures(gs, j, x, y),
    decreases gs.len() - j,
{
    let all = fs + gs;
    if j < gs.len() {
        assert(all[fs.len() + j] == gs[j]);
        if chain_ensures(all, fs.len() + j, x, y) {
            let z = choose|z: F32| #[trigger]
                call_ensures(all[fs.len() + j], (x,), z) && chain_ensures(
                    all,
                    fs.len() + j + 1,
                    z,
                    y,
                );
            lemma_skip(fs, gs, j + 1, z, y);
            assert(call_ensures(gs[j], (x,), z) && chain_ensures(gs, j + 1, z, y));
        }
        if chain_ensures(gs, j, x, y) {
            let z = choose|z: F32| #[trigger]
                call_ensures(gs[j], (x,), z) && chain_ensures(gs, j + 1, z, y);
            lemma_skip(fs, gs, j + 1, z, y);
            assert(call_ensures(all[fs.len() + j], (x,), z) && chain_ensures(
                all,
                fs.len() + j + 1,
                z,
                y,
            ));
        }
    }
}

/// Chains compose: going through two lists of functions one after the other
/// is going through the first and then, from where that ended, the second.
pub proof fn law_chains_compose<F: Fn(F32) -> F32>(fs: Seq<F>, gs: Seq<F>, x: F32, y: F32)
    ensures
        chain_ensures(fs + gs, 0, x, y) <==> exists|z: F32|
            chain_ensures(fs, 0, x, z) && #[trigger] chain_ensures(gs, 0, z, y),
{
    lemma_split(fs, gs, 0, x, y);
}

} // verus!
