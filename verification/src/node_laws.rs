//! What holds of sequences of nodes.

use crate::nd::F32;
use crate::neuron::{chain_ensures, chain_requires};
use crate::node::{
    chain_accepts, chain_returns, input_fault, offered, pass_view, Node, NodeError, NodeErrorView,
    NodeSpec, Outcome, Sequential, TickCtx,
};
use crate::nodes::{any_f32, applicable, applied, scalar_view, single, stage_argument};
use crate::port::{
    first_port_fault, first_tensor_fault, port_fault, ports_view, PortTensors,
};
use crate::tensor::TensorView;
use vstd::prelude::*;

verus! {

/// The node in place `i` is one that applies the function in that place, and
/// takes one tensor at port `x`.
pub open spec fn applies<R, F: Fn(F32) -> F32>(
    stages: Seq<Box<dyn Node<R>>>,
    fs: Seq<F>,
    i: int,
) -> bool {
    &&& stages[i].spec_ports().inputs == seq![any_f32("x"@)]
    &&& forall|inputs: Map<Seq<char>, Seq<TensorView>>| #[trigger]
        stages[i].accepts(inputs) <==> applicable(fs[i], inputs)
    &&& forall|inputs: Map<Seq<char>, Seq<TensorView>>, r: Outcome| #[trigger]
        stages[i].may_return(inputs, r) <==> applied(fs[i], inputs, r)
}

/// Each node applies the function in its place.
pub open spec fn all_apply<R, F: Fn(F32) -> F32>(
    stages: Seq<Box<dyn Node<R>>>,
    fs: Seq<F>,
) -> bool {
    &&& stages.len() == fs.len()
    &&& forall|i: int| 0 <= i < fs.len() ==> #[trigger] applies(stages, fs, i)
}

/// A scalar at either port gets through the check and to the function.
proof fn lemma_scalar_passes(port: Seq<char>, v: F32)
    requires
        port == "x"@ || port == "y"@,
    ensures
        input_fault(seq![any_f32("x"@)], single(port, scalar_view(v))) is None,
        stage_argument(single(port, scalar_view(v))) == Some(v),
{
    reveal_strlit("x");
    reveal_strlit("y");
    assert("x"@[0] != "y"@[0]);
    let ports = seq![any_f32("x"@)];
    let buf = single(port, scalar_view(v));
    let off = offered(ports, buf);
    let ts = seq![scalar_view(v)];
    assert(buf.dom() =~= set![port]);
    if port == "y"@ {
        let c = buf.dom().choose();
        assert(buf.dom().contains(port));
        assert(buf.dom().contains(c));
        assert(buf.dom().len() == 1);
    }
    assert(off["x"@] == ts);
    assert(first_tensor_fault(ports[0], ts, 1) is None);
    assert(port_fault(ports[0], ts) is None);
    assert(first_port_fault(ports, off, 1) is None);
}

proof fn lemma_pipeline<R, F: Fn(F32) -> F32>(
    stages: Seq<Box<dyn Node<R>>>,
    fs: Seq<F>,
    i: int,
    port: Seq<char>,
    v: F32,
    r: Outcome,
)
    requires
        all_apply(stages, fs),
        0 <= i < fs.len(),
        port == "x"@ || port == "y"@,
    ensures
        chain_returns(stages, i, single(port, scalar_view(v)), r) <==> exists|y: F32| #[trigger]
            chain_ensures(fs, i, v, y) && r == Outcome::Ok(single("y"@, scalar_view(y))),
    decreases fs.len() - i,
{
    let buf = single(port, scalar_view(v));
    let f = fs[i];
    lemma_scalar_passes(port, v);
    assert(stage_argument(buf)->0 == v);
    assert(applies(stages, fs, i));
    if chain_returns(stages, i, buf, r) {
        if r is Err && stages[i].may_return(buf, r) {
            assert(applied(f, buf, r));
        }
        let next = choose|next: Map<Seq<char>, Seq<TensorView>>| #[trigger]
            stages[i].may_return(buf, Outcome::Ok(next)) && chain_returns(stages, i + 1, next, r);
        assert(applied(f, buf, Outcome::Ok(next)));
        let z = choose|z: F32| #[trigger]
            call_ensures(f, (v,), z) && Outcome::Ok(next) == Outcome::Ok(
                single("y"@, scalar_view(z)),
            );
        assert(next == single("y"@, scalar_view(z)));
        if i + 1 < fs.len() {
            lemma_pipeline(stages, fs, i + 1, "y"@, z, r);
            let y = choose|y: F32| #[trigger]
                chain_ensures(fs, i + 1, z, y) && r == Outcome::Ok(single("y"@, scalar_view(y)));
            assert(chain_ensures(fs, i, v, y));
        } else {
            assert(chain_ensures(fs, i + 1, z, z));
            assert(chain_ensures(fs, i, v, z));
        }
    }
    if exists|y: F32| #[trigger]
        chain_ensures(fs, i, v, y) && r == Outcome::Ok(single("y"@, scalar_view(y))) {
        let y = choose|y: F32| #[trigger]
            chain_ensures(fs, i, v, y) && r == Outcome::Ok(single("y"@, scalar_view(y)));
        let z = choose|z: F32| #[trigger]
            call_ensures(fs[i], (v,), z) && chain_ensures(fs, i + 1, z, y);
        let next = single("y"@, scalar_view(z));
        assert(applied(f, buf, Outcome::Ok(next)));
        assert(stages[i].may_return(buf, Outcome::Ok(next)));
        if i + 1 < fs.len() {
            lemma_pipeline(stages, fs, i + 1, "y"@, z, r);
        }
        assert(chain_returns(stages, i + 1, next, r));
    }
}

proof fn lemma_acceptance<R, F: Fn(F32) -> F32>(
    stages: Seq<Box<dyn Node<R>>>,
    fs: Seq<F>,
    i: int,
    port: Seq<char>,
    v: F32,
)
    requires
        all_apply(stages, fs),
        0 <= i <= fs.len(),
        port == "x"@ || port == "y"@,
    ensures
        chain_accepts(stages, i, single(port, scalar_view(v))) <==> chain_requires(fs, i, v),
    decreases fs.len() - i,
{
    if i < fs.len() {
        let buf = single(port, scalar_view(v));
        let f = fs[i];
        lemma_scalar_passes(port, v);
        assert(stage_argument(buf)->0 == v);
        assert(applies(stages, fs, i));
        assert(stages[i].accepts(buf) <==> call_requires(f, (v,))) by {
            reveal_strlit("x");
            reveal_strlit("y");
            assert("x"@[0] != "y"@[0]);
        }
        if chain_accepts(stages, i, buf) {
            assert forall|z: F32| #[trigger] call_ensures(f, (v,), z) implies chain_requires(
                fs,
                i + 1,
                z,
            ) by {
                let next = single("y"@, scalar_view(z));
                assert(applied(f, buf, Outcome::Ok(next)));
                assert(stages[i].may_return(buf, Outcome::Ok(next)));
                lemma_acceptance(stages, fs, i + 1, "y"@, z);
            }
        }
        if chain_requires(fs, i, v) {
            assert forall|next: Map<Seq<char>, Seq<TensorView>>| #[trigger]
                stages[i].may_return(buf, Outcome::Ok(next)) implies chain_accepts(
                stages,
                i + 1,
                next,
            ) by {
                assert(applied(f, buf, Outcome::Ok(next)));
                let z = choose|z: F32| #[trigger]
                    call_ensures(f, (v,), z) && Outcome::Ok(next) == Outcome::Ok(
                        single("y"@, scalar_view(z)),
                    );
                assert(next == single("y"@, scalar_view(z)));
                lemma_acceptance(stages, fs, i + 1, "y"@, z);
            }
        }
    }
}

/// A sequence of nodes that each apply a function does on a scalar what a
/// neuron of these functions does: it takes the scalars that the neuron takes,
/// and may return at port `y` what the neuron may return, and nothing else.
pub proof fn law_pipelines_match_neurons<R, F: Fn(F32) -> F32>(
    stages: Seq<Box<dyn Node<R>>>,
    fs: Seq<F>,
    v: F32,
    r: Outcome,
)
    requires
        all_apply(stages, fs),
        fs.len() > 0,
    ensures
        chain_accepts(stages, 0, single("x"@, scalar_view(v))) <==> chain_requires(fs, 0, v),
        chain_returns(stages, 0, single("x"@, scalar_view(v)), r) <==> exists|y: F32| #[trigger]
            chain_ensures(fs, 0, v, y) && r == Outcome::Ok(single("y"@, scalar_view(y))),
{
    lemma_acceptance(stages, fs, 0, "x"@, v);
    lemma_pipeline(stages, fs, 0, "x"@, v, r);
}

// ---------------------------------------------------------------------------
// Sequences one after the other
// ---------------------------------------------------------------------------
/// What a sequence and then another may come to: the first fault ends the pass,
/// and what the one returns the other takes.
pub open spec fn returns_one_after_the_other<R>(
    a: Seq<Box<dyn Node<R>>>,
    i: int,
    b: Seq<Box<dyn Node<R>>>,
    inputs: Map<Seq<char>, Seq<TensorView>>,
    r: Outcome,
) -> bool {
    ||| r is Err && chain_returns(a, i, inputs, r)
    ||| exists|x: Map<Seq<char>, Seq<TensorView>>| #[trigger]
        chain_returns(a, i, inputs, Outcome::Ok(x)) && chain_returns(b, 0, x, r)
}

proof fn lemma_later_part<R>(
    a: Seq<Box<dyn Node<R>>>,
    b: Seq<Box<dyn Node<R>>>,
    j: int,
    buf: Map<Seq<char>, Seq<TensorView>>,
    r: Outcome,
)
    requires
        0 <= j <= b.len(),
    ensures
        chain_returns(a + b, a.len() + j, buf, r) == chain_returns(b, j, buf, r),
    decreases b.len() - j,
{
    let all = a + b;
    let n = a.len() + j;
    if j < b.len() {
        assert(all[n] == b[j]);
        assert forall|next: Map<Seq<char>, Seq<TensorView>>|
            #![trigger b[j].may_return(buf, Outcome::Ok(next))]
            chain_returns(all, n + 1, next, r) == chain_returns(b, j + 1, next, r) by {
            lemma_later_part(a, b, j + 1, next, r);
        }
        if chain_returns(all, n, buf, r) {
            assert(chain_returns(b, j, buf, r));
        }
        if chain_returns(b, j, buf, r) {
            assert(chain_returns(all, n, buf, r));
        }
    }
}

proof fn lemma_first_part<R>(
    a: Seq<Box<dyn Node<R>>>,
    b: Seq<Box<dyn Node<R>>>,
    i: int,
    buf: Map<Seq<char>, Seq<TensorView>>,
    r: Outcome,
)
    requires
        0 <= i <= a.len(),
    ensures
        chain_returns(a + b, i, buf, r) == returns_one_after_the_other(a, i, b, buf, r),
    decreases a.len() - i,
{
    let all = a + b;
    if i == a.len() {
        lemma_later_part(a, b, 0, buf, r);
        assert(chain_returns(a, i, buf, Outcome::Ok(buf)));
        if returns_one_after_the_other(a, i, b, buf, r) {
            assert(exists|x: Map<Seq<char>, Seq<TensorView>>| #[trigger]
                chain_returns(a, i, buf, Outcome::Ok(x)) && chain_returns(b, 0, x, r));
        }
    } else {
        assert(all[i] == a[i]);
        if input_fault(a[i].spec_ports().inputs, buf) is None {
            if chain_returns(all, i, buf, r) && !(r is Err && a[i].may_return(buf, r)) {
                let next = choose|next: Map<Seq<char>, Seq<TensorView>>| #[trigger]
                    all[i].may_return(buf, Outcome::Ok(next)) && chain_returns(
                        all,
                        i + 1,
                        next,
                        r,
                    );
                lemma_first_part(a, b, i + 1, next, r);
                if r is Err && chain_returns(a, i + 1, next, r) {
                    assert(chain_returns(a, i, buf, r));
                } else {
                    let x = choose|x: Map<Seq<char>, Seq<TensorView>>| #[trigger]
                        chain_returns(a, i + 1, next, Outcome::Ok(x)) && chain_returns(b, 0, x, r);
                    assert(chain_returns(a, i, buf, Outcome::Ok(x)));
                }
            }
            if returns_one_after_the_other(a, i, b, buf, r) {
                if r is Err && chain_returns(a, i, buf, r) {
                    if !a[i].may_return(buf, r) {
                        let next = choose|next: Map<Seq<char>, Seq<TensorView>>| #[trigger]
                            a[i].may_return(buf, Outcome::Ok(next)) && chain_returns(
                                a,
                                i + 1,
                                next,
                                r,
                            );
                        lemma_first_part(a, b, i + 1, next, r);
                        assert(all[i].may_return(buf, Outcome::Ok(next)));
                    }
                } else {
                    let x = choose|x: Map<Seq<char>, Seq<TensorView>>| #[trigger]
                        chain_returns(a, i, buf, Outcome::Ok(x)) && chain_returns(b, 0, x, r);
                    let next = choose|next: Map<Seq<char>, Seq<TensorView>>| #[trigger]
                        a[i].may_return(buf, Outcome::Ok(next)) && chain_returns(
                            a,
                            i + 1,
                            next,
                            Outcome::Ok(x),
                        );
                    assert(returns_one_after_the_other(a, i + 1, b, next, r));
                    lemma_first_part(a, b, i + 1, next, r);
                    assert(all[i].may_return(buf, Outcome::Ok(next)));
                }
            }
        } else if returns_one_after_the_other(a, i, b, buf, r) {
            if !(r is Err && chain_returns(a, i, buf, r)) {
                let x = choose|x: Map<Seq<char>, Seq<TensorView>>| #[trigger]
                    chain_returns(a, i, buf, Outcome::Ok(x)) && chain_returns(b, 0, x, r);
                assert(!chain_returns(a, i, buf, Outcome::Ok(x)));
            }
        }
    }
}

/// A sequence of the nodes of one sequence and then those of another comes to
/// what the two come to one after the other: the outputs of the one are the
/// inputs of the other, and the first fault is that of the whole. A sequence
/// of no nodes hands its inputs on.
pub proof fn law_sequences_compose<R>(
    a: Seq<Box<dyn Node<R>>>,
    b: Seq<Box<dyn Node<R>>>,
    inputs: Map<Seq<char>, Seq<TensorView>>,
    r: Outcome,
)
    ensures
        chain_returns(a + b, 0, inputs, r) <==> returns_one_after_the_other(a, 0, b, inputs, r),
        chain_returns(Seq::<Box<dyn Node<R>>>::empty(), 0, inputs, r) <==> r == Outcome::Ok(inputs),
{
    lemma_first_part(a, b, 0, inputs, r);
}

/// A sequence of one node checks what it is handed against the inputs of the
/// node: where these do not take it, that is the fault; where they do, the pass
/// comes to what the node comes to.
pub proof fn law_one_node_is_checked_and_passed<R>(
    stages: Seq<Box<dyn Node<R>>>,
    inputs: Map<Seq<char>, Seq<TensorView>>,
    r: Outcome,
)
    requires
        stages.len() == 1,
    ensures
        input_fault(stages[0].spec_ports().inputs, inputs) matches Some(text) ==> (chain_returns(
            stages,
            0,
            inputs,
            r,
        ) <==> r == Outcome::Err(NodeErrorView::Ports { text })),
        input_fault(stages[0].spec_ports().inputs, inputs) is None ==> (chain_returns(
            stages,
            0,
            inputs,
            r,
        ) <==> stages[0].may_return(inputs, r)),
{
    if input_fault(stages[0].spec_ports().inputs, inputs) is None {
        if chain_returns(stages, 0, inputs, r) {
            if !(r is Err && stages[0].may_return(inputs, r)) {
                let next = choose|next: Map<Seq<char>, Seq<TensorView>>| #[trigger]
                    stages[0].may_return(inputs, Outcome::Ok(next)) && chain_returns(
                        stages,
                        1,
                        next,
                        r,
                    );
                assert(r == Outcome::Ok(next));
            }
        }
        if stages[0].may_return(inputs, r) && r is Ok {
            assert(stages[0].may_return(inputs, Outcome::Ok(r->Ok_0)));
            assert(chain_returns(stages, 1, r->Ok_0, r));
        }
    }
}

/// A pass through a sequence comes to what its nodes come to one after the
/// other, and asks for nothing and promises nothing at its own ports.
pub proof fn law_sequences_pass_through_their_nodes<R>(
    node: &mut Sequential<R>,
    ctx: &mut TickCtx<R>,
    inputs: PortTensors,
    r: Result<PortTensors, NodeError>,
    shown: &Sequential<R>,
    spec: NodeSpec,
)
    requires
        call_ensures(<Sequential<R> as Node<R>>::forward, (node, ctx, inputs), r),
        call_ensures(<Sequential<R> as Node<R>>::spec, (shown,), spec),
    ensures
        chain_returns(old(node).stages@, 0, ports_view(inputs@), pass_view(r)),
        old(node).stages@.len() == 0 ==> r is Ok && ports_view(r->Ok_0@) == ports_view(inputs@),
        spec.inputs@.len() == 0,
        spec.outputs@.len() == 0,
{
    assert(spec@.inputs.len() == spec.inputs@.len());
    assert(spec@.outputs.len() == spec.outputs@.len());
}

} // verus!
