//! What shapes and ports take, axis by axis and tensor by tensor.

use crate::nd::product;
use crate::node::input_fault;
use crate::port::{
    first_port_fault, first_tensor_fault, port_fault, port_views, ports_view, tensor_views,
    validate_port_tensors, Arity, PortSpec, PortTensors, PortView,
};
use crate::tensor::{
    axes_text, axis_text, concrete, shape_matches, shape_text, DType, Shape, Tensor, TensorView,
};
use crate::text::decimal;
use vstd::prelude::*;

verus! {

// ---------------------------------------------------------------------------
// Shapes
// ---------------------------------------------------------------------------
/// Two shapes have as many axes, and the same length on every one.
pub open spec fn same_axes(a: Seq<Option<usize>>, b: Seq<Option<usize>>) -> bool {
    a.len() == b.len() && forall|i: int| 0 <= i < a.len() ==> #[trigger] a[i] == b[i]
}

/// A shape stands for another where it has the same length on every axis, or,
/// where broadcasting is allowed, where it has no axes and the other has one;
/// and nowhere else.
pub proof fn law_shapes_match_axis_by_axis(a: &Shape, b: &Shape, allow_broadcast: bool, r: bool)
    requires
        call_ensures(Shape::matches, (a, b, allow_broadcast), r),
    ensures
        r <==> same_axes(a@, b@) || (allow_broadcast && a@.len() == 0 && b@.len() == 1),
{
    if same_axes(a@, b@) {
        assert(a@ =~= b@);
    }
}

proof fn lemma_matches(a: Seq<Option<usize>>, b: Seq<Option<usize>>, allow_broadcast: bool)
    ensures
        shape_matches(a, b, allow_broadcast) <==> same_axes(a, b) || (allow_broadcast && a.len()
            == 0 && b.len() == 1),
{
    if same_axes(a, b) {
        assert(a =~= b);
    }
}

/// The number of elements is the product of the axis lengths: one without
/// axes, and, with axis lengths side by side, that of the first times that of
/// the others.
pub proof fn law_counts_multiply(a: Seq<usize>, b: Seq<usize>, n: usize)
    ensures
        product(Seq::<usize>::empty()) == 1,
        product(seq![n]) == n,
        product(a + b) == product(a) * product(b),
    decreases b.len(),
{
    assert(product(Seq::<usize>::empty()) == 1);
    assert(seq![n].drop_last() =~= Seq::empty());
    assert(product(seq![n]) == 1 * n as nat);
    assert(1 * n as nat == n);
    if b.len() == 0 {
        assert(a + b =~= a);
        assert(product(a) * 1 == product(a));
    } else {
        law_counts_multiply(a, b.drop_last(), n);
        assert((a + b).drop_last() =~= a + b.drop_last());
        let x = product(a);
        let y = product(b.drop_last());
        let z = b.last() as nat;
        assert((x * y) * z == x * (y * z)) by (nonlinear_arith);
    }
}

/// The number of elements of a shape is known exactly where every axis length
/// is, and is their product, or the greatest number where that is less.
pub proof fn law_counts_are_products(s: &Shape, r: Option<usize>, dims: Seq<usize>)
    requires
        call_ensures(Shape::num_elements, (s,), r),
        dims.len() == s@.len(),
        forall|i: int| 0 <= i < dims.len() && s@[i] is Some ==> s@[i] == Some(#[trigger] dims[i]),
    ensures
        r is Some <==> forall|i: int| 0 <= i < s@.len() ==> (#[trigger] s@[i]) is Some,
        r matches Some(n) ==> n == if product(dims) < usize::MAX {
            product(dims) as int
        } else {
            usize::MAX as int
        },
{
    if concrete(s@) is Some {
        assert(concrete(s@)->0 =~= dims) by {
            assert forall|i: int| 0 <= i < dims.len() implies concrete(s@)->0[i] == dims[i] by {
                assert(s@[i] is Some);
            }
        }
    }
}

/// The axis lengths of a shape are given exactly where all are known, each in
/// its place; and the shape made of axis lengths knows them all.
pub proof fn law_axis_lengths_are_kept(s: &Shape, r: Option<Vec<usize>>, given: &Vec<usize>, t: Shape)
    requires
        call_ensures(Shape::dims, (s,), r),
        call_ensures(Shape::of_dims, (given,), t),
    ensures
        r is Some <==> forall|i: int| 0 <= i < s@.len() ==> (#[trigger] s@[i]) is Some,
        r matches Some(v) ==> v@.len() == s@.len() && forall|i: int|
            0 <= i < s@.len() ==> s@[i] == Some(#[trigger] v@[i]),
        t@.len() == given@.len(),
        forall|i: int| 0 <= i < given@.len() ==> #[trigger] t@[i] == Some(given@[i]),
{
}

/// Every type of element has its own name.
pub proof fn law_types_have_their_names(d: DType)
    ensures
        d == DType::F32 <==> d.text() == "F32"@,
        d == DType::F64 <==> d.text() == "F64"@,
        d == DType::I32 <==> d.text() == "I32"@,
        d == DType::I64 <==> d.text() == "I64"@,
{
    reveal_strlit("F32");
    reveal_strlit("F64");
    reveal_strlit("I32");
    reveal_strlit("I64");
    assert("F32"@[0] != "I32"@[0]);
    assert("F32"@[1] != "F64"@[1]);
    assert("F32"@[0] != "I64"@[0]);
    assert("F64"@[0] != "I32"@[0]);
    assert("F64"@[0] != "I64"@[0]);
    assert("I32"@[1] != "I64"@[1]);
}

/// The text of a shape lists its axis lengths in order, between brackets.
pub proof fn law_shape_texts_list_their_axes(dims: Seq<Option<usize>>, d: Option<usize>)
    ensures
        shape_text(Seq::empty()) == "Shape(["@ + "])"@,
        shape_text(seq![d]) == "Shape(["@ + axis_text(d) + "])"@,
        dims.len() > 0 ==> shape_text(dims.push(d)) == "Shape(["@ + (axes_text(dims) + ", "@
            + axis_text(d)) + "])"@,
        dims.len() > 0 ==> shape_text(dims) == "Shape(["@ + axes_text(dims) + "])"@,
        axis_text(None) == "None"@,
        d matches Some(n) ==> axis_text(d) == "Some("@ + decimal(n as nat) + ")"@,
{
    assert(shape_text(Seq::empty()) =~= "Shape(["@ + "])"@);
    assert(dims.push(d).drop_last() =~= dims);
}

// ---------------------------------------------------------------------------
// Ports
// ---------------------------------------------------------------------------
/// A port takes so many tensors.
pub open spec fn takes_count(arity: Arity, n: nat) -> bool {
    match arity {
        Arity::Exactly(k) => n == k,
        Arity::Range { min, max: None } => min <= n,
        Arity::Range { min, max: Some(max) } => min <= n <= max,
    }
}

/// A port takes a tensor: of its type, where it asks for one, and of its
/// shape, where it asks for one.
pub open spec fn takes_tensor(p: PortView, t: TensorView) -> bool {
    &&& p.dtype matches Some(dtype) ==> t.dtype == dtype
    &&& p.shape matches Some(shape) ==> same_axes(t.shape, shape) || (p.allow_broadcast
        && t.shape.len() == 0 && shape.len() == 1)
}

/// A port takes these tensors: so many, and each of them.
pub open spec fn takes(p: PortView, ts: Seq<TensorView>) -> bool {
    &&& takes_count(p.arity, ts.len())
    &&& forall|i: int| 0 <= i < ts.len() ==> takes_tensor(p, #[trigger] ts[i])
}

proof fn lemma_first_tensor(p: PortView, ts: Seq<TensorView>, i: int)
    requires
        0 <= i <= ts.len(),
    ensures
        first_tensor_fault(p, ts, i) is None <==> forall|j: int|
            i <= j < ts.len() ==> takes_tensor(p, #[trigger] ts[j]),
    decreases ts.len() - i,
{
    if i < ts.len() {
        lemma_first_tensor(p, ts, i + 1);
        if p.shape is Some {
            lemma_matches(ts[i].shape, p.shape->0, p.allow_broadcast);
        }
        if forall|j: int| i + 1 <= j < ts.len() ==> takes_tensor(p, #[trigger] ts[j]) {
            assert(takes_tensor(p, ts[i]) ==> forall|j: int|
                i <= j < ts.len() ==> takes_tensor(p, #[trigger] ts[j]));
        }
    }
}

proof fn lemma_port(p: PortView, ts: Seq<TensorView>)
    ensures
        port_fault(p, ts) is None <==> takes(p, ts),
{
    lemma_first_tensor(p, ts, 0);
}

/// The check at a port passes exactly where the port takes that many tensors
/// and each of them has the type and the shape that it asks for.
pub proof fn law_ports_take_what_they_ask_for(p: &PortSpec, ts: &[Tensor], r: Result<(), String>)
    requires
        call_ensures(PortSpec::validate_tensors, (p, ts), r),
    ensures
        r is Ok <==> {
            &&& takes_count(p.arity, ts@.len())
            &&& forall|i: int|
                0 <= i < ts@.len() ==> {
                    &&& p.dtype matches Some(dtype) ==> (#[trigger] ts@[i]).dtype == dtype
                    &&& p.shape matches Some(shape) ==> same_axes(ts@[i].shape@, shape@) || (
                    p.allow_broadcast && ts@[i].shape@.len() == 0 && shape@.len() == 1)
                }
        },
{
    let views = tensor_views(ts@);
    lemma_port(p@, views);
    if takes(p@, views) {
        assert forall|i: int| 0 <= i < ts@.len() implies {
            &&& p.dtype matches Some(dtype) ==> (#[trigger] ts@[i]).dtype == dtype
            &&& p.shape matches Some(shape) ==> same_axes(ts@[i].shape@, shape@) || (
            p.allow_broadcast && ts@[i].shape@.len() == 0 && shape@.len() == 1)
        } by {
            assert(takes_tensor(p@, views[i]));
        }
    } else if takes_count(p.arity, ts@.len()) {
        let i = choose|i: int| 0 <= i < views.len() && !takes_tensor(p@, #[trigger] views[i]);
        assert(ts@[i]@ == views[i]);
    }
}

/// The check fails with a message.
pub open spec fn says(r: Result<(), String>, text: Seq<char>) -> bool {
    r is Err && r->Err_0@ == text
}

/// The message of a failed check names the port and what is wrong: the number
/// of tensors, with the number asked for; else, of the first tensor that the
/// port does not take, its type if that is wrong, and its shape if not.
pub proof fn law_messages_tell_the_first_fault(
    p: &PortSpec,
    ts: &[Tensor],
    r: Result<(), String>,
    k: int,
)
    requires
        call_ensures(PortSpec::validate_tensors, (p, ts), r),
        0 <= k <= ts@.len(),
        forall|j: int| 0 <= j < k ==> takes_tensor(p@, (#[trigger] ts@[j])@),
    ensures
        ({
            let id = p.id.0@;
            let n = ts@.len();
            let got = " tensors, got "@ + decimal(n);
            let asked = "port "@ + id + " expected "@;
            let t = ts@[k];
            &&& p.arity is Exactly && p.arity->Exactly_0 != n ==> says(
                r,
                asked + decimal(p.arity->Exactly_0 as nat) + got,
            )
            &&& p.arity is Range && n < p.arity->min ==> says(
                r,
                asked + "at least "@ + decimal(p.arity->min as nat) + got,
            )
            &&& p.arity is Range && p.arity->min <= n && p.arity->max is Some
                && p.arity->max->0 < n ==> says(
                r,
                asked + "at most "@ + decimal(p.arity->max->0 as nat) + got,
            )
            &&& k < n && takes_count(p.arity, n) && p.dtype is Some && p.dtype->0 != t.dtype
                ==> says(
                r,
                "port "@ + id + " expected dtype "@ + p.dtype->0.text() + ", got "@
                    + t.dtype.text(),
            )
            &&& k < n && takes_count(p.arity, n) && (p.dtype is None || p.dtype->0 == t.dtype)
                && !takes_tensor(p@, t@) ==> says(
                r,
                "port "@ + id + " tensor shape mismatch: expected "@ + shape_text(p.shape->0@)
                    + ", got "@ + shape_text(t.shape@),
            )
        }),
{
    let views = tensor_views(ts@);
    let n = ts@.len();
    let got = " tensors, got "@ + decimal(n);
    let asked = "port "@ + p.id.0@ + " expected "@;
    if let Arity::Exactly(m) = p.arity {
        assert(asked + Seq::<char>::empty() + decimal(m as nat) + " tensors, got "@ + decimal(n)
            =~= asked + decimal(m as nat) + got);
    }
    if let Arity::Range { min, max } = p.arity {
        assert(asked + "at least "@ + decimal(min as nat) + " tensors, got "@ + decimal(n)
            =~= asked + "at least "@ + decimal(min as nat) + got);
        if let Some(most) = max {
            assert(asked + "at most "@ + decimal(most as nat) + " tensors, got "@ + decimal(n)
                =~= asked + "at most "@ + decimal(most as nat) + got);
        }
    }
    if k < n {
        lemma_reaches(p@, views, 0, k);
        if p.shape is Some {
            lemma_matches(views[k].shape, p.shape->0@, p.allow_broadcast);
        }
    }
}

proof fn lemma_reaches(p: PortView, ts: Seq<TensorView>, i: int, k: int)
    requires
        0 <= i <= k < ts.len(),
        forall|j: int| i <= j < k ==> takes_tensor(p, #[trigger] ts[j]),
    ensures
        first_tensor_fault(p, ts, i) == first_tensor_fault(p, ts, k),
    decreases k - i,
{
    if i < k {
        assert(takes_tensor(p, ts[i]));
        if p.shape is Some {
            lemma_matches(ts[i].shape, p.shape->0, p.allow_broadcast);
        }
        lemma_reaches(p, ts, i + 1, k);
    }
}

/// What is given for a port: the tensors at it, or none.
pub open spec fn given_for(m: Map<Seq<char>, Seq<TensorView>>, id: Seq<char>) -> Seq<TensorView> {
    if m.dom().contains(id) {
        m[id]
    } else {
        Seq::empty()
    }
}

proof fn lemma_first_port(ports: Seq<PortView>, m: Map<Seq<char>, Seq<TensorView>>, i: int)
    requires
        0 <= i <= ports.len(),
    ensures
        first_port_fault(ports, m, i) is None <==> forall|j: int|
            i <= j < ports.len() ==> takes(#[trigger] ports[j], given_for(m, ports[j].id)),
    decreases ports.len() - i,
{
    if i < ports.len() {
        lemma_first_port(ports, m, i + 1);
        lemma_port(ports[i], given_for(m, ports[i].id));
    }
}

/// The check at several ports passes exactly where each of them takes the
/// tensors that are there for it, none counting as such.
pub proof fn law_every_port_is_checked(
    specs: &[PortSpec],
    tensors: &PortTensors,
    r: Result<(), String>,
)
    requires
        call_ensures(validate_port_tensors, (specs, tensors), r),
    ensures
        r is Ok <==> forall|i: int|
            0 <= i < specs@.len() ==> takes(
                (#[trigger] specs@[i])@,
                if tensors@.dom().contains(specs@[i].id.0@) {
                    tensor_views(tensors@[specs@[i].id.0@]@)
                } else {
                    Seq::empty()
                },
            ),
{
    let ports = port_views(specs@);
    let m = ports_view(tensors@);
    lemma_first_port(ports, m, 0);
    assert forall|i: int| 0 <= i < specs@.len() implies given_for(m, (#[trigger] ports[i]).id)
        == if tensors@.dom().contains(specs@[i].id.0@) {
        tensor_views(tensors@[specs@[i].id.0@]@)
    } else {
        Seq::empty()
    } by {}
    if r is Ok {
        assert forall|i: int| 0 <= i < specs@.len() implies takes(
            (#[trigger] specs@[i])@,
            if tensors@.dom().contains(specs@[i].id.0@) {
                tensor_views(tensors@[specs@[i].id.0@]@)
            } else {
                Seq::empty()
            },
        ) by {
            assert(takes(ports[i], given_for(m, ports[i].id)));
        }
    } else {
        let i = choose|i: int|
            0 <= i < ports.len() && !takes(#[trigger] ports[i], given_for(m, ports[i].id));
        assert(ports[i] == specs@[i]@);
    }
}

/// What is handed to a node passes the check at its inputs exactly where every
/// port takes what is there for it; save that, where the node has one input,
/// nothing is there for it, and there are tensors at one port alone, these are
/// checked in its place.
pub proof fn law_a_lone_output_serves_a_lone_input(
    ports: Seq<PortView>,
    m: Map<Seq<char>, Seq<TensorView>>,
    k: Seq<char>,
)
    requires
        m.dom().contains(k),
    ensures
        ports.len() == 1 && !m.dom().contains(ports[0].id) && m.dom() == set![k] ==> (input_fault(
            ports,
            m,
        ) is None <==> takes(ports[0], m[k])),
        ports.len() != 1 || m.dom().contains(ports[0].id) || m.dom().len() != 1 ==> (input_fault(
            ports,
            m,
        ) is None <==> forall|j: int|
            0 <= j < ports.len() ==> takes(#[trigger] ports[j], given_for(m, ports[j].id))),
{
    lemma_first_port(ports, m, 0);
    if ports.len() == 1 && !m.dom().contains(ports[0].id) && m.dom() == set![k] {
        let c = m.dom().choose();
        assert(m.dom().contains(c));
        assert(c == k);
        assert(m.dom().len() == 1);
        let off = m.insert(ports[0].id, m[k]);
        lemma_first_port(ports, off, 0);
        assert(given_for(off, ports[0].id) == m[k]);
        if takes(ports[0], m[k]) {
            assert(forall|j: int|
                0 <= j < ports.len() ==> takes(
                    #[trigger] ports[j],
                    given_for(off, ports[j].id),
                ));
        }
    }
}

} // verus!
