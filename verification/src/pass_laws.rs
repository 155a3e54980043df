//! What a pass through each node comes to, element by element.

use crate::nd::{agrees, joined, product, sizable, stacked, standard, NdView, F32};
use crate::node::{Node, NodeError, TickCtx};
use crate::nodes::{
    gathered, host_array, host_arrays, may_fail, port_names, spread, ConcatNode, MergeNode,
    ReshapeNode, StageNode,
};
use crate::port::{ports_view, tensor_views, PortTensors};
use crate::tensor::{
    concrete, has_array, DType, StorageView, Tensor, TensorError, TensorView,
};
use crate::tensor_laws::in_turn;
use vstd::prelude::*;

verus! {

// ---------------------------------------------------------------------------
// Tensors and devices
// ---------------------------------------------------------------------------
/// The axis lengths of a shape, which knows them all.
pub open spec fn has_dims(shape: Seq<Option<usize>>, dims: Seq<usize>) -> bool {
    shape.len() == dims.len() && forall|i: int|
        0 <= i < dims.len() ==> shape[i] == Some(#[trigger] dims[i])
}

/// A row-major array on the host, with these axis lengths and elements.
pub open spec fn holds(storage: StorageView, dims: Seq<usize>, elems: Seq<F32>) -> bool {
    match storage {
        StorageView::NdF32 { array } => {
            &&& array.dims == dims
            &&& array.elems == elems
            &&& array.memory == Some(elems)
            &&& array.layout is Standard
        },
        _ => false,
    }
}

proof fn lemma_concrete(shape: Seq<Option<usize>>, dims: Seq<usize>)
    requires
        has_dims(shape, dims),
    ensures
        concrete(shape) == Some(dims),
{
    assert forall|i: int| 0 <= i < shape.len() implies (#[trigger] shape[i]) is Some by {
        assert(shape[i] == Some(dims[i]));
    }
    assert(concrete(shape)->0 =~= dims);
}

/// Elements and axis lengths make a tensor exactly where there are as many
/// elements as the axis lengths ask for, and then the tensor has them.
pub proof fn law_tensors_have_their_elements(
    data: Vec<F32>,
    dims: Vec<usize>,
    r: Result<Tensor, TensorError>,
)
    requires
        call_ensures(Tensor::from_vec_nd_f32, (data, dims), r),
        sizable(dims@),
    ensures
        r is Ok <==> data@.len() == product(dims@),
        r matches Ok(t) ==> t.dtype == DType::F32 && has_dims(t.shape@, dims@) && holds(
            t.storage@,
            dims@,
            data@,
        ),
{
}

/// A vector and a scalar have the elements they are made of; a matrix has them
/// row by row.
pub proof fn law_small_tensors_have_their_elements(
    v: Vec<F32>,
    vector: Tensor,
    x: F32,
    scalar: Tensor,
    back: Option<F32>,
    rows: usize,
    cols: usize,
    data: Vec<F32>,
    matrix: Result<Tensor, TensorError>,
)
    requires
        call_ensures(Tensor::vector_f32, (v,), vector),
        v@.len() <= isize::MAX,
        call_ensures(Tensor::scalar_f32, (x,), scalar),
        call_ensures(Tensor::as_f32_scalar, (&scalar,), back),
        call_ensures(Tensor::matrix_f32, (rows, cols, data), matrix),
        rows * cols <= isize::MAX,
        rows > 0 && cols > 0,
    ensures
        vector.dtype == DType::F32,
        has_dims(vector.shape@, seq![v@.len() as usize]),
        holds(vector.storage@, seq![v@.len() as usize], v@),
        scalar.dtype == DType::F32,
        has_dims(scalar.shape@, Seq::empty()),
        holds(scalar.storage@, Seq::empty(), seq![x]),
        back == Some(x),
        matrix is Ok <==> data@.len() == rows * cols,
        matrix matches Ok(t) ==> t.dtype == DType::F32 && has_dims(t.shape@, seq![rows, cols])
            && holds(t.storage@, seq![rows, cols], data@),
{
    let dims = seq![rows, cols];
    assert(dims.drop_last() =~= seq![rows]);
    assert(seq![rows].drop_last() =~= Seq::empty());
    reveal_with_fuel(crate::nd::nonzero_product, 4);
    reveal_with_fuel(product, 4);
    assert(product(Seq::<usize>::empty()) == 1);
    assert(product(seq![rows]) == 1 * rows as nat);
    assert(product(dims) == rows as nat * cols as nat);
    assert(crate::nd::nonzero_product(seq![rows]) == 1 * rows as nat);
    assert(crate::nd::nonzero_product(dims) == rows as nat * cols as nat);
    assert(sizable(dims));
}

/// The element of a tensor that has no axes is the one that is given; no other
/// tensor gives one.
pub proof fn law_scalars_are_their_element(t: &Tensor, r: Option<F32>)
    requires
        call_ensures(Tensor::as_f32_scalar, (t,), r),
    ensures
        r matches Some(x) ==> t.shape@.len() == 0 && t.storage@ is NdF32
            && t.storage@->array.dims.len() == 0 && t.storage@->array.elems.len() > 0
            && t.storage@->array.elems[0] == x,
        r is None ==> t.shape@.len() > 0 || !(t.storage@ is NdF32)
            || t.storage@->array.dims.len() > 0 || t.storage@->array.elems.len() == 0,
{
}

/// A tensor on the host whose elements lie in row-major order goes to a buffer
/// and comes back with the elements that it had, in order.
pub proof fn law_elements_survive_the_device(
    t: &Tensor,
    there: Result<Tensor, TensorError>,
    back: Result<Tensor, TensorError>,
    dims: Seq<usize>,
    elems: Seq<F32>,
)
    requires
        holds(t.storage@, dims, elems),
        has_dims(t.shape@, dims),
        sizable(dims),
        elems.len() == product(dims),
        call_ensures(Tensor::host_to_device, (t,), there),
        there matches Ok(d) ==> call_ensures(Tensor::device_to_host, (&d,), back),
    ensures
        there matches Ok(d) && d.dtype == t.dtype && d.shape@ == t.shape@ && (d.storage@ matches
            StorageView::Device { contents, readable, dtype, dims: on } && contents == elems
            && readable && dtype == DType::F32 && on == dims),
        back matches Ok(b) && has_dims(b.shape@, dims) && holds(b.storage@, dims, elems),
{
    lemma_concrete(t.shape@, dims);
}

/// Only a tensor of 32-bit floats on the host goes to a buffer, and only one on
/// a device comes back.
pub proof fn law_only_some_tensors_move(
    t: &Tensor,
    there: Result<Tensor, TensorError>,
    back: Result<Tensor, TensorError>,
)
    requires
        call_ensures(Tensor::host_to_device, (t,), there),
        call_ensures(Tensor::device_to_host, (t,), back),
    ensures
        there is Ok <==> t.storage@ is NdF32,
        back is Ok ==> t.storage@ is Device && t.storage@->Device_dtype == DType::F32,
        t.storage@ is Device && t.storage@->readable && t.storage@->Device_dtype == DType::F32
            && concrete(t.shape@) is Some && sizable(concrete(t.shape@)->0)
            && t.storage@->contents.len() == product(concrete(t.shape@)->0) ==> back is Ok,
{
}

// ---------------------------------------------------------------------------
// Reshaping
// ---------------------------------------------------------------------------
/// One tensor, at one port alone.
pub open spec fn only(m: PortTensors, id: Seq<char>) -> bool {
    &&& forall|k: Seq<char>| #[trigger] m@.dom().contains(k) <==> k == id
    &&& m@[id]@.len() == 1
}

/// A device tensor of 32-bit floats that can be read is reshaped to the known
/// axis lengths of the target, where these ask for as many elements as the
/// device holds: what comes out is a row-major array on the host whose elements
/// are those of the device, in order, and which has the type of the input.
pub proof fn law_device_tensors_are_reshaped<R>(
    node: &mut ReshapeNode,
    ctx: &mut TickCtx<R>,
    inputs: PortTensors,
    r: Result<PortTensors, NodeError>,
    from: Seq<usize>,
    to: Seq<usize>,
)
    requires
        call_ensures(<ReshapeNode as Node<R>>::forward, (node, ctx, inputs), r),
        inputs@.dom().contains(old(node).in_port.0@),
        inputs@[old(node).in_port.0@]@.len() == 1,
        has_dims(inputs@[old(node).in_port.0@]@[0].shape@, from),
        has_dims(old(node).target@, to),
        product(from) == product(to),
        sizable(to),
        ({
            let t = inputs@[old(node).in_port.0@]@[0];
            &&& t.storage@ is Device
            &&& t.storage@->Device_dtype == DType::F32
            &&& t.storage@->readable
            &&& t.storage@->contents.len() == product(to)
        }),
    ensures
        r matches Ok(out) && only(out, old(node).out_port.0@) && ({
            let t = inputs@[old(node).in_port.0@]@[0];
            let u = out@[old(node).out_port.0@]@[0];
            &&& u.dtype == t.dtype
            &&& has_dims(u.shape@, to)
            &&& holds(u.storage@, to, t.storage@->contents)
        }),
{
    let id = old(node).in_port.0@;
    let given = ports_view(inputs@);
    let t = inputs@[id]@[0];
    lemma_concrete(t.shape@, from);
    lemma_concrete(old(node).target@, to);
    assert(given[id] == tensor_views(inputs@[id]@));
    assert(given[id][0] == t@);
    assert(r is Ok);
    lemma_single(r->Ok_0, old(node).out_port.0@);
}

proof fn lemma_single(out: PortTensors, id: Seq<char>)
    requires
        ports_view(out@).dom() == set![id],
        ports_view(out@)[id].len() == 1,
    ensures
        only(out, id),
        out@[id]@[0]@ == ports_view(out@)[id][0],
{
    assert(ports_view(out@).dom().contains(id));
    assert(ports_view(out@)[id] == tensor_views(out@[id]@));
    assert forall|k: Seq<char>| #[trigger] out@.dom().contains(k) <==> k == id by {
        assert(ports_view(out@).dom().contains(k) <==> out@.dom().contains(k));
    }
}

/// A tensor on the host whose elements lie in row-major order is reshaped to
/// every shape with as many elements, and keeps them and their order.
pub proof fn law_host_tensors_are_reshaped<R>(
    node: &mut ReshapeNode,
    ctx: &mut TickCtx<R>,
    inputs: PortTensors,
    r: Result<PortTensors, NodeError>,
    from: Seq<usize>,
    to: Seq<usize>,
    elems: Seq<F32>,
)
    requires
        call_ensures(<ReshapeNode as Node<R>>::forward, (node, ctx, inputs), r),
        inputs@.dom().contains(old(node).in_port.0@),
        inputs@[old(node).in_port.0@]@.len() == 1,
        has_dims(inputs@[old(node).in_port.0@]@[0].shape@, from),
        holds(inputs@[old(node).in_port.0@]@[0].storage@, from, elems),
        has_dims(old(node).target@, to),
        product(from) == product(to),
        sizable(to),
    ensures
        r matches Ok(out) && only(out, old(node).out_port.0@) && ({
            let t = inputs@[old(node).in_port.0@]@[0];
            let u = out@[old(node).out_port.0@]@[0];
            &&& u.dtype == t.dtype
            &&& has_dims(u.shape@, to)
            &&& holds(u.storage@, to, elems)
        }),
{
    let id = old(node).in_port.0@;
    let given = ports_view(inputs@);
    let t = inputs@[id]@[0];
    lemma_concrete(t.shape@, from);
    lemma_concrete(old(node).target@, to);
    assert(given[id] == tensor_views(inputs@[id]@));
    assert(given[id][0] == t@);
    assert(r is Ok);
    lemma_single(r->Ok_0, old(node).out_port.0@);
}

/// Nothing is reshaped unless there is exactly one tensor at the input, both
/// shapes are known, and they ask for as many elements; nor are 64-bit floats.
pub proof fn law_reshaping_refuses<R>(
    node: &mut ReshapeNode,
    ctx: &mut TickCtx<R>,
    inputs: PortTensors,
    r: Result<PortTensors, NodeError>,
)
    requires
        call_ensures(<ReshapeNode as Node<R>>::forward, (node, ctx, inputs), r),
    ensures
        !inputs@.dom().contains(old(node).in_port.0@) ==> r is Err && r->Err_0 is MissingInput,
        inputs@.dom().contains(old(node).in_port.0@) ==> ({
            let ts = inputs@[old(node).in_port.0@]@;
            let from = concrete(ts[0].shape@);
            let to = concrete(old(node).target@);
            &&& ts.len() != 1 ==> r is Err && r->Err_0 is ReshapeArity
            &&& ts.len() == 1 && from is None ==> r is Err && r->Err_0 is SourceShapeUnknown
            &&& ts.len() == 1 && from is Some && to is None ==> r is Err
                && r->Err_0 is TargetShapeUnknown
            &&& ts.len() == 1 && from is Some && to is Some && product(from->0) != product(to->0)
                && (product(from->0) < usize::MAX || product(to->0) < usize::MAX) ==> r is Err
                && r->Err_0 is CountMismatch
            &&& ts.len() == 1 && from is Some && to is Some && product(from->0) == product(to->0)
                && ts[0].storage@ is NdF64 ==> r is Err && r->Err_0 is HostDType
            &&& ts.len() == 1 && from is Some && to is Some && product(from->0) == product(to->0)
                && ts[0].storage@ is Device && ts[0].storage@->Device_dtype != DType::F32 ==> r is Err
                && r->Err_0 is DeviceDType
        }),
{
    let id = old(node).in_port.0@;
    let given = ports_view(inputs@);
    if inputs@.dom().contains(id) {
        assert(given[id] == tensor_views(inputs@[id]@));
        if inputs@[id]@.len() == 1 {
            assert(given[id][0] == inputs@[id]@[0]@);
        }
    }
}

// ---------------------------------------------------------------------------
// Concatenation
// ---------------------------------------------------------------------------
/// The axis lengths and the elements of an array.
pub struct Part {
    pub dims: Seq<usize>,
    pub elems: Seq<F32>,
}

/// The lengths of the first axes, added up.
pub open spec fn rows(parts: Seq<Part>) -> nat
    decreases parts.len(),
{
    if parts.len() == 0 {
        0
    } else {
        parts[0].dims[0] as nat + rows(parts.drop_first())
    }
}

/// The elements of the parts, one part after the other.
pub open spec fn end_to_end(parts: Seq<Part>) -> Seq<F32>
    decreases parts.len(),
{
    if parts.len() == 0 {
        Seq::empty()
    } else {
        parts[0].elems + end_to_end(parts.drop_first())
    }
}

/// A tensor has the axis lengths and the elements of a part: on the host, in
/// row-major order, or on a device of 32-bit floats that can be read.
pub open spec fn offers(t: Tensor, part: Part) -> bool {
    ||| holds(t.storage@, part.dims, part.elems)
    ||| {
        &&& t.storage@ is Device
        &&& t.storage@->Device_dtype == DType::F32
        &&& t.storage@->readable
        &&& t.storage@->contents == part.elems
        &&& has_dims(t.shape@, part.dims)
        &&& sizable(part.dims)
        &&& part.elems.len() == product(part.dims)
    }
}

/// There is one tensor at each port, with the axis lengths and the elements of
/// the part in its place.
pub open spec fn brings(node: ConcatNode, inputs: PortTensors, parts: Seq<Part>) -> bool {
    let ports = node.in_ports@;
    &&& ports.len() == parts.len()
    &&& forall|j: int, k: int|
        0 <= j < k < ports.len() ==> (#[trigger] ports[j]).0@ != (#[trigger] ports[k]).0@
    &&& forall|k: int|
        0 <= k < ports.len() ==> inputs@.dom().contains((#[trigger] ports[k]).0@)
            && inputs@[ports[k].0@]@.len() == 1 && offers(
            inputs@[ports[k].0@]@[0],
            parts[k],
        )
}

/// The parts can be put end to end along the first axis: each has one, they
/// agree on all others, and have as many elements as they say.
pub open spec fn stackable(parts: Seq<Part>) -> bool {
    &&& parts.len() > 0
    &&& forall|k: int|
        0 <= k < parts.len() ==> (#[trigger] parts[k]).dims.len() > 0 && parts[k].dims.drop_first()
            == parts[0].dims.drop_first() && parts[k].elems.len() == product(parts[k].dims)
    &&& rows(parts) <= usize::MAX
    &&& sizable(seq![rows(parts) as usize] + parts[0].dims.drop_first())
}

spec fn arrays_of(parts: Seq<Part>) -> Seq<NdView> {
    Seq::new(parts.len(), |k: int| standard(parts[k].dims, parts[k].elems))
}

proof fn lemma_gathered(
    ports: Seq<Seq<char>>,
    inputs: Map<Seq<char>, Seq<TensorView>>,
    i: int,
)
    requires
        0 <= i <= ports.len(),
        forall|j: int, k: int| 0 <= j < k < ports.len() ==> ports[j] != ports[k],
        forall|k: int|
            i <= k < ports.len() ==> inputs.dom().contains(#[trigger] ports[k])
                && inputs[ports[k]].len() == 1,
    ensures
        gathered(ports, inputs, i) == Seq::new(
            (ports.len() - i) as nat,
            |k: int| inputs[ports[i + k]][0],
        ),
    decreases ports.len() - i,
{
    let want = Seq::new((ports.len() - i) as nat, |k: int| inputs[ports[i + k]][0]);
    if i < ports.len() {
        let left = inputs.remove(ports[i]);
        assert forall|k: int| i + 1 <= k < ports.len() implies left.dom().contains(
            #[trigger] ports[k],
        ) && left[ports[k]] == inputs[ports[k]] by {
            assert(ports[i] != ports[k]);
        }
        lemma_gathered(ports, left, i + 1);
        let rest = gathered(ports, left, i + 1);
        assert(inputs.dom().contains(ports[i]));
        assert(inputs[ports[i]] + rest =~= want) by {
            assert forall|k: int| 0 < k < want.len() implies rest[k - 1] == want[k] by {
                assert(left[ports[i + k]] == inputs[ports[i + k]]);
            }
        }
    } else {
        assert(want =~= Seq::empty());
    }
}

proof fn lemma_stacked(parts: Seq<Part>, n: nat)
    requires
        n <= parts.len(),
    ensures
        stacked(arrays_of(parts).take(n as int), 0) + rows(parts.skip(n as int)) == rows(parts),
        in_turn(arrays_of(parts).take(n as int)) + end_to_end(parts.skip(n as int)) == end_to_end(
            parts,
        ),
    decreases n,
{
    let arrays = arrays_of(parts);
    if n == 0 {
        assert(parts.skip(0) =~= parts);
        assert(arrays.take(0) =~= Seq::empty());
        assert(in_turn(arrays.take(0)) =~= Seq::empty());
        assert(in_turn(arrays.take(0)) + end_to_end(parts) =~= end_to_end(parts));
    } else {
        lemma_stacked(parts, (n - 1) as nat);
        let at = n - 1;
        assert(arrays.take(n as int).drop_last() =~= arrays.take(at));
        assert(arrays.take(n as int).last() == arrays[at]);
        assert(parts.skip(at).drop_first() =~= parts.skip(n as int));
        assert(parts.skip(at)[0] == parts[at]);
        assert(in_turn(arrays.take(n as int)) + end_to_end(parts.skip(n as int)) =~= in_turn(
            arrays.take(at),
        ) + end_to_end(parts.skip(at)));
    }
}

/// Tensors, one at each port, are put end to end along the first axis: the lengths along it add up, the other axis lengths stay, and the
/// elements of one follow those of the other, in the order of the ports.
pub proof fn law_concatenation_goes_end_to_end<R>(
    node: &mut ConcatNode,
    ctx: &mut TickCtx<R>,
    inputs: PortTensors,
    r: Result<PortTensors, NodeError>,
    parts: Seq<Part>,
)
    requires
        call_ensures(<ConcatNode as Node<R>>::forward, (node, ctx, inputs), r),
        old(node).axis == 0,
        brings(*old(node), inputs, parts),
        stackable(parts),
    ensures
        r is Ok && only(r->Ok_0, old(node).out_port.0@) && ({
            let u = r->Ok_0@[old(node).out_port.0@]@[0];
            let dims = seq![rows(parts) as usize] + parts[0].dims.drop_first();
            &&& u.dtype == DType::F32
            &&& has_dims(u.shape@, dims)
            &&& holds(u.storage@, dims, end_to_end(parts))
        }),
{
    let ports = old(node).in_ports@;
    let names = port_names(ports);
    let given = ports_view(inputs@);
    assert forall|j: int, k: int| 0 <= j < k < names.len() implies names[j] != names[k] by {
        assert(ports[j].0@ != ports[k].0@);
    }
    assert forall|k: int| 0 <= k < names.len() implies given.dom().contains(#[trigger] names[k])
        && given[names[k]].len() == 1 && given[names[k]][0] == inputs@[names[k]]@[0]@ by {
        assert(inputs@.dom().contains(ports[k].0@));
        assert(given[names[k]] == tensor_views(inputs@[names[k]]@));
    }
    lemma_gathered(names, given, 0);
    let ts = gathered(names, given, 0);
    let arrays = arrays_of(parts);
    assert forall|k: int| 0 <= k < ts.len() implies has_array(#[trigger] ts[k]) && host_array(ts[k])
        == Some(arrays[k]) by {
        assert(ts[k] == given[names[k]][0]);
        let t = inputs@[ports[k].0@]@[0];
        assert(names[k] == ports[k].0@);
        assert(offers(t, parts[k]));
        if holds(t.storage@, parts[k].dims, parts[k].elems) {
            assert(t.storage@->array =~= arrays[k]);
        } else {
            lemma_concrete(t.shape@, parts[k].dims);
        }
    }
    assert(host_arrays(ts) =~= arrays);
    assert forall|k: int| 0 <= k < ts.len() implies !may_fail(#[trigger] ts[k]) by {
        assert(has_array(ts[k]));
    }
    lemma_stacked(parts, parts.len());
    assert(arrays.take(parts.len() as int) =~= arrays);
    assert(parts.skip(parts.len() as int) =~= Seq::empty());
    assert(in_turn(arrays) + end_to_end(Seq::empty()) =~= in_turn(arrays));
    let total = rows(parts) as usize;
    let first = parts[0].dims;
    let dims = seq![total] + first.drop_first();
    assert(first.update(0, total) =~= dims);
    assert forall|k: int| 0 <= k < arrays.len() implies #[trigger] arrays[k].dims.remove(0)
        == arrays[0].dims.remove(0) by {
        assert(parts[k].dims.remove(0) =~= parts[k].dims.drop_first());
        assert(parts[0].dims.remove(0) =~= parts[0].dims.drop_first());
    }
    assert forall|k: int| 0 <= k < arrays.len() implies agrees(#[trigger] arrays[k], arrays[0], 0) by {
        assert(arrays[k].dims.remove(0) == arrays[0].dims.remove(0));
    }
    assert(joined(arrays, 0) is Ok);
    crate::tensor_laws::law_join_follows_in_turn(arrays);
    lemma_single(r->Ok_0, old(node).out_port.0@);
}

proof fn lemma_gathered_none(
    ports: Seq<Seq<char>>,
    inputs: Map<Seq<char>, Seq<TensorView>>,
    i: int,
)
    requires
        0 <= i,
        forall|k: int|
            i <= k < ports.len() ==> !inputs.dom().contains(#[trigger] ports[k])
                || inputs[ports[k]].len() == 0,
    ensures
        gathered(ports, inputs, i).len() == 0,
    decreases ports.len() - i,
{
    if i < ports.len() {
        lemma_gathered_none(ports, inputs.remove(ports[i]), i + 1);
    }
}

proof fn lemma_gathered_first(ports: Seq<Seq<char>>, inputs: Map<Seq<char>, Seq<TensorView>>, t: TensorView)
    requires
        ports.len() > 0,
        inputs.dom().contains(ports[0]),
        inputs[ports[0]].len() > 0,
        inputs[ports[0]][0] == t,
    ensures
        gathered(ports, inputs, 0).len() > 0,
        gathered(ports, inputs, 0)[0] == t,
{
}

/// Nothing comes of a concatenation where there are no tensors, or the first
/// holds 64-bit floats.
pub proof fn law_concatenation_refuses<R>(
    node: &mut ConcatNode,
    ctx: &mut TickCtx<R>,
    inputs: PortTensors,
    r: Result<PortTensors, NodeError>,
)
    requires
        call_ensures(<ConcatNode as Node<R>>::forward, (node, ctx, inputs), r),
    ensures
        (forall|k: int|
            0 <= k < old(node).in_ports@.len() ==> !inputs@.dom().contains(
                (#[trigger] old(node).in_ports@[k]).0@,
            )) ==> r is Err && r->Err_0 is NothingToConcat,
        old(node).in_ports@.len() > 0 && inputs@.dom().contains(old(node).in_ports@[0].0@)
            && inputs@[old(node).in_ports@[0].0@]@.len() > 0
            && inputs@[old(node).in_ports@[0].0@]@[0].storage@ is NdF64 ==> r is Err
            && r->Err_0 is NotF32,
{
    let ports = old(node).in_ports@;
    let names = port_names(ports);
    let given = ports_view(inputs@);
    if forall|k: int|
        0 <= k < ports.len() ==> !inputs@.dom().contains((#[trigger] ports[k]).0@) {
        assert forall|k: int| 0 <= k < names.len() implies !given.dom().contains(
            #[trigger] names[k],
        ) by {
            assert(!inputs@.dom().contains(ports[k].0@));
        }
        lemma_gathered_none(names, given, 0);
    }
    if ports.len() > 0 && inputs@.dom().contains(ports[0].0@) && inputs@[ports[0].0@]@.len() > 0 {
        let id = ports[0].0@;
        assert(names[0] == id);
        assert(given[id] == tensor_views(inputs@[id]@));
        lemma_gathered_first(names, given, inputs@[id]@[0]@);
    }
}

// ---------------------------------------------------------------------------
// Merging
// ---------------------------------------------------------------------------
/// A merge hands the tensors at its input on to its outputs, in order: the
/// tensor in its place to each, and the first where there are no more. There
/// is one tensor at every output, and none elsewhere.
pub proof fn law_merging_hands_tensors_on<R>(
    node: &mut MergeNode,
    ctx: &mut TickCtx<R>,
    inputs: PortTensors,
    r: Result<PortTensors, NodeError>,
    i: int,
)
    requires
        call_ensures(<MergeNode as Node<R>>::forward, (node, ctx, inputs), r),
        forall|j: int, k: int|
            0 <= j < k < old(node).out_ports@.len() ==> (#[trigger] old(node).out_ports@[j]).0@ != (
            #[trigger] old(node).out_ports@[k]).0@,
        0 <= i < old(node).out_ports@.len(),
    ensures
        !inputs@.dom().contains(old(node).in_port.0@) ==> r is Err && r->Err_0 is MissingInput,
        inputs@.dom().contains(old(node).in_port.0@) && inputs@[old(node).in_port.0@]@.len() == 0
            ==> r is Err && r->Err_0 is NothingToMerge,
        inputs@.dom().contains(old(node).in_port.0@) && inputs@[old(node).in_port.0@]@.len() > 0
            ==> r is Ok && ({
            let ts = inputs@[old(node).in_port.0@]@;
            let out = r->Ok_0@;
            let ports = old(node).out_ports@;
            let port = ports[i].0@;
            &&& out.dom().contains(port)
            &&& out[port]@.len() == 1
            &&& out[port]@[0]@ == if i < ts.len() {
                ts[i]@
            } else {
                ts[0]@
            }
            &&& forall|k: Seq<char>| #[trigger]
                out.dom().contains(k) ==> exists|j: int|
                    0 <= j < ports.len() && (#[trigger] ports[j]).0@ == k
        }),
{
    let id = old(node).in_port.0@;
    let given = ports_view(inputs@);
    let ports = old(node).out_ports@;
    let names = port_names(ports);
    if inputs@.dom().contains(id) && inputs@[id]@.len() > 0 {
        let ts = inputs@[id]@;
        assert(given[id] == tensor_views(ts));
        let out = r->Ok_0@;
        let want = spread(names, given[id], names.len());
        assert(ports_view(out) == want);
        assert forall|j: int, k: int| 0 <= j < k < names.len() implies names[j] != names[k] by {
            assert(ports[j].0@ != ports[k].0@);
        }
        crate::tensor_laws::law_merge_fills_every_port(names, given[id], i);
        let port = ports[i].0@;
        assert(names[i] == port);
        assert(ports_view(out).dom().contains(port));
        assert(ports_view(out)[port] == tensor_views(out[port]@));
        assert(tensor_views(out[port]@).len() == 1);
        assert(tensor_views(out[port]@)[0] == out[port]@[0]@);
        assert forall|k: Seq<char>| #[trigger] out.dom().contains(k) implies exists|j: int|
            0 <= j < ports.len() && (#[trigger] ports[j]).0@ == k by {
            assert(ports_view(out).dom().contains(k));
            lemma_spread_dom(names, given[id], names.len(), k);
            let j = choose|j: int| 0 <= j < names.len() && #[trigger] names[j] == k;
            assert(ports[j].0@ == k);
        }
    }
}

proof fn lemma_spread_dom(ports: Seq<Seq<char>>, ts: Seq<TensorView>, n: nat, k: Seq<char>)
    requires
        n <= ports.len(),
        spread(ports, ts, n).dom().contains(k),
    ensures
        exists|j: int| 0 <= j < n && #[trigger] ports[j] == k,
    decreases n,
{
    if n > 0 && ports[n - 1] != k {
        lemma_spread_dom(ports, ts, (n - 1) as nat, k);
    }
}

// ---------------------------------------------------------------------------
// Stages
// ---------------------------------------------------------------------------
/// A stage is applied to the scalar that comes last at port `x`, or, where
/// there is no such port, at port `y`; and what it makes of that, and nothing
/// else, comes out at port `y`.
pub proof fn law_stages_are_applied<R, F: Fn(F32) -> F32 + Send + Sync>(
    node: &mut StageNode<F>,
    ctx: &mut TickCtx<R>,
    inputs: PortTensors,
    r: Result<PortTensors, NodeError>,
    port: Seq<char>,
)
    requires
        call_ensures(<StageNode<F> as Node<R>>::forward, (node, ctx, inputs), r),
        inputs@.dom().contains(port),
        port == "x"@ || (port == "y"@ && !inputs@.dom().contains("x"@)),
        inputs@[port]@.len() > 0,
    ensures
        ({
            let t = inputs@[port]@.last();
            let array = t.storage@->array;
            let scalar = t.shape@.len() == 0 && t.storage@ is NdF32 && array.dims.len() == 0
                && array.elems.len() > 0;
            &&& !scalar ==> r is Err && r->Err_0 is NotScalar
            &&& scalar ==> r is Ok && only(r->Ok_0, "y"@) && ({
                let u = r->Ok_0@["y"@]@[0];
                &&& u.dtype == DType::F32
                &&& has_dims(u.shape@, Seq::empty())
                &&& exists|y: F32| #[trigger]
                    call_ensures(old(node).stage.func(), (array.elems[0],), y) && holds(
                        u.storage@,
                        Seq::empty(),
                        seq![y],
                    )
            })
        }),
{
    let given = ports_view(inputs@);
    assert(given[port] == tensor_views(inputs@[port]@));
    assert(given[port].last() == inputs@[port]@.last()@);
    if r is Ok {
        lemma_single(r->Ok_0, "y"@);
    }
}

} // verus!
