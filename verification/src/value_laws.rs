//! What numbers, arrays, tensors, ports and messages come to.

use crate::arithmetic::{quotient, Fixed, FixedPoint, Precision, Real};
use crate::cost_laws::{is_window, segment_at};
use crate::cpu_backend::flat_elements;
use crate::kernel_cache::CacheError;
use crate::nd::{column_offset, nonzero_product, product, NdArray, ShapeFault, F32};
use crate::neuron::Stage;
use crate::node::{Node, NodeError, NodeSpec};
use crate::nodes::{ConcatNode, MergeNode, ReshapeNode, StageNode};
use crate::partitioner::{
    entry, occurrences, run_end, GreedyPartitioner, Op, Partitioner, Segment,
};
use crate::port::{Arity, PortId, PortSpec};
use crate::precompile_worker::{CompileEvent, SubmitError, TaskOutcome};
use crate::scratch::{Probe, Scratch};
use crate::tensor::{concrete, DType, Shape, Tensor, TensorError, TensorStorage};
use crate::text::{join2, join3};
use std::sync::Arc;
use vstd::prelude::*;

verus! {

// ---------------------------------------------------------------------------
// Fixed-point numbers
// ---------------------------------------------------------------------------
/// A number of units, cut to the range that there is.
pub open spec fn is_cut(r: Fixed, units: int) -> bool {
    if units > i64::MAX {
        r.units == i64::MAX
    } else if units < i64::MIN {
        r.units == i64::MIN
    } else {
        r.units == units
    }
}

/// Sums and differences are exact, cut to the range.
pub proof fn law_fixed_sums(a: Fixed, b: Fixed, sum: Fixed, difference: Fixed)
    requires
        call_ensures(<Fixed as Real>::plus, (a, b), sum),
        call_ensures(<Fixed as Real>::minus, (a, b), difference),
    ensures
        is_cut(sum, a.units + b.units),
        is_cut(difference, a.units - b.units),
{
}

/// The absolute value of a number of units.
pub open spec fn size(units: int) -> int {
    if units < 0 {
        -units
    } else {
        units
    }
}

/// `r` is `a` divided by `b` and rounded towards zero.
pub open spec fn rounds(r: int, a: int, b: int) -> bool {
    &&& size(r) * size(b) <= size(a)
    &&& size(a) < (size(r) + 1) * size(b)
    &&& r > 0 ==> (a > 0) == (b > 0)
    &&& r < 0 ==> (a > 0) != (b > 0)
}

proof fn lemma_rounds(a: int, b: int)
    requires
        b != 0,
    ensures
        rounds(quotient(a, b), a, b),
{
    let x = size(a);
    let y = size(b);
    let d = x / y;
    assert(d * y <= x && x < (d + 1) * y && d >= 0) by (nonlinear_arith)
        requires
            d == x / y,
            x >= 0,
            y > 0,
    ;
    assert(size(quotient(a, b)) == d);
    if a == 0 {
        assert(d == 0) by (nonlinear_arith)
            requires
                d * y <= 0,
                d >= 0,
                y > 0,
        ;
    }
}

/// Products and quotients that are in range are rounded towards zero at the
/// ninth place. A quotient by zero is out of range on the side of the
/// dividend, and zero for zero.
pub proof fn law_fixed_products(a: Fixed, b: Fixed, p: Fixed, q: Fixed)
    requires
        call_ensures(<Fixed as Real>::times, (a, b), p),
        call_ensures(<Fixed as Real>::over, (a, b), q),
    ensures
        i64::MIN < p.units < i64::MAX ==> rounds(
            p.units as int,
            a.units * b.units,
            1_000_000_000,
        ),
        b.units != 0 && i64::MIN < q.units < i64::MAX ==> rounds(
            q.units as int,
            a.units * 1_000_000_000,
            b.units as int,
        ),
        b.units == 0 && a.units > 0 ==> q.units == i64::MAX,
        b.units == 0 && a.units < 0 ==> q.units == i64::MIN,
        b.units == 0 && a.units == 0 ==> q.units == 0,
{
    lemma_rounds(a.units * b.units, 1_000_000_000);
    if b.units != 0 {
        lemma_rounds(a.units * 1_000_000_000, b.units as int);
    }
}

/// Comparisons go by the units; the larger is one of the two, and not less
/// than either.
pub proof fn law_fixed_order(
    a: Fixed,
    b: Fixed,
    above: bool,
    at_most: bool,
    larger: Fixed,
    magnitude: Fixed,
    bounded: bool,
)
    requires
        call_ensures(<Fixed as Real>::above, (a, b), above),
        call_ensures(<Fixed as Real>::at_most, (a, b), at_most),
        call_ensures(<Fixed as Real>::larger, (a, b), larger),
        call_ensures(<Fixed as Real>::magnitude, (a,), magnitude),
        call_ensures(<Fixed as Real>::bounded, (a,), bounded),
    ensures
        above <==> a.units > b.units,
        at_most <==> a.units <= b.units,
        larger == a || larger == b,
        larger.units >= a.units && larger.units >= b.units,
        is_cut(magnitude, size(a.units as int)),
        bounded <==> a.units != i64::MIN && a.units != i64::MAX,
{
}

/// One has a billion units, the tolerance one; counts are exact, cut to the
/// range; and there is one kind of fixed-point number, wide and narrow.
pub proof fn law_fixed_constants(
    zero: Fixed,
    one: Fixed,
    lowest: Fixed,
    tolerance: Fixed,
    n: usize,
    count: Fixed,
    a: Fixed,
    narrow: Fixed,
    wide: Fixed,
)
    requires
        call_ensures(<Fixed as Real>::zero, (), zero),
        call_ensures(<Fixed as Real>::one, (), one),
        call_ensures(<Fixed as Real>::lowest, (), lowest),
        call_ensures(<Fixed as Real>::tolerance, (), tolerance),
        call_ensures(<Fixed as Real>::of_count, (n,), count),
        call_ensures(<FixedPoint as Precision>::narrow, (a,), narrow),
        call_ensures(<FixedPoint as Precision>::widen, (a,), wide),
    ensures
        zero.units == 0,
        one.units == 1_000_000_000,
        lowest.units == i64::MIN,
        tolerance.units == 1,
        is_cut(count, n * 1_000_000_000),
        narrow == a,
        wide == a,
{
}

// ---------------------------------------------------------------------------
// Planning
// ---------------------------------------------------------------------------
/// A planner that is not told otherwise looks two segments ahead, takes a
/// million bytes to a millisecond and fuses up to 128 operators.
pub proof fn law_default_planners(p: GreedyPartitioner<FixedPoint>)
    requires
        call_ensures(<GreedyPartitioner<FixedPoint> as Default>::default, (), p),
    ensures
        p.lookahead == 2,
        p.bytes_per_ms.units == 1_000_000_000_000_000,
        p.max_ops_in_fusion == 128,
{
}

/// Planning in buffers that are kept gives the same plan as planning afresh.
pub proof fn law_buffers_do_not_matter<P: Precision + Send + Sync, R: Probe>(
    p: &GreedyPartitioner<P>,
    ops: &[Arc<dyn Op<P::Wide>>],
    scratch: &mut Scratch<P>,
    probe: &mut R,
    r: Vec<Segment>,
    s: Vec<Segment>,
) where P::Wide: Send + Sync
    requires
        call_ensures(
            GreedyPartitioner::<P>::partition_with::<R>,
            (p, ops, scratch, probe),
            r,
        ),
        call_ensures(<GreedyPartitioner<P> as Partitioner<P::Wide>>::partition, (p, ops), s),
    ensures
        r@ == s@,
{
}

proof fn lemma_occurrences(ws: Seq<nat>, w: nat)
    ensures
        occurrences(ws, w) == ws.to_multiset().count(w),
    decreases ws.len(),
{
    ws.to_multiset_ensures();
    if ws.len() == 0 {
        assert(!ws.contains(w));
    } else {
        let rest = ws.drop_last();
        lemma_occurrences(rest, w);
        rest.to_multiset_ensures();
        assert(rest.push(ws.last()) =~= ws);
        assert(ws.to_multiset() =~= rest.to_multiset().insert(ws.last()));
    }
}

/// Every window that is looked at is counted: as a call, as one of the kind of
/// the planner, and, with lookahead, in the histogram at its length.
pub proof fn law_windows_are_counted<P: Precision, R: Probe>(
    p: &GreedyPartitioner<P>,
    ops: &[Arc<dyn Op<P::Wide>>],
    scratch: &mut Scratch<P>,
    probe: &mut R,
    r: Vec<Segment>,
    w: nat,
)
    requires
        call_ensures(
            GreedyPartitioner::<P>::partition_with::<R>,
            (p, ops, scratch, probe),
            r,
        ),
    ensures
        ({
            let ws = p.windows(ops@, 0);
            let (a, b) = (old(scratch).instr, final(scratch).instr);
            let ahead = p.lookahead >= 2;
            &&& b.total_calls == a.total_calls + ws.len()
            &&& ahead ==> b.dp_calls == a.dp_calls + ws.len() && b.greedy_calls == a.greedy_calls
            &&& !ahead ==> b.greedy_calls == a.greedy_calls + ws.len() && b.dp_calls == a.dp_calls
            &&& w < a.dp_window_hist@.len() && w < b.dp_window_hist@.len() ==> b.dp_window_hist@[
                w as int] == a.dp_window_hist@[w as int] + if ahead {
                ws.to_multiset().count(w)
            } else {
                0
            }
            &&& a.dp_window_hist@.len() <= w < b.dp_window_hist@.len() ==> b.dp_window_hist@[
                w as int] == if ahead {
                ws.to_multiset().count(w)
            } else {
                0
            }
        }),
{
    let ws = p.windows(ops@, 0);
    lemma_occurrences(ws, w);
    let a = old(scratch).instr.dp_window_hist@;
    let b = final(scratch).instr.dp_window_hist@;
    assert(entry(b, w as int) == entry(a, w as int) + if p.lookahead <= 1 {
        0
    } else {
        occurrences(ws, w)
    });
}

proof fn lemma_run<W>(ops: Seq<Arc<dyn Op<W>>>, i: int, j: int, n: nat, most: int)
    requires
        is_window(ops, i, n, most),
        i <= j <= i + n,
    ensures
        run_end(ops, j, i + most) == i + n,
    decreases i + n - j,
{
    if j < i + n {
        assert(ops[j].spec_gpu_capable());
        lemma_run(ops, i, j + 1, n, most);
    }
}

/// Planning looks at one window from each place at which it stands: past the
/// end and at an operator that the GPU cannot run there is none. After a
/// window it goes on behind the segment that it planned there, or, without
/// one, at the next operator.
pub proof fn law_windows_follow_the_plan<P: Precision>(
    p: &GreedyPartitioner<P>,
    ops: Seq<Arc<dyn Op<P::Wide>>>,
    i: int,
    n: nat,
) -> (len: nat)
    requires
        0 <= i,
        is_window(ops, i, n, p.max_ops_in_fusion as int) || i >= ops.len(),
    ensures
        i >= ops.len() ==> p.windows(ops, i).len() == 0,
        i < ops.len() && n == 0 ==> p.windows(ops, i) == p.windows(ops, i + 1),
        i < ops.len() && n > 0 && len > 0 ==> {
            &&& p.windows(ops, i) == seq![n] + p.windows(ops, i + len)
            &&& p.plan(ops, i) == seq![segment_at(i, len)] + p.plan(ops, i + len)
        },
        i < ops.len() && n > 0 && len == 0 ==> {
            &&& p.windows(ops, i) == seq![n] + p.windows(ops, i + 1)
            &&& p.plan(ops, i) == p.plan(ops, i + 1)
        },
{
    if i < ops.len() && n > 0 {
        lemma_run(ops, i, i, n, p.max_ops_in_fusion as int);
        assert(ops[i].spec_gpu_capable());
        assert(p.window_len(ops, i) == n);
        crate::partitioner::lemma_choice(p, ops, i, n);
        match p.chosen(ops, i) {
            Some(len) => len,
            None => 0,
        }
    } else {
        0
    }
}

// ---------------------------------------------------------------------------
// Arrays and tensors
// ---------------------------------------------------------------------------
/// The lengths that count towards the size of an array are those that are not
/// zero: one axis more multiplies by its length, unless that is zero.
pub proof fn law_empty_axes_do_not_count(dims: Seq<usize>, d: usize)
    ensures
        nonzero_product(Seq::empty()) == 1,
        nonzero_product(dims.push(d)) == if d == 0 {
            nonzero_product(dims)
        } else {
            nonzero_product(dims) * d as nat
        },
{
    assert(dims.push(d).drop_last() =~= dims);
}

/// In column-major order the columns of a matrix follow each other.
pub proof fn law_columns_follow_each_other(rows: usize, cols: usize, r: int, c: int)
    requires
        0 <= r < rows,
        0 <= c < cols,
    ensures
        column_offset(seq![rows, cols], r * cols + c, 1) == c * rows + r,
{
    let dims = seq![rows, cols];
    let i = r * cols + c;
    let one = seq![cols];
    let none = Seq::<usize>::empty();
    assert(dims.drop_first() =~= one);
    assert(one.drop_first() =~= none);
    assert(one.drop_last() =~= none);
    assert(product(none) == 1);
    assert(product(one) == cols) by {
        assert(product(one) == product(one.drop_last()) * one.last() as nat);
        assert(1 * cols as nat == cols);
    }
    vstd::arithmetic::div_mod::lemma_fundamental_div_mod_converse(i, cols as int, r, c);
    assert(i / cols as int == r && i % cols as int == c);
    assert(c / 1 == c && c % 1 == 0);
    assert(column_offset(none, 0, 1 * rows * cols) == 0);
    let step = 1 * dims[0];
    assert(column_offset(one, c, step) == c * step + 0) by {
        let block = product(one.drop_first()) as int;
        assert(block == 1);
        assert(column_offset(one, c, step) == (c / block) * step + column_offset(
            one.drop_first(),
            c % block,
            step * one[0],
        ));
    }
    assert(r * 1 == r);
}

/// An array of given axis lengths has the elements that it is made of, in
/// their order, where there are as many as the lengths multiply to and the
/// lengths are in range; else it is told what is wrong.
pub proof fn law_arrays_are_made(
    dims: &Vec<usize>,
    data: Vec<F32>,
    r: Result<NdArray, ShapeFault>,
)
    requires
        call_ensures(NdArray::from_shape_vec, (dims, data), r),
    ensures
        ({
            let fits = nonzero_product(dims@) <= isize::MAX;
            &&& r is Ok <==> fits && product(dims@) == data@.len()
            &&& r is Ok ==> r->Ok_0@.dims == dims@ && r->Ok_0@.elems == data@ && r->Ok_0@.memory
                == Some(data@)
            &&& !fits ==> r == Err::<NdArray, ShapeFault>(ShapeFault::Overflow)
            &&& fits && data@.len() < product(dims@) ==> r == Err::<NdArray, ShapeFault>(
                ShapeFault::OutOfBounds,
            )
            &&& fits && data@.len() > product(dims@) ==> r == Err::<NdArray, ShapeFault>(
                ShapeFault::IncompatibleShape,
            )
        }),
{
}

/// An array shows its axis lengths and its elements.
pub proof fn law_arrays_are_shown(
    a: &NdArray,
    dims: Vec<usize>,
    elems: Vec<F32>,
    memory: Option<&[F32]>,
    flat: Vec<F32>,
)
    requires
        call_ensures(NdArray::shape, (a,), dims),
        call_ensures(NdArray::to_vec, (a,), elems),
        call_ensures(NdArray::as_slice_memory_order, (a,), memory),
        call_ensures(flat_elements, (a,), flat),
    ensures
        dims@ == a@.dims,
        elems@ == a@.elems,
        memory is Some <==> a@.memory is Some,
        memory is Some ==> Some(memory->0@) == a@.memory,
        memory is Some ==> flat@ == memory->0@,
        memory is None ==> flat@ == elems@,
{
}

/// What was read from a device becomes an array of the new axis lengths with
/// just these elements in row-major order, where there are as many as the
/// lengths multiply to; what could not be read becomes nothing.
pub proof fn law_read_elements_are_kept(
    dims: &Vec<usize>,
    read: Result<Vec<F32>, String>,
    r: Result<TensorStorage, NodeError>,
)
    requires
        call_ensures(ReshapeNode::storage_of_read, (dims, read), r),
    ensures
        read is Err ==> r is Err && r->Err_0 is DeviceFetch,
        read is Ok ==> (r is Ok <==> nonzero_product(dims@) <= isize::MAX && product(dims@)
            == read->Ok_0@.len()),
        read is Ok && r is Err ==> r->Err_0 is Shape,
        read is Ok && r is Ok ==> {
            &&& r->Ok_0@ is NdF32
            &&& r->Ok_0@->array.dims == dims@
            &&& r->Ok_0@->array.elems == read->Ok_0@
            &&& r->Ok_0@->array.memory == Some(read->Ok_0@)
        },
{
}

/// What was read from a device becomes a tensor of the shape, with just these
/// elements in row-major order; and so does its array.
pub proof fn law_fetched_elements_are_kept(
    shape: &Shape,
    read: Result<Vec<F32>, String>,
    r: Result<Tensor, TensorError>,
    a: Option<NdArray>,
    dims: Seq<usize>,
)
    requires
        call_ensures(Tensor::tensor_of_read, (shape, read), r),
        call_ensures(Tensor::array_of_read, (shape, read), a),
        shape@.len() == dims.len(),
        forall|i: int| 0 <= i < dims.len() ==> #[trigger] shape@[i] == Some(dims[i]),
    ensures
        read is Err ==> r is Err && r->Err_0 is DeviceRead && a is None,
        read is Err ==> r->Err_0->DeviceRead_0@ == read->Err_0@,
        read is Ok ==> (r is Ok <==> nonzero_product(dims) <= isize::MAX && product(dims)
            == read->Ok_0@.len()),
        a is Some <==> r is Ok,
        read is Ok && r is Ok ==> {
            let t = r->Ok_0;
            &&& t.dtype == DType::F32
            &&& t.shape@ == shape@
            &&& t.storage@ is NdF32
            &&& t.storage@->array.dims == dims
            &&& t.storage@->array.elems == read->Ok_0@
            &&& a->0@.dims == dims
            &&& a->0@.elems == read->Ok_0@
        },
{
    assert(concrete(shape@)->0 =~= dims);
}

/// A tensor without axes is a scalar, one with one axis a vector.
pub proof fn law_scalars_and_vectors(t: &Tensor, s: bool, v: bool, n: usize, none: Shape, one: Shape)
    requires
        call_ensures(Tensor::is_scalar, (t,), s),
        call_ensures(Tensor::is_vector, (t,), v),
        call_ensures(Shape::scalar, (), none),
        call_ensures(Shape::vector, (n,), one),
    ensures
        s <==> t.shape@.len() == 0,
        v <==> t.shape@.len() == 1,
        none@.len() == 0,
        one@.len() == 1,
        one@[0] == Some(n),
{
}

/// A tensor on the host shows its elements as they lie in memory, and hands
/// out its array; one of 64-bit floats does neither.
pub proof fn law_host_tensors_show_their_elements(
    t: &Tensor,
    slice: Option<&[F32]>,
    array: Option<Arc<NdArray>>,
)
    requires
        call_ensures(Tensor::as_f32_slice, (t,), slice),
        call_ensures(Tensor::to_ndarray_f32, (t,), array),
    ensures
        t.storage@ is NdF32 ==> {
            &&& slice is Some <==> t.storage@->array.memory is Some
            &&& slice is Some ==> Some(slice->0@) == t.storage@->array.memory
            &&& array is Some
            &&& (*array->0)@ == t.storage@->array
        },
        t.storage@ is NdF64 ==> slice is None && array is None,
        t.storage@ is Device ==> slice is None,
{
}

/// Copies of tensors, and of what they are made of, are equal.
pub proof fn law_copies_are_equal(
    t: &Tensor,
    t2: Tensor,
    s: &Shape,
    s2: Shape,
    p: &PortSpec,
    p2: PortSpec,
)
    requires
        call_ensures(<Tensor as Clone>::clone, (t,), t2),
        call_ensures(<Shape as Clone>::clone, (s,), s2),
        call_ensures(<PortSpec as Clone>::clone, (p,), p2),
    ensures
        t2.dtype == t.dtype,
        t2.shape@ == t.shape@,
        t2.storage@ == t.storage@,
        s2@ == s@,
        p2.id.0@ == p.id.0@,
        p2.arity == p.arity,
        p2.dtype == p.dtype,
        p2.allow_broadcast == p.allow_broadcast,
        p2.shape is Some <==> p.shape is Some,
        p2.shape is Some ==> p2.shape->0@ == p.shape->0@,
{
    assert(p2@ == p@);
    assert(t2@ == t@);
}

// ---------------------------------------------------------------------------
// Ports of the nodes
// ---------------------------------------------------------------------------
/// A port that takes just one tensor of 32-bit floats, of any shape.
pub open spec fn takes_one(p: PortSpec, id: Seq<char>) -> bool {
    &&& p.id.0@ == id
    &&& p.arity == Arity::Exactly(1)
    &&& p.dtype == Some(DType::F32)
    &&& !p.allow_broadcast
}

/// The node that reshapes takes one tensor of any shape and gives one of its
/// target.
pub proof fn law_ports_of_reshape<R>(node: &ReshapeNode, s: NodeSpec)
    requires
        call_ensures(<ReshapeNode as Node<R>>::spec, (node,), s),
    ensures
        s.inputs@.len() == 1,
        s.outputs@.len() == 1,
        takes_one(s.inputs@[0], node.in_port.0@),
        s.inputs@[0].shape is None,
        takes_one(s.outputs@[0], node.out_port.0@),
        s.outputs@[0].shape is Some,
        s.outputs@[0].shape->0@ == node.target@,
{
    let v = s@;
    assert(v.inputs.len() == 1 && v.outputs.len() == 1);
    assert(v.inputs[0] == s.inputs@[0]@);
    assert(v.outputs[0] == s.outputs@[0]@);
}

/// The node that concatenates takes one tensor at each of its ports and gives
/// one.
pub proof fn law_ports_of_concat<R>(node: &ConcatNode, s: NodeSpec, i: int)
    requires
        call_ensures(<ConcatNode as Node<R>>::spec, (node,), s),
        0 <= i < node.in_ports@.len(),
    ensures
        s.inputs@.len() == node.in_ports@.len(),
        takes_one(s.inputs@[i], node.in_ports@[i].0@),
        s.inputs@[i].shape is None,
        s.outputs@.len() == 1,
        takes_one(s.outputs@[0], node.out_port.0@),
        s.outputs@[0].shape is None,
{
    let v = s@;
    assert(v.inputs.len() == node.in_ports@.len() && v.outputs.len() == 1);
    assert(v.inputs[i] == s.inputs@[i]@);
    assert(v.outputs[0] == s.outputs@[0]@);
}

/// The node that merges takes one tensor or more and gives one at each of its
/// ports, of whatever type and shape.
pub proof fn law_ports_of_merge<R>(node: &MergeNode, s: NodeSpec, i: int)
    requires
        call_ensures(<MergeNode as Node<R>>::spec, (node,), s),
        0 <= i < node.out_ports@.len(),
    ensures
        s.inputs@.len() == 1,
        s.inputs@[0].id.0@ == node.in_port.0@,
        s.inputs@[0].arity == (Arity::Range { min: 1, max: None }),
        s.inputs@[0].dtype is None && s.inputs@[0].shape is None,
        s.outputs@.len() == node.out_ports@.len(),
        s.outputs@[i].id.0@ == node.out_ports@[i].0@,
        s.outputs@[i].arity == Arity::Exactly(1),
        s.outputs@[i].dtype is None && s.outputs@[i].shape is None,
{
    let v = s@;
    assert(v.outputs.len() == node.out_ports@.len() && v.inputs.len() == 1);
    assert(v.inputs[0] == s.inputs@[0]@);
    assert(v.outputs[i] == s.outputs@[i]@);
}

/// The node that applies a stage takes one tensor as `x` and gives one as `y`.
pub proof fn law_ports_of_stages<R, F: Fn(F32) -> F32 + Send + Sync>(
    node: &StageNode<F>,
    s: NodeSpec,
)
    requires
        call_ensures(<StageNode<F> as Node<R>>::spec, (node,), s),
    ensures
        s.inputs@.len() == 1,
        s.outputs@.len() == 1,
        takes_one(s.inputs@[0], "x"@),
        takes_one(s.outputs@[0], "y"@),
        s.inputs@[0].shape is None && s.outputs@[0].shape is None,
{
    let v = s@;
    assert(v.inputs.len() == 1 && v.outputs.len() == 1);
    assert(v.inputs[0] == s.inputs@[0]@);
    assert(v.outputs[0] == s.outputs@[0]@);
}

/// Nodes are made of what they are given.
pub proof fn law_nodes_are_made<F: Fn(F32) -> F32 + Send + Sync>(
    name: &'static str,
    a: PortId,
    b: PortId,
    target: Shape,
    ports: Vec<PortId>,
    stage: Stage<F>,
    reshape: ReshapeNode,
    merge: MergeNode,
    staged: StageNode<F>,
)
    requires
        call_ensures(ReshapeNode::new, (name, a, b, target), reshape),
        call_ensures(MergeNode::new, (name, a, ports), merge),
        call_ensures(StageNode::<F>::new, (name, stage), staged),
    ensures
        reshape.name == name && merge.name == name && staged.name == name,
        reshape.in_port == a && reshape.out_port == b && reshape.target == target,
        merge.in_port == a && merge.out_ports == ports,
        staged.stage == stage,
{
}

// ---------------------------------------------------------------------------
// Messages
// ---------------------------------------------------------------------------
/// The texts for faults of shapes and of the cache, and the names of events.
pub proof fn law_faults_and_events_have_their_texts(
    f: ShapeFault,
    fault: &'static str,
    c: CacheError,
    error: &'static str,
    e: CompileEvent,
    event: &'static str,
)
    requires
        call_ensures(ShapeFault::message, (&f,), fault),
        call_ensures(CacheError::message, (&c,), error),
        call_ensures(CompileEvent::name, (&e,), event),
    ensures
        fault@ == match f {
            ShapeFault::IncompatibleShape => "ShapeError/IncompatibleShape: incompatible shapes"@,
            ShapeFault::IncompatibleLayout => "ShapeError/IncompatibleLayout: incompatible memory layout"@,
            ShapeFault::RangeLimited => "ShapeError/RangeLimited: the shape does not fit in type limits"@,
            ShapeFault::OutOfBounds => "ShapeError/OutOfBounds: out of bounds indexing"@,
            ShapeFault::Unsupported => "ShapeError/Unsupported: unsupported operation"@,
            ShapeFault::Overflow => "ShapeError/Overflow: arithmetic overflow"@,
            ShapeFault::Other => "ShapeError"@,
        },
        error@ == match c {
            CacheError::WriteTemp => "write temp artifact"@,
            CacheError::Rename => "atomic rename"@,
            CacheError::WriteTempIndex => "write temp index"@,
            CacheError::RenameIndex => "atomic rename index"@,
        },
        event@ == match e {
            CompileEvent::Start => "compile_start"@,
            CompileEvent::Cancelled => "compile_cancelled"@,
            CompileEvent::Done => "compile_done"@,
        },
{
}

/// The texts for submissions that came to nothing: none where the compiler or
/// the cache has one.
pub proof fn law_submissions_have_their_texts(e: SubmitError, r: Option<&'static str>)
    requires
        call_ensures(SubmitError::message, (&e,), r),
    ensures
        e is Send ==> r is Some && r->0@ == "send task"@,
        e is Response ==> r is Some && r->0@ == "await response"@,
        e is Task ==> (r is Some <==> e->Task_0 == TaskOutcome::Cancelled),
        e is Task && r is Some ==> r->0@ == "cancelled"@,
{
}

/// The texts for tensors that cannot be made or moved. That of a device that
/// cannot be read, and that of a shape, are their own.
pub proof fn law_tensor_errors_have_their_texts(e: &TensorError, r: String, told: &'static str)
    requires
        call_ensures(TensorError::message, (e,), r),
        e matches TensorError::Shape(fault) ==> call_ensures(
            ShapeFault::message,
            (fault,),
            told,
        ),
    ensures
        match e {
            TensorError::DataLength => r@ == "data length does not match dims"@,
            TensorError::Shape(_) => r@ == told@,
            TensorError::HostToDevice => r@
                == "host_to_device: only NdF32 supported in dummy device"@,
            TensorError::DeviceRead(text) => r@ == text@,
            TensorError::DeviceToHost => r@ == "device_to_host: failed"@,
            TensorError::NotOnDevice => r@ == "device_to_host: not a device tensor"@,
        },
{
}

/// The texts for nodes that return nothing.
pub proof fn law_node_errors_have_their_texts(e: &NodeError, r: String, told: &'static str)
    requires
        call_ensures(NodeError::message, (e,), r),
        e matches NodeError::Shape(fault) ==> call_ensures(ShapeFault::message, (fault,), told),
    ensures
        match e {
            NodeError::Ports(text) => r@ == text@,
            NodeError::MissingInput => r@ == "missing input"@,
            NodeError::ReshapeArity => r@ == "reshape expects exactly one tensor"@,
            NodeError::SourceShapeUnknown => r@ == "source shape unknown"@,
            NodeError::TargetShapeUnknown => r@ == "target shape unknown"@,
            NodeError::CountMismatch => r@ == "element count mismatch for reshape"@,
            NodeError::Shape(_) => r@ == told@,
            NodeError::DeviceFetch => r@ == "reshape: unable to fetch device data"@,
            NodeError::DeviceDType => r@ == "reshape: unsupported device dtype"@,
            NodeError::HostDType => r@ == "reshape: unsupported host dtype"@,
            NodeError::NotF32 => r@ == "concat expects f32-compatible tensors"@,
            NodeError::NothingToConcat => r@ == "concat: no inputs"@,
            NodeError::NothingToMerge => r@ == "not enough tensors to merge"@,
            NodeError::NotScalar => r@ == "StageNode expected scalar f32 input"@,
            NodeError::Other(text) => r@ == text@,
        },
{
}

/// Joined texts follow each other, character by character.
pub proof fn law_texts_are_joined(a: &str, b: &str, c: &str, two: String, three: String, i: int)
    requires
        call_ensures(join2, (a, b), two),
        call_ensures(join3, (a, b, c), three),
    ensures
        two@.len() == a@.len() + b@.len(),
        three@.len() == a@.len() + b@.len() + c@.len(),
        0 <= i < a@.len() ==> two@[i] == a@[i] && three@[i] == a@[i],
        0 <= i < b@.len() ==> two@[a@.len() + i] == b@[i] && three@[a@.len() + i] == b@[i],
        0 <= i < c@.len() ==> three@[a@.len() + b@.len() + i] == c@[i],
{
}

} // verus!
