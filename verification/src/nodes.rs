//! The nodes that come with the library.

use crate::nd::{
    joinable, joined, nd_clone, nd_concatenate, nd_from_shape_vec, nd_into_shape, nd_shape,
    nd_views, product, reshaped, shaped, standard, NdArray, NdView, ShapeFault, F32,
};
use crate::neuron::Stage;
use crate::node::{
    pass_view, Node, NodeError, NodeErrorView, NodeSpec, NodeSpecView, Outcome, TickCtx,
};
use crate::port::{
    port_views, ports_view, tensor_views, Arity, PortId, PortSpec, PortTensors, PortView,
};
use crate::strmap::StrMap;
use crate::tensor::{
    concrete, fetched, has_array, known, saturated, DType, Shape, StorageView, Tensor,
    TensorStorage, TensorView,
};
use std::sync::Arc;
use vstd::prelude::*;

verus! {

/// A port that takes one 32-bit float tensor of any shape.
pub open spec fn any_f32(id: Seq<char>) -> PortView {
    PortView {
        id,
        arity: Arity::Exactly(1),
        dtype: Some(DType::F32),
        shape: None,
        allow_broadcast: false,
    }
}

fn any_f32_port(id: PortId) -> (r: PortSpec)
    ensures
        r@ == any_f32(id.0@),
{
    PortSpec {
        id,
        arity: Arity::Exactly(1),
        dtype: Some(DType::F32),
        shape: None,
        allow_broadcast: false,
    }
}

/// One tensor at one port.
pub open spec fn single(id: Seq<char>, t: TensorView) -> Map<Seq<char>, Seq<TensorView>> {
    map![id => seq![t]]
}

fn single_port(id: PortId, t: Tensor) -> (r: PortTensors)
    ensures
        ports_view(r@) == single(id.0@, t@),
{
    let mut list: Vec<Tensor> = Vec::new();
    list.push(t);
    let mut out: PortTensors = StrMap::new();
    out.insert(id.as_str(), list);
    assert(tensor_views(list@) =~= seq![t@]);
    assert(ports_view(out@) =~= single(id.0@, t@));
    out
}

fn node_spec(input: PortSpec, output: PortSpec) -> (r: NodeSpec)
    ensures
        r@.inputs == seq![input@],
        r@.outputs == seq![output@],
{
    let mut inputs: Vec<PortSpec> = Vec::new();
    inputs.push(input);
    let mut outputs: Vec<PortSpec> = Vec::new();
    outputs.push(output);
    assert(port_views(inputs@) =~= seq![input@]);
    assert(port_views(outputs@) =~= seq![output@]);
    NodeSpec { inputs, outputs }
}

// ---------------------------------------------------------------------------
// Reshape
// ---------------------------------------------------------------------------
/// Takes one tensor of 32-bit floats and gives it another shape with as many
/// elements.
pub struct ReshapeNode {
    pub name: &'static str,
    pub in_port: PortId,
    pub out_port: PortId,
    pub target: Shape,
}

/// The number of elements, where it is known.
pub open spec fn count(shape: Seq<Option<usize>>) -> Option<usize> {
    match concrete(shape) {
        Some(dims) => Some(saturated(product(dims))),
        None => None,
    }
}

/// The storage over an array, or the fault that came instead of one.
pub open spec fn stored(r: Result<NdView, ShapeFault>) -> Result<StorageView, NodeErrorView> {
    match r {
        Ok(array) => Ok(StorageView::NdF32 { array }),
        Err(fault) => Err(NodeErrorView::Shape { fault }),
    }
}

/// The storage of a reshaped tensor from what reading its device came to.
pub open spec fn refetched(dims: Seq<usize>, read: Option<Seq<F32>>) -> Result<
    StorageView,
    NodeErrorView,
> {
    match read {
        Some(data) => stored(shaped(dims, data)),
        None => Err(NodeErrorView::DeviceFetch),
    }
}

/// What the storage of a tensor may become under new axis lengths: only 32-bit
/// floats can be reshaped, and a device that cannot be read keeps it from
/// becoming anything.
pub open spec fn may_restore(
    storage: StorageView,
    dims: Seq<usize>,
    r: Result<StorageView, NodeErrorView>,
) -> bool {
    match storage {
        StorageView::NdF32 { array } => r == stored(reshaped(array, dims)),
        StorageView::NdF64 { .. } => r == Err::<StorageView, _>(NodeErrorView::HostDType),
        StorageView::Device { dtype, contents, readable, .. } => if dtype == DType::F32 {
            r == refetched(dims, Some(contents)) || (!readable && r == refetched(dims, None))
        } else {
            r == Err::<StorageView, _>(NodeErrorView::DeviceDType)
        },
    }
}

/// The fault that keeps a tensor from the target shape before its elements are
/// looked at, if there is one.
pub open spec fn reshape_fault(
    inputs: Map<Seq<char>, Seq<TensorView>>,
    in_port: Seq<char>,
    target: Seq<Option<usize>>,
) -> Option<NodeErrorView> {
    if !inputs.dom().contains(in_port) {
        Some(NodeErrorView::MissingInput)
    } else if inputs[in_port].len() != 1 {
        Some(NodeErrorView::ReshapeArity)
    } else if count(inputs[in_port][0].shape) is None {
        Some(NodeErrorView::SourceShapeUnknown)
    } else if count(target) is None {
        Some(NodeErrorView::TargetShapeUnknown)
    } else if count(inputs[in_port][0].shape) != count(target) {
        Some(NodeErrorView::CountMismatch)
    } else {
        None
    }
}

impl ReshapeNode {
    /// A node that reshapes to `target`.
    pub fn new(name: &'static str, in_port: PortId, out_port: PortId, target: Shape) -> (r: Self)
        ensures
            r == (ReshapeNode { name, in_port, out_port, target }),
    {
        ReshapeNode { name, in_port, out_port, target }
    }

    /// The outcome for the storage that the input's storage became.
    pub open spec fn emitted(
        &self,
        dtype: DType,
        r: Result<StorageView, NodeErrorView>,
    ) -> Outcome {
        match r {
            Ok(storage) => Ok(
                single(self.out_port.0@, TensorView { dtype, shape: self.target@, storage }),
            ),
            Err(e) => Err(e),
        }
    }

    /// The storage under new axis lengths of a tensor whose device was read.
    pub fn storage_of_read(dims: &Vec<usize>, read: Result<Vec<F32>, String>) -> (r: Result<
        TensorStorage,
        NodeError,
    >)
        ensures
            ({
                let want = refetched(
                    dims@,
                    match read {
                        Ok(v) => Some(v@),
                        Err(_) => None,
                    },
                );
                match r {
                    Ok(s) => want == Ok::<StorageView, NodeErrorView>(s@),
                    Err(e) => want == Err::<StorageView, NodeErrorView>(e@),
                }
            }),
    {
        match read {
            Ok(data) => match nd_from_shape_vec(dims, data) {
                Ok(a) => Ok(TensorStorage::NdF32(Arc::new(a))),
                Err(fault) => Err(NodeError::Shape(fault)),
            },
            Err(_) => Err(NodeError::DeviceFetch),
        }
    }

    fn restore(storage: &TensorStorage, dims: &Vec<usize>) -> (r: Result<TensorStorage, NodeError>)
        ensures
            may_restore(
                storage@,
                dims@,
                match r {
                    Ok(s) => Ok(s@),
                    Err(e) => Err(e@),
                },
            ),
    {
        match storage {
            TensorStorage::NdF32(a) => {
                match nd_into_shape(nd_clone(a), dims) {
                    Ok(b) => Ok(TensorStorage::NdF32(Arc::new(b))),
                    Err(fault) => Err(NodeError::Shape(fault)),
                }
            },
            TensorStorage::Device(dev) => {
                if dev.dtype() == DType::F32 {
                    ReshapeNode::storage_of_read(dims, dev.to_host_f32())
                } else {
                    Err(NodeError::DeviceDType)
                }
            },
            TensorStorage::NdF64(_) => Err(NodeError::HostDType),
        }
    }
}

impl<R> Node<R> for ReshapeNode {
    open spec fn spec_ports(&self) -> NodeSpecView {
        NodeSpecView {
            inputs: seq![any_f32(self.in_port.0@)],
            outputs: seq![
                PortView { shape: Some(self.target@), ..any_f32(self.out_port.0@) },
            ],
        }
    }

    open spec fn accepts(&self, inputs: Map<Seq<char>, Seq<TensorView>>) -> bool {
        true
    }

    open spec fn may_return(&self, inputs: Map<Seq<char>, Seq<TensorView>>, r: Outcome) -> bool {
        match reshape_fault(inputs, self.in_port.0@, self.target@) {
            Some(e) => r == Outcome::Err(e),
            None => {
                let t = inputs[self.in_port.0@][0];
                let dims = concrete(self.target@)->0;
                exists|s: Result<StorageView, NodeErrorView>| #[trigger]
                    may_restore(t.storage, dims, s) && r == self.emitted(t.dtype, s)
            },
        }
    }

    fn spec(&self) -> (r: NodeSpec) {
        let mut output = any_f32_port(self.out_port);
        output.shape = Some(self.target.clone());
        node_spec(any_f32_port(self.in_port), output)
    }

    fn forward(&mut self, ctx: &mut TickCtx<R>, inputs: PortTensors) -> (r: Result<
        PortTensors,
        NodeError,
    >)
        ensures
            *final(self) == *old(self),
            *final(ctx) == *old(ctx),
    {
        let ghost given = ports_view(inputs@);
        let mut inputs: PortTensors = inputs;
        let mut v: Vec<Tensor> = match inputs.remove(self.in_port.as_str()) {
            Some(v) => v,
            None => {
                return Err(NodeError::MissingInput);
            },
        };
        if v.len() != 1 {
            return Err(NodeError::ReshapeArity);
        }
        assert(given[self.in_port.0@] == tensor_views(v@));
        let t: Tensor = v.swap_remove(0);
        let source: usize = match t.shape.num_elements() {
            Some(n) => n,
            None => {
                return Err(NodeError::SourceShapeUnknown);
            },
        };
        let target: usize = match self.target.num_elements() {
            Some(n) => n,
            None => {
                return Err(NodeError::TargetShapeUnknown);
            },
        };
        if source != target {
            return Err(NodeError::CountMismatch);
        }
        match self.target.dims() {
            Some(dims) => match ReshapeNode::restore(&t.storage, &dims) {
                Ok(storage) => {
                    assert(may_restore(t.storage@, dims@, Ok(storage@)));
                    Ok(
                        single_port(
                            self.out_port,
                            Tensor { dtype: t.dtype, shape: self.target.clone(), storage },
                        ),
                    )
                },
                Err(e) => {
                    assert(may_restore(t.storage@, dims@, Err(e@)));
                    Err(e)
                },
            },
            None => Err(NodeError::TargetShapeUnknown),
        }
    }
}

// ---------------------------------------------------------------------------
// Concatenation
// ---------------------------------------------------------------------------
/// Joins the tensors of several ports along an axis.
pub struct ConcatNode {
    pub name: &'static str,
    pub in_ports: Vec<PortId>,
    pub out_port: PortId,
    pub axis: usize,
}

/// The names of ports.
pub open spec fn port_names(ids: Seq<PortId>) -> Seq<Seq<char>> {
    Seq::new(ids.len(), |i: int| ids[i].0@)
}

/// The tensors at the ports from `i` on, in the order of the ports. A port
/// that is named again has nothing left.
pub open spec fn gathered(
    ports: Seq<Seq<char>>,
    inputs: Map<Seq<char>, Seq<TensorView>>,
    i: int,
) -> Seq<TensorView>
    decreases ports.len() - i,
{
    if i < 0 || i >= ports.len() {
        Seq::empty()
    } else {
        let rest = gathered(ports, inputs.remove(ports[i]), i + 1);
        if inputs.dom().contains(ports[i]) {
            inputs[ports[i]] + rest
        } else {
            rest
        }
    }
}

/// The array of a tensor: that on the host, or the one read from a device of
/// 32-bit floats, where its shape fits.
pub open spec fn host_array(t: TensorView) -> Option<NdView> {
    match t.storage {
        StorageView::NdF32 { array } => Some(array),
        StorageView::NdF64 { .. } => None,
        StorageView::Device { dtype, contents, .. } => if dtype == DType::F32 && fetched(
            t.shape,
            Ok(contents),
        ) is Ok {
            Some(fetched(t.shape, Ok(contents))->Ok_0.storage->array)
        } else {
            None
        },
    }
}

/// Whether the array of a tensor may fail to come.
pub open spec fn may_fail(t: TensorView) -> bool {
    !has_array(t)
}

/// Whether every tensor has an array.
pub open spec fn all_arrays(ts: Seq<TensorView>) -> bool {
    forall|k: int| 0 <= k < ts.len() ==> host_array(#[trigger] ts[k]) is Some
}

/// The arrays of the tensors.
pub open spec fn host_arrays(ts: Seq<TensorView>) -> Seq<NdView> {
    Seq::new(ts.len(), |k: int| host_array(ts[k])->0)
}

impl ConcatNode {
    /// A node that joins along the first axis.
    pub fn new(name: &'static str, in_ports: Vec<PortId>, out_port: PortId) -> (r: Self)
        ensures
            r == (ConcatNode { name, in_ports, out_port, axis: 0 }),
    {
        ConcatNode { name, in_ports, out_port, axis: 0 }
    }

    /// The outcome for what joining the arrays came to.
    pub open spec fn emitted(&self, r: Result<NdView, ShapeFault>) -> Outcome {
        match r {
            Ok(array) => Ok(
                single(
                    self.out_port.0@,
                    TensorView {
                        dtype: DType::F32,
                        shape: known(array.dims),
                        storage: StorageView::NdF32 { array },
                    },
                ),
            ),
            Err(fault) => Err(NodeErrorView::Shape { fault }),
        }
    }

    /// What joining the arrays comes to.
    pub open spec fn concatenated(&self, arrays: Seq<NdView>) -> Outcome {
        if arrays.len() == 0 {
            Err(NodeErrorView::NothingToConcat)
        } else {
            self.emitted(joined(arrays, self.axis as int))
        }
    }

    /// Joins the arrays of the inputs.
    pub fn join(&self, arrays: &Vec<NdArray>) -> (r: Result<PortTensors, NodeError>)
        requires
            joinable(nd_views(arrays@), self.axis as int),
        ensures
            pass_view(r) == self.concatenated(nd_views(arrays@)),
    {
        if arrays.len() == 0 {
            return Err(NodeError::NothingToConcat);
        }
        match nd_concatenate(self.axis, arrays) {
            Ok(cat) => {
                let shape = Shape::of_dims(&nd_shape(&cat));
                Ok(
                    single_port(
                        self.out_port,
                        Tensor {
                            dtype: DType::F32,
                            shape,
                            storage: TensorStorage::NdF32(Arc::new(cat)),
                        },
                    ),
                )
            },
            Err(fault) => Err(NodeError::Shape(fault)),
        }
    }

    /// Appends the arrays of a list of tensors, up to the first that has none.
    fn collect(ts: &Vec<Tensor>, arrays: &mut Vec<NdArray>) -> (r: bool)
        ensures
            r ==> all_arrays(tensor_views(ts@)) && nd_views(final(arrays)@) == nd_views(
                old(arrays)@,
            ) + host_arrays(tensor_views(ts@)),
            !r ==> exists|k: int|
                0 <= k < ts@.len() && #[trigger] may_fail(tensor_views(ts@)[k]),
    {
        let ghost views = tensor_views(ts@);
        let ghost before = nd_views(arrays@);
        let mut k: usize = 0;
        assert(host_arrays(views).take(0) =~= Seq::empty());
        while k < ts.len()
            invariant
                k <= ts@.len(),
                views == tensor_views(ts@),
                forall|j: int| 0 <= j < k ==> host_array(#[trigger] views[j]) is Some,
                nd_views(arrays@) == before + host_arrays(views).take(k as int),
            decreases ts@.len() - k,
        {
            let ghost held = arrays@;
            match ts[k].to_ndarray_f32() {
                Some(a) => {
                    assert(host_array(views[k as int]) == Some((*a)@));
                    arrays.push(nd_clone(&a));
                    assert(nd_views(arrays@) =~= nd_views(held).push((*a)@));
                    assert(host_arrays(views).take(k + 1) =~= host_arrays(views).take(
                        k as int,
                    ).push((*a)@));
                },
                None => {
                    assert(may_fail(views[k as int]));
                    return false;
                },
            }
            k = k + 1;
        }
        assert(host_arrays(views).take(k as int) =~= host_arrays(views));
        true
    }
}

impl<R> Node<R> for ConcatNode {
    open spec fn spec_ports(&self) -> NodeSpecView {
        NodeSpecView {
            inputs: Seq::new(self.in_ports@.len(), |i: int| any_f32(self.in_ports@[i].0@)),
            outputs: seq![any_f32(self.out_port.0@)],
        }
    }

    open spec fn accepts(&self, inputs: Map<Seq<char>, Seq<TensorView>>) -> bool {
        let ts = gathered(port_names(self.in_ports@), inputs, 0);
        all_arrays(ts) ==> joinable(host_arrays(ts), self.axis as int)
    }

    open spec fn may_return(&self, inputs: Map<Seq<char>, Seq<TensorView>>, r: Outcome) -> bool {
        let ts = gathered(port_names(self.in_ports@), inputs, 0);
        ||| r == Outcome::Err(NodeErrorView::NotF32) && exists|k: int|
            0 <= k < ts.len() && #[trigger] may_fail(ts[k])
        ||| all_arrays(ts) && r == self.concatenated(host_arrays(ts))
    }

    fn spec(&self) -> (r: NodeSpec) {
        let mut inputs: Vec<PortSpec> = Vec::new();
        let mut i: usize = 0;
        let ghost want = Seq::new(
            self.in_ports@.len(),
            |i: int| any_f32(self.in_ports@[i].0@),
        );
        while i < self.in_ports.len()
            invariant
                i <= self.in_ports@.len(),
                want == Seq::new(self.in_ports@.len(), |i: int| any_f32(self.in_ports@[i].0@)),
                port_views(inputs@) == want.take(i as int),
            decreases self.in_ports@.len() - i,
        {
            let ghost held = inputs@;
            let port = any_f32_port(self.in_ports[i]);
            inputs.push(port);
            assert(port_views(inputs@) =~= port_views(held).push(port@));
            assert(want.take(i + 1) =~= want.take(i as int).push(want[i as int]));
            i = i + 1;
        }
        assert(want.take(i as int) =~= want);
        let mut outputs: Vec<PortSpec> = Vec::new();
        outputs.push(any_f32_port(self.out_port));
        assert(port_views(outputs@) =~= seq![any_f32(self.out_port.0@)]);
        NodeSpec { inputs, outputs }
    }

    fn forward(&mut self, ctx: &mut TickCtx<R>, inputs: PortTensors) -> (r: Result<
        PortTensors,
        NodeError,
    >)
        ensures
            *final(self) == *old(self),
            *final(ctx) == *old(ctx),
    {
        let ghost names = port_names(self.in_ports@);
        let ghost given = ports_view(inputs@);
        let ghost all = gathered(names, given, 0);
        let ghost mut seen: Seq<TensorView> = Seq::empty();
        let mut left: PortTensors = inputs;
        let mut arrays: Vec<NdArray> = Vec::new();
        let mut i: usize = 0;
        assert(seen + gathered(names, given, 0) =~= all);
        assert(nd_views(arrays@) =~= host_arrays(seen));
        while i < self.in_ports.len()
            invariant
                i <= self.in_ports@.len(),
                *self == *old(self),
                names == port_names(self.in_ports@),
                all == gathered(names, ports_view(inputs@), 0),
                all == seen + gathered(names, ports_view(left@), i as int),
                all_arrays(seen),
                nd_views(arrays@) == host_arrays(seen),
            decreases self.in_ports@.len() - i,
        {
            let ghost before = left@;
            let taken = left.remove(self.in_ports[i].as_str());
            proof {
                assert(ports_view(left@) =~= ports_view(before).remove(names[i as int]));
            }
            match taken {
                Some(ts) => {
                    let ghost views = tensor_views(ts@);
                    let ghost rest = gathered(names, ports_view(left@), i + 1);
                    assert(seen + (views + rest) =~= (seen + views) + rest);
                    if !ConcatNode::collect(&ts, &mut arrays) {
                        proof {
                            let k = choose|k: int|
                                0 <= k < ts@.len() && #[trigger] may_fail(tensor_views(ts@)[k]);
                            assert(all[seen.len() + k] == views[k]);
                        }
                        return Err(NodeError::NotF32);
                    }
                    proof {
                        assert(host_arrays(seen + views) =~= host_arrays(seen) + host_arrays(views));
                        assert forall|k: int| 0 <= k < (seen + views).len() implies host_array(
                            #[trigger] (seen + views)[k],
                        ) is Some by {
                            if k >= seen.len() {
                                assert((seen + views)[k] == views[k - seen.len()]);
                            } else {
                                assert((seen + views)[k] == seen[k]);
                            }
                        }
                        seen = seen + views;
                    }
                },
                None => {},
            }
            i = i + 1;
        }
        assert(seen + gathered(names, ports_view(left@), i as int) =~= seen);
        self.join(&arrays)
    }
}

// ---------------------------------------------------------------------------
// Merging
// ---------------------------------------------------------------------------
/// Spreads the tensors of one port over several, in order.
pub struct MergeNode {
    pub name: &'static str,
    pub in_port: PortId,
    pub out_ports: Vec<PortId>,
}

/// A port that takes any tensors, as many as `arity` says.
pub open spec fn any_tensor(id: Seq<char>, arity: Arity) -> PortView {
    PortView { id, arity, dtype: None, shape: None, allow_broadcast: false }
}

/// The tensors `ts` at the first `n` of the ports: each port gets the tensor
/// in its place, or, where there are no more, the first; of two ports with
/// one name the later counts.
pub open spec fn spread(ports: Seq<Seq<char>>, ts: Seq<TensorView>, n: nat) -> Map<
    Seq<char>,
    Seq<TensorView>,
>
    decreases n,
{
    if n == 0 {
        Map::empty()
    } else {
        let t = if n - 1 < ts.len() {
            ts[n - 1]
        } else {
            ts[0]
        };
        spread(ports, ts, (n - 1) as nat).insert(ports[n - 1], seq![t])
    }
}

/// What a merge comes to.
pub open spec fn merged(
    inputs: Map<Seq<char>, Seq<TensorView>>,
    in_port: Seq<char>,
    out_ports: Seq<Seq<char>>,
) -> Outcome {
    if !inputs.dom().contains(in_port) {
        Err(NodeErrorView::MissingInput)
    } else if inputs[in_port].len() == 0 && out_ports.len() > 0 {
        Err(NodeErrorView::NothingToMerge)
    } else {
        Ok(spread(out_ports, inputs[in_port], out_ports.len()))
    }
}

impl MergeNode {
    /// A node that spreads `in_port` over `out_ports`.
    pub fn new(name: &'static str, in_port: PortId, out_ports: Vec<PortId>) -> (r: Self)
        ensures
            r == (MergeNode { name, in_port, out_ports }),
    {
        MergeNode { name, in_port, out_ports }
    }
}

impl<R> Node<R> for MergeNode {
    open spec fn spec_ports(&self) -> NodeSpecView {
        NodeSpecView {
            inputs: seq![any_tensor(self.in_port.0@, Arity::Range { min: 1, max: None })],
            outputs: Seq::new(
                self.out_ports@.len(),
                |i: int| any_tensor(self.out_ports@[i].0@, Arity::Exactly(1)),
            ),
        }
    }

    open spec fn accepts(&self, inputs: Map<Seq<char>, Seq<TensorView>>) -> bool {
        true
    }

    open spec fn may_return(&self, inputs: Map<Seq<char>, Seq<TensorView>>, r: Outcome) -> bool {
        r == merged(inputs, self.in_port.0@, port_names(self.out_ports@))
    }

    fn spec(&self) -> (r: NodeSpec) {
        let mut outputs: Vec<PortSpec> = Vec::new();
        let mut i: usize = 0;
        let ghost want = Seq::new(
            self.out_ports@.len(),
            |i: int| any_tensor(self.out_ports@[i].0@, Arity::Exactly(1)),
        );
        while i < self.out_ports.len()
            invariant
                i <= self.out_ports@.len(),
                want == Seq::new(
                    self.out_ports@.len(),
                    |i: int| any_tensor(self.out_ports@[i].0@, Arity::Exactly(1)),
                ),
                port_views(outputs@) == want.take(i as int),
            decreases self.out_ports@.len() - i,
        {
            let ghost held = outputs@;
            let port = PortSpec {
                id: self.out_ports[i],
                arity: Arity::Exactly(1),
                dtype: None,
                shape: None,
                allow_broadcast: false,
            };
            outputs.push(port);
            assert(port_views(outputs@) =~= port_views(held).push(port@));
            assert(want.take(i + 1) =~= want.take(i as int).push(want[i as int]));
            i = i + 1;
        }
        assert(want.take(i as int) =~= want);
        let mut inputs: Vec<PortSpec> = Vec::new();
        inputs.push(
            PortSpec {
                id: self.in_port,
                arity: Arity::Range { min: 1, max: None },
                dtype: None,
                shape: None,
                allow_broadcast: false,
            },
        );
        assert(port_views(inputs@) =~= seq![
            any_tensor(self.in_port.0@, Arity::Range { min: 1, max: None }),
        ]);
        NodeSpec { inputs, outputs }
    }

    fn forward(&mut self, ctx: &mut TickCtx<R>, inputs: PortTensors) -> (r: Result<
        PortTensors,
        NodeError,
    >)
        ensures
            *final(self) == *old(self),
            *final(ctx) == *old(ctx),
    {
        let ghost given = ports_view(inputs@);
        let ghost names = port_names(self.out_ports@);
        let mut left: PortTensors = inputs;
        let v: Vec<Tensor> = match left.remove(self.in_port.as_str()) {
            Some(v) => v,
            None => {
                return Err(NodeError::MissingInput);
            },
        };
        let ghost ts = tensor_views(v@);
        let mut out: PortTensors = StrMap::new();
        let mut i: usize = 0;
        assert(ports_view(out@) =~= spread(names, ts, 0));
        while i < self.out_ports.len()
            invariant
                i <= self.out_ports@.len(),
                *self == *old(self),
                names == port_names(self.out_ports@),
                ts == tensor_views(v@),
                given == ports_view(inputs@),
                given.dom().contains(self.in_port.0@),
                ts == given[self.in_port.0@],
                ports_view(out@) == spread(names, ts, i as nat),
                i > 0 ==> ts.len() > 0,
            decreases self.out_ports@.len() - i,
        {
            if v.len() == 0 {
                return Err(NodeError::NothingToMerge);
            }
            let t: Tensor = if i < v.len() {
                v[i].clone()
            } else {
                v[0].clone()
            };
            let mut list: Vec<Tensor> = Vec::new();
            list.push(t);
            let ghost before = out@;
            out.insert(self.out_ports[i].as_str(), list);
            assert(tensor_views(list@) =~= seq![t@]);
            assert(ports_view(out@) =~= ports_view(before).insert(names[i as int], seq![t@]));
            i = i + 1;
        }
        Ok(out)
    }
}

// ---------------------------------------------------------------------------
// Stages
// ---------------------------------------------------------------------------
/// Applies a stage to a scalar. It takes its input from port `x`, or from
/// port `y`, which is where it puts its output, so that such nodes follow each
/// other without more wiring.
pub struct StageNode<F> {
    pub name: &'static str,
    pub stage: Stage<F>,
}

/// The tensors that a stage takes its input from.
pub open spec fn stage_input(inputs: Map<Seq<char>, Seq<TensorView>>) -> Option<Seq<TensorView>> {
    if inputs.dom().contains("x"@) {
        Some(inputs["x"@])
    } else if inputs.dom().contains("y"@) {
        Some(inputs["y"@])
    } else {
        None
    }
}

/// The number that a stage is applied to: the last tensor, if it is a scalar
/// on the host.
pub open spec fn stage_argument(inputs: Map<Seq<char>, Seq<TensorView>>) -> Option<F32> {
    match stage_input(inputs) {
        Some(ts) => if ts.len() > 0 {
            Tensor::spec_scalar(ts.last())
        } else {
            None
        },
        None => None,
    }
}

/// A scalar on the host.
pub open spec fn scalar_view(v: F32) -> TensorView {
    TensorView {
        dtype: DType::F32,
        shape: Seq::empty(),
        storage: StorageView::NdF32 { array: standard(Seq::empty(), seq![v]) },
    }
}

/// What a node that applies `f` may come to.
pub open spec fn applied<F: Fn(F32) -> F32>(
    f: F,
    inputs: Map<Seq<char>, Seq<TensorView>>,
    r: Outcome,
) -> bool {
    match stage_argument(inputs) {
        Some(x) => exists|y: F32| #[trigger]
            call_ensures(f, (x,), y) && r == Outcome::Ok(single("y"@, scalar_view(y))),
        None => r == Outcome::Err(NodeErrorView::NotScalar),
    }
}

/// The inputs on which a node that applies `f` does not panic.
pub open spec fn applicable<F: Fn(F32) -> F32>(
    f: F,
    inputs: Map<Seq<char>, Seq<TensorView>>,
) -> bool {
    &&& stage_input(inputs) matches Some(ts) ==> ts.len() > 0
    &&& stage_argument(inputs) matches Some(x) ==> call_requires(f, (x,))
}

impl<F: Fn(F32) -> F32> StageNode<F> {
    /// A node that applies a stage.
    pub fn new(name: &'static str, stage: Stage<F>) -> (r: Self)
        ensures
            r == (StageNode { name, stage }),
    {
        StageNode { name, stage }
    }
}

impl<R, F: Fn(F32) -> F32 + Send + Sync> Node<R> for StageNode<F> {
    open spec fn spec_ports(&self) -> NodeSpecView {
        NodeSpecView { inputs: seq![any_f32("x"@)], outputs: seq![any_f32("y"@)] }
    }

    open spec fn accepts(&self, inputs: Map<Seq<char>, Seq<TensorView>>) -> bool {
        applicable(self.stage.func(), inputs)
    }

    open spec fn may_return(&self, inputs: Map<Seq<char>, Seq<TensorView>>, r: Outcome) -> bool {
        applied(self.stage.func(), inputs, r)
    }

    fn spec(&self) -> (r: NodeSpec) {
        node_spec(any_f32_port(PortId("x")), any_f32_port(PortId("y")))
    }

    fn forward(&mut self, ctx: &mut TickCtx<R>, inputs: PortTensors) -> (r: Result<
        PortTensors,
        NodeError,
    >)
        ensures
            *final(self) == *old(self),
            *final(ctx) == *old(ctx),
    {
        let ghost given = ports_view(inputs@);
        let mut inputs: PortTensors = inputs;
        let taken: Option<Vec<Tensor>> = match inputs.remove("x") {
            Some(v) => Some(v),
            None => inputs.remove("y"),
        };
        match taken {
            Some(v) => {
                let mut v: Vec<Tensor> = v;
                assert(stage_input(given) == Some(tensor_views(v@)));
                match v.pop() {
                    Some(t) => match t.as_f32_scalar() {
                        Some(x) => {
                            let y = self.stage.call(x);
                            return Ok(single_port(PortId("y"), Tensor::scalar_f32(y)));
                        },
                        None => {},
                    },
                    None => {},
                }
            },
            None => {},
        }
        Err(NodeError::NotScalar)
    }
}

} // verus!
