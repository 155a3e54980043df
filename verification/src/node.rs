//! Nodes: steps of a pipeline that turn tensors by port into tensors by port.

use crate::nd::ShapeFault;
use crate::port::{
    fault_of, first_port_fault, port_views, ports_view, tensor_views, validate_port_tensors,
    PortSpec, PortTensors, PortView,
};
use crate::tensor::TensorView;
use vstd::pervasive::arbitrary;
use vstd::prelude::*;

verus! {

/// What a pass through a pipeline carries along.
pub struct TickCtx<R> {
    pub rng: R,
}

/// What a node takes and gives.
pub struct NodeSpec {
    pub inputs: Vec<PortSpec>,
    pub outputs: Vec<PortSpec>,
}

/// A [`NodeSpec`] by views.
#[verifier::ext_equal]
pub struct NodeSpecView {
    pub inputs: Seq<PortView>,
    pub outputs: Seq<PortView>,
}

impl View for NodeSpec {
    type V = NodeSpecView;

    open spec fn view(&self) -> NodeSpecView {
        NodeSpecView { inputs: port_views(self.inputs@), outputs: port_views(self.outputs@) }
    }
}

/// Why a node returned nothing.
#[derive(Debug)]
pub enum NodeError {
    /// Tensors that a port does not take, with the message of the check.
    Ports(String),
    MissingInput,
    ReshapeArity,
    SourceShapeUnknown,
    TargetShapeUnknown,
    CountMismatch,
    Shape(ShapeFault),
    DeviceFetch,
    DeviceDType,
    HostDType,
    NotF32,
    NothingToConcat,
    NothingToMerge,
    NotScalar,
    /// A fault of a node from elsewhere.
    Other(String),
}

/// A [`NodeError`], with the texts by their characters.
pub enum NodeErrorView {
    Ports { text: Seq<char> },
    MissingInput,
    ReshapeArity,
    SourceShapeUnknown,
    TargetShapeUnknown,
    CountMismatch,
    Shape { fault: ShapeFault },
    DeviceFetch,
    DeviceDType,
    HostDType,
    NotF32,
    NothingToConcat,
    NothingToMerge,
    NotScalar,
    Other { text: Seq<char> },
}

impl View for NodeError {
    type V = NodeErrorView;

    open spec fn view(&self) -> NodeErrorView {
        match self {
            NodeError::Ports(s) => NodeErrorView::Ports { text: s@ },
            NodeError::MissingInput => NodeErrorView::MissingInput,
            NodeError::ReshapeArity => NodeErrorView::ReshapeArity,
            NodeError::SourceShapeUnknown => NodeErrorView::SourceShapeUnknown,
            NodeError::TargetShapeUnknown => NodeErrorView::TargetShapeUnknown,
            NodeError::CountMismatch => NodeErrorView::CountMismatch,
            NodeError::Shape(fault) => NodeErrorView::Shape { fault: *fault },
            NodeError::DeviceFetch => NodeErrorView::DeviceFetch,
            NodeError::DeviceDType => NodeErrorView::DeviceDType,
            NodeError::HostDType => NodeErrorView::HostDType,
            NodeError::NotF32 => NodeErrorView::NotF32,
            NodeError::NothingToConcat => NodeErrorView::NothingToConcat,
            NodeError::NothingToMerge => NodeErrorView::NothingToMerge,
            NodeError::NotScalar => NodeErrorView::NotScalar,
            NodeError::Other(s) => NodeErrorView::Other { text: s@ },
        }
    }
}

impl NodeErrorView {
    /// The text for an error.
    pub open spec fn text(self) -> Seq<char> {
        match self {
            NodeErrorView::Ports { text } => text,
            NodeErrorView::MissingInput => "missing input"@,
            NodeErrorView::ReshapeArity => "reshape expects exactly one tensor"@,
            NodeErrorView::SourceShapeUnknown => "source shape unknown"@,
            NodeErrorView::TargetShapeUnknown => "target shape unknown"@,
            NodeErrorView::CountMismatch => "element count mismatch for reshape"@,
            NodeErrorView::Shape { fault } => fault.text(),
            NodeErrorView::DeviceFetch => "reshape: unable to fetch device data"@,
            NodeErrorView::DeviceDType => "reshape: unsupported device dtype"@,
            NodeErrorView::HostDType => "reshape: unsupported host dtype"@,
            NodeErrorView::NotF32 => "concat expects f32-compatible tensors"@,
            NodeErrorView::NothingToConcat => "concat: no inputs"@,
            NodeErrorView::NothingToMerge => "not enough tensors to merge"@,
            NodeErrorView::NotScalar => "StageNode expected scalar f32 input"@,
            NodeErrorView::Other { text } => text,
        }
    }
}

impl NodeError {
    /// Says what is wrong.
    pub fn message(&self) -> (r: String)
        ensures
            r@ == self@.text(),
    {
        match self {
            NodeError::Ports(s) => s.as_str().to_owned(),
            NodeError::MissingInput => "missing input".to_owned(),
            NodeError::ReshapeArity => "reshape expects exactly one tensor".to_owned(),
            NodeError::SourceShapeUnknown => "source shape unknown".to_owned(),
            NodeError::TargetShapeUnknown => "target shape unknown".to_owned(),
            NodeError::CountMismatch => "element count mismatch for reshape".to_owned(),
            NodeError::Shape(fault) => fault.message().to_owned(),
            NodeError::DeviceFetch => "reshape: unable to fetch device data".to_owned(),
            NodeError::DeviceDType => "reshape: unsupported device dtype".to_owned(),
            NodeError::HostDType => "reshape: unsupported host dtype".to_owned(),
            NodeError::NotF32 => "concat expects f32-compatible tensors".to_owned(),
            NodeError::NothingToConcat => "concat: no inputs".to_owned(),
            NodeError::NothingToMerge => "not enough tensors to merge".to_owned(),
            NodeError::NotScalar => "StageNode expected scalar f32 input".to_owned(),
            NodeError::Other(s) => s.as_str().to_owned(),
        }
    }
}

/// What a node returns, by views.
pub type Outcome = Result<Map<Seq<char>, Seq<TensorView>>, NodeErrorView>;

/// The outcome of a pass, by views.
pub open spec fn pass_view(r: Result<PortTensors, NodeError>) -> Outcome {
    match r {
        Ok(m) => Ok(ports_view(m@)),
        Err(e) => Err(e@),
    }
}

/// A step of a pipeline.
pub trait Node<R>: Send {
    /// What the node takes and gives.
    closed spec fn spec_ports(&self) -> NodeSpecView {
        arbitrary()
    }

    /// The inputs on which the node does not panic.
    closed spec fn accepts(&self, inputs: Map<Seq<char>, Seq<TensorView>>) -> bool {
        arbitrary()
    }

    /// What a pass may come to in the present state.
    closed spec fn may_return(&self, inputs: Map<Seq<char>, Seq<TensorView>>, r: Outcome) -> bool {
        arbitrary()
    }

    /// What the node takes and gives.
    fn spec(&self) -> (r: NodeSpec)
        ensures
            r@ == self.spec_ports(),
    ;

    /// One pass.
    fn forward(&mut self, ctx: &mut TickCtx<R>, inputs: PortTensors) -> (r: Result<
        PortTensors,
        NodeError,
    >)
        requires
            old(self).accepts(ports_view(inputs@)),
        ensures
            old(self).may_return(ports_view(inputs@), pass_view(r)),
    ;
}

// ---------------------------------------------------------------------------
// Sequences of nodes
// ---------------------------------------------------------------------------
/// What is checked at a node's inputs: where one port is asked for, and the
/// tensors are at one other port, these are taken for it.
pub open spec fn offered(
    ports: Seq<PortView>,
    buf: Map<Seq<char>, Seq<TensorView>>,
) -> Map<Seq<char>, Seq<TensorView>> {
    if ports.len() == 1 && !buf.dom().contains(ports[0].id) && buf.dom().len() == 1 {
        buf.insert(ports[0].id, buf[buf.dom().choose()])
    } else {
        buf
    }
}

/// What is wrong at a node's inputs, if anything.
pub open spec fn input_fault(
    ports: Seq<PortView>,
    buf: Map<Seq<char>, Seq<TensorView>>,
) -> Option<Seq<char>> {
    first_port_fault(ports, offered(ports, buf), 0)
}

/// What the nodes from `i` on may come to: each takes what the one before
/// returned, once that has been checked, and the first fault ends the pass.
pub open spec fn chain_returns<R>(
    stages: Seq<Box<dyn Node<R>>>,
    i: int,
    buf: Map<Seq<char>, Seq<TensorView>>,
    r: Outcome,
) -> bool
    decreases stages.len() - i,
{
    if i < 0 || i >= stages.len() {
        r == Outcome::Ok(buf)
    } else {
        match input_fault(stages[i].spec_ports().inputs, buf) {
            Some(text) => r == Outcome::Err(NodeErrorView::Ports { text }),
            None => {
                ||| r is Err && stages[i].may_return(buf, r)
                ||| exists|next: Map<Seq<char>, Seq<TensorView>>| #[trigger]
                    stages[i].may_return(buf, Outcome::Ok(next)) && chain_returns(
                        stages,
                        i + 1,
                        next,
                        r,
                    )
            },
        }
    }
}

/// The nodes from `i` on may end their pass at node `k`: those before it
/// return what the next takes, and it is refused its inputs or fails.
pub open spec fn chain_fails_at<R>(
    stages: Seq<Box<dyn Node<R>>>,
    i: int,
    buf: Map<Seq<char>, Seq<TensorView>>,
    k: int,
    e: NodeErrorView,
) -> bool
    decreases stages.len() - i,
{
    if i < 0 || i >= stages.len() {
        false
    } else {
        match input_fault(stages[i].spec_ports().inputs, buf) {
            Some(text) => k == i && e == NodeErrorView::Ports { text },
            None => {
                ||| k == i && stages[i].may_return(buf, Outcome::Err(e))
                ||| exists|next: Map<Seq<char>, Seq<TensorView>>| #[trigger]
                    stages[i].may_return(buf, Outcome::Ok(next)) && chain_fails_at(
                        stages,
                        i + 1,
                        next,
                        k,
                        e,
                    )
            },
        }
    }
}

/// Whatever the nodes from `i` on come to, each accepts what it is handed.
pub open spec fn chain_accepts<R>(
    stages: Seq<Box<dyn Node<R>>>,
    i: int,
    buf: Map<Seq<char>, Seq<TensorView>>,
) -> bool
    decreases stages.len() - i,
{
    if i < 0 || i >= stages.len() {
        true
    } else {
        input_fault(stages[i].spec_ports().inputs, buf) is None ==> {
            &&& stages[i].accepts(buf)
            &&& forall|next: Map<Seq<char>, Seq<TensorView>>| #[trigger]
                stages[i].may_return(buf, Outcome::Ok(next)) ==> chain_accepts(stages, i + 1, next)
        }
    }
}

/// Nodes one after the other.
#[verifier::reject_recursive_types(R)]
pub struct Sequential<R> {
    pub stages: Vec<Box<dyn Node<R>>>,
}

/// Checks what is handed to a node.
fn check_inputs(ports: &Vec<PortSpec>, buf: &PortTensors) -> (r: Result<(), String>)
    ensures
        fault_of(r) == input_fault(port_views(ports@), ports_view(buf@)),
{
    let ghost views = port_views(ports@);
    let ghost given = ports_view(buf@);
    assert(given.dom() =~= buf@.dom());
    if ports.len() == 1 && !buf.contains_key(ports[0].id.as_str()) && buf.len() == 1 {
        let list = buf.value_at(0);
        proof {
            let k = buf.list()[0].0;
            assert(given.dom().contains(k));
            let c = given.dom().choose();
            assert(given.dom().contains(c));
            assert(given.dom().remove(k).len() == 0);
            assert(!given.dom().remove(k).contains(c));
            assert(c == k);
            let off = offered(views, given);
            assert(off[views[0].id] == tensor_views(list@));
            assert(first_port_fault(views, off, 1) is None);
        }
        ports[0].validate_tensors(list.as_slice())
    } else {
        validate_port_tensors(ports.as_slice(), buf)
    }
}

impl<R> Sequential<R> {
    /// A sequence of these nodes.
    pub fn new(stages: Vec<Box<dyn Node<R>>>) -> (r: Self)
        ensures
            r.stages == stages,
    {
        Sequential { stages }
    }
}

impl<R> Node<R> for Sequential<R> {
    open spec fn spec_ports(&self) -> NodeSpecView {
        NodeSpecView { inputs: Seq::empty(), outputs: Seq::empty() }
    }

    open spec fn accepts(&self, inputs: Map<Seq<char>, Seq<TensorView>>) -> bool {
        chain_accepts(self.stages@, 0, inputs)
    }

    open spec fn may_return(&self, inputs: Map<Seq<char>, Seq<TensorView>>, r: Outcome) -> bool {
        chain_returns(self.stages@, 0, inputs, r)
    }

    fn spec(&self) -> (r: NodeSpec) {
        let r = NodeSpec { inputs: Vec::new(), outputs: Vec::new() };
        assert(r@ =~= self.spec_ports());
        r
    }

    fn forward(&mut self, ctx: &mut TickCtx<R>, inputs: PortTensors) -> (r: Result<
        PortTensors,
        NodeError,
    >)
        ensures
            final(self).stages@.len() == old(self).stages@.len(),
            r matches Err(e) ==> exists|k: int|
                #![trigger chain_fails_at(old(self).stages@, 0, ports_view(inputs@), k, e@)]
                0 <= k < old(self).stages@.len() && chain_fails_at(
                    old(self).stages@,
                    0,
                    ports_view(inputs@),
                    k,
                    e@,
                ) && forall|j: int|
                    k < j < old(self).stages@.len() ==> #[trigger] final(self).stages@[j] == old(
                        self,
                    ).stages@[j],
    {
        let ghost first = self.stages@;
        let ghost given = ports_view(inputs@);
        let mut buf: PortTensors = inputs;
        let mut i: usize = 0;
        while i < self.stages.len()
            invariant
                i <= self.stages@.len(),
                first == old(self).stages@,
                given == ports_view(inputs@),
                self.stages@.len() == first.len(),
                forall|j: int| i <= j < first.len() ==> #[trigger] self.stages@[j] == first[j],
                chain_accepts(first, i as int, ports_view(buf@)),
                forall|r: Outcome| #[trigger]
                    chain_returns(first, i as int, ports_view(buf@), r) ==> chain_returns(
                        first,
                        0,
                        given,
                        r,
                    ),
                forall|k: int, e: NodeErrorView| #[trigger]
                    chain_fails_at(first, i as int, ports_view(buf@), k, e) ==> chain_fails_at(
                        first,
                        0,
                        given,
                        k,
                        e,
                    ),
            decreases first.len() - i,
        {
            let ghost before = ports_view(buf@);
            let spec = self.stages[i].spec();
            match check_inputs(&spec.inputs, &buf) {
                Err(text) => {
                    let r: Result<PortTensors, NodeError> = Err(NodeError::Ports(text));
                    assert(chain_returns(first, i as int, before, pass_view(r)));
                    assert(chain_fails_at(first, i as int, before, i as int, r->Err_0@));
                    return r;
                },
                Ok(_) => {},
            }
            let r = self.stages[i].forward(ctx, buf);
            assert(first[i as int].may_return(before, pass_view(r)));
            match r {
                Err(e) => {
                    let r: Result<PortTensors, NodeError> = Err(e);
                    assert(chain_returns(first, i as int, before, pass_view(r)));
                    assert(chain_fails_at(first, i as int, before, i as int, e@));
                    return r;
                },
                Ok(next) => {
                    buf = next;
                    assert forall|r: Outcome| #[trigger]
                        chain_returns(first, i + 1, ports_view(buf@), r) implies chain_returns(
                        first,
                        0,
                        given,
                        r,
                    ) by {
                        assert(chain_returns(first, i as int, before, r));
                    }
                    assert forall|k: int, e: NodeErrorView| #[trigger]
                        chain_fails_at(first, i + 1, ports_view(buf@), k, e) implies chain_fails_at(
                        first,
                        0,
                        given,
                        k,
                        e,
                    ) by {
                        assert(chain_fails_at(first, i as int, before, k, e));
                    }
                },
            }
            i = i + 1;
        }
        assert(chain_returns(first, i as int, ports_view(buf@), Outcome::Ok(ports_view(buf@))));
        Ok(buf)
    }
}

} // verus!
