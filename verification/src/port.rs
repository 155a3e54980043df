//! Named ports, and the check of tensors against them.

use crate::strmap::StrMap;
use crate::tensor::{shape_matches, shape_text, DType, Shape, Tensor, TensorView};
use crate::text::{decimal, decimal_text, join2};
use vstd::prelude::*;

verus! {

/// The name of a port.
#[derive(Clone, Copy, Debug, PartialEq, Eq, Hash)]
pub struct PortId(pub &'static str);

impl PortId {
    /// The name.
    pub fn as_str(&self) -> (r: &'static str)
        ensures
            r == self.0,
    {
        self.0
    }
}

/// How many tensors a port takes.
#[derive(Clone, Copy, Debug)]
pub enum Arity {
    Exactly(usize),
    Range { min: usize, max: Option<usize> },
}

/// What a port takes.
#[derive(Debug)]
pub struct PortSpec {
    pub id: PortId,
    pub arity: Arity,
    pub dtype: Option<DType>,
    pub shape: Option<Shape>,
    pub allow_broadcast: bool,
}

/// A [`PortSpec`], with the name and the shape by their views.
#[verifier::ext_equal]
pub struct PortView {
    pub id: Seq<char>,
    pub arity: Arity,
    pub dtype: Option<DType>,
    pub shape: Option<Seq<Option<usize>>>,
    pub allow_broadcast: bool,
}

impl View for PortSpec {
    type V = PortView;

    open spec fn view(&self) -> PortView {
        PortView {
            id: self.id.0@,
            arity: self.arity,
            dtype: self.dtype,
            shape: match self.shape {
                Some(s) => Some(s@),
                None => None,
            },
            allow_broadcast: self.allow_broadcast,
        }
    }
}

impl Clone for PortSpec {
    fn clone(&self) -> (r: Self)
        ensures
            r@ == self@,
    {
        PortSpec {
            id: self.id,
            arity: self.arity,
            dtype: self.dtype,
            shape: match &self.shape {
                Some(s) => Some(s.clone()),
                None => None,
            },
            allow_broadcast: self.allow_broadcast,
        }
    }
}

/// Tensors by port.
pub type PortTensors = StrMap<Vec<Tensor>>;

/// The tensors in a list, by their views.
pub open spec fn tensor_views(ts: Seq<Tensor>) -> Seq<TensorView> {
    Seq::new(ts.len(), |i: int| ts[i]@)
}

/// The specifications in a list, by their views.
pub open spec fn port_views(specs: Seq<PortSpec>) -> Seq<PortView> {
    Seq::new(specs.len(), |i: int| specs[i]@)
}

/// Tensors by port, by their views.
pub open spec fn ports_view(m: Map<Seq<char>, Vec<Tensor>>) -> Map<Seq<char>, Seq<TensorView>> {
    m.map_values(|v: Vec<Tensor>| tensor_views(v@))
}

// ---------------------------------------------------------------------------
// Messages
// ---------------------------------------------------------------------------
/// The message for a wrong number of tensors; `how` is empty, or says on which
/// side the number lies.
pub open spec fn arity_text(id: Seq<char>, how: Seq<char>, want: nat, got: nat) -> Seq<char> {
    "port "@ + id + " expected "@ + how + decimal(want) + " tensors, got "@ + decimal(got)
}

/// The message for a wrong type.
pub open spec fn dtype_text(id: Seq<char>, want: DType, got: DType) -> Seq<char> {
    "port "@ + id + " expected dtype "@ + want.text() + ", got "@ + got.text()
}

/// The message for a wrong shape.
pub open spec fn shape_mismatch_text(
    id: Seq<char>,
    want: Seq<Option<usize>>,
    got: Seq<Option<usize>>,
) -> Seq<char> {
    "port "@ + id + " tensor shape mismatch: expected "@ + shape_text(want) + ", got "@
        + shape_text(got)
}

/// What is wrong with the number of tensors at a port, if anything.
pub open spec fn arity_fault(p: PortView, n: nat) -> Option<Seq<char>> {
    match p.arity {
        Arity::Exactly(k) => if n != k {
            Some(arity_text(p.id, Seq::empty(), k as nat, n))
        } else {
            None
        },
        Arity::Range { min, max } => if n < min {
            Some(arity_text(p.id, "at least "@, min as nat, n))
        } else {
            match max {
                Some(most) => if n > most {
                    Some(arity_text(p.id, "at most "@, most as nat, n))
                } else {
                    None
                },
                None => None,
            }
        },
    }
}

/// What is wrong with one tensor at a port, if anything: its type first.
pub open spec fn tensor_fault(p: PortView, t: TensorView) -> Option<Seq<char>> {
    if p.dtype is Some && p.dtype->0 != t.dtype {
        Some(dtype_text(p.id, p.dtype->0, t.dtype))
    } else if p.shape is Some && !shape_matches(t.shape, p.shape->0, p.allow_broadcast) {
        Some(shape_mismatch_text(p.id, p.shape->0, t.shape))
    } else {
        None
    }
}

/// What is wrong with the first faulty tensor from `i` on, if there is one.
pub open spec fn first_tensor_fault(p: PortView, ts: Seq<TensorView>, i: int) -> Option<Seq<char>>
    decreases ts.len() - i,
{
    if i < 0 || i >= ts.len() {
        None
    } else {
        match tensor_fault(p, ts[i]) {
            Some(m) => Some(m),
            None => first_tensor_fault(p, ts, i + 1),
        }
    }
}

/// What is wrong with the tensors at a port, if anything: their number first.
pub open spec fn port_fault(p: PortView, ts: Seq<TensorView>) -> Option<Seq<char>> {
    match arity_fault(p, ts.len()) {
        Some(m) => Some(m),
        None => first_tensor_fault(p, ts, 0),
    }
}

/// What is wrong at the first faulty port from `i` on, if there is one. A port
/// that nothing was given for has no tensors.
pub open spec fn first_port_fault(
    ports: Seq<PortView>,
    tensors: Map<Seq<char>, Seq<TensorView>>,
    i: int,
) -> Option<Seq<char>>
    decreases ports.len() - i,
{
    if i < 0 || i >= ports.len() {
        None
    } else {
        let given = if tensors.dom().contains(ports[i].id) {
            tensors[ports[i].id]
        } else {
            Seq::empty()
        };
        match port_fault(ports[i], given) {
            Some(m) => Some(m),
            None => first_port_fault(ports, tensors, i + 1),
        }
    }
}

/// A check, with the message by its characters.
pub open spec fn fault_of(r: Result<(), String>) -> Option<Seq<char>> {
    match r {
        Ok(_) => None,
        Err(s) => Some(s@),
    }
}

fn arity_message(id: PortId, how: &str, want: usize, got: usize) -> (r: String)
    ensures
        r@ == arity_text(id.0@, how@, want as nat, got as nat),
{
    let mut m = join2("port ", id.as_str());
    m.append(" expected ");
    m.append(how);
    m.append(decimal_text(want as u64).as_str());
    m.append(" tensors, got ");
    m.append(decimal_text(got as u64).as_str());
    m
}

fn dtype_message(id: PortId, want: DType, got: DType) -> (r: String)
    ensures
        r@ == dtype_text(id.0@, want, got),
{
    let mut m = join2("port ", id.as_str());
    m.append(" expected dtype ");
    m.append(want.name());
    m.append(", got ");
    m.append(got.name());
    m
}

fn shape_message(id: PortId, want: &Shape, got: &Shape) -> (r: String)
    ensures
        r@ == shape_mismatch_text(id.0@, want@, got@),
{
    let mut m = join2("port ", id.as_str());
    m.append(" tensor shape mismatch: expected ");
    m.append(want.describe().as_str());
    m.append(", got ");
    m.append(got.describe().as_str());
    m
}

impl PortSpec {
    fn validate_arity(&self, n: usize) -> (r: Result<(), String>)
        ensures
            fault_of(r) == arity_fault(self@, n as nat),
    {
        match self.arity {
            Arity::Exactly(k) => {
                if n != k {
                    proof {
                        reveal_strlit("");
                        assert(""@ =~= Seq::<char>::empty());
                    }
                    return Err(arity_message(self.id, "", k, n));
                }
            },
            Arity::Range { min, max } => {
                if n < min {
                    return Err(arity_message(self.id, "at least ", min, n));
                }
                match max {
                    Some(most) => {
                        if n > most {
                            return Err(arity_message(self.id, "at most ", most, n));
                        }
                    },
                    None => {},
                }
            },
        }
        Ok(())
    }

    fn validate_tensor(&self, t: &Tensor) -> (r: Result<(), String>)
        ensures
            fault_of(r) == tensor_fault(self@, t@),
    {
        match self.dtype {
            Some(dtype) => {
                if dtype != t.dtype {
                    return Err(dtype_message(self.id, dtype, t.dtype));
                }
            },
            None => {},
        }
        match &self.shape {
            Some(shape) => {
                if !t.shape.matches(shape, self.allow_broadcast) {
                    return Err(shape_message(self.id, shape, &t.shape));
                }
            },
            None => {},
        }
        Ok(())
    }

    /// Checks the tensors at a port: their number, then each one's type and
    /// shape. The message tells of the first fault.
    pub fn validate_tensors(&self, tensors: &[Tensor]) -> (r: Result<(), String>)
        ensures
            fault_of(r) == port_fault(self@, tensor_views(tensors@)),
    {
        let checked = self.validate_arity(tensors.len());
        if checked.is_err() {
            return checked;
        }
        let mut i: usize = 0;
        let ghost views = tensor_views(tensors@);
        while i < tensors.len()
            invariant
                i <= tensors@.len(),
                views == tensor_views(tensors@),
                first_tensor_fault(self@, views, 0) == first_tensor_fault(self@, views, i as int),
                arity_fault(self@, tensors@.len()) is None,
            decreases tensors@.len() - i,
        {
            let checked = self.validate_tensor(&tensors[i]);
            if checked.is_err() {
                return checked;
            }
            i = i + 1;
        }
        Ok(())
    }
}

/// Checks the tensors at each port. The message tells of the first fault.
pub fn validate_port_tensors(specs: &[PortSpec], tensors: &PortTensors) -> (r: Result<(), String>)
    ensures
        fault_of(r) == first_port_fault(port_views(specs@), ports_view(tensors@), 0),
{
    let ghost ports = port_views(specs@);
    let ghost given = ports_view(tensors@);
    let none: Vec<Tensor> = Vec::new();
    let mut i: usize = 0;
    while i < specs.len()
        invariant
            i <= specs@.len(),
            ports == port_views(specs@),
            given == ports_view(tensors@),
            none@.len() == 0,
            first_port_fault(ports, given, 0) == first_port_fault(ports, given, i as int),
        decreases specs@.len() - i,
    {
        let list: &Vec<Tensor> = match tensors.get(specs[i].id.as_str()) {
            Some(v) => v,
            None => &none,
        };
        proof {
            assert(tensor_views(none@) =~= Seq::empty());
        }
        let checked = specs[i].validate_tensors(list.as_slice());
        if checked.is_err() {
            return checked;
        }
        i = i + 1;
    }
    Ok(())
}

} // verus!
