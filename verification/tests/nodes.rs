use eenn::nd::{NdArray, ShapeFault, F32, F64};
use eenn::node::{Node, NodeError, Sequential, TickCtx};
use eenn::nodes::{ConcatNode, MergeNode, ReshapeNode, StageNode};
use eenn::port::{validate_port_tensors, Arity, PortId, PortSpec, PortTensors};
use eenn::tensor::{DType, DeviceBuffer, F64Array, Shape, Tensor, TensorError, TensorStorage};
use eenn::Stage;
use rand::SeedableRng;
use std::sync::Arc;

type Func = Box<dyn Fn(F32) -> F32 + Send + Sync>;
type Rng = rand::rngs::StdRng;

fn f(x: f32) -> F32 {
    F32 { bits: x.to_bits() }
}

fn v(x: F32) -> f32 {
    f32::from_bits(x.bits)
}

fn fs(xs: &[f32]) -> Vec<F32> {
    xs.iter().map(|x| f(*x)).collect()
}

fn ctx(seed: u64) -> TickCtx<Rng> {
    TickCtx { rng: Rng::seed_from_u64(seed) }
}

fn only<'a>(out: &'a PortTensors, port: &str) -> &'a Tensor {
    let list = out.get(port).expect("port");
    assert_eq!(list.len(), 1);
    &list[0]
}

fn message(r: Result<PortTensors, NodeError>) -> String {
    match r {
        Ok(_) => String::new(),
        Err(e) => e.message(),
    }
}

#[test]
fn reshape_concat_merge_happy_path() {
    let mut inputs = PortTensors::new();
    inputs.insert("a", vec![Tensor::vector_f32(fs(&[1.0, 2.0, 3.0]))]);

    let mut r = ReshapeNode::new("r", PortId("a"), PortId("b"), Shape::vector(3));
    let mut c = ctx(0);
    let out = r.forward(&mut c, inputs).expect("reshape");
    let t = only(&out, "b");
    assert!(t.is_vector());
    assert_eq!(t.as_f32_slice().unwrap(), &fs(&[1.0, 2.0, 3.0])[..]);

    let mut inputs2 = PortTensors::new();
    inputs2.insert("p1", vec![Tensor::vector_f32(fs(&[1.0, 2.0]))]);
    inputs2.insert("p2", vec![Tensor::vector_f32(fs(&[3.0, 4.0]))]);
    let mut k = ConcatNode::new("c", vec![PortId("p1"), PortId("p2")], PortId("out"));
    let out2 = k.forward(&mut c, inputs2).expect("concat");
    let t2 = only(&out2, "out");
    assert_eq!(t2.as_f32_slice().unwrap(), &fs(&[1.0, 2.0, 3.0, 4.0])[..]);

    let mut inputs3 = PortTensors::new();
    inputs3.insert("in", vec![Tensor::scalar_f32(f(7.0)), Tensor::scalar_f32(f(8.0))]);
    let mut m = MergeNode::new("m", PortId("in"), vec![PortId("o1"), PortId("o2")]);
    let out3 = m.forward(&mut c, inputs3).expect("merge");
    assert_eq!(v(only(&out3, "o1").as_f32_scalar().unwrap()), 7.0);
    assert_eq!(v(only(&out3, "o2").as_f32_scalar().unwrap()), 8.0);
}

#[test]
fn validate_port_tensors_errors() {
    let spec = PortSpec {
        id: PortId("x"),
        arity: Arity::Exactly(2),
        dtype: Some(DType::F32),
        shape: None,
        allow_broadcast: false,
    };
    let mut tensors = PortTensors::new();
    tensors.insert("x", vec![Tensor::scalar_f32(f(1.0))]);
    let res = validate_port_tensors(&[spec], &tensors);
    assert!(res.is_err());
    assert_eq!(res, Err("port x expected 2 tensors, got 1".to_string()));
}

#[test]
fn port_messages() {
    let port = |arity: Arity, dtype: Option<DType>, shape: Option<Shape>, allow_broadcast: bool| PortSpec {
        id: PortId("p"),
        arity,
        dtype,
        shape,
        allow_broadcast,
    };
    let scalar = || Tensor::scalar_f32(f(1.0));
    let any = |min: usize, max: Option<usize>| Arity::Range { min, max };
    assert_eq!(
        port(any(1, None), None, None, false).validate_tensors(&[]),
        Err("port p expected at least 1 tensors, got 0".to_string())
    );
    assert_eq!(
        port(any(0, Some(1)), None, None, false).validate_tensors(&[scalar(), scalar()]),
        Err("port p expected at most 1 tensors, got 2".to_string())
    );
    assert_eq!(
        port(Arity::Exactly(1), Some(DType::I64), None, false).validate_tensors(&[scalar()]),
        Err("port p expected dtype I64, got F32".to_string())
    );
    assert_eq!(
        port(Arity::Exactly(1), None, Some(Shape(vec![Some(2), None])), true).validate_tensors(&[scalar()]),
        Err("port p tensor shape mismatch: expected Shape([Some(2), None]), got Shape([])".to_string())
    );
    assert_eq!(
        port(Arity::Exactly(1), None, Some(Shape::vector(12)), false).validate_tensors(&[scalar()]),
        Err("port p tensor shape mismatch: expected Shape([Some(12)]), got Shape([])".to_string())
    );
    assert_eq!(
        port(Arity::Exactly(1), None, Some(Shape::vector(12)), true).validate_tensors(&[scalar()]),
        Ok(())
    );
    assert_eq!(
        validate_port_tensors(&[port(any(1, None), None, None, false)], &PortTensors::new()),
        Err("port p expected at least 1 tensors, got 0".to_string())
    );
    assert_eq!(format!("{:?}", Shape(vec![Some(2), None])), Shape(vec![Some(2), None]).describe());
    assert_eq!(format!("{:?}", DType::F64), DType::F64.name());
}

#[test]
fn sequential_stage_pipeline_matches_neuron() {
    let relu: Func = Box::new(|x: F32| f(v(x).max(0.0)));
    let half: Func = Box::new(|x: F32| f(0.5 * v(x)));
    let nodes: Vec<Box<dyn Node<Rng>>> = vec![
        Box::new(StageNode::new("relu", Stage::new(relu))),
        Box::new(StageNode::new("scale", Stage::new(half))),
    ];
    let mut seq = Sequential::new(nodes);

    let mut input_map = PortTensors::new();
    input_map.insert("x", vec![Tensor::scalar_f32(f(2.0))]);
    let out = seq.forward(&mut ctx(42), input_map).expect("forward");
    let y = v(only(&out, "y").as_f32_scalar().unwrap());
    assert_eq!(y, 1.0);
}

#[test]
fn gpu_roundtrip_matches_cpu_ndarray() {
    let cpu = Tensor::matrix_f32(2, 3, fs(&[1.0, 2.0, 3.0, 4.0, 5.0, 6.0])).unwrap();
    let dev = cpu.host_to_device().expect("host_to_device");
    let back = dev.device_to_host().expect("device_to_host");
    let a = cpu.to_ndarray_f32().unwrap();
    let b = back.to_ndarray_f32().unwrap();
    assert_eq!(a.shape(), b.shape());
    assert_eq!(a.as_slice_memory_order(), b.as_slice_memory_order());
    assert_eq!(a.shape(), vec![2, 3]);
    assert_eq!(dev.to_ndarray_f32().unwrap().to_vec(), a.to_vec());
}

#[test]
fn shapes_count_their_elements() {
    assert_eq!(Shape::scalar().num_elements(), Some(1));
    assert_eq!(Shape::vector(7).num_elements(), Some(7));
    assert_eq!(Shape(vec![Some(2), Some(3), Some(4)]).num_elements(), Some(24));
    assert_eq!(Shape(vec![Some(2), None]).num_elements(), None);
    assert_eq!(Shape(vec![Some(usize::MAX), Some(3)]).num_elements(), Some(usize::MAX));
    assert_eq!(Shape(vec![Some(usize::MAX), Some(3), Some(0)]).num_elements(), Some(0));
    assert!(Shape::scalar().matches(&Shape::vector(4), true));
    assert!(!Shape::scalar().matches(&Shape::vector(4), false));
    assert!(!Shape::vector(4).matches(&Shape::scalar(), true));
    assert!(Shape::vector(4).matches(&Shape::vector(4), false));
}

#[test]
fn tensors_need_as_many_elements_as_their_shape() {
    let r = Tensor::from_vec_nd_f32(fs(&[1.0, 2.0]), vec![3]);
    assert_eq!(r.err().map(|e| e.message()), Some("data length does not match dims".to_string()));
    let r = Tensor::from_vec_nd_f32(vec![], vec![0, usize::MAX]);
    match r {
        Err(TensorError::Shape(ShapeFault::Overflow)) => {}
        _ => panic!("out of range"),
    }
    let t = Tensor::from_vec_nd_f32(fs(&[1.0, 2.0, 3.0, 4.0]), vec![2, 1, 2]).unwrap();
    assert_eq!(t.shape, Shape(vec![Some(2), Some(1), Some(2)]));
    assert!(!t.is_scalar() && !t.is_vector());
    assert_eq!(t.as_f32_scalar(), None);
    assert_eq!(Tensor::scalar_f32(f(2.5)).as_f32_scalar(), Some(f(2.5)));
}

#[test]
fn arrays_follow_their_shape() {
    let fault = |dims: &[usize], n: usize| match NdArray::from_shape_vec(&dims.to_vec(), vec![f(0.0); n]) {
        Ok(_) => None,
        Err(e) => Some(e),
    };
    assert_eq!(fault(&[2, 2], 4), None);
    assert_eq!(fault(&[2, 2], 3), Some(ShapeFault::OutOfBounds));
    assert_eq!(fault(&[2, 2], 5), Some(ShapeFault::IncompatibleShape));
    assert_eq!(fault(&[usize::MAX, 2], 5), Some(ShapeFault::Overflow));
    assert_eq!(fault(&[0, 5], 0), None);
    assert_eq!(
        ShapeFault::OutOfBounds.message(),
        "ShapeError/OutOfBounds: out of bounds indexing"
    );
}

#[test]
fn reshape_errors() {
    let run = |inputs: PortTensors, target: Shape| {
        let mut node = ReshapeNode::new("r", PortId("a"), PortId("b"), target);
        node.forward(&mut ctx(0), inputs)
    };
    let with = |t: Vec<Tensor>| {
        let mut m = PortTensors::new();
        m.insert("a", t);
        m
    };
    assert_eq!(message(run(PortTensors::new(), Shape::vector(1))), "missing input");
    assert_eq!(message(run(with(vec![]), Shape::vector(1))), "reshape expects exactly one tensor");
    let t = || Tensor::vector_f32(fs(&[1.0, 2.0, 3.0, 4.0]));
    let mut unknown = t();
    unknown.shape = Shape(vec![None]);
    assert_eq!(message(run(with(vec![unknown]), Shape::vector(4))), "source shape unknown");
    assert_eq!(message(run(with(vec![t()]), Shape(vec![None]))), "target shape unknown");
    assert_eq!(message(run(with(vec![t()]), Shape::vector(5))), "element count mismatch for reshape");
    let mut odd = t();
    odd.shape = Shape::vector(5);
    assert_eq!(
        message(run(with(vec![odd]), Shape::vector(5))),
        "ShapeError/IncompatibleShape: incompatible shapes"
    );
    let out = run(with(vec![t()]), Shape(vec![Some(2), Some(2)])).expect("reshaped");
    let r = only(&out, "b");
    assert_eq!(r.shape, Shape(vec![Some(2), Some(2)]));
    assert_eq!(r.to_ndarray_f32().unwrap().shape(), vec![2, 2]);
    assert_eq!(r.as_f32_slice().unwrap(), &fs(&[1.0, 2.0, 3.0, 4.0])[..]);
}

#[test]
fn reshape_fetches_from_devices() {
    let dev = Tensor::vector_f32(fs(&[1.0, 2.0, 3.0, 4.0])).host_to_device().unwrap();
    let mut inputs = PortTensors::new();
    inputs.insert("a", vec![dev]);
    let mut node = ReshapeNode::new("r", PortId("a"), PortId("b"), Shape(vec![Some(4), Some(1)]));
    let out = node.forward(&mut ctx(0), inputs).expect("reshaped");
    assert_eq!(only(&out, "b").to_ndarray_f32().unwrap().shape(), vec![4, 1]);
}

struct Broken;

impl DeviceBuffer for Broken {
    fn dtype(&self) -> DType {
        DType::F32
    }
    fn shape(&self) -> Vec<usize> {
        vec![2]
    }
    fn to_host_f32(&self) -> Result<Vec<F32>, String> {
        Err("device lost".to_string())
    }
}

struct Integers;

impl DeviceBuffer for Integers {
    fn dtype(&self) -> DType {
        DType::I32
    }
    fn shape(&self) -> Vec<usize> {
        vec![2]
    }
    fn to_host_f32(&self) -> Result<Vec<F32>, String> {
        Err("not floats".to_string())
    }
}

fn on_device(buffer: Box<dyn DeviceBuffer>, shape: Shape) -> Tensor {
    Tensor { dtype: DType::F32, shape, storage: TensorStorage::Device(Arc::new(buffer)) }
}

fn doubles() -> Tensor {
    Tensor {
        dtype: DType::F64,
        shape: Shape::vector(1),
        storage: TensorStorage::NdF64(Arc::new(F64Array {
            dims: vec![1],
            elems: vec![F64 { bits: 1.0f64.to_bits() }],
        })),
    }
}

#[test]
fn device_faults_are_told() {
    let err = |t: &Tensor| t.device_to_host().err().map(|e| e.message()).unwrap_or_default();
    let broken = || on_device(Box::new(Broken), Shape::vector(2));
    assert_eq!(err(&broken()), "device lost");
    assert_eq!(err(&on_device(Box::new(Integers), Shape::vector(2))), "device_to_host: failed");
    assert_eq!(err(&Tensor::scalar_f32(f(0.0))), "device_to_host: not a device tensor");
    assert!(broken().to_ndarray_f32().is_none());
    assert!(broken().as_f32_slice().is_none());
    let held = Tensor::vector_f32(fs(&[1.0, 2.0])).host_to_device().unwrap();
    let mut unknown = held.clone();
    unknown.shape = Shape(vec![None]);
    assert_eq!(err(&unknown), "device_to_host: failed");
    let mut wrong = held.clone();
    wrong.shape = Shape::vector(3);
    assert_eq!(err(&wrong), "ShapeError/OutOfBounds: out of bounds indexing");
    assert_eq!(
        held.host_to_device().err().map(|e| e.message()),
        Some("host_to_device: only NdF32 supported in dummy device".to_string())
    );

    let reshape = |t: Tensor| {
        let mut inputs = PortTensors::new();
        inputs.insert("a", vec![t]);
        let mut node = ReshapeNode::new("r", PortId("a"), PortId("b"), Shape(vec![Some(2), Some(1)]));
        message(node.forward(&mut ctx(0), inputs))
    };
    assert_eq!(reshape(broken()), "reshape: unable to fetch device data");
    assert_eq!(
        reshape(on_device(Box::new(Integers), Shape::vector(2))),
        "reshape: unsupported device dtype"
    );
}

#[test]
fn doubles_are_not_reshaped() {
    let reshape = |t: Tensor, target: Shape| {
        let mut inputs = PortTensors::new();
        inputs.insert("a", vec![t]);
        let mut node = ReshapeNode::new("r", PortId("a"), PortId("b"), target);
        message(node.forward(&mut ctx(0), inputs))
    };
    assert!(doubles().to_ndarray_f32().is_none());
    assert_eq!(reshape(doubles(), Shape::scalar()), "reshape: unsupported host dtype");
    let four = Tensor {
        dtype: DType::F64,
        shape: Shape::vector(4),
        storage: TensorStorage::NdF64(Arc::new(F64Array {
            dims: vec![4],
            elems: [1.0f64, 2.0, 3.0, 4.0].iter().map(|x| F64 { bits: x.to_bits() }).collect(),
        })),
    };
    let square = Shape(vec![Some(2), Some(2)]);
    assert_eq!(reshape(four.clone(), square), "reshape: unsupported host dtype");
    assert_eq!(reshape(four, Shape::vector(3)), "element count mismatch for reshape");
}

#[test]
fn concat_errors() {
    let run = |lists: Vec<(&'static str, Vec<Tensor>)>, axis: usize| {
        let mut inputs = PortTensors::new();
        let mut ports = Vec::new();
        for (name, list) in lists {
            inputs.insert(name, list);
            ports.push(PortId(name));
        }
        let mut node = ConcatNode::new("c", ports, PortId("out"));
        node.axis = axis;
        message(node.forward(&mut ctx(0), inputs))
    };
    let vec2 = || Tensor::vector_f32(fs(&[1.0, 2.0]));
    let mat = |r: usize, c: usize| Tensor::matrix_f32(r, c, vec![f(0.0); r * c]).unwrap();
    assert_eq!(run(vec![], 0), "concat: no inputs");
    assert_eq!(run(vec![("a", vec![])], 0), "concat: no inputs");
    assert_eq!(run(vec![("a", vec![doubles()])], 0), "concat expects f32-compatible tensors");
    assert_eq!(
        run(vec![("a", vec![on_device(Box::new(Broken), Shape::vector(2))])], 0),
        "concat expects f32-compatible tensors"
    );
    assert_eq!(run(vec![("a", vec![vec2()])], 1), "ShapeError/OutOfBounds: out of bounds indexing");
    assert_eq!(
        run(vec![("a", vec![mat(1, 2)]), ("b", vec![mat(1, 3)])], 0),
        "ShapeError/IncompatibleShape: incompatible shapes"
    );
}

#[test]
fn concat_joins_along_an_axis() {
    let a = || Tensor::matrix_f32(2, 1, fs(&[1.0, 2.0])).unwrap();
    let b = || Tensor::matrix_f32(2, 2, fs(&[3.0, 4.0, 5.0, 6.0])).unwrap();
    let mut inputs = PortTensors::new();
    inputs.insert("a", vec![a()]);
    inputs.insert("b", vec![b().host_to_device().unwrap()]);
    let mut node = ConcatNode::new("c", vec![PortId("a"), PortId("b")], PortId("out"));
    node.axis = 1;
    let out = node.forward(&mut ctx(0), inputs).expect("joined");
    let t = only(&out, "out");
    assert_eq!(t.shape, Shape(vec![Some(2), Some(3)]));
    assert_eq!(t.to_ndarray_f32().unwrap().to_vec(), fs(&[1.0, 3.0, 4.0, 2.0, 5.0, 6.0]));
    // It lies in column-major order, and is reshaped in that order.
    assert_eq!(t.as_f32_slice().unwrap(), &fs(&[1.0, 2.0, 3.0, 5.0, 4.0, 6.0])[..]);
    let mut inputs = PortTensors::new();
    inputs.insert("a", vec![t.clone()]);
    let mut reshape = ReshapeNode::new("r", PortId("a"), PortId("b"), Shape(vec![Some(3), Some(2)]));
    let out = reshape.forward(&mut ctx(0), inputs).expect("reshaped");
    let r = only(&out, "b").to_ndarray_f32().unwrap();
    assert_eq!(r.to_vec(), fs(&[1.0, 5.0, 2.0, 4.0, 3.0, 6.0]));
    assert_eq!(r.as_slice_memory_order().unwrap(), &fs(&[1.0, 2.0, 3.0, 5.0, 4.0, 6.0])[..]);

    let mut inputs = PortTensors::new();
    inputs.insert("b", vec![b(), b()]);
    let mut node = ConcatNode::new("c", vec![PortId("b"), PortId("b")], PortId("out"));
    let out = node.forward(&mut ctx(0), inputs).expect("joined");
    let t = only(&out, "out");
    assert_eq!(t.shape, Shape(vec![Some(4), Some(2)]));
    assert_eq!(
        t.as_f32_slice().unwrap(),
        &fs(&[3.0, 4.0, 5.0, 6.0, 3.0, 4.0, 5.0, 6.0])[..]
    );
}

#[test]
fn concat_along_a_middle_axis() {
    let cube = |from: u32| {
        let data = (from..from + 8).map(|i| f(i as f32)).collect();
        Tensor::from_vec_nd_f32(data, vec![2, 2, 2]).unwrap()
    };
    let mut inputs = PortTensors::new();
    inputs.insert("a", vec![cube(0), cube(8)]);
    let mut node = ConcatNode::new("c", vec![PortId("a")], PortId("out"));
    node.axis = 1;
    let out = node.forward(&mut ctx(0), inputs).expect("joined");
    let t = only(&out, "out");
    assert_eq!(t.shape, Shape(vec![Some(2), Some(4), Some(2)]));
    let want: Vec<F32> = [0, 1, 2, 3, 8, 9, 10, 11, 4, 5, 6, 7, 12, 13, 14, 15]
        .iter()
        .map(|i| f(*i as f32))
        .collect();
    assert_eq!(t.to_ndarray_f32().unwrap().to_vec(), want);
    let mut inputs = PortTensors::new();
    inputs.insert("a", vec![t.clone()]);
    let mut reshape = ReshapeNode::new("r", PortId("a"), PortId("b"), Shape::vector(16));
    assert_eq!(
        message(reshape.forward(&mut ctx(0), inputs)),
        "ShapeError/IncompatibleLayout: incompatible memory layout"
    );
}

#[test]
fn merge_repeats_the_first_tensor() {
    let run = |list: Option<Vec<Tensor>>, outs: Vec<PortId>| {
        let mut inputs = PortTensors::new();
        if let Some(list) = list {
            inputs.insert("in", list);
        }
        let mut node = MergeNode::new("m", PortId("in"), outs);
        node.forward(&mut ctx(0), inputs)
    };
    assert_eq!(message(run(None, vec![])), "missing input");
    assert_eq!(message(run(Some(vec![]), vec![PortId("o")])), "not enough tensors to merge");
    assert_eq!(run(Some(vec![]), vec![]).expect("nothing to do").len(), 0);
    let out = run(
        Some(vec![Tensor::scalar_f32(f(1.0)), Tensor::scalar_f32(f(2.0))]),
        vec![PortId("p"), PortId("q"), PortId("r")],
    )
    .expect("merged");
    assert_eq!(only(&out, "p").as_f32_scalar(), Some(f(1.0)));
    assert_eq!(only(&out, "q").as_f32_scalar(), Some(f(2.0)));
    assert_eq!(only(&out, "r").as_f32_scalar(), Some(f(1.0)));
}

#[test]
fn stages_take_scalars() {
    let id: Func = Box::new(|x: F32| x);
    let mut node = StageNode::new("id", Stage::new(id));
    let run = |node: &mut StageNode<Func>, port: &str, t: Tensor| {
        let mut inputs = PortTensors::new();
        inputs.insert(port, vec![Tensor::scalar_f32(f(9.0)), t]);
        node.forward(&mut ctx(0), inputs)
    };
    assert_eq!(
        message(run(&mut node, "x", Tensor::vector_f32(fs(&[1.0])))),
        "StageNode expected scalar f32 input"
    );
    assert_eq!(
        message(run(&mut node, "z", Tensor::scalar_f32(f(1.0)))),
        "StageNode expected scalar f32 input"
    );
    let out = run(&mut node, "y", Tensor::scalar_f32(f(4.0))).expect("applied");
    assert_eq!(only(&out, "y").as_f32_scalar(), Some(f(4.0)));
}

#[test]
fn sequences_check_what_they_hand_on() {
    let stage = || -> Box<dyn Node<Rng>> {
        let id: Func = Box::new(|x: F32| x);
        Box::new(StageNode::new("id", Stage::new(id)))
    };
    let mut empty: Sequential<Rng> = Sequential::new(vec![]);
    let mut inputs = PortTensors::new();
    inputs.insert("k", vec![Tensor::scalar_f32(f(3.0))]);
    let out = empty.forward(&mut ctx(0), inputs).expect("handed on");
    assert_eq!(only(&out, "k").as_f32_scalar(), Some(f(3.0)));

    let mut seq = Sequential::new(vec![stage()]);
    let mut two = PortTensors::new();
    two.insert("x", vec![Tensor::scalar_f32(f(1.0)), Tensor::scalar_f32(f(2.0))]);
    assert_eq!(message(seq.forward(&mut ctx(0), two)), "port x expected 1 tensors, got 2");

    // The tensors of the one other port pass the check, and are handed on as they are.
    let mut other = PortTensors::new();
    other.insert("k", vec![Tensor::scalar_f32(f(1.0))]);
    assert_eq!(
        message(seq.forward(&mut ctx(0), other)),
        "StageNode expected scalar f32 input"
    );
    let spec = Node::<Rng>::spec(&seq);
    assert!(spec.inputs.is_empty() && spec.outputs.is_empty());
}

#[test]
fn nodes_tell_their_ports() {
    let r = ReshapeNode::new("r", PortId("a"), PortId("b"), Shape::vector(3));
    let spec = Node::<Rng>::spec(&r);
    assert_eq!(spec.inputs[0].id, PortId("a"));
    assert_eq!(spec.inputs[0].shape, None);
    assert_eq!(spec.outputs[0].shape, Some(Shape::vector(3)));
    let m = MergeNode::new("m", PortId("in"), vec![PortId("p"), PortId("q")]);
    let spec = Node::<Rng>::spec(&m);
    assert!(matches!(spec.inputs[0].arity, Arity::Range { min: 1, max: None }));
    assert_eq!(spec.outputs.len(), 2);
    let c = ConcatNode::new("c", vec![PortId("a"), PortId("b")], PortId("o"));
    let spec = Node::<Rng>::spec(&c);
    assert_eq!(spec.inputs[1].id.as_str(), "b");
    assert_eq!(spec.outputs[0].dtype, Some(DType::F32));
}
