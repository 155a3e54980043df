use eenn::function_registry::{FuncMeta, FunctionRegistry};
use eenn::models::{NeuronDef, StageDef};
use eenn::nd::F32;
use eenn::strmap::StrMap;
use eenn::{Neuron, Stage};
use std::sync::Arc;

type Func = Box<dyn Fn(F32) -> F32 + Send + Sync>;
type Factory = Box<dyn Fn(&[F32]) -> Arc<Func> + Send + Sync>;
type Registry = FunctionRegistry<Func, Factory>;

fn f(x: f32) -> F32 {
    F32 { bits: x.to_bits() }
}

fn v(x: F32) -> f32 {
    f32::from_bits(x.bits)
}

fn boxed(g: impl Fn(f32) -> f32 + Send + Sync + 'static) -> Func {
    Box::new(move |x: F32| f(g(v(x))))
}

fn relu() -> Func {
    boxed(|x| x.max(0.0))
}

fn sigmoid() -> Func {
    boxed(|x| 1.0 / (1.0 + (-x).exp()))
}

fn scale(w: f32) -> Func {
    boxed(move |x| w * x)
}

fn bias(b: f32) -> Func {
    boxed(move |x| x + b)
}

fn scale_bits(w: F32) -> Func {
    scale(v(w))
}

fn bias_bits(b: F32) -> Func {
    bias(v(b))
}

#[test]
fn neuron_forward_computes_pipeline() {
    let mut registry: Registry = FunctionRegistry::empty();
    registry.register_fn("relu", relu(), "Rectified Linear Unit");
    registry.register_fn("sigmoid", sigmoid(), "Logistic sigmoid");

    let stages: Vec<Stage<Func>> = vec![
        Stage::new(scale(0.5)),
        Stage::new(bias(0.25)),
        Stage::from_arc(registry.get("relu").expect("missing relu")),
    ];
    let output = Stage::from_arc(registry.get("sigmoid").expect("missing sigmoid"));
    let neuron = Neuron::new(stages, output);

    let y = v(neuron.forward(f(-1.0)));
    assert!((y - 0.5).abs() < 1e-6);
}

#[test]
fn function_registry_get_missing_returns_none() {
    let registry: Registry = FunctionRegistry::empty();
    assert!(registry.get("not-there").is_none());
}

#[test]
fn register_closure_factory_and_use() {
    let mut registry: Registry = FunctionRegistry::empty();
    registry.register("scale_075", scale(0.75), "Scale by 0.75");
    let g = registry.get("scale_075").expect("missing scale_075");
    let out = v(g(f(2.0)));
    assert!((out - 1.5).abs() < 1e-6);
}

#[test]
fn remove_and_replace_behaviour() {
    let mut registry: Registry = FunctionRegistry::empty();
    registry.register_fn("relu", relu(), "relu");
    assert!(registry.get("relu").is_some());

    assert!(registry.remove("relu"));
    assert!(registry.get("relu").is_none());

    let prev = registry.replace("relu", relu(), "relu v2");
    assert!(prev.is_none());
    assert!(registry.get("relu").is_some());

    let prev2 = registry.replace("relu", scale(2.0), "scale");
    assert!(prev2.is_some());
    assert_eq!(prev2.map(|m| m.doc()), Some("relu v2"));
    assert!(!registry.remove("scale"));
}

#[test]
fn listing_has_a_line_for_each_function() {
    let mut functions: StrMap<FuncMeta<Func>> = StrMap::new();
    functions.insert("relu", FuncMeta::new(relu(), "Rectified Linear Unit"));
    let mut registry: Registry = FunctionRegistry::new(functions);
    registry.register("sigmoid", sigmoid(), "Logistic sigmoid");
    registry.register("relu", relu(), "ReLU");
    assert_eq!(registry.list_functions(), vec!["relu: ReLU", "sigmoid: Logistic sigmoid"]);
    assert!(registry.remove("relu"));
    registry.register("relu", relu(), "ReLU");
    assert_eq!(registry.list_functions(), vec!["sigmoid: Logistic sigmoid", "relu: ReLU"]);
}

#[test]
fn factories_have_names_of_their_own() {
    let mut registry: Registry = FunctionRegistry::empty();
    registry.register_factory("linear", Box::new(|p: &[F32]| {
        let w = p.first().map(|x| v(*x)).unwrap_or(1.0);
        let b = p.get(1).map(|x| v(*x)).unwrap_or(0.0);
        Arc::new(boxed(move |x| w * x + b))
    }));
    assert!(registry.get("linear").is_none());
    assert!(registry.call_factory("affine", &[]).is_none());
    let g = registry.call_factory("linear", &[f(2.0), f(1.0)]).expect("made");
    assert_eq!(v(g(f(3.0))), 7.0);
}

fn linear_registry() -> Registry {
    let mut registry: Registry = FunctionRegistry::empty();
    registry.register_fn("relu", relu(), "ReLU");
    registry.register_factory("linear", Box::new(|p: &[F32]| {
        let w = p.first().map(|x| v(*x)).unwrap_or(1.0);
        let b = p.get(1).map(|x| v(*x)).unwrap_or(0.0);
        Arc::new(boxed(move |x| w * x + b))
    }));
    registry
}

#[test]
fn descriptions_become_neurons() {
    let def = NeuronDef::new(
        vec![
            StageDef::Named("relu".to_string()),
            StageDef::Factory { name: "linear".to_string(), params: vec![f(2.0), f(1.0)] },
        ],
        StageDef::Bias { b: f(0.5) },
    );
    assert_eq!(def.version, 1);
    let neuron = match def.to_neuron(&linear_registry(), &scale_bits, &bias_bits) {
        Ok(neuron) => neuron,
        Err(e) => panic!("{}", e),
    };
    let out = v(neuron.forward(f(-1.0)));
    assert!((out - 1.5).abs() < 1e-6);

    let scaled = NeuronDef::new(vec![StageDef::Scale { w: f(4.0) }], StageDef::Named("relu".to_string()));
    let neuron = match scaled.to_neuron(&linear_registry(), &scale_bits, &bias_bits) {
        Ok(neuron) => neuron,
        Err(e) => panic!("{}", e),
    };
    assert_eq!(v(neuron.forward(f(1.5))), 6.0);
}

// A stage as plain values: which kind it is, a name, and numbers.
type PlainStage = (u32, String, Vec<f32>);

type PlainNeuron = (u32, Vec<PlainStage>, PlainStage);

fn plain_stage(def: &StageDef) -> PlainStage {
    match def {
        StageDef::Named(name) => (0, name.clone(), vec![]),
        StageDef::Scale { w } => (1, String::new(), vec![v(*w)]),
        StageDef::Bias { b } => (2, String::new(), vec![v(*b)]),
        StageDef::Factory { name, params } => {
            (3, name.clone(), params.iter().map(|p| v(*p)).collect())
        }
    }
}

fn stage_def(kind: u32, name: &str, numbers: Vec<f32>) -> StageDef {
    match kind {
        0 => StageDef::Named(name.to_string()),
        1 => StageDef::Scale { w: f(numbers[0]) },
        2 => StageDef::Bias { b: f(numbers[0]) },
        _ => StageDef::Factory {
            name: name.to_string(),
            params: numbers.into_iter().map(f).collect(),
        },
    }
}

fn plain(def: &NeuronDef) -> PlainNeuron {
    (def.version, def.stages.iter().map(plain_stage).collect(), plain_stage(&def.output))
}

fn from_plain(def: PlainNeuron) -> NeuronDef {
    let (version, stages, output) = def;
    NeuronDef {
        version,
        stages: stages.into_iter().map(|(k, n, p)| stage_def(k, &n, p)).collect(),
        output: stage_def(output.0, &output.1, output.2),
    }
}

fn rehydrated(def: &NeuronDef, registry: &Registry) -> Neuron<Func> {
    match def.to_neuron(registry, &scale_bits, &bias_bits) {
        Ok(neuron) => neuron,
        Err(e) => panic!("rehydrate: {}", e),
    }
}

fn scaling_registry() -> Registry {
    let mut registry: Registry = FunctionRegistry::empty();
    registry.register_fn("relu", relu(), "ReLU");
    registry.register_factory("scale", Box::new(|p: &[F32]| Arc::new(scale(v(p[0])))));
    registry
}

#[test]
fn neuron_serialization_roundtrip_and_rehydrate() {
    let def = NeuronDef::new(
        vec![
            StageDef::Named("relu".to_string()),
            StageDef::Factory { name: "linear".to_string(), params: vec![f(2.0), f(1.0)] },
        ],
        StageDef::Bias { b: f(0.5) },
    );
    let bytes = bincode::serialize(&plain(&def)).expect("serialize");
    let def2 = from_plain(bincode::deserialize(&bytes).expect("deserialize"));
    assert_eq!(def2, def);
    let out = v(rehydrated(&def2, &linear_registry()).forward(f(-1.0)));
    assert!((out - 1.5).abs() < 1e-6, "unexpected output: {}", out);
}

#[test]
fn rkyv_roundtrip_and_rehydrate() {
    let stages =
        vec![StageDef::Factory { name: "scale".to_string(), params: vec![f(2.0)] }];
    let def = NeuronDef::new(stages, StageDef::Named("relu".to_string()));
    let bytes = rkyv::to_bytes::<rkyv::rancor::Error>(&plain(&def)).expect("serialize");
    let def2 = from_plain(
        rkyv::from_bytes::<PlainNeuron, rkyv::rancor::Error>(&bytes).expect("deserialize"),
    );
    assert_eq!(def2, def);
    let out = v(rehydrated(&def2, &scaling_registry()).forward(f(1.5)));
    assert_eq!(out, (2.0f32 * 1.5).max(0.0));
}

#[test]
fn archived_borrow_str_and_slice() {
    let def = NeuronDef::new(
        vec![
            StageDef::Named("relu".to_string()),
            StageDef::Factory { name: "scale".to_string(), params: vec![f(0.5)] },
        ],
        StageDef::Named("relu".to_string()),
    );
    let bytes = rkyv::to_bytes::<rkyv::rancor::Error>(&plain(&def)).expect("serialize");
    let archived =
        rkyv::access::<rkyv::Archived<PlainNeuron>, rkyv::rancor::Error>(&bytes).expect("access");
    let walk = |s: &rkyv::Archived<PlainStage>| {
        let numbers = s.2.iter().map(|n| n.to_native()).collect();
        stage_def(s.0.to_native(), s.1.as_str(), numbers)
    };
    let def2 = NeuronDef {
        version: archived.0.to_native(),
        stages: archived.1.iter().map(walk).collect(),
        output: walk(&archived.2),
    };
    let neuron = rehydrated(&def2, &scaling_registry());
    assert_eq!(v(neuron.forward(f(2.0))), 1.0);
}

#[test]
fn the_first_unknown_name_is_told() {
    let missing = |stages: Vec<StageDef>, output: StageDef| {
        match NeuronDef::new(stages, output).to_neuron(&linear_registry(), &scale_bits, &bias_bits) {
            Ok(_) => String::new(),
            Err(e) => e,
        }
    };
    assert_eq!(
        missing(
            vec![
                StageDef::Named("relu".to_string()),
                StageDef::Factory { name: "affine".to_string(), params: vec![] },
                StageDef::Named("gelu".to_string()),
            ],
            StageDef::Named("selu".to_string()),
        ),
        "unknown factory 'affine'"
    );
    assert_eq!(missing(vec![], StageDef::Named("selu".to_string())), "unknown function 'selu'");
    assert_eq!(missing(vec![], StageDef::Named("linear".to_string())), "unknown function 'linear'");
}

#[test]
fn chains_compose_like_their_parts() {
    let whole = Neuron::new(
        vec![Stage::new(scale(2.0)), Stage::new(bias(1.0))],
        Stage::new(relu()),
    );
    let first = Neuron::new(vec![], Stage::new(scale(2.0)));
    let second = Neuron::new(vec![Stage::new(bias(1.0))], Stage::new(relu()));
    for x in [-3.0f32, -0.5, 0.0, 2.0] {
        assert_eq!(whole.forward(f(x)), second.forward(first.forward(f(x))));
    }
}
