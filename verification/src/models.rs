//! Descriptions of neurons, and the neurons they describe.

use crate::function_registry::FunctionRegistry;
use crate::nd::F32;
use crate::neuron::{funcs, Neuron, Stage};
use crate::text::join3;
use std::sync::Arc;
use vstd::prelude::*;

verus! {

/// What a stage does.
#[derive(Clone, Debug, PartialEq)]
pub enum StageDef {
    /// A registered function.
    Named(String),
    /// Multiplies by a weight.
    Scale { w: F32 },
    /// Adds an offset.
    Bias { b: F32 },
    /// A function that a registered factory makes from parameters.
    Factory { name: String, params: Vec<F32> },
}

/// What a neuron does: its stages in order, and its output.
#[derive(Clone, Debug, PartialEq)]
pub struct NeuronDef {
    pub version: u32,
    pub stages: Vec<StageDef>,
    pub output: StageDef,
}

/// The message for a name that the registry lacks, if it does.
pub open spec fn missing<F, G>(def: StageDef, registry: &FunctionRegistry<F, G>) -> Option<
    Seq<char>,
> {
    match def {
        StageDef::Named(name) => if registry.functions().dom().contains(name@) {
            None
        } else {
            Some("unknown function '"@ + name@ + "'"@)
        },
        StageDef::Factory { name, .. } => if registry.makers().dom().contains(name@) {
            None
        } else {
            Some("unknown factory '"@ + name@ + "'"@)
        },
        _ => None,
    }
}

/// The message for the first name from `i` on that the registry lacks, if
/// there is one.
pub open spec fn first_missing<F, G>(
    defs: Seq<StageDef>,
    registry: &FunctionRegistry<F, G>,
    i: int,
) -> Option<Seq<char>>
    decreases defs.len() - i,
{
    if i < 0 || i >= defs.len() {
        None
    } else {
        match missing(defs[i], registry) {
            Some(m) => Some(m),
            None => first_missing(defs, registry, i + 1),
        }
    }
}

/// `f` is what a description stands for.
pub open spec fn describes<F, G: Fn(&[F32]) -> Arc<F>, S: Fn(F32) -> F, B: Fn(F32) -> F>(
    def: StageDef,
    registry: &FunctionRegistry<F, G>,
    scale: &S,
    bias: &B,
    f: F,
) -> bool {
    match def {
        StageDef::Named(name) => f == registry.functions()[name@].func(),
        StageDef::Scale { w } => call_ensures(*scale, (w,), f),
        StageDef::Bias { b } => call_ensures(*bias, (b,), f),
        StageDef::Factory { name, params } => exists|s: &[F32], g: Arc<F>|
            s@ == params@ && *g == f && #[trigger] call_ensures(
                registry.makers()[name@],
                (s,),
                g,
            ),
    }
}

/// What a description is made with accepts its numbers.
pub open spec fn makeable<F, G: Fn(&[F32]) -> Arc<F>, S: Fn(F32) -> F, B: Fn(F32) -> F>(
    def: StageDef,
    registry: &FunctionRegistry<F, G>,
    scale: &S,
    bias: &B,
) -> bool {
    match def {
        StageDef::Named(_) => true,
        StageDef::Scale { w } => call_requires(*scale, (w,)),
        StageDef::Bias { b } => call_requires(*bias, (b,)),
        StageDef::Factory { name, params } => registry.makers().dom().contains(name@) ==> forall|
            s: &[F32],
        |
            s@ == params@ ==> #[trigger] call_requires(registry.makers()[name@], (s,)),
    }
}

impl StageDef {
    /// The stage that a description stands for.
    fn to_stage<F: Fn(F32) -> F32, G: Fn(&[F32]) -> Arc<F>, S: Fn(F32) -> F, B: Fn(F32) -> F>(
        &self,
        registry: &FunctionRegistry<F, G>,
        scale: &S,
        bias: &B,
    ) -> (r: Result<Stage<F>, String>)
        requires
            makeable(*self, registry, scale, bias),
        ensures
            match r {
                Ok(stage) => missing(*self, registry) is None && describes(
                    *self,
                    registry,
                    scale,
                    bias,
                    stage.func(),
                ),
                Err(m) => missing(*self, registry) == Some(m@),
            },
    {
        match self {
            StageDef::Named(name) => match registry.get(name.as_str()) {
                Some(f) => Ok(Stage::from_arc(f)),
                None => Err(join3("unknown function '", name.as_str(), "'")),
            },
            StageDef::Scale { w } => Ok(Stage::new(scale(*w))),
            StageDef::Bias { b } => Ok(Stage::new(bias(*b))),
            StageDef::Factory { name, params } => {
                let s = params.as_slice();
                match registry.call_factory(name.as_str(), s) {
                    Some(f) => Ok(Stage::from_arc(f)),
                    None => Err(join3("unknown factory '", name.as_str(), "'")),
                }
            },
        }
    }
}

impl NeuronDef {
    /// A description of the present version.
    pub fn new(stages: Vec<StageDef>, output: StageDef) -> (r: Self)
        ensures
            r == (NeuronDef { version: 1, stages, output }),
    {
        NeuronDef { version: 1, stages, output }
    }

    /// The descriptions of the stages in order, and that of the output.
    pub open spec fn defs(&self) -> Seq<StageDef> {
        self.stages@.push(self.output)
    }

    /// The neuron that a description stands for. Names are looked up in the
    /// registry, stages first; `scale` and `bias` make the functions that
    /// multiply and add.
    pub fn to_neuron<
        F: Fn(F32) -> F32,
        G: Fn(&[F32]) -> Arc<F>,
        S: Fn(F32) -> F,
        B: Fn(F32) -> F,
    >(&self, registry: &FunctionRegistry<F, G>, scale: &S, bias: &B) -> (r: Result<
        Neuron<F>,
        String,
    >)
        requires
            forall|i: int|
                0 <= i < self.defs().len() ==> makeable(
                    #[trigger] self.defs()[i],
                    registry,
                    scale,
                    bias,
                ),
        ensures
            match r {
                Ok(neuron) => {
                    &&& first_missing(self.defs(), registry, 0) is None
                    &&& neuron.chain().len() == self.defs().len()
                    &&& forall|i: int|
                        0 <= i < self.defs().len() ==> describes(
                            #[trigger] self.defs()[i],
                            registry,
                            scale,
                            bias,
                            neuron.chain()[i],
                        )
                },
                Err(m) => first_missing(self.defs(), registry, 0) == Some(m@),
            },
    {
        let ghost defs = self.defs();
        let mut stages: Vec<Stage<F>> = Vec::new();
        let mut i: usize = 0;
        while i < self.stages.len()
            invariant
                i <= self.stages@.len(),
                defs == self.defs(),
                stages@.len() == i,
                first_missing(defs, registry, 0) == first_missing(defs, registry, i as int),
                forall|j: int|
                    0 <= j < defs.len() ==> makeable(#[trigger] defs[j], registry, scale, bias),
                forall|j: int|
                    0 <= j < i ==> describes(
                        #[trigger] defs[j],
                        registry,
                        scale,
                        bias,
                        stages@[j].func(),
                    ),
            decreases self.stages@.len() - i,
        {
            assert(defs[i as int] == self.stages@[i as int]);
            match self.stages[i].to_stage(registry, scale, bias) {
                Ok(stage) => {
                    stages.push(stage);
                },
                Err(m) => {
                    return Err(m);
                },
            }
            i = i + 1;
        }
        assert(defs[i as int] == self.output);
        match self.output.to_stage(registry, scale, bias) {
            Ok(output) => {
                let ghost fs = funcs(stages@);
                let ghost last = output.func();
                let neuron = Neuron::new(stages, output);
                assert forall|j: int| 0 <= j < defs.len() implies describes(
                    #[trigger] defs[j],
                    registry,
                    scale,
                    bias,
                    neuron.chain()[j],
                ) by {
                    if j < fs.len() {
                        assert(neuron.chain()[j] == fs[j]);
                    } else {
                        assert(neuron.chain()[j] == last);
                    }
                }
                assert(first_missing(defs, registry, i + 1) is None);
                Ok(neuron)
            },
            Err(m) => Err(m),
        }
    }
}

} // verus!
