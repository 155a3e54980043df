//! Building blocks for tiny neural networks: tensors and nodes, neurons made
//! from registered functions, a planner that finds the runs of operators worth
//! moving to a GPU, a cache of compiled kernels, and the signatures and
//! fingerprints of their manifests.
//!
//! Every part states what it does in its contract. What needs a disk, a
//! network, a device or floating point is left to a host: it hands plain
//! values in and performs the actions that come out. The traits that a host
//! implements leave open what an implementation is, and say how its methods
//! fit together; the implementations here say what they are.

pub mod arithmetic;
pub mod buffer_laws;
pub mod cache_laws;
pub mod canonical_laws;
pub mod cost_laws;
pub mod cpu_backend;
pub mod device_laws;
pub mod device_manager;
pub mod fingerprint;
pub mod function_registry;
pub mod gpu_backend;
pub mod json;
pub mod json_laws;
pub mod kernel_cache;
pub mod models;
pub mod nd;
pub mod neuron;
pub mod node;
pub mod node_laws;
pub mod nodes;
pub mod observability;
pub mod partitioner;
pub mod pass_laws;
pub mod plan_laws;
pub mod port;
pub mod port_laws;
pub mod precompile_worker;
pub mod scratch;
pub mod service_laws;
pub mod shaders;
pub mod signature;
pub mod staging;
pub mod store_laws;
pub mod strmap;
pub mod tensor;
pub mod tensor_laws;
pub mod text;
pub mod text_laws;
pub mod value_laws;

pub use fingerprint::{fingerprint_sha256_hex, to_canonical_json};
pub use function_registry::{FuncMeta, FunctionRegistry};
pub use kernel_cache::KernelCache;
pub use neuron::{Neuron, Stage};
pub use node::{Node, Sequential, TickCtx};
pub use nodes::{ConcatNode, MergeNode, ReshapeNode, StageNode};
pub use observability::{
    CacheStats, ExecutionContext, InMemoryProfiler, Profiler, Profilers, SharedProfiler,
};
pub use partitioner::{GreedyPartitioner, Partitioner, Segment};
pub use port::{PortId, PortSpec, PortTensors};
pub use precompile_worker::{
    CancelHandle, CancelStates, CancellationToken, CompileTask, PrecompileService,
};
pub use signature::{
    verify_manifest, InMemoryTrustStore, SharedTrustStore, TrustStore, TrustStores,
};
pub use tensor::{DType, Shape, Tensor};
