# eenn

Building blocks for tiny neural networks, verified with
[Verus](https://github.com/verus-lang/verus).

- `src/` is the library. Every function in it is proved against its contract;
  the laws that relate several of them are public proof functions, most of them
  named `law_..`.
- `tests/` runs the library on concrete values.
- `app/` is the program around it: floating point, files, `tokio`, `wgpu`.

| Modules | What they hold |
| --- | --- |
| `partitioner`, `scratch`, `arithmetic`, `plan_laws` | which runs of operators are worth moving to a GPU |
| `nd`, `tensor`, `cpu_backend`, `port`, `node`, `nodes`, `tensor_laws`, `node_laws` | tensors, and the nodes that work on them |
| `neuron`, `function_registry`, `models` | neurons made from registered functions |
| `json`, `json_laws`, `fingerprint`, `signature` | manifests: canonical text, fingerprints, signatures |
| `kernel_cache`, `cache_laws`, `precompile_worker`, `observability` | compiled kernels: where they are kept, and who compiles them when |
| `gpu_backend`, `device_manager`, `staging`, `shaders` | which adapter to use, staging buffers, the copy kernel |
| `text`, `strmap` | strings, and maps from strings |

Four conventions run through the library.

- A float is a bit pattern (`nd::F32`, `nd::F64`) where it is only carried
  along. Where the planner computes, it is generic over `arithmetic::Real`, with
  fixed-point numbers in the library and floats in `app/`.
- What needs a disk, a device or a clock is a state machine here: a host asks
  for the next action, performs it, and says what came of it
  (`kernel_cache::KernelCache::write_artifact`, `precompile_worker::advance_task`,
  `device_manager::Initializer::step`).
- What several hold at once is kept in a table, and what they hold is a place in
  it: `precompile_worker::CancelStates`, `observability::Profilers`,
  `signature::TrustStores`. The program keeps each table under a lock.
- A call into another crate stands in a small function marked
  `#[verifier::external_body]`, whose doc comment says what is taken for granted
  of that crate.
