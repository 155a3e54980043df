use eenn::device_manager::InitAction::{Init, InitDefault};
use eenn::device_manager::{DeviceManager, InitAction, Initializer};
use eenn::gpu_backend::{
    adapter_matches_requirements, adapter_score, adapter_score_quick, best_first, choose_adapter,
    score_named, select_adapter_index_by_policy, select_index, AdapterFacts, AdapterKind, Choice,
    DeviceSelectionPolicy,
};
use eenn::nd::F32;
use eenn::scratch::{instrumentation_file, Instrumentation};
use eenn::shaders::{
    canonical_layout_dims, copy_flat, copy_kernel, num_elements, workgroups, WORKGROUP,
};
use eenn::staging::{
    bucket_for_size, copied, read_plan, staged_bytes, staged_destination_usage, trimmed,
    upload_plan, Initial, Staging, StagingEntry, StagingPlan, StagingPool, UploadPath, Usage,
    DIRECT_LIMIT, MAX_PER_BUCKET,
};

fn adapter(kind: AdapterKind, name: &str) -> AdapterFacts {
    AdapterFacts {
        kind,
        name: name.to_string(),
        timestamp_query: false,
        storage_binding_array: false,
        push_constants: false,
        max_storage_buffers: 0,
        min_storage_alignment: 0,
    }
}

fn usage(map_read: bool, copy_src: bool, copy_dst: bool, storage: bool) -> Usage {
    Usage { map_read, copy_src, copy_dst, storage }
}

#[test]
fn smoke_selection_api() {
    let none: Vec<AdapterFacts> = Vec::new();
    for policy in [
        DeviceSelectionPolicy::Index(0),
        DeviceSelectionPolicy::BestScore,
        DeviceSelectionPolicy::RoundRobin,
    ] {
        assert_eq!(select_adapter_index_by_policy(&none, policy), None);
    }
    let some = vec![
        adapter(AdapterKind::Cpu, "llvmpipe"),
        adapter(AdapterKind::Integrated, "AMD Radeon"),
        adapter(AdapterKind::Discrete, "SwiftShader"),
    ];
    assert_eq!(select_adapter_index_by_policy(&some, DeviceSelectionPolicy::Index(7)), Some(1));
    assert_eq!(select_adapter_index_by_policy(&some, DeviceSelectionPolicy::BestScore), Some(1));
    assert_eq!(select_adapter_index_by_policy(&some, DeviceSelectionPolicy::RoundRobin), Some(0));
}

#[test]
fn scores_of_adapters() {
    let plain = adapter(AdapterKind::Discrete, "NVIDIA RTX");
    assert_eq!(adapter_score(&plain, 0), 70);
    assert_eq!(adapter_score(&plain, -5), 70);
    assert_eq!(adapter_score(&plain, 7), 77);
    assert_eq!(adapter_score(&plain, 99), 90);
    assert_eq!(score_named(&plain, "NVIDIA RTX", 0), 60);
    let rich = AdapterFacts {
        kind: AdapterKind::Integrated,
        name: "SwiftShader".to_string(),
        timestamp_query: true,
        storage_binding_array: true,
        push_constants: true,
        max_storage_buffers: 31,
        min_storage_alignment: 256,
    };
    assert_eq!(adapter_score(&rich, 0), 0 + 5 + 20 + 5 + 32 + 10);
    assert!(adapter_matches_requirements(&rich));
    assert!(!adapter_matches_requirements(&plain));
    assert_eq!(adapter_score(&adapter(AdapterKind::Virtual, ""), 0), 10);
    assert_eq!(adapter_score(&adapter(AdapterKind::Other, ""), 0), 5);
    assert_eq!(adapter_score(&adapter(AdapterKind::Discrete, "LLVMpipe"), 0), 10);

    assert_eq!(adapter_score_quick(&adapter(AdapterKind::Discrete, "NVIDIA AMD")), 60);
    assert_eq!(adapter_score_quick(&adapter(AdapterKind::Integrated, "Radeon")), 33);
    assert_eq!(adapter_score_quick(&adapter(AdapterKind::Virtual, "amd")), 13);
    assert_eq!(adapter_score_quick(&adapter(AdapterKind::Discrete, "SWIFTSHADER")), 10);
    assert_eq!(adapter_score_quick(&adapter(AdapterKind::Cpu, "llvmpipe")), 0);
}

#[test]
fn the_first_of_the_best() {
    let scores = vec![3, 9, 1, 9];
    assert_eq!(select_index(&scores, DeviceSelectionPolicy::BestScore), Some(1));
    assert_eq!(best_first(&scores), vec![1, 3, 0, 2]);
    assert_eq!(best_first(&vec![]), Vec::<usize>::new());
}

#[test]
fn adapters_by_request() {
    let pick = |facts: &Vec<AdapterFacts>, request: Option<&str>| match choose_adapter(facts, request) {
        Choice::Adapter(i) => Some(i),
        Choice::Default => None,
    };
    let mut facts = vec![
        adapter(AdapterKind::Cpu, "Soft 1"),
        adapter(AdapterKind::Discrete, "Big"),
        adapter(AdapterKind::Integrated, "Small"),
    ];
    assert_eq!(pick(&facts, None), None);
    facts[2].storage_binding_array = true;
    assert_eq!(pick(&facts, None), Some(2));
    assert_eq!(pick(&facts, Some("1")), Some(1));
    assert_eq!(pick(&facts, Some("+0")), Some(0));
    assert_eq!(pick(&facts, Some("Big")), Some(1));
    assert_eq!(pick(&facts, Some("big")), Some(2));
    assert_eq!(pick(&facts, Some("")), Some(0));
    // No adapter has this number, and the text is not in a name either.
    assert_eq!(pick(&facts, Some("17")), Some(2));
    // Not a number that fits: it is looked for in the names.
    facts[0].name = "n99999999999999999999".to_string();
    assert_eq!(pick(&facts, Some("99999999999999999999")), Some(0));
}

fn run(init: &mut Initializer, works: &[usize], default: bool) -> (Vec<InitAction>, bool) {
    let mut ok = false;
    let mut actions = Vec::new();
    loop {
        let action = init.step(ok);
        match action {
            InitAction::Init(i) => ok = works.contains(&i),
            InitAction::InitDefault => ok = default,
            InitAction::End(there) => return (actions, there),
        }
        actions.push(action);
    }
}

#[test]
fn devices_come_up_from_the_best_on() {
    let facts = vec![
        adapter(AdapterKind::Cpu, "Soft"),
        adapter(AdapterKind::Discrete, "Big"),
        adapter(AdapterKind::Integrated, "Small"),
    ];
    let go = |request: Option<&str>, works: &[usize], default: bool| {
        run(&mut Initializer::new(&facts, request, 0), works, default)
    };
    assert_eq!(go(None, &[0, 1, 2], true), (vec![Init(1)], true));
    assert_eq!(go(None, &[0], true), (vec![Init(1), Init(2), Init(0)], true));
    assert_eq!(
        go(None, &[], false),
        (vec![Init(1), Init(2), Init(0), InitDefault], false)
    );
    assert_eq!(go(Some("SMALL"), &[0, 1, 2], true), (vec![Init(2), Init(1)], true));
    assert_eq!(
        go(Some("0"), &[0], true),
        (vec![Init(0), Init(1), Init(2), Init(0)], true)
    );
    assert_eq!(go(Some("9"), &[1], true), (vec![Init(1)], true));
    assert_eq!(
        go(Some("soft"), &[], true),
        (vec![Init(0), Init(1), Init(2), Init(0), InitDefault], true)
    );
    let none: Vec<AdapterFacts> = Vec::new();
    assert_eq!(run(&mut Initializer::new(&none, None, 0), &[], true), (vec![InitDefault], true));
}

#[test]
fn turns_go_round() {
    let mut m = DeviceManager::new();
    assert!(m.is_empty());
    m.add_device(10, 5);
    m.add_device(20, 7);
    m.add_device(30, 7);
    assert!(!m.is_empty());
    let turns: Vec<u64> = (0..4).map(|_| m.get_device_round_robin()).collect();
    assert_eq!(turns, vec![10, 20, 30, 10]);
    assert_eq!(m.get_device_by_policy(DeviceSelectionPolicy::BestScore), 20);
    assert_eq!(m.get_device_by_policy(DeviceSelectionPolicy::Index(5)), 30);
    assert_eq!(m.get_device_by_policy(DeviceSelectionPolicy::RoundRobin), 20);
    assert_eq!(m.get_device_by_policy(DeviceSelectionPolicy::RoundRobin), 30);
}

#[test]
fn sizes_of_buckets() {
    assert_eq!(bucket_for_size(0), 1);
    assert_eq!(bucket_for_size(1), 1);
    assert_eq!(bucket_for_size(3), 4);
    assert_eq!(bucket_for_size(1024), 1024);
    assert_eq!(bucket_for_size(1025), 2048);
    assert_eq!(bucket_for_size(0x8000_0000_0000_0000), 0x8000_0000_0000_0000);
}

fn made(buffer: u64, plan: StagingPlan) -> StagingEntry {
    StagingEntry { buffer, in_use: true, usage: plan.usage }
}

fn acquire(pool: &mut StagingPool, fresh: &mut u64, key: u64, contents: Option<u64>, for_write: bool) -> StagingEntry {
    match pool.acquire_staging_entry(key, contents, for_write) {
        Staging::Reused(entry) => entry,
        Staging::Create(plan) => {
            *fresh += 1;
            made(*fresh, plan)
        }
    }
}

#[test]
fn staging_mapped_read_guard_lifecycle() {
    let mut pool = StagingPool::new();
    let mut fresh = 0;
    let key = bucket_for_size(1024);
    let guard = acquire(&mut pool, &mut fresh, key, None, false);
    assert!(guard.in_use);
    assert_eq!(guard.usage, usage(true, false, true, false));
    assert!(pool.release(key, guard).is_empty());
    // The pool holds an entry for the key that is not in use.
    let again = pool.acquire(key, false).expect("expected pool bucket present");
    assert_eq!(again.buffer, guard.buffer);
}

#[test]
fn staging_mapped_write_guard_lifecycle() {
    let mut pool = StagingPool::new();
    let mut fresh = 0;
    let key = bucket_for_size(1024);
    let guard = acquire(&mut pool, &mut fresh, key, None, true);
    let mut mapped = staged_bytes(key as usize, None);
    assert_eq!(mapped.len() as u64, key);
    assert!(mapped.iter().all(|b| *b == 0));
    for (i, b) in mapped.iter_mut().enumerate().take(16) {
        *b = (i & 0xff) as u8;
    }
    assert_eq!(staged_bytes(key as usize, Some(&mapped)), mapped);
    pool.release(key, guard);
    // It is there for writing, and not for reading.
    assert!(pool.acquire(key, false).is_none());
    assert_eq!(pool.acquire(key, true).map(|e| e.buffer), Some(guard.buffer));
    assert!(pool.acquire(key, true).is_none());
}

#[test]
fn staging_pool_reuse_and_cap() {
    let mut pool = StagingPool::new();
    let mut fresh = 0;
    let size = upload_plan(20000, usage(false, false, false, true)).size;
    assert_eq!(size, 80000);
    let key = bucket_for_size(size);
    assert_eq!(key, 131072);
    // One after the other, all go through one buffer.
    for _ in 0..12 {
        let e = acquire(&mut pool, &mut fresh, key, Some(size), true);
        assert!(pool.release(key, e).is_empty());
    }
    assert_eq!(fresh, 1);
    // At once, each has its own, and the pool keeps the last of them.
    let all: Vec<StagingEntry> =
        (0..12).map(|_| acquire(&mut pool, &mut fresh, key, Some(size), true)).collect();
    assert_eq!(fresh, 12);
    let mut dropped = 0;
    for e in all {
        dropped += pool.release(key, e).len();
    }
    assert_eq!(dropped, 12 - MAX_PER_BUCKET);
    let mut kept = Vec::new();
    while let Some(e) = pool.acquire(key, true) {
        kept.push(e.buffer);
    }
    assert!(kept.len() <= 4, "pool exceeded cap");
    assert_eq!(kept, vec![9, 10, 11, 12]);
}

#[test]
fn ways_to_make_a_staging_buffer() {
    let plan = |contents: Option<u64>, for_write: bool| {
        match StagingPool::new().acquire_staging_entry(64, contents, for_write) {
            Staging::Create(plan) => plan,
            Staging::Reused(_) => panic!("nothing to reuse"),
        }
    };
    assert_eq!(
        plan(None, true),
        StagingPlan { size: 64, usage: copied(), initial: Initial::Nothing, created_mapped: false }
    );
    assert_eq!(
        plan(Some(40), true),
        StagingPlan { size: 64, usage: copied(), initial: Initial::Queued, created_mapped: false }
    );
    assert_eq!(
        plan(Some(40), false),
        StagingPlan {
            size: 40,
            usage: usage(true, true, false, false),
            initial: Initial::AtCreation,
            created_mapped: true,
        }
    );
}

#[test]
fn plans_for_uploads_and_reads() {
    let storage = usage(false, false, false, true);
    let small = upload_plan(16384, storage);
    assert_eq!(small.size, DIRECT_LIMIT);
    assert_eq!(small.path, UploadPath::Direct);
    assert_eq!(small.usage, usage(false, true, true, true));
    let large = upload_plan(16385, storage);
    assert_eq!(large.path, UploadPath::Staged { bucket: 131072 });
    assert_eq!(staged_destination_usage(copied()), copied());
    assert_eq!(read_plan(30000), (120000, 131072));
    assert_eq!(read_plan(0), (0, 1));
    assert_eq!(trimmed(&[1, 2, 3, 4], 3), vec![1, 2, 3]);
    assert!(storage.union(copied()).contains(storage));
    assert!(!storage.contains(copied()));
}

// Writes bytes to a buffer from its start, as a queue or a copy does.
fn put(buffer: &mut [u8], bytes: &[u8]) {
    buffer[..bytes.len()].copy_from_slice(bytes);
}

// Uploads floats to a buffer in memory, through a staging buffer where the
// plan says so.
fn upload(data: &[f32]) -> Vec<u8> {
    let bytes: Vec<u8> = data.iter().flat_map(|x| x.to_ne_bytes()).collect();
    let plan = upload_plan(data.len() as u64, usage(false, false, false, true));
    let mut dst = vec![0xaau8; plan.size as usize];
    match plan.path {
        UploadPath::Direct => put(&mut dst, &bytes),
        UploadPath::Staged { bucket } => {
            let mut staging = vec![0x55u8; bucket as usize];
            put(&mut staging, &staged_bytes(bucket as usize, Some(&bytes)));
            put(&mut dst, &staging[..bytes.len()]);
        }
    }
    dst
}

fn read_back(buffer: &[u8], elements: usize) -> Vec<f32> {
    let (size, bucket) = read_plan(elements as u64);
    let mut staging = vec![0x33u8; bucket as usize];
    put(&mut staging, &buffer[..size as usize]);
    trimmed(&staging, size as usize)
        .chunks_exact(4)
        .map(|b| f32::from_ne_bytes([b[0], b[1], b[2], b[3]]))
        .collect()
}

#[test]
fn async_small_upload_roundtrip() {
    let a = [std::f32::consts::PI; 4];
    let host = read_back(&upload(&a), a.len());
    assert_eq!(host.len(), a.len());
    assert_eq!(host, a);
}

#[test]
fn async_large_upload_roundtrip() {
    let vec: Vec<f32> = (0..20000).map(|i| i as f32 * 0.125).collect();
    let host = read_back(&upload(&vec), vec.len());
    assert_eq!(host.len(), vec.len());
    assert_eq!(host[0], vec[0]);
    assert_eq!(host[1234], vec[1234]);
    assert_eq!(host[19999], vec[19999]);
    assert_eq!(host, vec);
}

#[test]
fn async_strict_exact_roundtrip() {
    let num_f32 = 30000usize;
    let size_bytes = num_f32 * 4;
    let key = bucket_for_size(size_bytes as u64) as usize;
    let mut mapped = staged_bytes(key, None);
    for (i, b) in mapped.iter_mut().enumerate() {
        *b = (i & 0xFF) as u8;
    }
    let host = read_back(&mapped[..size_bytes], num_f32);
    let expected: Vec<u8> = (0..size_bytes).map(|i| (i & 0xFF) as u8).collect();
    let host_bytes: Vec<u8> = host.iter().flat_map(|x| x.to_ne_bytes()).collect();
    assert_eq!(host_bytes, expected);
}

#[test]
fn shapes_for_shaders() {
    assert_eq!(num_elements(&[2, 3, 4]), 24);
    assert_eq!(num_elements(&[]), 1);
    assert_eq!(canonical_layout_dims(&[7, 0x1_0000_0002]), vec![7, 2]);
}

#[test]
fn kernels_copy_buffers() {
    let src: Vec<F32> = (0..5).map(|i| F32 { bits: (i as f32).to_bits() }).collect();
    let mut dst = vec![F32 { bits: 0 }; 5];
    copy_flat(&src, &mut dst);
    assert_eq!(dst, src);
    let mut dst = vec![F32 { bits: 9 }; 5];
    for idx in [4, 1, 0, 9, 3, 1] {
        copy_kernel(idx, &src, &mut dst);
    }
    assert_eq!(dst[2], F32 { bits: 9 });
    copy_kernel(2, &src, &mut dst);
    assert_eq!(dst, src);
    assert_eq!(WORKGROUP, 64);
    assert_eq!(workgroups(0), 0);
    assert_eq!(workgroups(64), 1);
    assert_eq!(workgroups(65), 2);
    assert_eq!(workgroups(u32::MAX), 0x400_0000);
}

#[test]
fn names_of_instrumentation_files() {
    assert_eq!(instrumentation_file(None), "partitioner_instrumentation.json");
    assert_eq!(
        instrumentation_file(Some("a b/../c_1-x.é")),
        "partitioner_instrumentation_a_b____c_1-x__.json"
    );
    let instr = Instrumentation::new();
    assert!(instr.dp_window_hist.is_empty() && instr.total_calls == 0);
}
