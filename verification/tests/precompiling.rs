use eenn::kernel_cache::{ArtifactMeta, ArtifactWrite, CacheAction, CacheError, KernelCache};
use eenn::observability::{
    CacheStats, ExecutionContext, InMemoryProfiler, Profiler, Profilers,
};
use eenn::precompile_worker::{
    advance_task, submit_result, CancelHandle, CancelStates, CancellationToken, CompileEvent,
    CompileTask, PrecompileService, SubmitError, TaskAction, TaskOutcome, TaskReport, TaskStage,
    QUEUE_CAPACITY,
};
use std::collections::HashMap;

enum File {
    Bytes(Vec<u8>),
    Index(Vec<(String, ArtifactMeta)>),
}

struct Disk {
    files: HashMap<String, File>,
    fail_at: Option<usize>,
}

impl Disk {
    fn new() -> Self {
        Disk { files: HashMap::new(), fail_at: None }
    }

    fn open(&self, root: &str) -> KernelCache {
        let mut cache = KernelCache::new(root);
        if let Some(File::Index(entries)) = self.files.get(&cache.index_path()) {
            cache.load_index(entries.clone());
        }
        cache
    }

    fn write(&mut self, cache: &mut KernelCache, fp: &str, bytes: &[u8]) -> Result<(), CacheError> {
        let mut write = ArtifactWrite::new(fp, bytes.len() as u64);
        let mut ok = true;
        let mut actions = 0;
        loop {
            match cache.write_artifact(&mut write, ok) {
                CacheAction::End(outcome) => return outcome,
                action => {
                    ok = self.fail_at != Some(actions);
                    actions += 1;
                    if ok {
                        self.perform(cache, action, bytes);
                    }
                }
            }
        }
    }

    fn perform(&mut self, cache: &KernelCache, action: CacheAction, bytes: &[u8]) {
        match action {
            CacheAction::WriteArtifact { path } => {
                self.files.insert(path, File::Bytes(bytes.to_vec()));
            }
            CacheAction::WriteIndex { path } => {
                self.files.insert(path, File::Index(cache.index_entries()));
            }
            CacheAction::Rename { from, to } => {
                let held = self.files.remove(&from).expect("renamed file");
                self.files.insert(to, held);
            }
            CacheAction::End(_) => {}
        }
    }

    fn read(&self, cache: &KernelCache, fp: &str) -> Option<&Vec<u8>> {
        match self.files.get(&cache.artifact_path(fp)) {
            Some(File::Bytes(b)) => Some(b),
            _ => None,
        }
    }
}

#[test]
fn write_and_read_artifact_roundtrip() {
    let mut disk = Disk::new();
    let mut cache = disk.open("/cache");
    let fp = "deadbeef";
    let data = b"hello-world";
    disk.write(&mut cache, fp, data).unwrap();
    let meta = cache.lookup(fp).expect("meta present");
    assert_eq!(meta.size_bytes, data.len() as u64);
    assert_eq!(meta.fingerprint, fp);
    let got = disk.read(&cache, fp).unwrap();
    assert_eq!(&got[..], &data[..]);
}

#[test]
fn index_persisted_across_instances() {
    let mut disk = Disk::new();
    {
        let mut cache = disk.open("/cache");
        disk.write(&mut cache, "one", b"a").unwrap();
        disk.write(&mut cache, "two", b"bb").unwrap();
    }
    let cache2 = disk.open("/cache");
    let m1 = cache2.lookup("one").expect("one present");
    let m2 = cache2.lookup("two").expect("two present");
    assert_eq!(m1.size_bytes, 1);
    assert_eq!(m2.size_bytes, 2);
    assert!(cache2.lookup("three").is_none());
}

#[test]
fn an_artifact_is_written_in_four_steps() {
    let mut cache = KernelCache::new("/c");
    let mut w = ArtifactWrite::new("ab.c", 3);
    assert_eq!(
        cache.write_artifact(&mut w, true),
        CacheAction::WriteArtifact { path: "/c/ab.c.tmp".to_string() }
    );
    assert_eq!(
        cache.write_artifact(&mut w, true),
        CacheAction::Rename { from: "/c/ab.c.tmp".to_string(), to: "/c/ab.c.bin".to_string() }
    );
    assert!(cache.lookup("ab.c").is_none());
    assert_eq!(
        cache.write_artifact(&mut w, true),
        CacheAction::WriteIndex { path: "/c/index.tmp".to_string() }
    );
    assert!(cache.lookup("ab.c").is_some());
    assert_eq!(
        cache.write_artifact(&mut w, true),
        CacheAction::Rename { from: "/c/index.tmp".to_string(), to: "/c/index.json".to_string() }
    );
    assert_eq!(cache.write_artifact(&mut w, true), CacheAction::End(Ok(())));
    assert_eq!(cache.write_artifact(&mut w, false), CacheAction::End(Ok(())));
}

#[test]
fn the_first_failure_ends_a_write() {
    let errors = [
        (CacheError::WriteTemp, "write temp artifact", false),
        (CacheError::Rename, "atomic rename", false),
        (CacheError::WriteTempIndex, "write temp index", true),
        (CacheError::RenameIndex, "atomic rename index", true),
    ];
    for (i, (error, message, known)) in errors.iter().enumerate() {
        let mut disk = Disk::new();
        let mut cache = disk.open("/c");
        disk.fail_at = Some(i);
        assert_eq!(disk.write(&mut cache, "f", b"x"), Err(*error));
        assert_eq!(error.message(), *message);
        assert_eq!(cache.lookup("f").is_some(), *known);
        assert_eq!(disk.read(&cache, "f").is_some(), *known);
    }
}

#[test]
fn paths_stand_in_the_directory() {
    assert_eq!(KernelCache::new("/c/").artifact_path("f"), "/c/f.bin");
    assert_eq!(KernelCache::new("").artifact_path("f"), "f.bin");
    assert_eq!(KernelCache::new("c").index_path(), "c/index.json");
    assert_eq!(KernelCache::new("c").artifact_path("/abs"), "/abs.bin");
}

#[test]
fn the_later_of_two_entries_counts() {
    let mut cache = KernelCache::new("c");
    let entry = |n: u64| {
        ("f".to_string(), ArtifactMeta { fingerprint: "f".to_string(), size_bytes: n })
    };
    cache.load_index(vec![entry(1), entry(2)]);
    assert_eq!(cache.lookup("f").map(|m| m.size_bytes), Some(2));
    assert_eq!(cache.index_entries().len(), 1);
}

#[test]
fn an_index_survives_in_any_order() {
    let mut disk = Disk::new();
    let mut cache = disk.open("c");
    for (fp, bytes) in [("one", "a"), ("two", "bb"), ("three", "ccc")] {
        disk.write(&mut cache, fp, bytes.as_bytes()).unwrap();
    }
    let mut entries = cache.index_entries();
    entries.reverse();
    let mut again = KernelCache::new("c");
    again.load_index(entries);
    for (fp, size) in [("one", 1), ("two", 2), ("three", 3)] {
        assert_eq!(again.lookup(fp).map(|m| m.size_bytes), Some(size));
    }
    assert!(again.lookup("four").is_none());
}

#[test]
fn profiler_records_and_snapshots() {
    let mut p = InMemoryProfiler::new();
    p.record_event("compile_ms", 10);
    p.record_event("compile_ms", 5);
    let snap = p.snapshot();
    assert_eq!(snap.events.get("compile_ms").copied().unwrap_or(0), 15);
}

#[test]
fn events_are_kept_apart() {
    let mut p = InMemoryProfiler::new();
    p.record_event("a", 1);
    p.record_event("b", 2);
    let snap = p.snapshot();
    p.record_event("a", 4);
    assert_eq!(snap.events.get("a").copied(), Some(1));
    assert_eq!(snap.events.get("b").copied(), Some(2));
    assert!(snap.events.get("c").is_none());
    assert_eq!(p.snapshot().events.get("a").copied(), Some(5));
}

#[test]
fn contexts_begin_empty() {
    let ctx = ExecutionContext::new();
    assert!(ctx.profiler.is_none());
    assert!(!ctx.debug_mode);
    assert_eq!(ctx.artifact_provenance.len(), 0);
    let mut profilers = Profilers::new();
    let profiler = profilers.share(Box::new(InMemoryProfiler::new()));
    let ctx = ExecutionContext::with_profiler(profiler);
    assert_eq!(ctx.profiler, Some(profiler));
    assert!(!ctx.debug_mode);
    assert_eq!(ctx.artifact_provenance.len(), 0);
    let stats = CacheStats { hit: 1, miss: 2, evicted: 3 };
    assert_eq!(stats.hit + stats.miss + stats.evicted, 6);
}

#[test]
fn the_profiler_of_a_context_is_shared_with_the_caller() {
    let mut profilers = Profilers::new();
    let other = profilers.share(Box::new(InMemoryProfiler::new()));
    let mut known = InMemoryProfiler::new();
    known.record_event("compile_ms", 7);
    let profiler = profilers.share(Box::new(known));
    let ctx = ExecutionContext::with_profiler(profiler);
    ctx.profiler.unwrap().record_event(&mut profilers, "compile_ms", 10);
    profiler.record_event(&mut profilers, "compile_ms", 5);
    assert_eq!(profiler.snapshot(&profilers).events.get("compile_ms").copied(), Some(22));
    let seen = ctx.profiler.unwrap().snapshot(&profilers);
    assert_eq!(seen.events.get("compile_ms").copied(), Some(22));
    assert!(other.snapshot(&profilers).events.get("compile_ms").is_none());
}

#[test]
fn tokens_are_called_off_once() {
    let mut states = CancelStates::new();
    let token = CancellationToken::new(&mut states);
    assert!(!token.is_cancelled(&states));
    assert!(token.cancel(&mut states));
    assert!(token.is_cancelled(&states));
    assert!(!token.cancel(&mut states));
    assert!(token.is_cancelled(&states));
}

#[test]
fn copies_of_a_token_are_called_off_together() {
    let mut states = CancelStates::new();
    let token = CancellationToken::new(&mut states);
    let other = CancellationToken::new(&mut states);
    let copy = token.clone();
    assert_ne!(token, other);
    assert_eq!(token, copy);
    assert!(copy.cancel(&mut states));
    assert!(token.is_cancelled(&states));
    assert!(!other.is_cancelled(&states));
    let later = CancellationToken::new(&mut states);
    assert!(!later.is_cancelled(&states));
    assert!(token.is_cancelled(&states));
    assert!(!token.cancel(&mut states));
}

#[test]
fn a_task_and_its_caller_share_a_token() {
    let mut states = CancelStates::new();
    let (task, token) = CompileTask::with_started("f".to_string(), vec![], &mut states);
    let copy = task.clone();
    token.cancel(&mut states);
    assert!(task.cancel.is_cancelled(&states));
    assert!(copy.cancel.is_cancelled(&states));
}

#[test]
fn a_handle_calls_all_off() {
    let mut states = CancelStates::new();
    let mut handle = CancelHandle::new();
    let seven = CancellationToken::new(&mut states);
    let three = CancellationToken::new(&mut states);
    let off = CancellationToken::new(&mut states);
    let stranger = CancellationToken::new(&mut states);
    handle.register(&seven);
    handle.register(&three);
    handle.register(&seven.clone());
    handle.register(&off);
    off.cancel(&mut states);
    assert_eq!(handle.cancel_all(&mut states), vec![seven, three]);
    assert!(seven.is_cancelled(&states) && three.is_cancelled(&states));
    assert!(off.is_cancelled(&states));
    assert!(!stranger.is_cancelled(&states));
    assert!(handle.cancel_all(&mut states).is_empty());
}

#[test]
fn a_task_from_start_to_end() {
    let mut states = CancelStates::new();
    let (task, token) = CompileTask::with_started("f".to_string(), vec![1, 2], &mut states);
    assert!(task.started);
    assert_eq!(task.cancel, token);
    assert!(!token.is_cancelled(&states));
    let copy = task.clone();
    assert_eq!((copy.fingerprint, copy.source), ("f".to_string(), vec![1, 2]));
    assert_eq!((copy.cancel, copy.started), (token, true));

    let (stage, actions) = advance_task(TaskStage::Admitted, TaskReport::Running, task.started);
    assert_eq!(
        actions,
        vec![TaskAction::Record(CompileEvent::Start), TaskAction::SignalStarted, TaskAction::Race]
    );
    let (stage, actions) =
        advance_task(stage, TaskReport::Raced { cancelled: false, compiled: true }, task.started);
    assert_eq!(actions, vec![TaskAction::Write]);
    let (stage, actions) = advance_task(stage, TaskReport::Written { ok: true }, task.started);
    assert_eq!(
        actions,
        vec![
            TaskAction::Record(CompileEvent::Done),
            TaskAction::Respond(TaskOutcome::Done),
            TaskAction::Release,
        ]
    );
    assert_eq!(stage, TaskStage::Ended(TaskOutcome::Done));
    let (again, actions) = advance_task(stage, TaskReport::Written { ok: true }, task.started);
    assert_eq!(again, stage);
    assert!(actions.is_empty());
}

#[test]
fn ways_for_a_task_to_fail() {
    let racing = advance_task(TaskStage::Admitted, TaskReport::Running, false);
    assert_eq!(racing.1, vec![TaskAction::Record(CompileEvent::Start), TaskAction::Race]);
    let off = advance_task(racing.0, TaskReport::Raced { cancelled: true, compiled: true }, false);
    assert_eq!(
        off.1,
        vec![
            TaskAction::Record(CompileEvent::Cancelled),
            TaskAction::Respond(TaskOutcome::Cancelled),
            TaskAction::Release,
        ]
    );
    let bad = advance_task(racing.0, TaskReport::Raced { cancelled: false, compiled: false }, false);
    assert_eq!(
        bad.1,
        vec![TaskAction::Respond(TaskOutcome::CompileFailed), TaskAction::Release]
    );
    let full = advance_task(TaskStage::Writing, TaskReport::Written { ok: false }, false);
    assert_eq!(full.1, vec![TaskAction::Respond(TaskOutcome::WriteFailed), TaskAction::Release]);
    assert_eq!(CompileEvent::Start.name(), "compile_start");
    assert_eq!(CompileEvent::Cancelled.name(), "compile_cancelled");
    assert_eq!(CompileEvent::Done.name(), "compile_done");
}

#[test]
fn what_a_submission_comes_to() {
    assert_eq!(submit_result(true, Some(TaskOutcome::Done)), Ok(()));
    let send = submit_result(false, None).unwrap_err();
    assert_eq!(send, SubmitError::Send);
    assert_eq!(send.message(), Some("send task"));
    let silent = submit_result(true, None).unwrap_err();
    assert_eq!(silent.message(), Some("await response"));
    let off = submit_result(true, Some(TaskOutcome::Cancelled)).unwrap_err();
    assert_eq!(off.message(), Some("cancelled"));
    let failed = submit_result(true, Some(TaskOutcome::CompileFailed)).unwrap_err();
    assert_eq!(failed, SubmitError::Task(TaskOutcome::CompileFailed));
    assert_eq!(failed.message(), None);
}

#[test]
fn no_more_run_than_may() {
    assert_eq!(QUEUE_CAPACITY, 64);
    let mut s = PrecompileService::new(2);
    for _ in 0..4 {
        assert!(s.submit());
    }
    assert_eq!(s.metrics_snapshot(), (4, 0));
    assert!(s.take());
    assert!(!s.take());
    assert!(s.begin());
    assert!(s.take() && s.begin());
    assert!(s.take());
    assert!(!s.begin());
    assert_eq!(s.metrics_snapshot(), (1, 2));
    s.finish();
    assert!(s.begin());
    s.shutdown();
    assert!(!s.submit());
    assert!(!s.is_idle());
    s.finish();
    s.finish();
    assert!(s.take() && s.begin());
    assert!(!s.is_idle());
    s.finish();
    assert!(s.is_idle());
    assert_eq!(s.metrics_snapshot(), (0, 0));
}

// Sixteen tasks on four places: the service shuts down once all are answered.
#[test]
fn a_service_works_off_its_queue() {
    let mut disk = Disk::new();
    let mut cache = disk.open("/c");
    let mut profiler = InMemoryProfiler::new();
    let mut service = PrecompileService::new(4);
    let mut answers = Vec::new();
    for _ in 0..16 {
        assert!(service.submit());
    }
    service.shutdown();
    let mut next = 0;
    while !service.is_idle() {
        let mut running = Vec::new();
        while service.take() {
            if !service.begin() {
                break;
            }
            running.push(next);
            next += 1;
        }
        for i in running {
            let fp = format!("heavy-{}", i);
            let mut stage = TaskStage::Admitted;
            let mut report = TaskReport::Running;
            loop {
                let (s, actions) = advance_task(stage, report, false);
                stage = s;
                let mut done = false;
                for a in actions {
                    match a {
                        TaskAction::Record(e) => profiler.record_event(e.name(), 1),
                        TaskAction::SignalStarted => panic!("nobody waits"),
                        TaskAction::Race => {
                            report = TaskReport::Raced { cancelled: i == 5, compiled: true }
                        }
                        TaskAction::Write => {
                            let ok = disk.write(&mut cache, &fp, fp.as_bytes()).is_ok();
                            report = TaskReport::Written { ok };
                        }
                        TaskAction::Respond(outcome) => answers.push((i, outcome)),
                        TaskAction::Release => {
                            service.finish();
                            done = true;
                        }
                    }
                }
                if done {
                    break;
                }
            }
        }
        if service.begin() {
            // The one that waited for a place.
            let fp = format!("heavy-{}", next);
            disk.write(&mut cache, &fp, fp.as_bytes()).unwrap();
            answers.push((next, TaskOutcome::Done));
            profiler.record_event("compile_done", 1);
            next += 1;
            service.finish();
        }
    }
    assert_eq!(answers.len(), 16);
    let snap = profiler.snapshot();
    assert_eq!(snap.events.get("compile_done").copied(), Some(15));
    assert_eq!(snap.events.get("compile_cancelled").copied(), Some(1));
    assert!(cache.lookup("heavy-5").is_none());
    assert!(cache.lookup("heavy-15").is_some());
}

// A worker that does for one task after the other what the library says.
struct Worker {
    disk: Disk,
    cache: KernelCache,
    profiler: InMemoryProfiler,
    service: PrecompileService,
    states: CancelStates,
}

impl Worker {
    fn new(limit: usize) -> Self {
        let disk = Disk::new();
        let cache = disk.open("/c");
        Worker {
            disk,
            cache,
            profiler: InMemoryProfiler::new(),
            service: PrecompileService::new(limit),
            states: CancelStates::new(),
        }
    }

    fn submit(
        &mut self,
        task: &CompileTask,
        on_start: impl Fn(&mut CancelStates),
    ) -> Result<(), SubmitError> {
        let sent = self.service.submit();
        if !sent {
            return submit_result(sent, None);
        }
        assert!(self.service.take() && self.service.begin());
        let mut stage = TaskStage::Admitted;
        let mut report = TaskReport::Running;
        let mut answer = None;
        while !matches!(stage, TaskStage::Ended(_)) {
            let (next, actions) = advance_task(stage, report, task.started);
            stage = next;
            for action in actions {
                match action {
                    TaskAction::Record(event) => self.profiler.record_event(event.name(), 1),
                    TaskAction::SignalStarted => on_start(&mut self.states),
                    TaskAction::Race => {
                        let cancelled = task.cancel.is_cancelled(&self.states);
                        report = TaskReport::Raced { cancelled, compiled: !cancelled };
                    }
                    TaskAction::Write => {
                        let mut out = b"compiled:async:".to_vec();
                        out.extend_from_slice(task.fingerprint.as_bytes());
                        let r = self.disk.write(&mut self.cache, &task.fingerprint, &out);
                        report = TaskReport::Written { ok: r.is_ok() };
                    }
                    TaskAction::Respond(outcome) => answer = Some(outcome),
                    TaskAction::Release => assert!(self.service.finish()),
                }
            }
        }
        submit_result(sent, answer)
    }

    fn events(&self, name: &str) -> u64 {
        self.profiler.snapshot().events.get(name).copied().unwrap_or(0)
    }
}

#[test]
fn started_notify_allows_deterministic_cancel() {
    let mut worker = Worker::new(1);
    let (task, token) =
        CompileTask::with_started("deterministic".to_string(), vec![], &mut worker.states);
    let res = worker.submit(&task, |states| {
        token.cancel(states);
    });
    assert_eq!(res, Err(SubmitError::Task(TaskOutcome::Cancelled)));
    assert!(worker.cache.lookup("deterministic").is_none());
    assert_eq!(worker.events("compile_cancelled"), 1);
    worker.service.shutdown();
    assert!(worker.service.is_idle());
}

#[test]
fn precompile_worker_throttle_and_cancel() {
    let mut worker = Worker::new(2);
    for i in 0..4u64 {
        let token = CancellationToken::new(&mut worker.states);
        let task = CompileTask {
            fingerprint: format!("task-{}", i),
            source: vec![],
            cancel: token,
            started: false,
        };
        let _ = worker.submit(&task, |_| {});
        if i == 2 {
            token.cancel(&mut worker.states);
        }
    }
    let compiled_count =
        (0..4).filter(|i| worker.cache.lookup(&format!("task-{}", i)).is_some()).count();
    assert!(
        compiled_count >= 3,
        "expected at least 3 compiled artifacts, got {}",
        compiled_count
    );
    if compiled_count < 4 {
        assert!(
            worker.events("compile_cancelled") >= 1,
            "expected cancellation event when fewer than 4 compiled"
        );
    }
    worker.service.shutdown();
    assert!(worker.service.is_idle());
}

#[test]
fn shutdown_waits_for_inflight_under_load() {
    let mut worker = Worker::new(4);
    for i in 0..16u64 {
        let task = CompileTask {
            fingerprint: format!("heavy-{}", i),
            source: vec![],
            cancel: CancellationToken::new(&mut worker.states),
            started: false,
        };
        let _ = worker.submit(&task, |_| {});
    }
    worker.service.shutdown();
    assert!(worker.service.is_idle());
    assert!(worker.events("compile_done") >= 1);
    let late = CompileTask {
        fingerprint: "late".to_string(),
        source: vec![],
        cancel: CancellationToken::new(&mut worker.states),
        started: false,
    };
    assert_eq!(worker.submit(&late, |_| {}), Err(SubmitError::Send));
}
