use eenn::arithmetic::{Fixed, FixedPoint, Precision, Real, UNITS};
use eenn::kernel_cache::{ArtifactWrite, CacheAction, KernelCache};
use eenn::observability::{ExecutionContext, InMemoryProfiler, Profilers};
use eenn::partitioner::{GreedyPartitioner, Op, Partitioner, Segment};
use eenn::scratch::{Instrumentation, Sample, Scratch, Silent};
use std::collections::HashMap;
use std::sync::Arc;
use std::time::Instant;

#[derive(Clone, Copy)]
struct Wide(f64);

#[derive(Clone, Copy)]
struct Narrow(f32);

struct Floats;

impl Real for Wide {
    fn zero() -> Self {
        Wide(0.0)
    }
    fn one() -> Self {
        Wide(1.0)
    }
    fn lowest() -> Self {
        Wide(f64::NEG_INFINITY)
    }
    fn tolerance() -> Self {
        Wide(1e-9)
    }
    fn of_count(n: usize) -> Self {
        Wide(n as f64)
    }
    fn plus(self, other: Self) -> Self {
        Wide(self.0 + other.0)
    }
    fn minus(self, other: Self) -> Self {
        Wide(self.0 - other.0)
    }
    fn times(self, other: Self) -> Self {
        Wide(self.0 * other.0)
    }
    fn over(self, other: Self) -> Self {
        Wide(self.0 / other.0)
    }
    fn magnitude(self) -> Self {
        Wide(self.0.abs())
    }
    fn larger(self, other: Self) -> Self {
        Wide(self.0.max(other.0))
    }
    fn above(self, other: Self) -> bool {
        self.0 > other.0
    }
    fn at_most(self, other: Self) -> bool {
        self.0 <= other.0
    }
    fn bounded(self) -> bool {
        self.0.is_finite()
    }
}

impl Real for Narrow {
    fn zero() -> Self {
        Narrow(0.0)
    }
    fn one() -> Self {
        Narrow(1.0)
    }
    fn lowest() -> Self {
        Narrow(f32::NEG_INFINITY)
    }
    fn tolerance() -> Self {
        Narrow(1e-9)
    }
    fn of_count(n: usize) -> Self {
        Narrow(n as f32)
    }
    fn plus(self, other: Self) -> Self {
        Narrow(self.0 + other.0)
    }
    fn minus(self, other: Self) -> Self {
        Narrow(self.0 - other.0)
    }
    fn times(self, other: Self) -> Self {
        Narrow(self.0 * other.0)
    }
    fn over(self, other: Self) -> Self {
        Narrow(self.0 / other.0)
    }
    fn magnitude(self) -> Self {
        Narrow(self.0.abs())
    }
    fn larger(self, other: Self) -> Self {
        Narrow(self.0.max(other.0))
    }
    fn above(self, other: Self) -> bool {
        self.0 > other.0
    }
    fn at_most(self, other: Self) -> bool {
        self.0 <= other.0
    }
    fn bounded(self) -> bool {
        self.0.is_finite()
    }
}

impl Precision for Floats {
    type Wide = Wide;
    type Narrow = Narrow;
    fn narrow(w: Wide) -> Narrow {
        Narrow(w.0 as f32)
    }
    fn widen(n: Narrow) -> Wide {
        Wide(n.0 as f64)
    }
}

struct MockOp {
    name: &'static str,
    gpu: bool,
    c: f64,
    t: usize,
}

impl Op<Wide> for MockOp {
    fn name(&self) -> &str {
        self.name
    }
    fn gpu_capable(&self) -> bool {
        self.gpu
    }
    fn estimate(&self) -> (Wide, usize) {
        (Wide(self.c), self.t)
    }
}

impl Op<Fixed> for MockOp {
    fn name(&self) -> &str {
        self.name
    }
    fn gpu_capable(&self) -> bool {
        self.gpu
    }
    fn estimate(&self) -> (Fixed, usize) {
        (Fixed { units: (self.c * UNITS as f64) as i64 }, self.t)
    }
}

fn float_ops(list: &[(bool, f64, usize)]) -> Vec<Arc<dyn Op<Wide>>> {
    let mut ops: Vec<Arc<dyn Op<Wide>>> = Vec::new();
    for &(gpu, c, t) in list {
        ops.push(Arc::new(MockOp { name: "x", gpu, c, t }));
    }
    ops
}

fn fixed_ops(list: &[(bool, f64, usize)]) -> Vec<Arc<dyn Op<Fixed>>> {
    let mut ops: Vec<Arc<dyn Op<Fixed>>> = Vec::new();
    for &(gpu, c, t) in list {
        ops.push(Arc::new(MockOp { name: "x", gpu, c, t }));
    }
    ops
}

fn float_plan(lookahead: usize, max: usize, list: &[(bool, f64, usize)]) -> Vec<Segment> {
    let p: GreedyPartitioner<Floats> = GreedyPartitioner {
        lookahead,
        bytes_per_ms: Wide(1_000_000.0),
        max_ops_in_fusion: max,
    };
    p.partition(&float_ops(list))
}

fn fixed_plan(lookahead: usize, max: usize, list: &[(bool, f64, usize)]) -> Vec<Segment> {
    let p: GreedyPartitioner<FixedPoint> = GreedyPartitioner {
        lookahead,
        bytes_per_ms: Fixed::of_count(1_000_000),
        max_ops_in_fusion: max,
    };
    p.partition(&fixed_ops(list))
}

#[test]
fn greedy_fuses_positive_benefit() {
    let ops: Vec<Arc<dyn Op<Wide>>> = vec![
        Arc::new(MockOp { name: "a", gpu: true, c: 5.0, t: 0 }),
        Arc::new(MockOp { name: "b", gpu: true, c: 5.0, t: 0 }),
        Arc::new(MockOp { name: "c", gpu: false, c: 0.0, t: 0 }),
        Arc::new(MockOp { name: "d", gpu: true, c: 1.0, t: 1_000_000 }),
    ];
    let p: GreedyPartitioner<Floats> = GreedyPartitioner {
        lookahead: 2,
        bytes_per_ms: Wide(1_000_000.0),
        max_ops_in_fusion: 10,
    };
    let segs = p.partition(&ops);
    assert_eq!(segs, vec![Segment { start: 0, end: 2 }]);
}

#[test]
fn greedy_caps_by_max_ops() {
    let mut ops: Vec<Arc<dyn Op<Wide>>> = Vec::new();
    for _ in 0..200 {
        ops.push(Arc::new(MockOp { name: "x", gpu: true, c: 1.0, t: 0 }));
    }
    let p: GreedyPartitioner<Floats> = GreedyPartitioner {
        lookahead: 2,
        bytes_per_ms: Wide(1_000_000.0),
        max_ops_in_fusion: 50,
    };
    let segs = p.partition(&ops);
    assert!(segs.iter().all(|s| (s.end - s.start) <= 50));
}

#[test]
fn lookahead_allows_helpful_prefix() {
    let ops: Vec<Arc<dyn Op<Wide>>> = vec![
        Arc::new(MockOp { name: "m", gpu: true, c: 0.1, t: 200_000 }),
        Arc::new(MockOp { name: "m", gpu: true, c: 5.0, t: 0 }),
    ];
    let p_no_lookahead: GreedyPartitioner<Floats> = GreedyPartitioner {
        lookahead: 1,
        bytes_per_ms: Wide(1_000_000.0),
        max_ops_in_fusion: 10,
    };
    let segs0 = p_no_lookahead.partition(&ops);
    assert_eq!(segs0, vec![Segment { start: 1, end: 2 }]);

    let p_lookahead: GreedyPartitioner<Floats> = GreedyPartitioner {
        lookahead: 2,
        bytes_per_ms: Wide(1_000_000.0),
        max_ops_in_fusion: 10,
    };
    let segs1 = p_lookahead.partition(&ops);
    assert_eq!(segs1, vec![Segment { start: 0, end: 2 }]);
}

#[derive(Clone)]
struct ArtifactMetrics {
    use_count: usize,
    last_used_at: Instant,
    avg_runtime_ms: f64,
    compile_time_ms: f64,
}

fn compute_hotness(metrics: &ArtifactMetrics, now: Instant) -> f64 {
    let age_s = (now.duration_since(metrics.last_used_at).as_secs_f64()).max(1.0);
    let time_decay = (-0.1 * (now.duration_since(metrics.last_used_at).as_secs_f64())).exp();
    let usage_velocity = metrics.use_count as f64 / age_s;
    let avg_saved_ms = (metrics.avg_runtime_ms - 0.5).max(0.0);
    let compile_roi = if metrics.compile_time_ms > 0.0 {
        (metrics.use_count as f64 * avg_saved_ms) / metrics.compile_time_ms
    } else {
        0.0
    };
    usage_velocity * compile_roi * time_decay
}

struct Disk {
    files: HashMap<String, Vec<u8>>,
}

impl Disk {
    fn write(&mut self, cache: &mut KernelCache, fingerprint: &str, bytes: &[u8]) {
        let mut write = ArtifactWrite::new(fingerprint, bytes.len() as u64);
        loop {
            match cache.write_artifact(&mut write, true) {
                CacheAction::WriteArtifact { path } => {
                    self.files.insert(path, bytes.to_vec());
                }
                CacheAction::WriteIndex { path } => {
                    self.files.insert(path, Vec::new());
                }
                CacheAction::Rename { from, to } => {
                    let held = self.files.remove(&from).expect("renamed file");
                    self.files.insert(to, held);
                }
                CacheAction::End(outcome) => {
                    outcome.expect("write");
                    return;
                }
            }
        }
    }
}

// The bandwidth of 500 MB/s, and files in memory; otherwise as a planner and a
// compiler work together.
#[test]
fn planner_and_precompile_worker_integration() {
    let mut disk = Disk { files: HashMap::new() };
    let mut cache = KernelCache::new("/tmp/cache");
    let bytes_per_ms = 500.0 * 1024.0 * 1024.0 / 1000.0;
    let lookahead_values = [0usize, 1usize, 2usize, 4usize];
    for &lookahead in &lookahead_values {
        let partitioner: GreedyPartitioner<Floats> = GreedyPartitioner {
            lookahead,
            bytes_per_ms: Wide(bytes_per_ms),
            max_ops_in_fusion: 128,
        };
        let ops: Vec<Arc<dyn Op<Wide>>> = vec![
            Arc::new(MockOp { name: "a", gpu: true, c: 2.0, t: 0 }),
            Arc::new(MockOp { name: "b", gpu: true, c: 2.0, t: 0 }),
            Arc::new(MockOp { name: "c", gpu: true, c: 0.5, t: 1000 }),
            Arc::new(MockOp { name: "d", gpu: false, c: 0.0, t: 0 }),
        ];
        let segments = partitioner.partition(&ops);
        assert!(
            !segments.is_empty(),
            "Expected at least one GPU segment for lookahead={}",
            lookahead
        );

        let mut profilers = Profilers::new();
        let profiler = profilers.share(Box::new(InMemoryProfiler::new()));
        let ctx = ExecutionContext::with_profiler(profiler);
        let mut misses = 0usize;
        for seg in &segments {
            let fp = format!("seg-{}-{}", seg.start, seg.end);
            if cache.lookup(&fp).is_none() {
                misses += 1;
                if let Some(p) = &ctx.profiler {
                    p.record_event(&mut profilers, "cache_miss", 1);
                }
                let artifact = format!("compiled:generic:{}", fp).into_bytes();
                disk.write(&mut cache, &fp, &artifact);
            } else if let Some(p) = &ctx.profiler {
                p.record_event(&mut profilers, "cache_hit", 1);
            }
            let bytes = disk.files.get(&cache.artifact_path(&fp)).expect("read");
            assert!(bytes.starts_with(b"compiled:"));

            let mut metrics = ArtifactMetrics {
                use_count: 10,
                last_used_at: Instant::now(),
                avg_runtime_ms: 2.0,
                compile_time_ms: 5.0,
            };
            let hotness = compute_hotness(&metrics, Instant::now());
            if hotness >= 0.1 {
                if let Some(p) = &ctx.profiler {
                    p.record_event(&mut profilers, "promotion_start", 1);
                }
                let specialized = format!("compiled:specialized:{}", fp).into_bytes();
                disk.write(&mut cache, &fp, &specialized);
                if let Some(p) = &ctx.profiler {
                    p.record_event(&mut profilers, "promotion_done", 1);
                }
            } else if let Some(p) = &ctx.profiler {
                p.record_event(&mut profilers, "promotion_skipped", 1);
            }

            metrics.use_count = 0;
            let hotness2 = compute_hotness(&metrics, Instant::now());
            if hotness2 < 0.01 {
                let generic = format!("compiled:generic:{}", fp).into_bytes();
                disk.write(&mut cache, &fp, &generic);
                if let Some(p) = &ctx.profiler {
                    p.record_event(&mut profilers, "demoted", 1);
                }
            }
        }

        let snap = profiler.snapshot(&profilers);
        assert_eq!(snap.events.get("cache_miss").copied().unwrap_or(0) as usize, misses);
        let promotion_start = snap.events.get("promotion_start").copied().unwrap_or(0);
        let promotion_skipped = snap.events.get("promotion_skipped").copied().unwrap_or(0);
        assert!(
            promotion_start > 0 || promotion_skipped > 0,
            "expected promotion_start or promotion_skipped to be recorded"
        );
        let demoted = snap.events.get("demoted").copied().unwrap_or(0);
        assert!(demoted > 0, "expected at least one demotion event");
    }
}

#[test]
fn capped_segments_follow_each_other() {
    let list = [(true, 1.0, 0); 200];
    let expected = vec![
        Segment { start: 0, end: 50 },
        Segment { start: 50, end: 100 },
        Segment { start: 100, end: 150 },
        Segment { start: 150, end: 200 },
    ];
    assert_eq!(float_plan(2, 50, &list), expected);
    assert_eq!(fixed_plan(2, 50, &list), expected);
    assert_eq!(float_plan(1, 50, &list), expected);
}

#[test]
fn fixed_point_and_floats_agree() {
    let list = [
        (true, 2.0, 1_000_000),
        (true, 0.5, 2_000_000),
        (true, 3.0, 0),
        (false, 9.0, 0),
        (true, 0.0, 5),
        (true, 4.0, 3_000_000),
    ];
    for lookahead in 0..5usize {
        for max in 1..7usize {
            assert_eq!(fixed_plan(lookahead, max, &list), float_plan(lookahead, max, &list));
        }
    }
}

#[test]
fn greedy_stops_before_a_loss() {
    // Prefix benefits: 1, -0.5, 2.5.
    let list = [(true, 2.0, 1_000_000), (true, 0.5, 2_000_000), (true, 3.0, 0)];
    assert_eq!(
        float_plan(1, 10, &list),
        vec![Segment { start: 0, end: 1 }, Segment { start: 2, end: 3 }]
    );
}

#[test]
fn lookahead_bridges_a_loss() {
    // Prefix scores: 0, 1, -0.5, 2.5; two segments reach the best score from the first end on.
    let list = [(true, 2.0, 1_000_000), (true, 0.5, 2_000_000), (true, 3.0, 0)];
    assert_eq!(float_plan(2, 10, &list), vec![Segment { start: 0, end: 3 }]);
    assert_eq!(fixed_plan(2, 10, &list), vec![Segment { start: 0, end: 3 }]);
}

#[test]
fn lookahead_of_none_and_one_agree() {
    let list = [(true, 2.0, 1_000_000), (true, 0.5, 2_000_000), (true, 3.0, 0), (true, 1.0, 1)];
    for max in 0..5usize {
        assert_eq!(float_plan(0, max, &list), float_plan(1, max, &list));
    }
}

#[test]
fn nothing_to_plan() {
    assert_eq!(float_plan(2, 10, &[]), vec![]);
    assert_eq!(float_plan(2, 10, &[(false, 1.0, 0)]), vec![]);
    assert_eq!(float_plan(2, 0, &[(true, 1.0, 0)]), vec![]);
    assert_eq!(float_plan(2, 10, &[(true, 1.0, 1_000_000)]), vec![]);
}

#[test]
fn long_windows_plan_like_short_ones() {
    let mut list = Vec::new();
    for k in 0..90usize {
        list.push((k % 41 != 40, ((k * 7) % 11) as f64 * 0.25, ((k * 5) % 13) * 150_000));
    }
    for lookahead in [1usize, 2, 3, 8] {
        assert_eq!(fixed_plan(lookahead, 64, &list), float_plan(lookahead, 64, &list));
    }
}

#[test]
fn long_windows_keep_the_best_score_in_reach() {
    // The second of two segments ends where the gain does; its operator pays by itself.
    let mut list = vec![(true, 1.0, 0); 36];
    list.extend([(true, 0.0, 1_000_000); 4]);
    let expected = vec![Segment { start: 0, end: 35 }, Segment { start: 35, end: 36 }];
    assert_eq!(float_plan(2, 128, &list), expected);
    assert_eq!(fixed_plan(2, 128, &list), expected);
}

#[test]
fn a_small_loss_at_the_end_is_fused() {
    let list = [(true, 1.0, 0), (true, 0.0, 500_000)];
    for lookahead in [0usize, 1, 2, 3, 8] {
        assert_eq!(float_plan(lookahead, 10, &list), vec![Segment { start: 0, end: 2 }]);
        assert_eq!(fixed_plan(lookahead, 10, &list), vec![Segment { start: 0, end: 2 }]);
    }
}

#[test]
fn a_loss_that_follows_is_left_out() {
    let list = [(true, 1.0, 0), (true, 0.0, 6_000_000)];
    for lookahead in [0usize, 1, 2, 3, 8] {
        assert_eq!(float_plan(lookahead, 10, &list), vec![Segment { start: 0, end: 1 }]);
        assert_eq!(fixed_plan(lookahead, 10, &list), vec![Segment { start: 0, end: 1 }]);
    }
}

#[test]
fn segments_leave_room_for_those_that_follow() {
    // The scores of the prefixes are 2, 1, 3, 3 and 0.
    let list = [
        (true, 2.0, 0),
        (true, 0.0, 1_000_000),
        (true, 2.0, 0),
        (true, 0.0, 0),
        (true, 0.0, 3_000_000),
    ];
    let expected: [(usize, Vec<(usize, usize)>); 4] = [
        (2, vec![(0, 3)]),
        (3, vec![(0, 2), (2, 4)]),
        (4, vec![(0, 1), (2, 4)]),
        (9, vec![(0, 4)]),
    ];
    for (lookahead, ends) in expected {
        let plan: Vec<Segment> =
            ends.into_iter().map(|(start, end)| Segment { start, end }).collect();
        assert_eq!(float_plan(lookahead, 10, &list), plan);
        assert_eq!(fixed_plan(lookahead, 10, &list), plan);
    }
}

#[test]
fn undefined_estimates_are_left_out() {
    let with_last = |n: usize| {
        let mut list = vec![(true, 1.0, 0); n];
        list.push((true, f64::NAN, 0));
        float_plan(2, 128, &list)
    };
    assert_eq!(with_last(19), vec![Segment { start: 0, end: 19 }]);
    assert_eq!(
        with_last(39),
        vec![Segment { start: 0, end: 38 }, Segment { start: 38, end: 39 }]
    );
}

#[test]
fn default_settings() {
    let p: GreedyPartitioner<Floats> = GreedyPartitioner::default();
    assert_eq!(p.lookahead, 2);
    assert_eq!(p.bytes_per_ms.0, 1_000_000.0);
    assert_eq!(p.max_ops_in_fusion, 128);
}

#[test]
fn counters_follow_the_windows() {
    let list = [(true, 1.0, 0), (true, 1.0, 0), (false, 0.0, 0), (true, 1.0, 0)];
    let ops = fixed_ops(&list);
    let mut scratch: Scratch<FixedPoint> = Scratch::new();
    let mut probe = Silent;
    let p: GreedyPartitioner<FixedPoint> = GreedyPartitioner::default();
    p.partition_with(&ops, &mut scratch, &mut probe);
    assert_eq!(scratch.instr.total_calls, 2);
    assert_eq!(scratch.instr.greedy_calls, 0);
    assert_eq!(scratch.instr.dp_calls, 2);
    assert_eq!(scratch.instr.dp_window_hist, vec![0, 1, 1]);
    assert_eq!(scratch.block_max.len(), 3);
    let q: GreedyPartitioner<FixedPoint> = GreedyPartitioner {
        lookahead: 1,
        bytes_per_ms: Fixed::of_count(1),
        max_ops_in_fusion: 1,
    };
    q.partition_with(&ops, &mut scratch, &mut probe);
    assert_eq!(scratch.instr.total_calls, 5);
    assert_eq!(scratch.instr.greedy_calls, 3);
    assert_eq!(scratch.instr.dp_calls, 2);
    assert_eq!(scratch.instr.dp_window_hist, vec![0, 1, 1]);
    scratch.ensure_len(20);
    assert_eq!(scratch.instr.dp_window_hist[..3], [0, 1, 1]);
    assert_eq!(scratch.best_from.len(), 21);
    for buffer in [&scratch.a, &scratch.prev, &scratch.cur, &scratch.dp_lminus1, &scratch.val] {
        assert_eq!(buffer.len(), 20);
        assert!(buffer.iter().all(|x| x.units == 0));
    }
    assert!(scratch.best_from.iter().chain(&scratch.block_max).all(|x| x.units == 0));
    assert!(scratch.pref_compute.iter().all(|x| x.units == 0));
    assert!(scratch.pref_transfer.iter().all(|x| *x == 0));
}

#[test]
fn fixed_point_arithmetic() {
    let one = Fixed::one();
    let three = Fixed::of_count(3);
    assert_eq!(one.over(three).units, 333_333_333);
    assert_eq!(one.minus(three).over(three).units, -666_666_666);
    assert_eq!(three.times(three).units, 9 * UNITS);
    assert_eq!(one.minus(three).magnitude().units, 2 * UNITS);
    assert_eq!(one.over(Fixed::zero()).units, i64::MAX);
    assert!(!Fixed::lowest().bounded());
    assert!(Fixed::lowest().minus(one) == Fixed::lowest());
    assert!(three.above(one) && one.at_most(three));
}

#[test]
fn samples_add_up_by_window() {
    let sample = |n: u128| Sample {
        time_ns: n,
        time_select_ns: 2 * n,
        cycles: 3 * n,
        cycles_a: 4 * n,
        cycles_best_from: 5 * n,
        cycles_cur: 6 * n,
        cycles_rotate: 7 * n,
        cycles_select: 8 * n,
    };
    let mut instr = Instrumentation::new();
    instr.ensure_len(3);
    instr.record(2, &sample(10));
    instr.record(2, &sample(1));
    instr.record(5, &sample(100));
    assert_eq!(instr.dp_time_ns, vec![0, 0, 11]);
    assert_eq!(instr.dp_time_select_ns, vec![0, 0, 22]);
    assert_eq!(instr.dp_cycles, vec![0, 0, 33]);
    assert_eq!(instr.dp_cycles_a, vec![0, 0, 44]);
    assert_eq!(instr.dp_cycles_best_from, vec![0, 0, 55]);
    assert_eq!(instr.dp_cycles_cur, vec![0, 0, 66]);
    assert_eq!(instr.dp_cycles_rotate, vec![0, 0, 77]);
    assert_eq!(instr.dp_cycles_select, vec![0, 0, 88]);
    assert_eq!(instr.dp_time_a_ns, vec![0, 0, 0]);
}
