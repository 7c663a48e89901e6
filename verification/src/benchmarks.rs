//! Benchmark kinds, performance alert kinds, and the exact parts of the
//! benchmarks: the CPU workload's checksum, completed iterations, and the
//! bounded snapshot history.
use vstd::prelude::*;
use crate::history::push_bounded;

verus! {

/// Snapshots kept in the performance history; older ones are dropped.
pub const SNAPSHOT_LIMIT: usize = 1000;

/// What a benchmark measures.
#[derive(Debug, Clone, PartialEq, Eq)]
pub enum BenchmarkType {
    AgentCreation,
    TaskExecution,
    MemoryUsage,
    CpuUtilization,
    NetworkLatency,
    DatabaseOperations,
    NeuralProcessing,
    SwarmCoordination,
    AutoScaling,
    Custom(String),
}

/// What a performance alert is about.
#[derive(Debug, Clone, Copy, PartialEq, Eq, Structural)]
pub enum AlertType {
    HighMemoryUsage,
    HighCpuUsage,
    MemoryLeak,
    SlowResponse,
    HighErrorRate,
    ResourceExhaustion,
}

/// How serious a performance alert is.
#[derive(Debug, Clone, Copy, PartialEq, Eq, Structural)]
pub enum AlertSeverity {
    Info,
    Warning,
    Critical,
    Emergency,
}

/// The CPU workload's running value after the first `n` steps: each step
/// adds the step number and multiplies by 17, wrapping at 64 bits.
pub open spec fn cpu_work(n: nat) -> u64
    decreases n,
{
    if n == 0 {
        0
    } else {
        let prev = cpu_work((n - 1) as nat);
        ((((prev + (n - 1)) as int) % 0x1_0000_0000_0000_0000) * 17 % 0x1_0000_0000_0000_0000) as u64
    }
}

/// Runs the CPU workload of `iterations` thousand steps and returns its
/// final value.
pub fn cpu_work_checksum(iterations: u32) -> (r: u64)
    requires
        iterations * 1000 <= u32::MAX,
    ensures
        r == cpu_work((iterations * 1000) as nat),
{
    let steps: u32 = iterations * 1000;
    let mut sum: u64 = 0;
    let mut i: u32 = 0;
    while i < steps
        invariant
            i <= steps,
            sum == cpu_work(i as nat),
        decreases steps - i,
    {
        let a = sum.wrapping_add(i as u64);
        let b = a.wrapping_mul(17);
        proof {
            assert(a == (sum + i) % 0x1_0000_0000_0000_0000);
            assert(b == (a * 17) % 0x1_0000_0000_0000_0000);
        }
        sum = b;
        i = i + 1;
    }
    sum
}

/// The iterations a benchmark completed: all of them when it succeeded,
/// none otherwise.
pub fn iterations_completed(success: bool, iterations: u32) -> (r: u32)
    ensures
        r == if success { iterations } else { 0 },
{
    if success { iterations } else { 0 }
}

/// How a benchmark of a given type runs.
#[derive(Debug, Clone, Copy, PartialEq, Eq, Structural)]
pub enum BenchmarkRun {
    /// A workload that may fail: agent creation, task execution, neural
    /// processing.
    Checked,
    /// A workload that reports custom metrics and cannot fail: memory usage,
    /// CPU utilisation.
    Measured,
    /// Not implemented: nothing runs.
    NotRun,
}

pub open spec fn spec_run_kind(t: BenchmarkType) -> BenchmarkRun {
    match t {
        BenchmarkType::AgentCreation | BenchmarkType::TaskExecution | BenchmarkType::NeuralProcessing => BenchmarkRun::Checked,
        BenchmarkType::MemoryUsage | BenchmarkType::CpuUtilization => BenchmarkRun::Measured,
        _ => BenchmarkRun::NotRun,
    }
}

/// How a benchmark of type `t` runs.
pub fn run_kind(t: &BenchmarkType) -> (r: BenchmarkRun)
    ensures
        r == spec_run_kind(*t),
{
    match t {
        BenchmarkType::AgentCreation => BenchmarkRun::Checked,
        BenchmarkType::TaskExecution => BenchmarkRun::Checked,
        BenchmarkType::NeuralProcessing => BenchmarkRun::Checked,
        BenchmarkType::MemoryUsage => BenchmarkRun::Measured,
        BenchmarkType::CpuUtilization => BenchmarkRun::Measured,
        _ => BenchmarkRun::NotRun,
    }
}

/// The outcome of one benchmark, apart from its timings and measurements.
pub struct BenchmarkOutcome {
    pub success: bool,
    pub error_message: Option<String>,
    /// Whether the benchmark's custom metrics are reported.
    pub has_custom_metrics: bool,
    pub iterations_completed: u32,
}

/// The outcome of a benchmark of type `t` over `iterations` iterations,
/// where `run_error` is the error its workload reported, if any: a checked
/// workload succeeds exactly when it reported none and then carries that
/// error; a measured one and one that does not run succeed with no error;
/// only a measured one reports custom metrics. The completed iterations
/// are all of them on success, none otherwise.
pub fn benchmark_outcome(t: &BenchmarkType, run_error: Option<String>, iterations: u32) -> (r: BenchmarkOutcome)
    ensures
        spec_run_kind(*t) == BenchmarkRun::Checked ==> r.success == run_error.is_none() && r.error_message == run_error,
        spec_run_kind(*t) != BenchmarkRun::Checked ==> r.success && r.error_message.is_none(),
        r.has_custom_metrics == (spec_run_kind(*t) == BenchmarkRun::Measured),
        r.iterations_completed == if r.success { iterations } else { 0 },
{
    let kind = run_kind(t);
    let (success, error_message) = match kind {
        BenchmarkRun::Checked => (run_error.is_none(), run_error),
        _ => (true, None),
    };
    BenchmarkOutcome {
        success,
        error_message,
        has_custom_metrics: matches!(kind, BenchmarkRun::Measured),
        iterations_completed: iterations_completed(success, iterations),
    }
}

/// A benchmark of the default suite (its id is assigned by the caller).
pub struct BenchmarkSpec {
    pub name: String,
    pub description: String,
    pub test_type: BenchmarkType,
    pub expected_duration_ms: Option<u64>,
    pub memory_limit_mb: Option<u64>,
    /// CPU limit in whole percent.
    pub cpu_limit_percent: Option<u32>,
    pub iterations: u32,
}

/// Whether `b` is the benchmark with these fields.
pub open spec fn spec_is(b: BenchmarkSpec, name: Seq<char>, description: Seq<char>, t: BenchmarkType,
    duration_ms: u64, memory_mb: u64, cpu_percent: u32, iterations: u32) -> bool {
    &&& b.name@ == name
    &&& b.description@ == description
    &&& b.test_type == t
    &&& b.expected_duration_ms == Some(duration_ms)
    &&& b.memory_limit_mb == Some(memory_mb)
    &&& b.cpu_limit_percent == Some(cpu_percent)
    &&& b.iterations == iterations
}

fn bench(name: &str, description: &str, t: BenchmarkType, duration_ms: u64, memory_mb: u64, cpu_percent: u32,
    iterations: u32) -> (r: BenchmarkSpec)
    ensures
        spec_is(r, name@, description@, t, duration_ms, memory_mb, cpu_percent, iterations),
{
    BenchmarkSpec {
        name: name.to_string(),
        description: description.to_string(),
        test_type: t,
        expected_duration_ms: Some(duration_ms),
        memory_limit_mb: Some(memory_mb),
        cpu_limit_percent: Some(cpu_percent),
        iterations,
    }
}

/// The name and description of the default benchmark suite.
pub fn default_suite_title() -> (r: (String, String))
    ensures
        r.0@ == "Hive System Performance Suite"@,
        r.1@ == "Comprehensive performance benchmarks for the multiagent hive system"@,
{
    ("Hive System Performance Suite".to_string(),
     "Comprehensive performance benchmarks for the multiagent hive system".to_string())
}

/// The benchmarks of the default suite, in order: agent creation, task
/// execution, memory usage and neural processing.
pub fn default_benchmarks() -> (r: Vec<BenchmarkSpec>)
    ensures
        r@.len() == 4,
        spec_is(r@[0], "Agent Creation Benchmark"@, "Measures agent creation and initialization performance"@,
            BenchmarkType::AgentCreation, 1000, 100, 50, 100),
        spec_is(r@[1], "Task Execution Benchmark"@, "Measures task execution and completion performance"@,
            BenchmarkType::TaskExecution, 2000, 200, 70, 50),
        spec_is(r@[2], "Memory Usage Benchmark"@, "Tests memory allocation and deallocation patterns"@,
            BenchmarkType::MemoryUsage, 500, 300, 30, 1000),
        spec_is(r@[3], "Neural Processing Benchmark"@, "Tests neural network and NLP processing performance"@,
            BenchmarkType::NeuralProcessing, 3000, 400, 90, 20),
{
    let mut v: Vec<BenchmarkSpec> = Vec::new();
    v.push(bench("Agent Creation Benchmark", "Measures agent creation and initialization performance",
        BenchmarkType::AgentCreation, 1000, 100, 50, 100));
    v.push(bench("Task Execution Benchmark", "Measures task execution and completion performance",
        BenchmarkType::TaskExecution, 2000, 200, 70, 50));
    v.push(bench("Memory Usage Benchmark", "Tests memory allocation and deallocation patterns",
        BenchmarkType::MemoryUsage, 500, 300, 30, 1000));
    v.push(bench("Neural Processing Benchmark", "Tests neural network and NLP processing performance",
        BenchmarkType::NeuralProcessing, 3000, 400, 90, 20));
    v
}

/// Adds a snapshot to the performance history, dropping the oldest when
/// there would be more than `SNAPSHOT_LIMIT`.
pub fn record_snapshot<T>(history: &mut Vec<T>, snapshot: T)
    requires
        old(history)@.len() <= SNAPSHOT_LIMIT,
    ensures
        final(history)@.len() <= SNAPSHOT_LIMIT,
        final(history)@.last() == snapshot,
        final(history)@ == if old(history)@.len() + 1 > SNAPSHOT_LIMIT {
            old(history)@.push(snapshot).skip(1)
        } else {
            old(history)@.push(snapshot)
        },
{
    push_bounded(history, snapshot, SNAPSHOT_LIMIT);
}

} // verus!
