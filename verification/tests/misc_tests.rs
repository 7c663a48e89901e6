use hive::benchmarks::{default_benchmarks, default_suite_title, benchmark_outcome, run_kind, BenchmarkRun, BenchmarkType, cpu_work_checksum, iterations_completed, record_snapshot, SNAPSHOT_LIMIT};
use hive::cpu_load_balancer::{processing_time_ms, queue_admits, PoolLimits, PoolScaling};
use hive::load_testing::{default_operations, ramp_step_ms, LoadTestOperation};
use hive::swarm::{
    default_strategies, determine_optimal_formation, swarm_recommendations, RecommendationPriority, select_hierarchy_formation, select_mesh_formation, AgentProfile,
    AgentRole, FormationType, OptimizationFunction,
};
use hive::tasks::TaskPriority;

fn reference_checksum(iterations: u32) -> u64 {
    let mut sum = 0u64;
    for i in 0..iterations * 1000 {
        sum = sum.wrapping_add(u64::from(i));
        sum = sum.wrapping_mul(17);
    }
    sum
}

#[test]
fn cpu_workload_checksum() {
    assert_eq!(cpu_work_checksum(0), 0);
    assert_eq!(cpu_work_checksum(3), reference_checksum(3));
    assert_eq!(iterations_completed(true, 100), 100);
    assert_eq!(iterations_completed(false, 100), 0);
}

#[test]
fn snapshot_history_bounded() {
    let mut h: Vec<u32> = Vec::new();
    for i in 0..1200u32 {
        record_snapshot(&mut h, i);
    }
    assert_eq!(h.len(), SNAPSHOT_LIMIT);
    assert_eq!(h[0], 200);
    assert_eq!(*h.last().unwrap(), 1199);
}

#[test]
fn ramp_steps_and_operations() {
    assert_eq!(ramp_step_ms(30, 100), 300);
    assert_eq!(ramp_step_ms(1, 3), 333);
    let ops = default_operations();
    assert_eq!(ops.len(), 4);
    assert_eq!(ops[0], LoadTestOperation::TaskSubmission);
    assert_eq!(ops[3], LoadTestOperation::LoadBalancerOperations);
}

#[test]
fn pool_scaling_limits() {
    let limits = PoolLimits::for_cpus(2);
    assert_eq!(limits.min_workers, 2);
    assert_eq!(limits.max_workers, 8);
    let mut s = PoolScaling::start(limits);
    s.scale_down(limits);
    assert_eq!(s.active_workers, 2);
    assert_eq!(s.scale_down_events, 0);
    s.scale_up(limits);
    assert_eq!(s.active_workers, 3);
    assert_eq!(s.peak_workers, 3);
    s.scale_down(limits);
    assert_eq!(s.active_workers, 2);
    assert_eq!(s.peak_workers, 3);
    assert_eq!((s.scale_up_events, s.scale_down_events), (1, 1));
    let machine = PoolLimits::for_this_machine();
    assert!(machine.min_workers >= 1);
    assert!(queue_admits(50));
    assert!(!queue_admits(0));
    assert_eq!(processing_time_ms(TaskPriority::Low), 50);
    assert_eq!(processing_time_ms(TaskPriority::Critical), 10);
}

#[test]
fn formation_choice() {
    assert_eq!(determine_optimal_formation(TaskPriority::Critical, 3, 0), FormationType::Star);
    assert_eq!(determine_optimal_formation(TaskPriority::High, 5, 0), FormationType::Hierarchy);
    assert_eq!(determine_optimal_formation(TaskPriority::High, 4, 0), FormationType::Ring);
    assert_eq!(determine_optimal_formation(TaskPriority::Medium, 3, 0), FormationType::Chain);
    assert_eq!(determine_optimal_formation(TaskPriority::Medium, 3, 6), FormationType::Hierarchy);
    assert_eq!(determine_optimal_formation(TaskPriority::Low, 4, 0), FormationType::Mesh);
    assert_eq!(determine_optimal_formation(TaskPriority::Low, 3, 6), FormationType::Star);
    assert_eq!(determine_optimal_formation(TaskPriority::Low, 2, 0), FormationType::Chain);
}

fn p(role: AgentRole, experiences: usize) -> AgentProfile {
    AgentProfile { role, experiences }
}

#[test]
fn hierarchy_selection() {
    let agents = vec![
        p(AgentRole::Other(0), 10),
        p(AgentRole::Coordinator, 5),
        p(AgentRole::Specialist, 1),
        p(AgentRole::Coordinator, 5),
        p(AgentRole::Other(0), 60),
        p(AgentRole::Other(1), 0),
        p(AgentRole::Other(1), 0),
        p(AgentRole::Other(1), 0),
    ];
    assert_eq!(select_hierarchy_formation(&agents), vec![3, 2, 4, 0, 1, 5]);
    let no_coordinator = vec![p(AgentRole::Other(0), 3), p(AgentRole::Other(0), 9), p(AgentRole::Other(0), 9)];
    assert_eq!(select_hierarchy_formation(&no_coordinator), vec![2, 0, 1]);
    assert!(select_hierarchy_formation(&vec![]).is_empty());
}

#[test]
fn mesh_selection_prefers_diversity() {
    let agents = vec![
        p(AgentRole::Other(0), 0),
        p(AgentRole::Other(0), 0),
        p(AgentRole::Other(0), 0),
        p(AgentRole::Other(0), 0),
        p(AgentRole::Specialist, 0),
        p(AgentRole::Coordinator, 0),
        p(AgentRole::Other(1), 0),
    ];
    assert_eq!(select_mesh_formation(&agents), vec![0, 1, 2, 4, 5]);
}

#[test]
fn strategies_table() {
    let s = default_strategies();
    assert_eq!(s.len(), 2);
    assert_eq!(s[0].0, OptimizationFunction::PerformanceMaximization);
    assert_eq!(s[0].1, vec![FormationType::Star, FormationType::Hierarchy]);
    assert_eq!(s[1].1, vec![FormationType::Mesh, FormationType::Ring]);
}

#[test]
fn swarm_recommendations_in_order() {
    assert!(swarm_recommendations(false, false, false).is_empty());
    let r = swarm_recommendations(true, true, true);
    assert_eq!(r.len(), 3);
    assert_eq!(r[0].category, "Throughput");
    assert_eq!(r[0].priority, RecommendationPriority::High);
    assert_eq!(r[0].estimated_improvement, "20-30% throughput increase");
    assert_eq!(r[1].category, "Memory");
    assert_eq!(r[1].priority, RecommendationPriority::Medium);
    assert_eq!(r[1].description, "Memory pool efficiency is low. Review object reuse patterns.");
    assert_eq!(r[2].category, "CPU");
    assert_eq!(r[2].estimated_improvement, "15-25% load reduction");
    let cpu_only = swarm_recommendations(false, false, true);
    assert_eq!(cpu_only.len(), 1);
    assert_eq!(cpu_only[0].category, "CPU");
}

#[test]
fn system_metrics_advice() {
    assert!(hive::metrics_types::metrics_advice(false, false, false).is_empty());
    let r = hive::metrics_types::metrics_advice(true, false, true);
    assert_eq!(
        r,
        vec![
            "Consider scaling up CPU resources or optimizing agent workloads".to_string(),
            "Network latency is elevated - check network configuration".to_string(),
        ]
    );
    assert_eq!(
        hive::metrics_types::metrics_advice(false, true, false),
        vec!["Memory usage is high - consider garbage collection or memory optimization".to_string()]
    );
}

#[test]
fn benchmark_outcomes_by_type() {
    assert_eq!(run_kind(&BenchmarkType::AgentCreation), BenchmarkRun::Checked);
    assert_eq!(run_kind(&BenchmarkType::CpuUtilization), BenchmarkRun::Measured);
    assert_eq!(run_kind(&BenchmarkType::NetworkLatency), BenchmarkRun::NotRun);
    let failed = benchmark_outcome(&BenchmarkType::TaskExecution, Some("boom".to_string()), 50);
    assert!(!failed.success);
    assert_eq!(failed.error_message, Some("boom".to_string()));
    assert_eq!(failed.iterations_completed, 0);
    let ok = benchmark_outcome(&BenchmarkType::NeuralProcessing, None, 50);
    assert!(ok.success);
    assert_eq!(ok.iterations_completed, 50);
    assert!(!ok.has_custom_metrics);
    let measured = benchmark_outcome(&BenchmarkType::MemoryUsage, None, 10);
    assert!(measured.success && measured.has_custom_metrics);
    let skipped = benchmark_outcome(&BenchmarkType::Custom("x".to_string()), Some("ignored".to_string()), 7);
    assert!(skipped.success);
    assert!(skipped.error_message.is_none());
    assert!(!skipped.has_custom_metrics);
    assert_eq!(skipped.iterations_completed, 7);
}

#[test]
fn test_benchmark_suite_creation() {
    let benchmarks = default_benchmarks();
    assert!(!benchmarks.is_empty());
    assert_eq!(benchmarks.len(), 4);
}

#[test]
fn default_benchmark_fields() {
    let (name, _) = default_suite_title();
    assert_eq!(name, "Hive System Performance Suite");
    let b = default_benchmarks();
    assert_eq!(b.len(), 4);
    assert_eq!(b[0].test_type, BenchmarkType::AgentCreation);
    assert_eq!(b[0].iterations, 100);
    assert_eq!(b[1].cpu_limit_percent, Some(70));
    assert_eq!(b[2].memory_limit_mb, Some(300));
    assert_eq!(b[3].expected_duration_ms, Some(3000));
    assert_eq!(b[3].name, "Neural Processing Benchmark");
}
