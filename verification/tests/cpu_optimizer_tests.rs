use hive::cpu_optimizer::{CpuOptimizerConfig, LoadBalancingStrategy, PoolAdvice, SimdProcessor, TaskPriority, WorkerPool};

#[test]
fn default_config_values() {
    let c = CpuOptimizerConfig::default();
    assert!(c.worker_threads >= 1);
    assert!(c.enable_simd);
    assert_eq!(c.cache_line_size, 64);
    assert_eq!(c.task_queue_size, 10000);
    assert_eq!(c.load_balancing_strategy, LoadBalancingStrategy::RoundRobin);
    assert_eq!(c.max_concurrent_tasks_per_worker, 4);
    assert_eq!(c.total_permits(), Some(c.worker_threads * 4));
}

#[test]
fn total_permits_overflow() {
    let c = CpuOptimizerConfig { worker_threads: usize::MAX, ..CpuOptimizerConfig::default() };
    assert_eq!(c.total_permits(), None);
}

#[test]
fn simd_processor_keeps_config() {
    let config = CpuOptimizerConfig { enable_simd: true, ..CpuOptimizerConfig::default() };
    let processor = SimdProcessor::new(config);
    assert_eq!(processor.config(), config);
}

#[test]
fn priority_ranks() {
    assert_eq!(TaskPriority::Low.rank(), 0);
    assert_eq!(TaskPriority::Normal.rank(), 1);
    assert_eq!(TaskPriority::High.rank(), 2);
    assert_eq!(TaskPriority::Critical.rank(), 3);
    assert!(TaskPriority::Critical > TaskPriority::Low);
}

#[test]
fn least_loaded_prefers_first_minimum() {
    let mut pool = WorkerPool::new(3);
    pool.begin_task(0);
    pool.begin_task(2);
    assert_eq!(pool.least_loaded(), 1);
    pool.begin_task(1);
    assert_eq!(pool.least_loaded(), 0);
    assert_eq!(pool.select_worker(LoadBalancingStrategy::LeastLoaded, 0, 0), 0);
}

#[test]
fn round_robin_and_weighted_selection() {
    let pool = WorkerPool::new(4);
    assert_eq!(pool.select_worker(LoadBalancingStrategy::RoundRobin, 10, 0), 2);
    assert_eq!(pool.select_worker(LoadBalancingStrategy::Weighted, 0, 3), 3);
    let empty = WorkerPool::new(0);
    assert_eq!(empty.select_worker(LoadBalancingStrategy::Weighted, 0, 7), 0);
    assert_eq!(empty.least_loaded(), 0);
}

#[test]
fn begin_and_finish_restore_active_count() {
    let mut pool = WorkerPool::new(2);
    pool.begin_task(1);
    assert_eq!(pool.active_workers(), 1);
    pool.finish_task(1);
    assert_eq!(pool.active_workers(), 0);
    assert_eq!(pool.total_tasks_processed(), 1);
    let w = pool.workers();
    assert_eq!(w[1].total_tasks_processed, 1);
    assert_eq!(w[1].active_tasks, 0);
    pool.finish_task(9);
    assert_eq!(pool.total_tasks_processed(), 2);
}

#[test]
fn load_advice_thresholds() {
    let mut pool = WorkerPool::new(2);
    assert_eq!(pool.load_advice(4), PoolAdvice::ScaleDown);
    pool.begin_task(0);
    pool.begin_task(0);
    pool.begin_task(1);
    assert_eq!(pool.load_advice(4), PoolAdvice::Keep);
    for _ in 0..4 {
        pool.begin_task(1);
    }
    assert_eq!(pool.load_advice(4), PoolAdvice::ScaleUp);
    assert_eq!(WorkerPool::new(0).load_advice(0), PoolAdvice::Keep);
}

#[test]
fn aligned_offset_pads_to_the_next_cache_line() {
    let p = SimdProcessor::new(CpuOptimizerConfig::default());
    assert_eq!(p.aligned_offset(0), 0);
    assert_eq!(p.aligned_offset(64), 0);
    assert_eq!(p.aligned_offset(65), 63);
    assert_eq!(p.aligned_offset(100), 28);
    assert_eq!(p.aligned_offset(127), 1);
}
