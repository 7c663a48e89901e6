use hive::async_optimizer::{
    priority_below, AsyncOptimizerConfig, BatchCounters, BatchQueue, ConnectionPoolOptimizer, ExecutionCounters,
    OperationPriority, PoolError,
};

#[test]
fn test_batch_processor() {
    let config = AsyncOptimizerConfig { batch_size: 3, max_concurrent_ops: 2, ..AsyncOptimizerConfig::for_cpus(1) };
    let mut queue: BatchQueue<u32> = BatchQueue::new();
    for i in 0..5u32 {
        let priority = if i % 2 == 0 { OperationPriority::High } else { OperationPriority::Normal };
        queue.add(priority, i, config.enable_prioritization);
    }
    let batch = queue.take_batch(config.batch_size);
    assert_eq!(batch.len(), 3);
    let mut counters = BatchCounters::new();
    counters.record_batch(batch.len() as u64, 5);
    assert_eq!(counters.batched_operations, 1);
    let items: Vec<u32> = batch.iter().map(|p| p.1).collect();
    assert_eq!(items, vec![0, 2, 4]);
    assert_eq!(queue.len(), 2);
}

#[test]
fn queue_without_prioritization_is_fifo() {
    let mut queue: BatchQueue<u32> = BatchQueue::new();
    queue.add(OperationPriority::Low, 1, false);
    queue.add(OperationPriority::Critical, 2, false);
    let batch = queue.take_batch(10);
    let items: Vec<u32> = batch.iter().map(|p| p.1).collect();
    assert_eq!(items, vec![1, 2]);
    assert_eq!(queue.len(), 0);
}

#[test]
fn equal_priorities_keep_arrival_order() {
    let mut queue: BatchQueue<&str> = BatchQueue::new();
    queue.add(OperationPriority::Normal, "a", true);
    queue.add(OperationPriority::Critical, "b", true);
    queue.add(OperationPriority::Normal, "c", true);
    queue.add(OperationPriority::Critical, "d", true);
    let items: Vec<&str> = queue.take_batch(4).iter().map(|p| p.1).collect();
    assert_eq!(items, vec!["b", "d", "a", "c"]);
}

#[test]
fn config_for_cpus() {
    let c = AsyncOptimizerConfig::for_cpus(2);
    assert_eq!(c.max_concurrent_ops, 8);
    assert_eq!(c.batch_size, 100);
    assert_eq!(c.batch_timeout_ms, 50);
    assert_eq!(c.connection_pool_size, 20);
    assert!(c.enable_prioritization);
    assert_eq!(c.metrics_interval_ms, 30000);
    assert_eq!(AsyncOptimizerConfig::for_cpus(usize::MAX).max_concurrent_ops, usize::MAX);
    assert!(AsyncOptimizerConfig::default().max_concurrent_ops >= 4);
}

#[test]
fn priority_order() {
    assert!(priority_below(OperationPriority::Low, OperationPriority::Normal));
    assert!(!priority_below(OperationPriority::High, OperationPriority::High));
    assert!(!priority_below(OperationPriority::Critical, OperationPriority::Low));
}

#[test]
fn test_async_optimizer() {
    let mut counters = ExecutionCounters::new();
    counters.observe_concurrency(2, 1);
    counters.record_outcome(true);
    assert_eq!(counters.total_operations, 1);
    assert_eq!(counters.successful_operations, 1);
    assert_eq!(counters.current_concurrent_ops, 1);
    assert_eq!(counters.peak_concurrent_ops, 1);
    counters.observe_concurrency(2, 2);
    assert_eq!(counters.current_concurrent_ops, 0);
    assert_eq!(counters.peak_concurrent_ops, 1);
    counters.record_outcome(false);
    assert_eq!(counters.failed_operations, 1);
}

#[test]
fn test_connection_pool_optimizer() {
    let mut pool = ConnectionPoolOptimizer::new(2);
    assert!(pool.try_reserve().is_ok());
    pool.complete(true);
    assert!(pool.try_reserve().is_ok());
    pool.complete(true);
    let third = pool.try_reserve();
    assert_eq!(third, Err(PoolError::ResourceExhausted));
    assert_eq!(PoolError::ResourceExhausted.resource(), "connection_pool");
    pool.release();
    assert!(pool.try_reserve().is_ok());
    pool.complete(true);
    let metrics = pool.metrics();
    assert_eq!(metrics.total_connections_created, 3);
    assert_eq!(metrics.peak_connections, 2);
}

#[test]
fn failed_connection_frees_its_slot() {
    let mut pool = ConnectionPoolOptimizer::new(1);
    assert!(pool.try_reserve().is_ok());
    pool.complete(false);
    assert_eq!(pool.active_slots(), 0);
    assert_eq!(pool.metrics().connection_errors, 1);
    assert!(pool.try_reserve().is_ok());
}

#[test]
fn empty_batch_leaves_counters() {
    let mut queue: BatchQueue<u32> = BatchQueue::new();
    let batch = queue.take_batch(4);
    assert!(batch.is_empty());
    let mut counters = BatchCounters::new();
    counters.record_batch(batch.len() as u64, 3);
    assert_eq!(counters, BatchCounters::new());
    counters.record_batch(2, 3);
    assert_eq!(counters.total_operations, 2);
    assert_eq!(counters.batched_operations, 1);
    assert_eq!(counters.processing_time_ms, 3);
}
