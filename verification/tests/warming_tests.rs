use hive::cache_key::CacheKey;
use hive::intelligent_cache::PrefetchPriority;
use hive::warming::{prefetch_rank, PrefetchItem, PrefetchQueue, WarmingConfig, WarmingEngine, WarmingPriority};

#[test]
fn test_cache_warming_engine() {
    let mut engine = WarmingEngine::new(WarmingConfig::default());
    let key1 = CacheKey::Custom("test_key_1".to_string());
    let key2 = CacheKey::Custom("test_key_2".to_string());
    engine.record_access(&key1, 0);
    engine.record_access(&key2, 0);
    assert!(engine.access_count(&key1).is_some());
    assert!(engine.access_count(&key2).is_some());
    assert_eq!(engine.warming_batch().len(), 0);
    let mut queue = PrefetchQueue::new();
    assert_eq!(queue.take_due(0, 60000).len(), 0);
}

#[test]
fn test_warming_stats() {
    let engine = WarmingEngine::new(WarmingConfig::default());
    let stats = engine.stats();
    assert_eq!(stats.total_warmings, 0);
    assert_eq!(stats.successful_warmings, 0);
}

#[test]
fn threshold_makes_candidate_and_warming_removes_it() {
    let mut engine = WarmingEngine::new(WarmingConfig::default());
    let k = CacheKey::Task(9);
    for t in 0..3 {
        engine.record_access(&k, t);
    }
    assert_eq!(engine.access_count(&k).unwrap().access_count, 3);
    assert_eq!(engine.candidate_count(), 1);
    let batch = engine.warming_batch();
    assert_eq!(batch.len(), 1);
    engine.key_warmed(&batch[0], false);
    assert_eq!(engine.candidate_count(), 0);
    assert_eq!(engine.stats().successful_warmings, 1);
}

#[test]
fn startup_order_by_priority_class() {
    let mut engine = WarmingEngine::new(WarmingConfig::default());
    let seen = CacheKey::Custom("seen".to_string());
    engine.record_access(&seen, 0);
    let fresh = CacheKey::Custom("fresh".to_string());
    engine.configure_startup_warming(
        vec![seen.copy(), fresh.copy()],
        vec![WarmingPriority::Critical, WarmingPriority::High, WarmingPriority::Medium, WarmingPriority::Low],
    );
    assert_eq!(engine.key_priority(&seen), WarmingPriority::Low);
    assert_eq!(engine.key_priority(&fresh), WarmingPriority::Medium);
    let order = engine.startup_order();
    assert_eq!(order.len(), 2);
    assert!(order[0].same_as(&fresh));
    assert!(order[1].same_as(&seen));
}

#[test]
fn prefetch_queue_bound_and_due_items() {
    let mut q = PrefetchQueue::new();
    for t in 0..4i64 {
        q.push(PrefetchItem { key: CacheKey::Agent(t as u128), priority: 1, predicted_access_time_ms: t * 100, context: vec![] }, 3);
    }
    assert_eq!(q.len(), 3);
    let due = q.take_due(0, 150);
    assert_eq!(due.len(), 1);
    assert_eq!(due[0].predicted_access_time_ms, 100);
    assert_eq!(q.len(), 2);
    let later = q.take_due(200, 150);
    assert_eq!(later.len(), 2);
    assert_eq!(q.len(), 0);
    assert_eq!(prefetch_rank(PrefetchPriority::Critical), 5);
    assert_eq!(prefetch_rank(PrefetchPriority::Low), 2);
}

#[test]
fn startup_warming_progress() {
    let mut engine = WarmingEngine::new(WarmingConfig::default());
    let none = engine.record_startup_warming(&Vec::new(), 5, 9);
    assert_eq!(none.total_keys, 0);
    assert_eq!(none.start_time_ms, None);
    assert_eq!(engine.stats().total_warmings, 0);
    assert_eq!(engine.last_startup_warming(), None);
    engine.configure_startup_warming(
        vec![CacheKey::Custom("a".to_string()), CacheKey::Custom("b".to_string())],
        vec![WarmingPriority::Critical, WarmingPriority::High, WarmingPriority::Medium, WarmingPriority::Low],
    );
    let order = engine.startup_order();
    assert_eq!(order.len(), 2);
    // the fetch succeeds for "a" only
    let outcomes: Vec<bool> = order.iter().map(|k| k.same_as(&CacheKey::Custom("a".to_string()))).collect();
    let p = engine.record_startup_warming(&outcomes, 100, 250);
    assert_eq!(p.total_keys, 2);
    assert_eq!(p.warmed_keys, 1);
    assert_eq!(p.failed_keys, 1);
    assert_eq!(p.start_time_ms, Some(100));
    assert_eq!(p.end_time_ms, Some(250));
    assert_eq!(engine.startup_warming_progress(), p);
    assert_eq!(engine.last_startup_warming(), Some(250));
    let s = engine.stats();
    assert_eq!(s.total_warmings, 2);
    assert_eq!(s.successful_warmings, 1);
    assert_eq!(s.failed_warmings, 1);
}
