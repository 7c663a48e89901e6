use hive::intelligent_cache::{
    BatchGroups, BurstTracker, CacheWarmMetrics, PrefetchResults, QueryCounts, WarmPriority, WarmQueue, BURST_THRESHOLD,
};

#[test]
fn burst_detection() {
    let mut b = BurstTracker::new();
    for t in 0..5u64 {
        b.record_access(t * 1000);
    }
    assert_eq!(b.burst_count, BURST_THRESHOLD);
    assert!(b.is_in_burst());
    b.record_access(61000);
    assert_eq!(b.burst_count, 1);
    assert_eq!(b.burst_start_ms, Some(61000));
    assert!(!b.is_in_burst());
}

#[test]
fn warm_queue_takes_high_first() {
    let mut q: WarmQueue<&str> = WarmQueue::new();
    q.push(WarmPriority::High, "h1");
    q.push(WarmPriority::High, "h2");
    q.push(WarmPriority::Medium, "m1");
    q.push(WarmPriority::Low, "l1");
    q.push(WarmPriority::Medium, "m2");
    let first: Vec<&str> = q.take_next().iter().map(|p| p.1).collect();
    assert_eq!(first, vec!["h1", "h2"]);
    let second: Vec<&str> = q.take_next().iter().map(|p| p.1).collect();
    assert_eq!(second, vec!["m1"]);
    let third: Vec<&str> = q.take_next().iter().map(|p| p.1).collect();
    assert_eq!(third, vec!["l1"]);
    let fourth: Vec<&str> = q.take_next().iter().map(|p| p.1).collect();
    assert_eq!(fourth, vec!["m2"]);
    assert!(q.take_next().is_empty());
}

#[test]
fn batch_groups_count_savings() {
    let mut g: BatchGroups<u32> = BatchGroups::new();
    assert!(!g.should_execute(0));
    g.add(&"q1".to_string(), 1, 100, 50);
    g.add(&"q1".to_string(), 2, 110, 50);
    g.add(&"q2".to_string(), 3, 120, 50);
    g.add(&"q1".to_string(), 4, 130, 50);
    assert_eq!(g.total_pending_queries(), 2);
    assert!(!g.should_execute(149));
    assert!(g.should_execute(150));
    let all = g.take_all();
    assert_eq!(all.len(), 2);
    assert_eq!(all[0].1, vec![1, 2, 4]);
    assert_eq!(g.total_pending_queries(), 0);
    assert!(!g.should_execute(1000));
}

#[test]
fn counters() {
    let mut r = PrefetchResults::default();
    r.record(true);
    r.record(false);
    assert_eq!((r.successful, r.failed, r.queued), (1, 1, 0));
    let mut m = CacheWarmMetrics::new();
    m.record_request();
    m.record_outcome(true);
    assert_eq!((m.total_warm_requests, m.successful_warms, m.failed_warms), (1, 1, 0));
    let mut q = QueryCounts::new();
    q.record_query(true);
    q.record_query(false);
    assert_eq!((q.total_queries, q.cache_hits), (2, 1));
}
