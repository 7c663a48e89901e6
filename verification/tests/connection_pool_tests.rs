use hive::connection_pool::{
    elapsed_over, Checkout, ConnectionPool, ConnectionPoolConfig, PooledConnection, RequestCache, SchedulerStats,
};

#[test]
fn default_pool_config() {
    let c = ConnectionPoolConfig::default();
    assert_eq!(c.max_connections, 10);
    assert_eq!(c.min_connections, 2);
    assert_eq!(c.max_idle_time_ms, 300000);
    assert_eq!(c.connection_timeout_ms, 30000);
    assert_eq!(c.health_check_interval_ms, 60000);
    assert_eq!(c.database_path, "./data/hive.db");
}

#[test]
fn elapsed_over_limits() {
    assert!(!elapsed_over(0, 100, 100));
    assert!(elapsed_over(0, 101, 100));
    assert!(elapsed_over(0, 300001, u64::MAX));
    assert!(!elapsed_over(0, 300000, u64::MAX));
    assert!(!elapsed_over(100, 0, 0));
}

#[test]
fn test_connection_pool_basic() {
    let mut pool: ConnectionPool<u32> = ConnectionPool::new();
    pool.add_initial(PooledConnection::new(1, 0));
    pool.add_initial(PooledConnection::new(2, 0));
    let handle = match pool.checkout(10, 300000) {
        Checkout::Ready(c) => c,
        _ => panic!("expected an idle connection"),
    };
    assert_eq!(handle.connection, 1);
    pool.give_back(handle);
    let stats = pool.stats();
    assert_eq!(stats.total_connections, 2);
    assert_eq!(stats.active_connections, 0);
    assert_eq!(stats.idle_connections, 2);
    assert_eq!(stats.connection_requests, 1);
}

#[test]
fn expired_connection_is_replaced() {
    let mut pool: ConnectionPool<u32> = ConnectionPool::new();
    pool.add_initial(PooledConnection::new(7, 0));
    match pool.checkout(1000, 500) {
        Checkout::Replace => {}
        _ => panic!("expected a replacement"),
    }
    assert_eq!(pool.stats().connections_destroyed, 1);
    assert!(pool.fallback().is_none());
    let c = pool.hand_out_new(PooledConnection::new(8, 1000));
    assert_eq!(c.connection, 8);
    assert_eq!(pool.stats().connections_created, 2);
    assert_eq!(pool.stats().active_connections, 1);
}

#[test]
fn empty_pool_asks_for_new_connection() {
    let mut pool: ConnectionPool<u32> = ConnectionPool::new();
    match pool.checkout(0, 100) {
        Checkout::OpenNew => {}
        _ => panic!("expected a request for a new connection"),
    }
    assert_eq!(pool.stats().connection_requests, 1);
}

#[test]
fn cleanup_drops_expired_and_excess() {
    let mut pool: ConnectionPool<u32> = ConnectionPool::new();
    pool.add_initial(PooledConnection::new(1, 0));
    pool.add_initial(PooledConnection::new(2, 900));
    pool.add_initial(PooledConnection::new(3, 950));
    pool.add_initial(PooledConnection::new(4, 990));
    pool.cleanup(1000, 500, 2);
    assert_eq!(pool.idle_len(), 2);
    let stats = pool.stats();
    assert_eq!(stats.connections_destroyed, 2);
    assert_eq!(stats.total_connections, 2);
    assert_eq!(stats.idle_connections, 2);
}

#[test]
fn cleanup_trims_to_the_limit_and_stops_at_one_in_use() {
    let mut pool: ConnectionPool<u32> = ConnectionPool::new();
    for id in 1..=5u32 {
        let mut c = PooledConnection::new(id, 990);
        if id == 3 {
            c.mark_used(995);
        }
        pool.add_initial(c);
    }
    pool.cleanup(1000, 500, 1);
    assert_eq!(pool.idle_len(), 3);
    assert_eq!(pool.stats().connections_destroyed, 2);

    let mut pool: ConnectionPool<u32> = ConnectionPool::new();
    for id in 1..=5u32 {
        pool.add_initial(PooledConnection::new(id, 990));
    }
    pool.cleanup(1000, 500, 3);
    assert_eq!(pool.idle_len(), 3);
    assert_eq!(pool.stats().connections_destroyed, 2);
    assert_eq!(pool.stats().idle_connections, 3);
}

#[test]
fn pooled_connection_marks() {
    let mut c = PooledConnection::new("db", 5);
    assert!(!c.in_use);
    c.mark_used(9);
    assert!(c.in_use);
    assert_eq!(c.last_used_ms, 9);
    c.mark_free();
    assert!(!c.in_use);
    assert!(c.is_expired(20, 10));
    assert!(!c.is_expired(19, 10));
}

#[test]
fn test_request_cache() {
    let mut cache = RequestCache::new(10, 60000);
    let key = "test_key".to_string();
    let data = b"test data".to_vec();
    let content_type = "application/json".to_string();
    cache.set(key.clone(), data.clone(), content_type.clone(), 1000);
    let cached = cache.get(&key, 1000).expect("cached item");
    assert_eq!(cached.data, data);
    assert_eq!(cached.content_type, content_type);
    assert!(!cached.is_expired(1000));
}

#[test]
fn request_cache_expiry_and_eviction() {
    let mut cache = RequestCache::new(2, 100);
    cache.set("a".to_string(), vec![1], "t".to_string(), 0);
    cache.set("b".to_string(), vec![2], "t".to_string(), 50);
    assert_eq!(cache.stats(120), (2, 1));
    assert!(cache.get("a", 120).is_none());
    assert_eq!(cache.stats(120), (1, 0));
    cache.set("c".to_string(), vec![3], "t".to_string(), 120);
    cache.set("d".to_string(), vec![4], "t".to_string(), 121);
    assert!(cache.get("b", 121).is_none());
    assert_eq!(cache.get("c", 121).unwrap().data, vec![3]);
    assert_eq!(cache.get("d", 121).unwrap().data, vec![4]);
    cache.clear();
    assert_eq!(cache.stats(121), (0, 0));
}

#[test]
fn test_async_scheduler() {
    let mut stats = SchedulerStats::new();
    stats.task_started();
    stats.task_finished(true);
    assert_eq!(stats.total_tasks, 1);
    assert_eq!(stats.completed_tasks, 1);
    assert_eq!(stats.active_tasks, 0);
    stats.task_finished(false);
    assert_eq!(stats.failed_tasks, 1);
    assert_eq!(stats.active_tasks, 0);
}
