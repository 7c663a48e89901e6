use hive::cache_key::CacheKey;
use hive::cached_query::{
    lookup_cached, store_query_result, CacheEntry, CacheInvalidationStrategy, CachedQueryConfig, CachedQueryStats,
    VersionTracker,
};

#[test]
fn default_query_config() {
    let c = CachedQueryConfig::default();
    assert_eq!(c.default_ttl_ms, 300000);
    assert_eq!(c.max_cache_size, 10000);
    assert_eq!(c.prefetch_threshold, 3);
    assert_eq!(c.invalidation_strategy, CacheInvalidationStrategy::TimeBased(300000));
}

/// A lookup through the tracker: the stored entry while it is valid,
/// otherwise the query runs and its result is stored.
fn cached_query(
    tracker: &mut VersionTracker,
    stored: &mut Option<CacheEntry<String>>,
    key: &CacheKey,
    strategy: CacheInvalidationStrategy,
    query: impl FnOnce() -> String,
) -> String {
    let mut stats = CachedQueryStats::new();
    cached_query_counted(tracker, stored, &mut stats, key, strategy, query)
}

fn cached_query_counted(
    tracker: &mut VersionTracker,
    stored: &mut Option<CacheEntry<String>>,
    stats: &mut CachedQueryStats,
    key: &CacheKey,
    strategy: CacheInvalidationStrategy,
    query: impl FnOnce() -> String,
) -> String {
    if let Some(e) = stored.as_ref() {
        if tracker.is_entry_valid(strategy, e, key, 0) {
            stats.record_lookup(true, false);
            return e.data.clone();
        }
        tracker.remove(key);
    }
    stats.record_lookup(false, true);
    let entry = CacheEntry::new(query(), vec![], 0);
    tracker.insert(key, entry.version);
    let data = entry.data.clone();
    *stored = Some(entry);
    data
}

#[test]
fn test_cache_invalidation() {
    let strategy = CacheInvalidationStrategy::Manual;
    let mut tracker = VersionTracker::new();
    let mut stored: Option<CacheEntry<String>> = None;
    let key = CacheKey::Custom("invalidate_test".to_string());
    let _ = cached_query(&mut tracker, &mut stored, &key, strategy, || "original_data".to_string());
    tracker.remove(&key);
    let result = cached_query(&mut tracker, &mut stored, &key, strategy, || "updated_data".to_string());
    assert_eq!(result, "updated_data");
}

#[test]
fn manual_entry_hits_until_invalidated() {
    let strategy = CacheInvalidationStrategy::Manual;
    let mut tracker = VersionTracker::new();
    let mut stored: Option<CacheEntry<String>> = None;
    let key = CacheKey::Custom("k".to_string());
    assert_eq!(cached_query(&mut tracker, &mut stored, &key, strategy, || "a".to_string()), "a");
    assert_eq!(cached_query(&mut tracker, &mut stored, &key, strategy, || "b".to_string()), "a");
}

#[test]
fn dependency_and_version_invalidation() {
    let mut tracker = VersionTracker::new();
    let key = CacheKey::Custom("q".to_string());
    let dep = CacheKey::Agent(5);
    let entry = CacheEntry::new(1u8, vec![dep.copy()], 0);
    tracker.insert(&key, 1);
    tracker.insert(&dep, 1);
    assert!(tracker.is_entry_valid(CacheInvalidationStrategy::DependencyBased, &entry, &key, 0));
    tracker.remove(&dep);
    assert!(!tracker.is_entry_valid(CacheInvalidationStrategy::DependencyBased, &entry, &key, 0));
    tracker.remove(&key);
    assert!(!tracker.is_entry_valid(CacheInvalidationStrategy::VersionBased, &entry, &key, 0));
    assert_eq!(tracker.get(&key), None);
    tracker.insert(&key, 2);
    assert!(!tracker.is_entry_valid(CacheInvalidationStrategy::VersionBased, &entry, &key, 0));
    let mut stats = CachedQueryStats::new();
    stats.record_invalidation();
    stats.record_batch(4);
    assert_eq!(stats.invalidations, 1);
    assert_eq!(stats.db_queries, 1);
    assert_eq!(stats.queries_avoided, 3);
}

#[test]
fn test_cached_query_basic() {
    let strategy = CachedQueryConfig::default().invalidation_strategy;
    let mut tracker = VersionTracker::new();
    let mut stored: Option<CacheEntry<String>> = None;
    let mut stats = CachedQueryStats::new();
    let key = CacheKey::Custom("test_key".to_string());
    let result1 = cached_query_counted(&mut tracker, &mut stored, &mut stats, &key, strategy, || "test_data".to_string());
    assert_eq!(result1, "test_data");
    let result2 =
        cached_query_counted(&mut tracker, &mut stored, &mut stats, &key, strategy, || "should_not_execute".to_string());
    assert_eq!(result2, "test_data");
    assert_eq!(stats.cache_hits, 1);
    assert_eq!(stats.cache_misses, 1);
}

#[test]
fn validity_by_strategy_and_counters() {
    let mut tracker = VersionTracker::new();
    let key = CacheKey::Custom("q".to_string());
    let entry = CacheEntry::new(42u32, vec![], 0);
    tracker.insert(&key, entry.version);
    assert!(tracker.is_entry_valid(CacheInvalidationStrategy::TimeBased(1000), &entry, &key, 999));
    assert!(!tracker.is_entry_valid(CacheInvalidationStrategy::TimeBased(1000), &entry, &key, 1000));
    assert!(tracker.is_entry_valid(CacheInvalidationStrategy::VersionBased, &entry, &key, 0));
    assert!(tracker.is_entry_valid(CacheInvalidationStrategy::Manual, &entry, &key, 0));
    let mut stats = CachedQueryStats::new();
    stats.record_lookup(false, true);
    stats.record_lookup(true, false);
    assert_eq!(stats.cache_hits, 1);
    assert_eq!(stats.cache_misses, 1);
    assert_eq!(stats.db_queries, 1);
    assert_eq!(stats.reported().queries_avoided, 1);
}


#[test]
fn cached_query_hits_misses_and_invalidates() {
    let key = CacheKey::Custom("q".to_string());
    let mut tracker = VersionTracker::new();
    let mut stats = CachedQueryStats::new();
    let strategy = CacheInvalidationStrategy::TimeBased(1000);

    // Nothing cached: a miss that queries the database.
    assert_eq!(lookup_cached::<u32>(&mut tracker, &mut stats, strategy, &key, None, 0), None);
    assert_eq!((stats.cache_misses, stats.db_queries, stats.cache_hits), (1, 1, 0));

    // The result is stored as version 1.
    let entry = store_query_result(&mut tracker, &key, 42u32, vec![], 0);
    assert_eq!(entry.version, 1);
    assert_eq!(tracker.get(&key), Some(1));

    // A fresh entry is a hit.
    assert_eq!(lookup_cached(&mut tracker, &mut stats, strategy, &key, Some(entry), 500), Some(42));
    assert_eq!((stats.cache_hits, stats.cache_misses, stats.db_queries), (1, 1, 1));

    // A stale entry is invalidated and counted as a miss.
    let stale = CacheEntry::new(42u32, vec![], 0);
    assert_eq!(lookup_cached(&mut tracker, &mut stats, strategy, &key, Some(stale), 1000), None);
    assert_eq!(tracker.get(&key), None);
    assert_eq!((stats.invalidations, stats.cache_misses, stats.db_queries), (1, 2, 2));
}
