use hive::cache::{entry_size, Cache, EvictionOrder};

#[test]
fn store_and_read_back() {
    let mut c: Cache<u32> = Cache::new(1000, 10);
    c.insert("a".to_string(), 1, 10, 0, None);
    assert_eq!(c.get(&"a".to_string(), 500), Some(1));
    assert_eq!(c.get(&"b".to_string(), 500), None);
    assert_eq!(c.stats(1024).total_entries, 1);
    assert_eq!(c.stats(1024).total_hits, 1);
}

#[test]
fn repeated_reads_give_the_value_until_expiry() {
    let mut c: Cache<u32> = Cache::new(1000, 10);
    c.insert("a".to_string(), 9, 10, 0, None);
    assert_eq!(c.get(&"a".to_string(), 100), Some(9));
    assert_eq!(c.get(&"a".to_string(), 900), Some(9));
    assert_eq!(c.get(&"a".to_string(), 1000), Some(9));
    assert_eq!(c.get(&"a".to_string(), 1001), None);
    assert_eq!(c.stats(1024).total_entries, 0);
}

#[test]
fn expired_entry_is_dropped() {
    let mut c: Cache<u32> = Cache::new(100, 10);
    c.insert("a".to_string(), 1, 10, 0, None);
    assert_eq!(c.get(&"a".to_string(), 101), None);
    assert_eq!(c.len(), 0);
}

#[test]
fn full_cache_holds_at_most_max_size() {
    let mut c: Cache<u32> = Cache::new(1000, 1);
    c.insert("a".to_string(), 1, 10, 0, None);
    c.insert("b".to_string(), 2, 10, 1, None);
    assert_eq!(c.len(), 1);
    assert_eq!(c.get(&"b".to_string(), 2), Some(2));
    assert_eq!(c.get(&"a".to_string(), 2), None);
    let mut d: Cache<u32> = Cache::with_strategy(1000, 3, EvictionOrder::LeastFrequentlyUsed);
    for i in 0..10u32 {
        d.insert(format!("k{i}"), i, 10, u64::from(i), None);
        assert!(d.len() <= 3);
    }
}

#[test]
fn least_recently_used_is_evicted() {
    let mut c: Cache<u32> = Cache::with_strategy(1000, 2, EvictionOrder::LeastRecentlyUsed);
    c.insert("a".to_string(), 1, 10, 0, None);
    c.insert("b".to_string(), 2, 10, 1, None);
    assert_eq!(c.get(&"a".to_string(), 2), Some(1));
    c.insert("c".to_string(), 3, 10, 3, None);
    assert_eq!(c.get(&"b".to_string(), 4), None);
    assert_eq!(c.get(&"a".to_string(), 4), Some(1));
    assert_eq!(c.get(&"c".to_string(), 4), Some(3));
}

#[test]
fn scored_victim_is_evicted() {
    let mut c: Cache<u32> = Cache::new(1000, 2);
    c.insert("a".to_string(), 1, 10, 0, None);
    c.insert("b".to_string(), 2, 10, 1, None);
    c.insert("c".to_string(), 3, 10, 2, Some(1));
    assert_eq!(c.get(&"b".to_string(), 3), None);
    assert_eq!(c.get(&"a".to_string(), 3), Some(1));
}

#[test]
fn entry_size_counts_overhead() {
    assert_eq!(entry_size(3, 5), Some(136));
    assert_eq!(entry_size(usize::MAX, 1), None);
}

#[test]
fn size_stats_follow_the_entries() {
    let mut c: Cache<u32> = Cache::new(100, 10);
    c.insert("a".to_string(), 1, 5, 0, None);
    assert_eq!(c.remove(&"a".to_string()), Some(1));
    let s = c.get_size_stats();
    assert_eq!(s.total_entries, 0);
    assert_eq!(s.total_size_bytes, 0);
    assert!(s.size_distribution.is_empty());
    c.insert("b".to_string(), 2, 30, 0, None);
    c.insert("c".to_string(), 3, 10, 0, None);
    c.insert("d".to_string(), 4, 20, 0, None);
    c.insert("e".to_string(), 5, 10, 0, None);
    let s = c.get_size_stats();
    assert_eq!(s.total_size_bytes, 70);
    assert_eq!(s.average_entry_size, 17);
    assert_eq!(s.size_distribution, vec![(10, 2), (20, 1), (30, 1)]);
    // overwriting a key replaces its size
    c.insert("b".to_string(), 6, 40, 1, None);
    let s = c.get_size_stats();
    assert_eq!(s.total_entries, 4);
    assert_eq!(s.total_size_bytes, 80);
    assert_eq!(s.size_distribution, vec![(10, 2), (20, 1), (40, 1)]);
    // expired entries leave the tracker too
    c.cleanup_expired(102);
    let s = c.get_size_stats();
    assert_eq!(s.total_entries, 0);
    assert_eq!(s.total_size_bytes, 0);
    c.insert("f".to_string(), 7, 8, 200, None);
    c.clear();
    assert_eq!(c.get_size_stats().total_size_bytes, 0);
}
