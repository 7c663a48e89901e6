use hive::cache_key::CacheKey;
use hive::key_set::KeySet;

#[test]
fn insert_remove_first_n() {
    let mut s = KeySet::new();
    s.insert(&CacheKey::Task(1));
    s.insert(&CacheKey::Task(2));
    s.insert(&CacheKey::Task(3));
    assert!(s.contains(&CacheKey::Task(2)));
    s.remove(&CacheKey::Task(2));
    assert!(!s.contains(&CacheKey::Task(2)));
    assert_eq!(s.len(), 2);
    let first = s.first_n(1);
    assert_eq!(first.len(), 1);
    assert!(first[0].same_as(&CacheKey::Task(1)));
    assert_eq!(s.first_n(10).len(), 2);
    s.remove(&CacheKey::Task(9));
    assert_eq!(s.len(), 2);
}
