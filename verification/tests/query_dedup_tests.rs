use hive::query_dedup::{DedupDecision, QueryDeduplication};

fn is_execute(d: &DedupDecision<'_, u32>) -> bool {
    matches!(d, DedupDecision::Execute)
}

fn is_wait(d: &DedupDecision<'_, u32>) -> bool {
    matches!(d, DedupDecision::Wait)
}

fn cached(d: &DedupDecision<'_, u32>) -> Option<u32> {
    match d {
        DedupDecision::Cached(v) => Some(**v),
        _ => None,
    }
}

#[test]
fn unknown_query_runs() {
    let t: QueryDeduplication<u32> = QueryDeduplication::new();
    assert!(is_execute(&t.decide("q")));
}

#[test]
fn running_query_is_waited_for() {
    let mut t: QueryDeduplication<u32> = QueryDeduplication::new();
    t.begin("q".to_string());
    assert!(is_wait(&t.decide("q")));
    assert!(is_execute(&t.decide("other")));
}

#[test]
fn completed_query_answers_from_store() {
    let mut t: QueryDeduplication<u32> = QueryDeduplication::new();
    t.begin("q".to_string());
    t.finish("q", 42);
    assert_eq!(cached(&t.decide("q")), Some(42));
    t.begin("q".to_string());
    assert!(is_wait(&t.decide("q")));
    t.finish("q", 7);
    assert_eq!(cached(&t.decide("q")), Some(7));
}

#[test]
fn expired_query_runs_again() {
    let mut t: QueryDeduplication<u32> = QueryDeduplication::new();
    t.begin("a".to_string());
    t.begin("b".to_string());
    t.finish("a", 1);
    t.finish("b", 2);
    t.expire("a");
    assert!(is_execute(&t.decide("a")));
    assert_eq!(cached(&t.decide("b")), Some(2));
    t.finish("a", 5);
    assert!(is_execute(&t.decide("a")));
}
