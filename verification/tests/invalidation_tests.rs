use hive::cache_key::CacheKey;
use hive::dependency_graph::DependencyGraph;
use hive::invalidation::{
    agent_keys, agent_rules, cascade_invalidation, assignment_keys, task_keys, task_rules, count_regex_matches, count_selected, invalidate_by_regex_pattern, invalidate_selected, invalidation_recommendations, keys_containing, regex_selection,
    InvalidationError, InvalidationPriority, InvalidationRule, InvalidationStats, RuleSet,
};
use hive::key_set::KeySet;

fn rule(pattern: &str, deps: &[&str], priority: u8) -> InvalidationRule<u8> {
    InvalidationRule {
        key_pattern: pattern.to_string(),
        ttl_ms: 1000,
        dependencies: deps.iter().map(|d| d.to_string()).collect(),
        priority,
        strategy: 0,
        max_age_ms: None,
        tags: vec![],
    }
}

#[test]
fn rules_sorted_by_priority_stably() {
    let mut rules: RuleSet<u8> = RuleSet::new();
    rules.add_rule(rule("agent", &["agent_metrics"], 1));
    rules.add_rule(rule("agent_metrics", &["agent"], 2));
    rules.add_rule(rule("task", &["task_metrics", "agent"], 1));
    rules.add_rule(rule("task_metrics", &["task"], 3));
    assert_eq!(rules.len(), 4);
    assert!(rules.should_invalidate("agent_metrics:1"));
    assert!(rules.should_invalidate("task:agent"));
    assert!(!rules.should_invalidate("custom:x"));
    assert!(!rules.should_invalidate("agent:1"));
}

#[test]
fn recommendations_list() {
    let recs = invalidation_recommendations();
    assert_eq!(recs.len(), 2);
    assert_eq!(recs[0].key_pattern, "temp_*");
    assert_eq!(recs[0].priority, InvalidationPriority::Low);
    assert_eq!(recs[0].estimated_savings, 1024 * 1024);
    assert_eq!(recs[1].key_pattern, "stale_*");
    assert_eq!(recs[1].reason, "Stale data exceeding TTL");
    assert_eq!(recs[1].priority, InvalidationPriority::Medium);
    assert_eq!(recs[1].estimated_savings, 5 * 1024 * 1024);
}

#[test]
fn test_invalidation_manager() {
    let mut graph = DependencyGraph::new();
    let key = CacheKey::Custom("test_key".to_string());
    let dep_key = CacheKey::Custom("dep_key".to_string());
    graph.add_dependency(key.copy(), dep_key.copy());
    let mut stats = InvalidationStats::new();
    let dropped = cascade_invalidation(&graph, &mut stats, &dep_key);
    assert!(stats.cascade_invalidations > 0);
    assert_eq!(stats.total_invalidations, 1);
    assert_eq!(dropped.len(), 1);
    assert!(dropped[0].same_as(&key));
}

#[test]
fn pending_keys_are_deduplicated() {
    let mut pending = KeySet::new();
    let a = CacheKey::Agent(1);
    let b = CacheKey::AgentMetrics(1);
    pending.insert(&a);
    pending.insert(&b);
    pending.insert(&a);
    assert_eq!(pending.len(), 2);
    let drained = pending.drain();
    assert_eq!(drained.len(), 2);
    assert!(drained[0].same_as(&a));
    assert_eq!(pending.len(), 0);
    let mut stats = InvalidationStats::new();
    stats.record_batch(drained.len() as u64);
    assert_eq!(stats.batched_invalidations, 2);
}

#[test]
fn substring_selection() {
    let keys = vec!["agent:1".to_string(), "task:1".to_string(), "agent_metrics:2".to_string()];
    assert_eq!(keys_containing(&keys, "agent"), vec![0, 2]);
    assert_eq!(keys_containing(&keys, ""), vec![0, 1, 2]);
    assert!(keys_containing(&keys, "zzz").is_empty());
}

#[test]
fn regex_selection_counts_matches() {
    let keys = vec!["agent:1".to_string(), "task:1".to_string(), "agent_metrics:2".to_string()];
    assert_eq!(count_regex_matches("^agent", &keys), Ok(2));
    assert_eq!(regex_selection("task:\\d", &keys), Ok(vec![false, true, false]));
    assert!(matches!(count_regex_matches("(", &keys), Err(InvalidationError::InvalidPattern { .. })));
    assert_eq!(count_selected(&vec![true, false, true]), 2);
}

#[test]
fn agent_and_task_rule_tables() {
    let a = agent_rules(0u8);
    assert_eq!(a.len(), 2);
    assert_eq!(a[0].key_pattern, "agent");
    assert_eq!(a[0].ttl_ms, 300_000);
    assert_eq!(a[0].dependencies, vec!["agent_metrics".to_string()]);
    assert_eq!(a[0].priority, 1);
    assert_eq!(a[1].key_pattern, "agent_metrics");
    assert_eq!(a[1].ttl_ms, 60_000);
    assert_eq!(a[1].priority, 2);
    let t = task_rules(0u8);
    assert_eq!(t[0].dependencies, vec!["task_metrics".to_string(), "agent".to_string()]);
    assert_eq!(t[0].ttl_ms, 180_000);
    assert_eq!(t[1].key_pattern, "task_metrics");
    assert_eq!(t[1].ttl_ms, 30_000);
    assert_eq!(t[1].priority, 3);
    assert!(t[1].max_age_ms.is_none());
    assert!(t[1].tags.is_empty());
}

#[test]
fn agent_rules_installed_by_priority() {
    let mut rules: RuleSet<u8> = RuleSet::new();
    for r in agent_rules(0u8) {
        rules.add_rule(r);
    }
    assert_eq!(rules.len(), 2);
    assert!(rules.should_invalidate("agent_metrics_7"));
    assert!(!rules.should_invalidate("task_7"));
}

fn same_keys(a: &[CacheKey], b: &[CacheKey]) -> bool {
    a.len() == b.len() && a.iter().zip(b.iter()).all(|(x, y)| x.same_as(y))
}

#[test]
fn entity_key_lists() {
    assert!(same_keys(&agent_keys(7), &[CacheKey::Agent(7), CacheKey::AgentMetrics(7)]));
    assert!(same_keys(&task_keys(9), &[CacheKey::Task(9), CacheKey::TaskMetrics(9)]));
    assert!(same_keys(
        &assignment_keys(7, 9),
        &[CacheKey::Agent(7), CacheKey::Task(9), CacheKey::AgentMetrics(7), CacheKey::TaskMetrics(9)]
    ));
    assert!(!same_keys(&agent_keys(7), &[CacheKey::AgentMetrics(7), CacheKey::Agent(7)]));
}

#[test]
fn invalid_regex_names_the_pattern_field() {
    let keys = vec!["agent:1".to_string()];
    match regex_selection("(", &keys) {
        Err(InvalidationError::InvalidPattern { field, reason }) => {
            assert_eq!(field, "pattern");
            assert!(reason.starts_with("Invalid regex pattern: "));
            assert!(reason.len() > "Invalid regex pattern: ".len());
        }
        other => panic!("expected an invalid pattern, got {:?}", other),
    }
}

#[test]
fn regex_invalidation_drops_matches_with_their_dependents() {
    let mut graph = DependencyGraph::new();
    let a = CacheKey::Custom("user:1".to_string());
    let b = CacheKey::Custom("user:2".to_string());
    let c = CacheKey::Custom("post:9".to_string());
    let view = CacheKey::Custom("view:1".to_string());
    graph.add_dependency(view.copy(), a.copy());
    let keys = vec![a.copy(), b.copy(), c.copy()];
    let mut stats = InvalidationStats::new();
    let (n, dropped) = invalidate_by_regex_pattern("^custom:user:", &keys, &graph, &mut stats).unwrap();
    assert_eq!(n, 2);
    assert_eq!(dropped.len(), 3);
    assert!(dropped[0].same_as(&a));
    assert!(dropped[1].same_as(&view));
    assert!(dropped[2].same_as(&b));
    assert_eq!(stats.total_invalidations, 2);
    assert_eq!(stats.cascade_invalidations, 1);

    let mut untouched = InvalidationStats::new();
    assert!(invalidate_by_regex_pattern("[", &keys, &graph, &mut untouched).is_err());
    assert_eq!(untouched, InvalidationStats::new());
}

#[test]
fn selected_keys_are_invalidated_in_order() {
    let graph = DependencyGraph::new();
    let keys = vec![CacheKey::Agent(1), CacheKey::Task(2)];
    let mut stats = InvalidationStats::new();
    let dropped = invalidate_selected(&graph, &mut stats, &keys, &vec![false, true]);
    assert_eq!(dropped.len(), 1);
    assert!(dropped[0].same_as(&CacheKey::Task(2)));
    assert_eq!(stats.total_invalidations, 1);
    assert_eq!(stats.cascade_invalidations, 0);
}
