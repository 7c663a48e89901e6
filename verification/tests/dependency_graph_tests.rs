use hive::cache_key::CacheKey;
use hive::dependency_graph::DependencyGraph;

fn contains(v: &[CacheKey], k: &CacheKey) -> bool {
    v.iter().any(|x| x.same_as(k))
}

#[test]
fn test_dependency_graph() {
    let mut graph = DependencyGraph::new();
    let key1 = CacheKey::Agent(1);
    let key2 = CacheKey::Task(2);
    let key3 = CacheKey::AgentMetrics(3);
    graph.add_dependency(key1.copy(), key2.copy());
    graph.add_dependency(key3.copy(), key1.copy());
    assert!(contains(&graph.get_dependencies(&key1), &key2));
    assert!(contains(&graph.get_dependents(&key1), &key3));
    assert!(contains(&graph.get_dependents(&key2), &key1));
}

#[test]
fn remove_undoes_add() {
    let mut graph = DependencyGraph::new();
    let a = CacheKey::Custom("a".to_string());
    let b = CacheKey::Custom("b".to_string());
    graph.add_dependency(a.copy(), b.copy());
    graph.remove_dependency(&a, &b);
    assert!(graph.get_dependencies(&a).is_empty());
    assert!(graph.get_dependents(&b).is_empty());
    graph.add_dependency(a.copy(), b.copy());
    graph.add_dependency(a.copy(), b.copy());
    assert_eq!(graph.get_dependencies(&a).len(), 1);
    graph.clear();
    assert!(graph.get_dependents(&b).is_empty());
}

#[test]
fn key_text_forms() {
    assert_eq!(CacheKey::Custom("x".to_string()).to_key_string(), "custom:x");
    assert_eq!(CacheKey::SystemStatus("s".to_string()).to_key_string(), "system_status:s");
    assert_eq!(
        CacheKey::Agent(0x0123456789abcdef0123456789abcdef).to_key_string(),
        "agent:01234567-89ab-cdef-0123-456789abcdef"
    );
    assert_eq!(CacheKey::Task(0).to_key_string(), "task:00000000-0000-0000-0000-000000000000");
}
