use hive::memory_analysis::{
    available_memory, optimization_status, AllocationTracker, AllocationType, MemoryOptimizationStatus,
    SYSTEM_MEMORY_BYTES,
};

#[test]
fn test_memory_analyzer_basic() {
    let mut tracker = AllocationTracker::new();
    let streaming = "streaming".to_string();
    let caching = "caching".to_string();
    tracker.record_allocation(&streaming, 1024 * 1024, AllocationType::Streaming, 0);
    tracker.record_allocation(&caching, 512 * 1024, AllocationType::Caching, 0);
    let used = tracker.checked_total_memory().unwrap();
    assert!(used >= 1024 * 1024 + 512 * 1024);
    tracker.record_deallocation(&streaming, 1024 * 1024);
    assert_eq!(tracker.allocation_counts(), (2, 1));
    assert_eq!(tracker.component_totals(&streaming), Some((0, 1024 * 1024, 0)));
    assert_eq!(tracker.component_totals(&caching), Some((512 * 1024, 512 * 1024, 1)));
}

#[test]
fn allocation_updates_total_and_peak() {
    let mut tracker = AllocationTracker::new();
    let c = "neural".to_string();
    tracker.record_allocation(&c, 100, AllocationType::NeuralProcessing, 1);
    tracker.record_allocation(&c, 50, AllocationType::NeuralProcessing, 2);
    assert_eq!(tracker.component_totals(&c), Some((150, 150, 2)));
    tracker.record_deallocation(&c, 100);
    assert_eq!(tracker.component_totals(&c), Some((50, 150, 1)));
    tracker.record_allocation(&c, 20, AllocationType::General, 3);
    assert_eq!(tracker.component_totals(&c), Some((70, 150, 2)));
}

#[test]
fn deallocation_saturates_and_ignores_unknown_components() {
    let mut tracker = AllocationTracker::new();
    let c = "cache".to_string();
    tracker.record_allocation(&c, 10, AllocationType::Caching, 0);
    tracker.record_deallocation(&c, 25);
    assert_eq!(tracker.component_totals(&c), Some((0, 10, 1)));
    let unknown = "unknown".to_string();
    tracker.record_deallocation(&unknown, 5);
    assert_eq!(tracker.component_totals(&unknown), None);
    assert_eq!(tracker.breakdown().len(), 1);
}

#[test]
fn release_undoes_allocation_scenario() {
    let mut tracker = AllocationTracker::new();
    let c = "stream".to_string();
    tracker.record_allocation(&c, 300, AllocationType::Streaming, 0);
    let before = tracker.component_totals(&c).unwrap();
    tracker.record_allocation(&c, 77, AllocationType::Streaming, 1);
    tracker.record_deallocation(&c, 77);
    let after = tracker.component_totals(&c).unwrap();
    assert_eq!(before.0, after.0);
    assert_eq!(before.2, after.2);
    assert!(after.1 >= before.1);
}

#[test]
fn breakdown_lists_components_in_order() {
    let mut tracker = AllocationTracker::new();
    tracker.record_allocation(&"a".to_string(), 1, AllocationType::General, 0);
    tracker.record_allocation(&"b".to_string(), 2, AllocationType::General, 0);
    tracker.record_allocation(&"a".to_string(), 3, AllocationType::General, 0);
    let b = tracker.breakdown();
    assert_eq!(b, vec![("a".to_string(), 4), ("b".to_string(), 2)]);
    assert_eq!(tracker.checked_total_memory(), Some(6));
}

#[test]
fn total_memory_overflow_is_none() {
    let mut tracker = AllocationTracker::new();
    tracker.record_allocation(&"a".to_string(), usize::MAX, AllocationType::General, 0);
    tracker.record_allocation(&"b".to_string(), 1, AllocationType::General, 0);
    assert_eq!(tracker.checked_total_memory(), None);
}

#[test]
fn available_memory_saturates() {
    assert_eq!(available_memory(0), SYSTEM_MEMORY_BYTES);
    assert_eq!(available_memory(1024), 8589934592 - 1024);
    assert_eq!(available_memory(usize::MAX), 0);
}

#[test]
fn optimization_status_rules() {
    assert_eq!(optimization_status(true, true, true), MemoryOptimizationStatus::Excellent);
    assert_eq!(optimization_status(true, false, true), MemoryOptimizationStatus::Good);
    assert_eq!(optimization_status(false, true, false), MemoryOptimizationStatus::Good);
    assert_eq!(optimization_status(false, false, true), MemoryOptimizationStatus::NeedsImprovement);
}
