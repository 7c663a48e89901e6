use hive::cache_monitoring::{aggregate_totals, assess_health, record_metrics, HealthWarning, METRICS_HISTORY_LIMIT};
use hive::cache_optimization::{
    benchmark_step, recommend_optimizations, recommendation_for, BenchmarkStep, OptimizationStrategy,
};
use hive::cached_query::CachedQueryStats;

fn stats(hits: u64, misses: u64, db: u64, avoided: u64) -> CachedQueryStats {
    CachedQueryStats { cache_hits: hits, cache_misses: misses, db_queries: db, queries_avoided: avoided, invalidations: 0, prefetches: 0 }
}

#[test]
fn totals_over_monitored_caches() {
    let t = aggregate_totals(&vec![stats(3, 1, 1, 3), stats(5, 2, 2, 5)]);
    assert_eq!(t.hits, 8);
    assert_eq!(t.misses, 3);
    assert_eq!(t.db_queries, 3);
    assert_eq!(t.queries_avoided, 8);
    assert_eq!(t.memory_bytes, 11 * 1024);
    let empty = aggregate_totals(&Vec::new());
    assert_eq!(empty.hits, 0);
    assert_eq!(empty.memory_bytes, 0);
}

#[test]
fn metrics_history_keeps_last_hundred() {
    let mut h: Vec<u32> = Vec::new();
    for i in 0..150u32 {
        record_metrics(&mut h, i);
    }
    assert_eq!(h.len(), METRICS_HISTORY_LIMIT);
    assert_eq!(h[0], 50);
    assert_eq!(h[99], 149);
}

#[test]
fn healthy_cache_scores_full() {
    let a = assess_health(false, false, false);
    assert!(a.warnings.is_empty());
    assert!(a.recommendations.is_empty());
    assert_eq!(a.score_tenths, 10);
}

#[test]
fn health_warnings_in_check_order() {
    let a = assess_health(true, false, true);
    assert_eq!(a.warnings, vec![HealthWarning::LowHitRate, HealthWarning::SlowAccess]);
    assert_eq!(a.recommendations[0], "Consider increasing cache TTL or enabling prefetching");
    assert_eq!(a.recommendations[1], "Consider optimizing cache data structures or reducing cache size");
    assert_eq!(a.score_tenths, 3);
    let all = assess_health(true, true, true);
    assert_eq!(all.warnings.len(), 3);
    assert_eq!(all.recommendations[1], "Consider reducing cache size or enabling LRU eviction");
    assert_eq!(all.score_tenths, 2);
    assert_eq!(assess_health(false, true, false).score_tenths, 4);
}

#[test]
fn recommendations_sorted_by_improvement() {
    let r = recommend_optimizations(true, 90_000_000, true, false, false);
    let strategies: Vec<OptimizationStrategy> = r.iter().map(|x| x.strategy).collect();
    assert_eq!(
        strategies,
        vec![
            OptimizationStrategy::SizeOptimization,
            OptimizationStrategy::MemoryOptimization,
            OptimizationStrategy::HitRateOptimization,
            OptimizationStrategy::PrefetchOptimization,
            OptimizationStrategy::AdaptiveTTL,
        ]
    );
    let improvements: Vec<u32> = r.iter().map(|x| x.expected_improvement_pct).collect();
    assert_eq!(improvements, vec![25, 20, 15, 12, 10]);
}

#[test]
fn no_recommendations_for_tuned_cache() {
    let r = recommend_optimizations(false, 80_000_000, false, true, true);
    assert!(r.is_empty());
    let r = recommend_optimizations(false, 80_000_001, false, true, true);
    assert_eq!(r.len(), 1);
    assert_eq!(r[0].strategy, OptimizationStrategy::MemoryOptimization);
    assert_eq!(r[0].confidence_pct, 90);
    assert_eq!(r[0].difficulty, 2);
    assert_eq!(r[0].estimated_time_minutes, 15);
    assert_eq!(r[0].description, "Reduce memory usage through better eviction policies");
}

#[test]
fn adaptive_ttl_recommendation_figures() {
    let r = recommendation_for(OptimizationStrategy::AdaptiveTTL);
    assert_eq!(r.expected_improvement_pct, 10);
    assert_eq!(r.confidence_pct, 85);
    assert_eq!(r.difficulty, 1);
    assert_eq!(r.estimated_time_minutes, 10);
    assert_eq!(r.description, "Enable adaptive TTL based on access patterns");
}

#[test]
fn benchmark_operation_mix() {
    assert_eq!(benchmark_step(0), BenchmarkStep::Store { key_index: 0 });
    assert_eq!(benchmark_step(1), BenchmarkStep::Lookup { key_index: 1 });
    assert_eq!(benchmark_step(2), BenchmarkStep::Lookup { key_index: 2 });
    assert_eq!(benchmark_step(3), BenchmarkStep::Store { key_index: 3 });
    assert_eq!(benchmark_step(1001), BenchmarkStep::Lookup { key_index: 1 });
    assert_eq!(benchmark_step(1002), BenchmarkStep::Store { key_index: 2 });
}
