//! Cache optimisation: the recommendations drawn from measured cache
//! performance, and the operation mix of the cache benchmark.
//!
//! Percentages and confidences are whole hundredths; rates and access
//! times are measured by the caller, which passes the outcome of comparing
//! them with their thresholds.
use vstd::prelude::*;

verus! {

/// Memory in use, in bytes, above which memory optimisation is advised
/// (80% of the assumed 100 MB budget).
pub const MEMORY_ADVICE_BYTES: usize = 80_000_000;

/// Number of distinct keys the benchmark cycles through.
pub const BENCHMARK_KEYS: u64 = 1000;

/// A way to optimise the cache.
#[derive(Debug, Clone, Copy, PartialEq, Eq, Structural)]
pub enum OptimizationStrategy {
    /// Adaptive TTL based on access patterns.
    AdaptiveTTL,
    /// Size-based optimisation.
    SizeOptimization,
    /// Prefetching optimisation.
    PrefetchOptimization,
    /// Memory usage optimisation.
    MemoryOptimization,
    /// Hit rate optimisation.
    HitRateOptimization,
}

/// An optimisation recommendation.
pub struct OptimizationRecommendation {
    pub strategy: OptimizationStrategy,
    /// Expected improvement, in percent.
    pub expected_improvement_pct: u32,
    /// Confidence, in hundredths.
    pub confidence_pct: u32,
    /// Implementation difficulty, 1 to 10.
    pub difficulty: u8,
    pub description: String,
    pub estimated_time_minutes: u32,
}

/// The fixed figures of each strategy's recommendation:
/// (expected improvement %, confidence %, difficulty, minutes).
pub open spec fn figures(s: OptimizationStrategy) -> (u32, u32, u8, u32) {
    match s {
        OptimizationStrategy::HitRateOptimization => (15, 80, 3, 30),
        OptimizationStrategy::MemoryOptimization => (20, 90, 2, 15),
        OptimizationStrategy::SizeOptimization => (25, 70, 4, 45),
        OptimizationStrategy::AdaptiveTTL => (10, 85, 1, 10),
        OptimizationStrategy::PrefetchOptimization => (12, 75, 3, 25),
    }
}

pub open spec fn description_of(s: OptimizationStrategy) -> Seq<char> {
    match s {
        OptimizationStrategy::HitRateOptimization =>
            "Optimize cache hit rate through better TTL management and prefetching"@,
        OptimizationStrategy::MemoryOptimization =>
            "Reduce memory usage through better eviction policies"@,
        OptimizationStrategy::SizeOptimization =>
            "Optimize cache size and data structures for faster access"@,
        OptimizationStrategy::AdaptiveTTL => "Enable adaptive TTL based on access patterns"@,
        OptimizationStrategy::PrefetchOptimization =>
            "Enable intelligent prefetching for frequently accessed data"@,
    }
}

/// A recommendation carries its strategy's figures and description.
pub open spec fn describes(r: OptimizationRecommendation) -> bool {
    let (improvement, confidence, difficulty, minutes) = figures(r.strategy);
    &&& r.expected_improvement_pct == improvement
    &&& r.confidence_pct == confidence
    &&& r.difficulty == difficulty
    &&& r.estimated_time_minutes == minutes
    &&& r.description@ == description_of(r.strategy)
}

pub open spec fn when(c: bool, s: OptimizationStrategy) -> Seq<OptimizationStrategy> {
    if c { seq![s] } else { Seq::empty() }
}

/// The strategies recommended, most expected improvement first: size when
/// access is slow, memory when over `MEMORY_ADVICE_BYTES`, hit rate when it
/// is low, prefetching and adaptive TTL when they are off.
pub open spec fn spec_recommended(
    low_hit_rate: bool,
    memory_bytes: usize,
    slow_access: bool,
    adaptive_ttl_enabled: bool,
    prefetching_enabled: bool,
) -> Seq<OptimizationStrategy> {
    when(slow_access, OptimizationStrategy::SizeOptimization)
        + when(memory_bytes > MEMORY_ADVICE_BYTES, OptimizationStrategy::MemoryOptimization)
        + when(low_hit_rate, OptimizationStrategy::HitRateOptimization)
        + when(!prefetching_enabled, OptimizationStrategy::PrefetchOptimization)
        + when(!adaptive_ttl_enabled, OptimizationStrategy::AdaptiveTTL)
}

/// The recommendation for one strategy.
pub fn recommendation_for(strategy: OptimizationStrategy) -> (r: OptimizationRecommendation)
    ensures
        r.strategy == strategy,
        describes(r),
{
    match strategy {
        OptimizationStrategy::HitRateOptimization => OptimizationRecommendation {
            strategy,
            expected_improvement_pct: 15,
            confidence_pct: 80,
            difficulty: 3,
            description: "Optimize cache hit rate through better TTL management and prefetching".to_string(),
            estimated_time_minutes: 30,
        },
        OptimizationStrategy::MemoryOptimization => OptimizationRecommendation {
            strategy,
            expected_improvement_pct: 20,
            confidence_pct: 90,
            difficulty: 2,
            description: "Reduce memory usage through better eviction policies".to_string(),
            estimated_time_minutes: 15,
        },
        OptimizationStrategy::SizeOptimization => OptimizationRecommendation {
            strategy,
            expected_improvement_pct: 25,
            confidence_pct: 70,
            difficulty: 4,
            description: "Optimize cache size and data structures for faster access".to_string(),
            estimated_time_minutes: 45,
        },
        OptimizationStrategy::AdaptiveTTL => OptimizationRecommendation {
            strategy,
            expected_improvement_pct: 10,
            confidence_pct: 85,
            difficulty: 1,
            description: "Enable adaptive TTL based on access patterns".to_string(),
            estimated_time_minutes: 10,
        },
        OptimizationStrategy::PrefetchOptimization => OptimizationRecommendation {
            strategy,
            expected_improvement_pct: 12,
            confidence_pct: 75,
            difficulty: 3,
            description: "Enable intelligent prefetching for frequently accessed data".to_string(),
            estimated_time_minutes: 25,
        },
    }
}

fn push_if(out: &mut Vec<OptimizationRecommendation>, c: bool, s: OptimizationStrategy)
    ensures
        final(out)@.len() == old(out)@.len() + if c { 1int } else { 0int },
        forall|i: int| 0 <= i < old(out)@.len() ==> #[trigger] final(out)@[i] == old(out)@[i],
        c ==> final(out)@.last().strategy == s && describes(final(out)@.last()),
{
    if c {
        let r = recommendation_for(s);
        out.push(r);
    }
}

/// The optimisation recommendations for the measured performance, sorted
/// by expected improvement, largest first.
pub fn recommend_optimizations(
    low_hit_rate: bool,
    memory_bytes: usize,
    slow_access: bool,
    adaptive_ttl_enabled: bool,
    prefetching_enabled: bool,
) -> (r: Vec<OptimizationRecommendation>)
    ensures
        r@.map_values(|x: OptimizationRecommendation| x.strategy)
            == spec_recommended(low_hit_rate, memory_bytes, slow_access, adaptive_ttl_enabled, prefetching_enabled),
        forall|i: int| 0 <= i < r@.len() ==> describes(#[trigger] r@[i]),
        forall|i: int, j: int| 0 <= i < j < r@.len() ==>
            r@[i].expected_improvement_pct > r@[j].expected_improvement_pct,
{
    let mut out: Vec<OptimizationRecommendation> = Vec::new();
    push_if(&mut out, slow_access, OptimizationStrategy::SizeOptimization);
    push_if(&mut out, memory_bytes > MEMORY_ADVICE_BYTES, OptimizationStrategy::MemoryOptimization);
    push_if(&mut out, low_hit_rate, OptimizationStrategy::HitRateOptimization);
    push_if(&mut out, !prefetching_enabled, OptimizationStrategy::PrefetchOptimization);
    push_if(&mut out, !adaptive_ttl_enabled, OptimizationStrategy::AdaptiveTTL);
    proof {
        let spec = spec_recommended(low_hit_rate, memory_bytes, slow_access, adaptive_ttl_enabled, prefetching_enabled);
        assert(out@.map_values(|x: OptimizationRecommendation| x.strategy) =~= spec);
    }
    out
}

/// One operation of the cache benchmark.
#[derive(Debug, Clone, Copy, PartialEq, Eq, Structural)]
pub enum BenchmarkStep {
    /// Store a value under the numbered key.
    Store { key_index: u64 },
    /// Look up the numbered key.
    Lookup { key_index: u64 },
}

/// The benchmark's `operation`-th step: every third operation, starting
/// with the first, stores; the others look up. Keys cycle through
/// `BENCHMARK_KEYS` numbers.
pub fn benchmark_step(operation: u64) -> (r: BenchmarkStep)
    ensures
        r == (if operation % 3 == 0 {
            BenchmarkStep::Store { key_index: operation % BENCHMARK_KEYS }
        } else {
            BenchmarkStep::Lookup { key_index: operation % BENCHMARK_KEYS }
        }),
{
    let key_index = operation % BENCHMARK_KEYS;
    if operation % 3 == 0 {
        BenchmarkStep::Store { key_index }
    } else {
        BenchmarkStep::Lookup { key_index }
    }
}

} // verus!
