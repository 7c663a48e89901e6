//! Cache monitoring: the totals gathered from the monitored query caches,
//! the bounded history of collected metrics, and the health check's
//! warnings, recommendations and score.
//!
//! Rates and access times are measured by the caller; the health check
//! takes the outcome of comparing them with their thresholds.
use vstd::prelude::*;
use crate::cached_query::CachedQueryStats;
use crate::history::push_bounded;

verus! {

/// Number of collected metric snapshots kept for trend analysis.
pub const METRICS_HISTORY_LIMIT: usize = 100;

/// Estimated memory per cache lookup, in bytes.
pub const BYTES_PER_LOOKUP: u64 = 1024;

/// Totals over all monitored query caches.
#[derive(Debug, Clone, Copy, PartialEq, Eq, Structural)]
pub struct MonitorTotals {
    pub hits: u64,
    pub misses: u64,
    pub queries_avoided: u64,
    pub db_queries: u64,
    /// Estimated memory in use: one KiB per lookup, hit or miss.
    pub memory_bytes: usize,
}

/// The sum of `f` over the counters of every cache in `s`.
pub open spec fn total_of(s: Seq<CachedQueryStats>, f: spec_fn(CachedQueryStats) -> nat) -> nat
    decreases s.len(),
{
    if s.len() == 0 {
        0
    } else {
        total_of(s.drop_last(), f) + f(s.last())
    }
}

pub open spec fn hits_field() -> spec_fn(CachedQueryStats) -> nat {
    |c: CachedQueryStats| c.cache_hits as nat
}

pub open spec fn misses_field() -> spec_fn(CachedQueryStats) -> nat {
    |c: CachedQueryStats| c.cache_misses as nat
}

pub open spec fn avoided_field() -> spec_fn(CachedQueryStats) -> nat {
    |c: CachedQueryStats| c.queries_avoided as nat
}

pub open spec fn db_field() -> spec_fn(CachedQueryStats) -> nat {
    |c: CachedQueryStats| c.db_queries as nat
}

/// The memory estimate of one cache: one KiB per lookup.
pub open spec fn memory_field() -> spec_fn(CachedQueryStats) -> nat {
    |c: CachedQueryStats| ((c.cache_hits + c.cache_misses) * 1024) as nat
}

/// A longer prefix never has a smaller total.
proof fn lemma_total_prefix(s: Seq<CachedQueryStats>, f: spec_fn(CachedQueryStats) -> nat, i: int, j: int)
    requires
        0 <= i <= j <= s.len(),
    ensures
        total_of(s.take(i), f) <= total_of(s.take(j), f),
    decreases j - i,
{
    if i < j {
        lemma_total_prefix(s, f, i, j - 1);
        assert(s.take(j).drop_last() =~= s.take(j - 1));
    }
}

/// The totals that metrics collection reads from the monitored caches.
/// The caller's sums must fit their counters, as each addition is checked.
pub fn aggregate_totals(stats: &Vec<CachedQueryStats>) -> (r: MonitorTotals)
    requires
        total_of(stats@, hits_field()) <= u64::MAX,
        total_of(stats@, misses_field()) <= u64::MAX,
        total_of(stats@, avoided_field()) <= u64::MAX,
        total_of(stats@, db_field()) <= u64::MAX,
        total_of(stats@, memory_field()) <= usize::MAX,
    ensures
        r.hits == total_of(stats@, hits_field()),
        r.misses == total_of(stats@, misses_field()),
        r.queries_avoided == total_of(stats@, avoided_field()),
        r.db_queries == total_of(stats@, db_field()),
        r.memory_bytes == total_of(stats@, memory_field()),
{
    let mut t = MonitorTotals { hits: 0, misses: 0, queries_avoided: 0, db_queries: 0, memory_bytes: 0 };
    let mut i: usize = 0;
    while i < stats.len()
        invariant
            i <= stats@.len(),
            total_of(stats@, hits_field()) <= u64::MAX,
            total_of(stats@, misses_field()) <= u64::MAX,
            total_of(stats@, avoided_field()) <= u64::MAX,
            total_of(stats@, db_field()) <= u64::MAX,
            total_of(stats@, memory_field()) <= usize::MAX,
            t.hits == total_of(stats@.take(i as int), hits_field()),
            t.misses == total_of(stats@.take(i as int), misses_field()),
            t.queries_avoided == total_of(stats@.take(i as int), avoided_field()),
            t.db_queries == total_of(stats@.take(i as int), db_field()),
            t.memory_bytes == total_of(stats@.take(i as int), memory_field()),
        decreases stats@.len() - i,
    {
        let c = stats[i];
        proof {
            let s = stats@;
            assert(s.take(i + 1).drop_last() =~= s.take(i as int));
            assert(s.take(s.len() as int) =~= s);
            lemma_total_prefix(s, hits_field(), i + 1, s.len() as int);
            lemma_total_prefix(s, misses_field(), i + 1, s.len() as int);
            lemma_total_prefix(s, avoided_field(), i + 1, s.len() as int);
            lemma_total_prefix(s, db_field(), i + 1, s.len() as int);
            lemma_total_prefix(s, memory_field(), i + 1, s.len() as int);
        }
        t.hits = t.hits + c.cache_hits;
        t.misses = t.misses + c.cache_misses;
        t.queries_avoided = t.queries_avoided + c.queries_avoided;
        t.db_queries = t.db_queries + c.db_queries;
        let lookups: u64 = c.cache_hits + c.cache_misses;
        let estimate: usize = (lookups * BYTES_PER_LOOKUP) as usize;
        t.memory_bytes = t.memory_bytes + estimate;
        i = i + 1;
    }
    proof {
        assert(stats@.take(stats@.len() as int) =~= stats@);
    }
    t
}

/// Stores a collected snapshot; when that makes more than
/// `METRICS_HISTORY_LIMIT` snapshots, the oldest one is dropped.
pub fn record_metrics<T>(history: &mut Vec<T>, snapshot: T)
    ensures
        final(history)@ == if old(history)@.len() + 1 > METRICS_HISTORY_LIMIT {
            old(history)@.push(snapshot).skip(1)
        } else {
            old(history)@.push(snapshot)
        },
{
    push_bounded(history, snapshot, METRICS_HISTORY_LIMIT);
}

/// What a health check found out of bounds.
#[derive(Debug, Clone, Copy, PartialEq, Eq, Structural)]
pub enum HealthWarning {
    /// The overall hit rate is under its minimum.
    LowHitRate,
    /// The memory in use is over its maximum share.
    HighMemoryUsage,
    /// The mean access time is over its maximum.
    SlowAccess,
}

impl HealthWarning {
    pub open spec fn spec_recommendation(&self) -> Seq<char> {
        match self {
            HealthWarning::LowHitRate => "Consider increasing cache TTL or enabling prefetching"@,
            HealthWarning::HighMemoryUsage => "Consider reducing cache size or enabling LRU eviction"@,
            HealthWarning::SlowAccess => "Consider optimizing cache data structures or reducing cache size"@,
        }
    }

    /// The optimisation recommended for this warning.
    pub fn recommendation(&self) -> (r: String)
        ensures
            r@ == self.spec_recommendation(),
    {
        match self {
            HealthWarning::LowHitRate => "Consider increasing cache TTL or enabling prefetching".to_string(),
            HealthWarning::HighMemoryUsage => "Consider reducing cache size or enabling LRU eviction".to_string(),
            HealthWarning::SlowAccess => "Consider optimizing cache data structures or reducing cache size".to_string(),
        }
    }
}

/// The warnings of a health check, in the order the checks run.
pub open spec fn spec_warnings(low_hit_rate: bool, high_memory: bool, slow_access: bool) -> Seq<HealthWarning> {
    (if low_hit_rate { seq![HealthWarning::LowHitRate] } else { Seq::empty() })
        + (if high_memory { seq![HealthWarning::HighMemoryUsage] } else { Seq::empty() })
        + (if slow_access { seq![HealthWarning::SlowAccess] } else { Seq::empty() })
}

/// Health score in tenths: full marks without warnings, otherwise half
/// marks less a tenth per warning, at most four tenths less.
pub open spec fn health_score_tenths(warnings: nat) -> nat {
    if warnings == 0 {
        10
    } else if warnings >= 4 {
        1
    } else {
        (5 - warnings) as nat
    }
}

/// The outcome of a health check.
pub struct HealthAssessment {
    pub warnings: Vec<HealthWarning>,
    /// One recommendation per warning, in the same order.
    pub recommendations: Vec<String>,
    /// The health score in tenths.
    pub score_tenths: u8,
}

fn push_warning(a: &mut HealthAssessment, w: HealthWarning)
    requires
        old(a).warnings@.len() < 3,
    ensures
        final(a).warnings@ == old(a).warnings@.push(w),
        final(a).recommendations@ == old(a).recommendations@.push(final(a).recommendations@.last()),
        final(a).recommendations@.last()@ == w.spec_recommendation(),
        final(a).score_tenths == old(a).score_tenths,
{
    a.warnings.push(w);
    let text = w.recommendation();
    a.recommendations.push(text);
}

/// The health check: a warning and a recommendation for each bound that
/// is exceeded (hit rate, then memory, then access time), and the score.
pub fn assess_health(low_hit_rate: bool, high_memory: bool, slow_access: bool) -> (r: HealthAssessment)
    ensures
        r.warnings@ == spec_warnings(low_hit_rate, high_memory, slow_access),
        r.recommendations@.len() == r.warnings@.len(),
        forall|i: int| 0 <= i < r.warnings@.len() ==>
            #[trigger] r.recommendations@[i]@ == r.warnings@[i].spec_recommendation(),
        r.score_tenths == health_score_tenths(r.warnings@.len()),
{
    let mut a = HealthAssessment { warnings: Vec::new(), recommendations: Vec::new(), score_tenths: 10 };
    if low_hit_rate {
        push_warning(&mut a, HealthWarning::LowHitRate);
    }
    if high_memory {
        push_warning(&mut a, HealthWarning::HighMemoryUsage);
    }
    if slow_access {
        push_warning(&mut a, HealthWarning::SlowAccess);
    }
    let n = a.warnings.len();
    a.score_tenths = if n == 0 { 10 } else { (5 - n) as u8 };
    proof {
        assert(a.warnings@ =~= spec_warnings(low_hit_rate, high_memory, slow_access));
    }
    a
}

} // verus!
