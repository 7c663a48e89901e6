//! Decisions of the adaptive cache that need no scoring: burst detection,
//! the order in which queued warm-ups run, grouping of batched queries,
//! and the counters reported for warm-ups, prefetches and queries.
//!
//! Instants are milliseconds on a monotonic clock, supplied by the caller.
use vstd::prelude::*;

verus! {

/// Kind of a suggested query optimisation.
#[derive(Debug, Clone, Copy, PartialEq, Eq, Structural)]
pub enum OptimizationType {
    CacheQuery,
    OptimizeQuery,
    BatchQueries,
}

/// How fresh cached data must be.
#[derive(Debug, Clone, Copy, PartialEq, Eq, Structural)]
pub enum DataFreshnessClass {
    Critical,
    Important,
    Normal,
    Cold,
}

/// Priority of a queued warm-up.
#[derive(Debug, Clone, Copy, PartialEq, Eq, Structural)]
pub enum WarmPriority {
    High,
    Medium,
    Low,
}

/// Kind of an access to a key.
#[derive(Debug, Clone, Copy, PartialEq, Eq, Structural)]
pub enum AccessType {
    Read,
    Write,
    Delete,
}

/// Priority of a prefetch, from lowest to highest.
#[derive(Debug, Clone, Copy, PartialEq, Eq, PartialOrd, Ord, Structural)]
pub enum PrefetchPriority {
    Low,
    Medium,
    High,
    Critical,
}

/// Outcome counts of a batch of prefetches.
#[derive(Debug, Clone, Copy, PartialEq, Eq, Structural)]
pub struct PrefetchResults {
    pub successful: u64,
    pub failed: u64,
    pub queued: u64,
}

impl Default for PrefetchResults {
    /// Nothing prefetched.
    fn default() -> (r: Self)
        ensures
            r == (PrefetchResults { successful: 0, failed: 0, queued: 0 }),
    {
        PrefetchResults { successful: 0, failed: 0, queued: 0 }
    }
}

impl PrefetchResults {
    /// Counts one prefetch that succeeded or failed.
    pub fn record(&mut self, succeeded: bool)
        requires
            succeeded ==> old(self).successful < u64::MAX,
            !succeeded ==> old(self).failed < u64::MAX,
        ensures
            *final(self) == if succeeded {
                PrefetchResults { successful: (old(self).successful + 1) as u64, ..*old(self) }
            } else {
                PrefetchResults { failed: (old(self).failed + 1) as u64, ..*old(self) }
            },
    {
        if succeeded {
            self.successful = self.successful + 1;
        } else {
            self.failed = self.failed + 1;
        }
    }
}

/// Accesses within this many milliseconds of a burst's start belong to it.
pub const BURST_WINDOW_MS: u64 = 60000;

/// Accesses in one burst from which the key counts as bursting.
pub const BURST_THRESHOLD: u32 = 5;

/// Detection of bursts of accesses to one key.
#[derive(Debug, Clone, Copy, PartialEq, Eq, Structural)]
pub struct BurstTracker {
    pub burst_count: u32,
    pub burst_start_ms: Option<u64>,
}

/// The tracker after an access at `now_ms`: an access within the window of
/// the current burst adds to it, any other starts a new burst.
pub open spec fn spec_after_access(b: BurstTracker, now_ms: u64) -> BurstTracker {
    match b.burst_start_ms {
        Some(start) => if (if now_ms >= start { now_ms - start } else { 0 }) < BURST_WINDOW_MS {
            BurstTracker { burst_count: (b.burst_count + 1) as u32, ..b }
        } else {
            BurstTracker { burst_count: 1, burst_start_ms: Some(now_ms) }
        },
        None => BurstTracker { burst_count: 1, burst_start_ms: Some(now_ms) },
    }
}

impl BurstTracker {
    /// No burst seen.
    pub fn new() -> (r: Self)
        ensures
            r == (BurstTracker { burst_count: 0, burst_start_ms: None }),
    {
        BurstTracker { burst_count: 0, burst_start_ms: None }
    }

    /// Records an access at `now_ms`.
    pub fn record_access(&mut self, now_ms: u64)
        requires
            old(self).burst_count < u32::MAX,
        ensures
            *final(self) == spec_after_access(*old(self), now_ms),
    {
        match self.burst_start_ms {
            Some(start) => {
                if now_ms.saturating_sub(start) < BURST_WINDOW_MS {
                    self.burst_count = self.burst_count + 1;
                } else {
                    self.burst_count = 1;
                    self.burst_start_ms = Some(now_ms);
                }
            },
            None => {
                self.burst_count = 1;
                self.burst_start_ms = Some(now_ms);
            },
        }
    }

    /// Whether the key is in a burst: at least `BURST_THRESHOLD` accesses
    /// in the current one.
    pub fn is_in_burst(&self) -> (r: bool)
        ensures
            r == (self.burst_count >= BURST_THRESHOLD),
    {
        self.burst_count >= BURST_THRESHOLD
    }
}

/// Accesses less than a window apart, all within one window of the first,
/// make a burst once there are `BURST_THRESHOLD` of them.
pub proof fn lemma_five_quick_accesses_burst(start: u64)
    requires
        start + 4 < u64::MAX,
    ensures
        spec_after_access(
            spec_after_access(
                spec_after_access(
                    spec_after_access(spec_after_access(BurstTracker { burst_count: 0, burst_start_ms: None }, start), (start + 1) as u64),
                    (start + 2) as u64,
                ),
                (start + 3) as u64,
            ),
            (start + 4) as u64,
        ).burst_count >= BURST_THRESHOLD,
{
}

/// The number of leading items that satisfy `p`.
pub open spec fn leading_run<T>(s: Seq<(WarmPriority, T)>, p: spec_fn(WarmPriority) -> bool) -> nat
    decreases s.len(),
{
    if s.len() == 0 {
        0
    } else if p(s[0].0) {
        1 + leading_run(s.skip(1), p)
    } else {
        0
    }
}

/// How many queued warm-ups run next: the leading high-priority ones; if
/// none, the leading ones that are not low priority; if none, one.
pub open spec fn warm_batch_len<T>(s: Seq<(WarmPriority, T)>) -> nat {
    let h = leading_run(s, |p: WarmPriority| p == WarmPriority::High);
    let m = leading_run(s, |p: WarmPriority| p != WarmPriority::Low);
    if h > 0 {
        h
    } else if m > 0 {
        m
    } else if s.len() > 0 {
        1
    } else {
        0
    }
}

proof fn lemma_leading_run_facts<T>(s: Seq<(WarmPriority, T)>, p: spec_fn(WarmPriority) -> bool)
    ensures
        leading_run(s, p) <= s.len(),
        forall|i: int| 0 <= i < leading_run(s, p) ==> p(#[trigger] s[i].0),
        leading_run(s, p) < s.len() ==> !p(s[leading_run(s, p) as int].0),
    decreases s.len(),
{
    if s.len() > 0 && p(s[0].0) {
        lemma_leading_run_facts(s.skip(1), p);
        assert forall|i: int| 0 <= i < leading_run(s, p) implies p(#[trigger] s[i].0) by {
            if i > 0 {
                assert(s[i] == s.skip(1)[i - 1]);
            }
        }
        if leading_run(s, p) < s.len() {
            assert(s[leading_run(s, p) as int] == s.skip(1)[leading_run(s.skip(1), p) as int]);
        }
    }
}

proof fn lemma_leading_run_exact<T>(s: Seq<(WarmPriority, T)>, p: spec_fn(WarmPriority) -> bool, k: int)
    requires
        0 <= k <= s.len(),
        forall|i: int| 0 <= i < k ==> p(#[trigger] s[i].0),
        k < s.len() ==> !p(s[k].0),
    ensures
        leading_run(s, p) == k,
    decreases s.len(),
{
    if k > 0 {
        assert forall|i: int| 0 <= i < k - 1 implies p(#[trigger] s.skip(1)[i].0) by {
            assert(s.skip(1)[i] == s[i + 1]);
        }
        if k - 1 < s.len() - 1 {
            assert(s.skip(1)[k - 1] == s[k]);
        }
        lemma_leading_run_exact(s.skip(1), p, k - 1);
    }
}

/// Queued warm-ups, each with its priority, in arrival order.
pub struct WarmQueue<T> {
    items: Vec<(WarmPriority, T)>,
}

impl<T> WarmQueue<T> {
    pub closed spec fn view(&self) -> Seq<(WarmPriority, T)> {
        self.items@
    }

    /// An empty queue.
    pub fn new() -> (r: Self)
        ensures
            r.view().len() == 0,
    {
        WarmQueue { items: Vec::new() }
    }

    /// The number of queued warm-ups.
    pub fn len(&self) -> (r: usize)
        ensures
            r == self.view().len(),
    {
        self.items.len()
    }

    /// Queues a warm-up at the end.
    pub fn push(&mut self, priority: WarmPriority, item: T)
        ensures
            final(self).view() == old(self).view().push((priority, item)),
    {
        self.items.push((priority, item));
    }

    /// Takes the warm-ups that run next off the front of the queue: the
    /// leading high-priority ones; failing those, the leading ones that are
    /// not low priority; failing those, a single one.
    pub fn take_next(&mut self) -> (r: Vec<(WarmPriority, T)>)
        ensures
            r@ == old(self).view().take(warm_batch_len(old(self).view()) as int),
            final(self).view() == old(self).view().skip(warm_batch_len(old(self).view()) as int),
    {
        let ghost s = self.items@;
        let n = self.items.len();
        let mut h: usize = 0;
        while h < n && self.items[h].0 == WarmPriority::High
            invariant
                h <= n,
                n == s.len(),
                self.items@ == s,
                forall|i: int| 0 <= i < h ==> (#[trigger] s[i]).0 == WarmPriority::High,
            decreases n - h,
        {
            h = h + 1;
        }
        let k = if h > 0 {
            h
        } else {
            let mut m: usize = 0;
            while m < n && self.items[m].0 != WarmPriority::Low
                invariant
                    m <= n,
                    n == s.len(),
                    self.items@ == s,
                    forall|i: int| 0 <= i < m ==> (#[trigger] s[i]).0 != WarmPriority::Low,
                decreases n - m,
            {
                m = m + 1;
            }
            proof {
                lemma_leading_run_exact(s, |p: WarmPriority| p != WarmPriority::Low, m as int);
            }
            if m > 0 {
                m
            } else if n > 0 {
                1
            } else {
                0
            }
        };
        proof {
            lemma_leading_run_exact(s, |p: WarmPriority| p == WarmPriority::High, h as int);
            assert(k == warm_batch_len(s));
        }
        let mut out: Vec<(WarmPriority, T)> = Vec::new();
        let mut taken: usize = 0;
        while taken < k
            invariant
                taken <= k,
                k <= s.len(),
                out@ == s.take(taken as int),
                self.items@ == s.skip(taken as int),
            decreases k - taken,
        {
            let x = self.items.remove(0);
            out.push(x);
            taken = taken + 1;
            proof {
                assert(out@ =~= s.take(taken as int));
                assert(self.items@ =~= s.skip(taken as int));
            }
        }
        out
    }
}

/// The warm-ups that run together all share one priority class: all high,
/// or (with no high one at the front) none low, or a single one.
pub proof fn lemma_warm_batch_shape<T>(s: Seq<(WarmPriority, T)>)
    ensures
        warm_batch_len(s) <= s.len(),
        s.len() > 0 ==> warm_batch_len(s) > 0,
        s.len() > 0 && s[0].0 == WarmPriority::High ==> forall|i: int|
            0 <= i < warm_batch_len(s) ==> (#[trigger] s[i]).0 == WarmPriority::High,
        forall|i: int| 0 <= i < warm_batch_len(s) && warm_batch_len(s) > 1 ==> (#[trigger] s[i]).0 != WarmPriority::Low,
{
    let ph = |p: WarmPriority| p == WarmPriority::High;
    let pm = |p: WarmPriority| p != WarmPriority::Low;
    lemma_leading_run_facts(s, ph);
    lemma_leading_run_facts(s, pm);
    if s.len() > 0 && s[0].0 == WarmPriority::High {
        assert(leading_run(s, ph) > 0);
    }
}

/// Counters of queued warm-ups (the mean time is kept by the caller).
#[derive(Debug, Clone, Copy, PartialEq, Eq, Structural)]
pub struct CacheWarmMetrics {
    pub total_warm_requests: u64,
    pub successful_warms: u64,
    pub failed_warms: u64,
    pub memory_overhead: usize,
}

impl CacheWarmMetrics {
    /// Nothing queued yet.
    pub fn new() -> (r: Self)
        ensures
            r == (CacheWarmMetrics { total_warm_requests: 0, successful_warms: 0, failed_warms: 0, memory_overhead: 0 }),
    {
        CacheWarmMetrics { total_warm_requests: 0, successful_warms: 0, failed_warms: 0, memory_overhead: 0 }
    }

    /// A warm-up was queued.
    pub fn record_request(&mut self)
        requires
            old(self).total_warm_requests < u64::MAX,
        ensures
            *final(self) == (CacheWarmMetrics { total_warm_requests: (old(self).total_warm_requests + 1) as u64, ..*old(self) }),
    {
        self.total_warm_requests = self.total_warm_requests + 1;
    }

    /// A warm-up ran, successfully or not.
    pub fn record_outcome(&mut self, succeeded: bool)
        requires
            succeeded ==> old(self).successful_warms < u64::MAX,
            !succeeded ==> old(self).failed_warms < u64::MAX,
        ensures
            *final(self) == if succeeded {
                CacheWarmMetrics { successful_warms: (old(self).successful_warms + 1) as u64, ..*old(self) }
            } else {
                CacheWarmMetrics { failed_warms: (old(self).failed_warms + 1) as u64, ..*old(self) }
            },
    {
        if succeeded {
            self.successful_warms = self.successful_warms + 1;
        } else {
            self.failed_warms = self.failed_warms + 1;
        }
    }
}

/// Queries grouped by query key for batched execution.
pub struct BatchGroups<T> {
    groups: Vec<(String, Vec<T>)>,
    /// When the open batch is due, if one is open.
    deadline_ms: Option<u64>,
}

/// The size of each group, in order.
pub open spec fn group_sizes<T>(g: Seq<(String, Vec<T>)>) -> Seq<nat> {
    g.map_values(|e: (String, Vec<T>)| e.1@.len())
}

/// Queries beyond the first of each group.
pub open spec fn beyond_first(sizes: Seq<nat>) -> nat
    decreases sizes.len(),
{
    if sizes.len() == 0 {
        0
    } else {
        beyond_first(sizes.drop_last()) + if sizes.last() > 0 { (sizes.last() - 1) as nat } else { 0nat }
    }
}

impl<T> BatchGroups<T> {
    pub closed spec fn spec_keys(&self) -> Seq<Seq<char>> {
        self.groups@.map_values(|e: (String, Vec<T>)| e.0@)
    }

    pub closed spec fn spec_sizes(&self) -> Seq<nat> {
        group_sizes(self.groups@)
    }

    pub closed spec fn spec_deadline(&self) -> Option<u64> {
        self.deadline_ms
    }

    /// Keys are distinct.
    pub open spec fn wf(&self) -> bool {
        &&& self.spec_keys().no_duplicates()
        &&& self.spec_keys().len() == self.spec_sizes().len()
    }

    /// No pending query and no open batch.
    pub fn new() -> (r: Self)
        ensures
            r.wf(),
            r.spec_keys().len() == 0,
            r.spec_deadline() is None,
    {
        let r = BatchGroups { groups: Vec::new(), deadline_ms: None };
        proof {
            assert(r.spec_keys() =~= Seq::<Seq<char>>::empty());
        }
        r
    }

    /// The number of queries beyond the first of each group: those a batch
    /// saves.
    pub fn total_pending_queries(&self) -> (r: usize)
        requires
            beyond_first(self.spec_sizes()) <= usize::MAX,
        ensures
            r == beyond_first(self.spec_sizes()),
    {
        let ghost sz = self.spec_sizes();
        let mut total: usize = 0;
        let mut i: usize = 0;
        while i < self.groups.len()
            invariant
                i <= self.groups@.len(),
                sz == group_sizes(self.groups@),
                sz.len() == self.groups@.len(),
                total == beyond_first(sz.subrange(0, i as int)),
                beyond_first(sz) <= usize::MAX,
            decreases self.groups@.len() - i,
        {
            proof {
                assert(sz.subrange(0, i + 1).drop_last() =~= sz.subrange(0, i as int));
                assert(sz[i as int] == self.groups@[i as int].1@.len());
                lemma_beyond_first_prefix(sz, i + 1);
            }
            let n = self.groups[i].1.len();
            total = total + n.saturating_sub(1);
            i = i + 1;
        }
        proof {
            assert(sz.subrange(0, i as int) =~= sz);
        }
        total
    }

    /// Adds a query under `key` at `now_ms`, opening a batch due
    /// `window_ms` later if none is open.
    pub fn add(&mut self, key: &String, item: T, now_ms: u64, window_ms: u64)
        requires
            old(self).wf(),
        ensures
            final(self).wf(),
            old(self).spec_keys().contains(key@) ==> final(self).spec_keys() == old(self).spec_keys()
                && final(self).spec_sizes() == old(self).spec_sizes().update(
                    old(self).spec_keys().index_of(key@),
                    old(self).spec_sizes()[old(self).spec_keys().index_of(key@)] + 1,
                ),
            !old(self).spec_keys().contains(key@) ==> final(self).spec_keys() == old(self).spec_keys().push(key@)
                && final(self).spec_sizes() == old(self).spec_sizes().push(1),
            final(self).spec_deadline() == match old(self).spec_deadline() {
                Some(d) => Some(d),
                None => Some(if now_ms + window_ms <= u64::MAX { (now_ms + window_ms) as u64 } else { u64::MAX }),
            },
    {
        let ghost ks = self.spec_keys();
        let ghost sz = self.spec_sizes();
        let mut i: usize = 0;
        let n = self.groups.len();
        while i < n && !(self.groups[i].0 == *key)
            invariant
                i <= n,
                n == self.groups@.len(),
                ks == self.spec_keys(),
                ks.len() == n,
                forall|j: int| 0 <= j < i ==> #[trigger] ks[j] != key@,
            decreases n - i,
        {
            i = i + 1;
        }
        if i < n {
            proof {
                assert(ks[i as int] == key@);
                ks.index_of_first_ensures(key@);
                let f = ks.index_of(key@);
                assert(ks[f] == key@);
                assert(f == i);
            }
            let (k, mut v) = self.groups.remove(i);
            v.push(item);
            self.groups.insert(i, (k, v));
            proof {
                assert(self.spec_keys() =~= ks);
                assert(self.spec_sizes() =~= sz.update(i as int, sz[i as int] + 1));
            }
        } else {
            proof {
                assert(!ks.contains(key@));
            }
            let mut v: Vec<T> = Vec::new();
            v.push(item);
            self.groups.push((key.clone(), v));
            proof {
                assert(self.spec_keys() =~= ks.push(key@));
                assert(self.spec_sizes() =~= sz.push(1));
            }
        }
        if self.deadline_ms.is_none() {
            self.deadline_ms = Some(match now_ms.checked_add(window_ms) {
                Some(d) => d,
                None => u64::MAX,
            });
        }
    }

    /// Whether the open batch is due at `now_ms`.
    pub fn should_execute(&self, now_ms: u64) -> (r: bool)
        ensures
            r == match self.spec_deadline() {
                Some(d) => now_ms >= d,
                None => false,
            },
    {
        match self.deadline_ms {
            Some(d) => now_ms >= d,
            None => false,
        }
    }

    /// Takes every group and closes the batch.
    pub fn take_all(&mut self) -> (r: Vec<(String, Vec<T>)>)
        ensures
            r@.map_values(|e: (String, Vec<T>)| e.0@) == old(self).spec_keys(),
            group_sizes(r@) == old(self).spec_sizes(),
            final(self).wf(),
            final(self).spec_keys().len() == 0,
            final(self).spec_deadline() is None,
    {
        let mut out: Vec<(String, Vec<T>)> = Vec::new();
        std::mem::swap(&mut out, &mut self.groups);
        self.deadline_ms = None;
        proof {
            assert(self.spec_keys() =~= Seq::<Seq<char>>::empty());
            assert(self.spec_sizes() =~= Seq::<nat>::empty());
        }
        out
    }
}

proof fn lemma_beyond_first_prefix(s: Seq<nat>, k: int)
    requires
        0 <= k <= s.len(),
    ensures
        beyond_first(s.subrange(0, k)) <= beyond_first(s),
    decreases s.len() - k,
{
    if k < s.len() {
        lemma_beyond_first_prefix(s, k + 1);
        assert(s.subrange(0, k + 1).drop_last() =~= s.subrange(0, k));
    } else {
        assert(s.subrange(0, k) =~= s);
    }
}

/// Counts of the queries seen and of those the cache answered.
#[derive(Debug, Clone, Copy, PartialEq, Eq, Structural)]
pub struct QueryCounts {
    pub total_queries: u64,
    pub cache_hits: u64,
}

impl QueryCounts {
    /// No query yet.
    pub fn new() -> (r: Self)
        ensures
            r == (QueryCounts { total_queries: 0, cache_hits: 0 }),
    {
        QueryCounts { total_queries: 0, cache_hits: 0 }
    }

    /// A query was made, answered by the cache or not.
    pub fn record_query(&mut self, was_cached: bool)
        requires
            old(self).total_queries < u64::MAX,
            was_cached ==> old(self).cache_hits < u64::MAX,
        ensures
            final(self).total_queries == old(self).total_queries + 1,
            final(self).cache_hits == old(self).cache_hits + if was_cached { 1int } else { 0int },
    {
        self.total_queries = self.total_queries + 1;
        if was_cached {
            self.cache_hits = self.cache_hits + 1;
        }
    }
}

} // verus!
