//! Validity of cached query results under the configured invalidation
//! strategy, the version tracker it consults, and the query counters.
//!
//! Times are milliseconds since the Unix epoch, durations milliseconds, all
//! supplied by the caller.
use vstd::prelude::*;
use crate::cache_key::{CacheKey, KeyView};
use crate::key_set::views_of;

verus! {

/// When a cached result stops being valid.
#[derive(Debug, Clone, Copy, PartialEq, Eq, Structural)]
pub enum CacheInvalidationStrategy {
    /// After a time to live, in milliseconds.
    TimeBased(u64),
    /// When a newer version is known for the key.
    VersionBased,
    /// When one of its dependencies is no longer known.
    DependencyBased,
    /// Only when invalidated by hand.
    Manual,
}

/// Configuration of the query cache.
#[derive(Debug, Clone, Copy, PartialEq, Eq, Structural)]
pub struct CachedQueryConfig {
    pub default_ttl_ms: u64,
    pub max_cache_size: usize,
    pub enable_prefetching: bool,
    pub prefetch_threshold: u32,
    pub enable_adaptive_ttl: bool,
    pub enable_cache_warming: bool,
    pub invalidation_strategy: CacheInvalidationStrategy,
}

impl Default for CachedQueryConfig {
    /// Five minutes to live, 10000 entries, prefetching after 3 accesses,
    /// adaptive lifetimes and warming on, results expiring after five
    /// minutes.
    fn default() -> (r: Self)
        ensures
            r == (CachedQueryConfig {
                default_ttl_ms: 300000,
                max_cache_size: 10000,
                enable_prefetching: true,
                prefetch_threshold: 3,
                enable_adaptive_ttl: true,
                enable_cache_warming: true,
                invalidation_strategy: CacheInvalidationStrategy::TimeBased(300000),
            }),
    {
        CachedQueryConfig {
            default_ttl_ms: 300000,
            max_cache_size: 10000,
            enable_prefetching: true,
            prefetch_threshold: 3,
            enable_adaptive_ttl: true,
            enable_cache_warming: true,
            invalidation_strategy: CacheInvalidationStrategy::TimeBased(300000),
        }
    }
}

/// A cached result with when it was stored, its version and the keys it
/// depends on.
pub struct CacheEntry<T> {
    pub data: T,
    pub cached_at_ms: i64,
    pub version: u64,
    pub dependencies: Vec<CacheKey>,
}

impl<T> CacheEntry<T> {
    /// A first version of `data` stored at `now_ms`.
    pub fn new(data: T, dependencies: Vec<CacheKey>, now_ms: i64) -> (r: Self)
        ensures
            r.data == data,
            r.cached_at_ms == now_ms,
            r.version == 1,
            r.dependencies@ == dependencies@,
    {
        CacheEntry { data, cached_at_ms: now_ms, version: 1, dependencies }
    }
}

/// The current version of each cached key.
pub struct VersionTracker {
    entries: Vec<(CacheKey, u64)>,
}

/// No key is known twice.
pub open spec fn versions_unique(s: Seq<(KeyView, u64)>) -> bool {
    forall|i: int, j: int| 0 <= i < s.len() && 0 <= j < s.len() && i != j ==> s[i].0 != s[j].0
}

/// The version known for `k`, if any.
pub open spec fn version_of(s: Seq<(KeyView, u64)>, k: KeyView) -> Option<u64> {
    if exists|i: int| 0 <= i < s.len() && s[i].0 == k {
        Some(s[choose|i: int| 0 <= i < s.len() && s[i].0 == k].1)
    } else {
        None
    }
}

/// Whether a result stored at `cached_at_ms` with `version` and depending
/// on `deps` is still valid for `key` at `now_ms`.
pub open spec fn spec_entry_valid(
    strategy: CacheInvalidationStrategy,
    known: Seq<(KeyView, u64)>,
    key: KeyView,
    cached_at_ms: i64,
    version: u64,
    deps: Seq<KeyView>,
    now_ms: i64,
) -> bool {
    match strategy {
        CacheInvalidationStrategy::TimeBased(ttl) => now_ms - cached_at_ms < ttl_limit(ttl),
        CacheInvalidationStrategy::VersionBased => match version_of(known, key) {
            Some(v) => version >= v,
            None => false,
        },
        CacheInvalidationStrategy::DependencyBased => forall|i: int|
            0 <= i < deps.len() ==> (#[trigger] version_of(known, deps[i])) is Some,
        CacheInvalidationStrategy::Manual => version_of(known, key) is Some,
    }
}

/// Under a time-based strategy a stored result is valid exactly while it is
/// younger than the configured time to live, whenever that is representable
/// (at most `i64::MAX` ms); only a longer one is taken as five minutes.
/// Versions, dependencies and the known versions play no part.
pub proof fn lemma_time_based_validity(
    ttl: u64,
    known: Seq<(KeyView, u64)>,
    key: KeyView,
    cached_at_ms: i64,
    version: u64,
    deps: Seq<KeyView>,
    now_ms: i64,
)
    ensures
        ttl <= i64::MAX ==> (spec_entry_valid(CacheInvalidationStrategy::TimeBased(ttl), known, key, cached_at_ms,
            version, deps, now_ms) <==> now_ms - cached_at_ms < ttl),
        ttl > i64::MAX ==> (spec_entry_valid(CacheInvalidationStrategy::TimeBased(ttl), known, key, cached_at_ms,
            version, deps, now_ms) <==> now_ms - cached_at_ms < 300000),
{
}

/// The time to live compared against: the given one, or five minutes when
/// it exceeds `i64::MAX` milliseconds.
pub open spec fn ttl_limit(ttl: u64) -> int {
    if ttl <= i64::MAX { ttl as int } else { 300000 }
}

impl VersionTracker {
    pub closed spec fn view(&self) -> Seq<(KeyView, u64)> {
        self.entries@.map_values(|e: (CacheKey, u64)| (e.0@, e.1))
    }

    pub open spec fn wf(&self) -> bool {
        versions_unique(self.view())
    }

    /// Nothing known.
    pub fn new() -> (r: Self)
        ensures
            r.wf(),
            r.view().len() == 0,
    {
        let r = VersionTracker { entries: Vec::new() };
        proof {
            assert(r.view() =~= Seq::<(KeyView, u64)>::empty());
        }
        r
    }

    fn position(&self, key: &CacheKey) -> (r: Option<usize>)
        requires
            self.wf(),
        ensures
            match r {
                Some(i) => i < self.view().len() && self.view()[i as int].0 == key@
                    && version_of(self.view(), key@) == Some(self.view()[i as int].1),
                None => version_of(self.view(), key@) is None,
            },
    {
        let mut i: usize = 0;
        while i < self.entries.len()
            invariant
                i <= self.entries@.len(),
                self.wf(),
                self.view().len() == self.entries@.len(),
                forall|j: int| 0 <= j < i ==> #[trigger] self.view()[j].0 != key@,
            decreases self.entries@.len() - i,
        {
            proof {
                assert(self.view()[i as int] == (self.entries@[i as int].0@, self.entries@[i as int].1));
            }
            if self.entries[i].0.same_as(key) {
                proof {
                    let s = self.view();
                    let c = choose|j: int| 0 <= j < s.len() && s[j].0 == key@;
                    assert(s[i as int].0 == key@);
                    assert(s[c].0 == key@);
                }
                return Some(i);
            }
            i = i + 1;
        }
        None
    }

    /// The version known for `key`, if any.
    pub fn get(&self, key: &CacheKey) -> (r: Option<u64>)
        requires
            self.wf(),
        ensures
            r == version_of(self.view(), key@),
    {
        match self.position(key) {
            Some(i) => Some(self.entries[i].1),
            None => None,
        }
    }

    /// Tracks `version` for `key`, replacing what was known.
    pub fn insert(&mut self, key: &CacheKey, version: u64)
        requires
            old(self).wf(),
        ensures
            final(self).wf(),
            version_of(final(self).view(), key@) == Some(version),
            forall|k: KeyView| k != key@ ==> #[trigger] version_of(final(self).view(), k) == version_of(old(self).view(), k),
    {
        let ghost s = self.view();
        match self.position(key) {
            Some(i) => {
                self.entries.set(i, (key.copy(), version));
                proof {
                    let t = self.view();
                    assert(t =~= s.update(i as int, (key@, version)));
                    lemma_version_update(s, i as int, key@, version);
                }
            },
            None => {
                self.entries.push((key.copy(), version));
                proof {
                    let t = self.view();
                    assert(t =~= s.push((key@, version)));
                    lemma_version_push(s, key@, version);
                }
            },
        }
    }

    /// Stops tracking `key`.
    pub fn remove(&mut self, key: &CacheKey)
        requires
            old(self).wf(),
        ensures
            final(self).wf(),
            version_of(final(self).view(), key@) is None,
            forall|k: KeyView| k != key@ ==> #[trigger] version_of(final(self).view(), k) == version_of(old(self).view(), k),
    {
        let ghost s = self.view();
        match self.position(key) {
            Some(i) => {
                self.entries.remove(i);
                proof {
                    let t = self.view();
                    assert(t =~= s.remove(i as int));
                    lemma_version_remove(s, i as int);
                }
            },
            None => {},
        }
    }

    /// Whether a cached result is still valid for `key` at `now_ms` under
    /// `strategy`: younger than its time to live; not older than the
    /// known version (and known); with every dependency still known;
    /// or, for manual invalidation, as long as its key has not been
    /// invalidated (its version is still known).
    pub fn is_entry_valid<T>(&self, strategy: CacheInvalidationStrategy, entry: &CacheEntry<T>, key: &CacheKey, now_ms: i64) -> (r: bool)
        requires
            self.wf(),
        ensures
            r == spec_entry_valid(strategy, self.view(), key@, entry.cached_at_ms, entry.version, views_of(entry.dependencies@), now_ms),
            strategy matches CacheInvalidationStrategy::TimeBased(ttl) ==> (ttl <= i64::MAX
                ==> (r <==> now_ms - entry.cached_at_ms < ttl)),
    {
        proof {
            if let CacheInvalidationStrategy::TimeBased(ttl) = strategy {
                lemma_time_based_validity(ttl, self.view(), key@, entry.cached_at_ms, entry.version,
                    views_of(entry.dependencies@), now_ms);
            }
        }
        match strategy {
            CacheInvalidationStrategy::TimeBased(ttl) => {
                let limit: i128 = if ttl <= 9223372036854775807u64 { ttl as i128 } else { 300000 };
                let elapsed: i128 = (now_ms as i128) - (entry.cached_at_ms as i128);
                elapsed < limit
            },
            CacheInvalidationStrategy::VersionBased => match self.get(key) {
                Some(v) => entry.version >= v,
                None => false,
            },
            CacheInvalidationStrategy::DependencyBased => {
                let ghost deps = views_of(entry.dependencies@);
                let mut i: usize = 0;
                while i < entry.dependencies.len()
                    invariant
                        i <= entry.dependencies@.len(),
                        self.wf(),
                        deps == views_of(entry.dependencies@),
                        strategy == CacheInvalidationStrategy::DependencyBased,
                        forall|j: int| 0 <= j < i ==> (#[trigger] version_of(self.view(), deps[j])) is Some,
                    decreases entry.dependencies@.len() - i,
                {
                    proof {
                        assert(deps[i as int] == entry.dependencies@[i as int]@);
                    }
                    if self.get(&entry.dependencies[i]).is_none() {
                        proof {
                            assert(version_of(self.view(), deps[i as int]) is None);
                        }
                        return false;
                    }
                    i = i + 1;
                }
                true
            },
            CacheInvalidationStrategy::Manual => self.get(key).is_some(),
        }
    }
}

proof fn lemma_version_update(s: Seq<(KeyView, u64)>, i: int, k: KeyView, v: u64)
    requires
        versions_unique(s),
        0 <= i < s.len(),
        s[i].0 == k,
    ensures
        versions_unique(s.update(i, (k, v))),
        version_of(s.update(i, (k, v)), k) == Some(v),
        forall|o: KeyView| o != k ==> #[trigger] version_of(s.update(i, (k, v)), o) == version_of(s, o),
{
    let t = s.update(i, (k, v));
    assert(t[i].0 == k);
    let c = choose|j: int| 0 <= j < t.len() && t[j].0 == k;
    assert(t[c].0 == k);
    assert forall|o: KeyView| o != k implies #[trigger] version_of(t, o) == version_of(s, o) by {
        if exists|j: int| 0 <= j < s.len() && s[j].0 == o {
            let p = choose|j: int| 0 <= j < s.len() && s[j].0 == o;
            assert(t[p].0 == o);
            let q = choose|j: int| 0 <= j < t.len() && t[j].0 == o;
            assert(t[q].0 == o);
        }
        if exists|j: int| 0 <= j < t.len() && t[j].0 == o {
            let q = choose|j: int| 0 <= j < t.len() && t[j].0 == o;
            assert(s[q].0 == o);
        }
    }
}

proof fn lemma_version_push(s: Seq<(KeyView, u64)>, k: KeyView, v: u64)
    requires
        versions_unique(s),
        version_of(s, k) is None,
    ensures
        versions_unique(s.push((k, v))),
        version_of(s.push((k, v)), k) == Some(v),
        forall|o: KeyView| o != k ==> #[trigger] version_of(s.push((k, v)), o) == version_of(s, o),
{
    let t = s.push((k, v));
    assert(t[s.len() as int].0 == k);
    let c = choose|j: int| 0 <= j < t.len() && t[j].0 == k;
    assert(t[c].0 == k);
    assert forall|o: KeyView| o != k implies #[trigger] version_of(t, o) == version_of(s, o) by {
        if exists|j: int| 0 <= j < s.len() && s[j].0 == o {
            let p = choose|j: int| 0 <= j < s.len() && s[j].0 == o;
            assert(t[p].0 == o);
            let q = choose|j: int| 0 <= j < t.len() && t[j].0 == o;
            assert(t[q].0 == o);
        }
        if exists|j: int| 0 <= j < t.len() && t[j].0 == o {
            let q = choose|j: int| 0 <= j < t.len() && t[j].0 == o;
            assert(s[q].0 == o);
        }
    }
}

proof fn lemma_version_remove(s: Seq<(KeyView, u64)>, i: int)
    requires
        versions_unique(s),
        0 <= i < s.len(),
    ensures
        versions_unique(s.remove(i)),
        version_of(s.remove(i), s[i].0) is None,
        forall|o: KeyView| o != s[i].0 ==> #[trigger] version_of(s.remove(i), o) == version_of(s, o),
{
    let t = s.remove(i);
    let k = s[i].0;
    assert forall|a: int, b: int| 0 <= a < t.len() && 0 <= b < t.len() && a != b implies t[a].0 != t[b].0 by {
        let sa = if a < i { a } else { a + 1 };
        let sb = if b < i { b } else { b + 1 };
        assert(t[a] == s[sa]);
        assert(t[b] == s[sb]);
    }
    if exists|j: int| 0 <= j < t.len() && t[j].0 == k {
        let q = choose|j: int| 0 <= j < t.len() && t[j].0 == k;
        let sq = if q < i { q } else { q + 1 };
        assert(t[q] == s[sq]);
    }
    assert forall|o: KeyView| o != k implies #[trigger] version_of(t, o) == version_of(s, o) by {
        if exists|j: int| 0 <= j < s.len() && s[j].0 == o {
            let p = choose|j: int| 0 <= j < s.len() && s[j].0 == o;
            assert(p != i);
            let tp = if p < i { p } else { p - 1 };
            assert(t[tp] == s[p]);
            let q = choose|j: int| 0 <= j < t.len() && t[j].0 == o;
            let sq = if q < i { q } else { q + 1 };
            assert(t[q] == s[sq]);
        }
        if exists|j: int| 0 <= j < t.len() && t[j].0 == o {
            let q = choose|j: int| 0 <= j < t.len() && t[j].0 == o;
            let sq = if q < i { q } else { q + 1 };
            assert(t[q] == s[sq]);
        }
    }
}

/// A result stored at the version just known for its key is valid under
/// version-based invalidation; once its key stops being known it is not.
pub proof fn lemma_version_validity(s: Seq<(KeyView, u64)>, key: KeyView, cached_at_ms: i64, version: u64, deps: Seq<KeyView>, now_ms: i64)
    requires
        version_of(s, key) == Some(version),
    ensures
        spec_entry_valid(CacheInvalidationStrategy::VersionBased, s, key, cached_at_ms, version, deps, now_ms),
{
}

/// Under manual invalidation a stored result stays valid while its key is
/// known and is invalid once its key has been invalidated (is no longer
/// known), whatever the time.
pub proof fn lemma_manual_invalidation(s: Seq<(KeyView, u64)>, key: KeyView, cached_at_ms: i64, version: u64, deps: Seq<KeyView>, now_ms: i64)
    ensures
        version_of(s, key) is Some ==> spec_entry_valid(CacheInvalidationStrategy::Manual, s, key, cached_at_ms, version, deps, now_ms),
        version_of(s, key) is None ==> !spec_entry_valid(CacheInvalidationStrategy::Manual, s, key, cached_at_ms, version, deps, now_ms),
{
}

/// Counters of the query cache (the hit rate is derived by the caller).
#[derive(Debug, Clone, Copy, PartialEq, Eq, Structural)]
pub struct CachedQueryStats {
    pub cache_hits: u64,
    pub cache_misses: u64,
    pub db_queries: u64,
    pub queries_avoided: u64,
    pub invalidations: u64,
    pub prefetches: u64,
}

impl CachedQueryStats {
    /// All counters at zero.
    pub fn new() -> (r: Self)
        ensures
            r == (CachedQueryStats { cache_hits: 0, cache_misses: 0, db_queries: 0, queries_avoided: 0, invalidations: 0, prefetches: 0 }),
    {
        CachedQueryStats { cache_hits: 0, cache_misses: 0, db_queries: 0, queries_avoided: 0, invalidations: 0, prefetches: 0 }
    }

    /// A lookup hit or missed the cache, and maybe queried the database.
    pub fn record_lookup(&mut self, is_hit: bool, is_db_query: bool)
        requires
            is_hit ==> old(self).cache_hits < u64::MAX,
            !is_hit ==> old(self).cache_misses < u64::MAX,
            is_db_query ==> old(self).db_queries < u64::MAX,
        ensures
            final(self).cache_hits == old(self).cache_hits + if is_hit { 1int } else { 0int },
            final(self).cache_misses == old(self).cache_misses + if is_hit { 0int } else { 1int },
            final(self).db_queries == old(self).db_queries + if is_db_query { 1int } else { 0int },
            final(self).queries_avoided == old(self).queries_avoided,
            final(self).invalidations == old(self).invalidations,
            final(self).prefetches == old(self).prefetches,
    {
        if is_hit {
            self.cache_hits = self.cache_hits + 1;
        } else {
            self.cache_misses = self.cache_misses + 1;
        }
        if is_db_query {
            self.db_queries = self.db_queries + 1;
        }
    }

    /// A key was invalidated.
    pub fn record_invalidation(&mut self)
        requires
            old(self).invalidations < u64::MAX,
        ensures
            *final(self) == (CachedQueryStats { invalidations: (old(self).invalidations + 1) as u64, ..*old(self) }),
    {
        self.invalidations = self.invalidations + 1;
    }

    /// A key was warmed.
    pub fn record_prefetch(&mut self)
        requires
            old(self).prefetches < u64::MAX,
        ensures
            *final(self) == (CachedQueryStats { prefetches: (old(self).prefetches + 1) as u64, ..*old(self) }),
    {
        self.prefetches = self.prefetches + 1;
    }

    /// A batch of `results` queries ran as one database query; all but one
    /// were avoided.
    pub fn record_batch(&mut self, results: u64)
        requires
            old(self).db_queries < u64::MAX,
            old(self).queries_avoided + results <= u64::MAX,
        ensures
            *final(self) == (CachedQueryStats {
                db_queries: (old(self).db_queries + 1) as u64,
                queries_avoided: (old(self).queries_avoided + if results > 0 { results - 1 } else { 0 }) as u64,
                ..*old(self)
            }),
    {
        self.db_queries = self.db_queries + 1;
        self.queries_avoided = self.queries_avoided + results.saturating_sub(1);
    }

    /// The counters as reported: queries avoided are the cache hits.
    pub fn reported(&self) -> (r: Self)
        ensures
            r == (CachedQueryStats { queries_avoided: self.cache_hits, ..*self }),
    {
        CachedQueryStats { queries_avoided: self.cache_hits, ..*self }
    }
}


/// Whether the cache's entry under `key` (if it holds one) is a valid hit at
/// `now_ms` under `strategy`, given the known versions `known`.
pub open spec fn cached_hit<T>(
    strategy: CacheInvalidationStrategy,
    known: Seq<(KeyView, u64)>,
    key: KeyView,
    cached: Option<CacheEntry<T>>,
    now_ms: i64,
) -> bool {
    match cached {
        Some(e) => spec_entry_valid(strategy, known, key, e.cached_at_ms, e.version, views_of(e.dependencies@), now_ms),
        None => false,
    }
}

/// The first step of a cached query for `key`, given the entry the cache
/// holds under it (if any) at `now_ms`. A valid entry is a hit: its data is
/// given back and one hit is counted. A stale entry is invalidated (its
/// version is forgotten and one invalidation is counted). A stale or missing
/// entry is a miss that queries the database: one miss and one database
/// query are counted, and `None` tells the caller to run the query.
pub fn lookup_cached<T>(
    tracker: &mut VersionTracker,
    stats: &mut CachedQueryStats,
    strategy: CacheInvalidationStrategy,
    key: &CacheKey,
    cached: Option<CacheEntry<T>>,
    now_ms: i64,
) -> (r: Option<T>)
    requires
        old(tracker).wf(),
        cached_hit(strategy, old(tracker).view(), key@, cached, now_ms) ==> old(stats).cache_hits < u64::MAX,
        !cached_hit(strategy, old(tracker).view(), key@, cached, now_ms) ==> old(stats).cache_misses < u64::MAX
            && old(stats).db_queries < u64::MAX,
        cached is Some && !cached_hit(strategy, old(tracker).view(), key@, cached, now_ms)
            ==> old(stats).invalidations < u64::MAX,
    ensures
        final(tracker).wf(),
        cached_hit(strategy, old(tracker).view(), key@, cached, now_ms) ==> r == Some(cached->0.data)
            && final(tracker).view() == old(tracker).view()
            && *final(stats) == (CachedQueryStats { cache_hits: (old(stats).cache_hits + 1) as u64, ..*old(stats) }),
        strategy matches CacheInvalidationStrategy::TimeBased(ttl) ==> (ttl <= i64::MAX && cached is Some
            && now_ms - cached->0.cached_at_ms < ttl ==> r == Some(cached->0.data)),
        strategy matches CacheInvalidationStrategy::TimeBased(ttl) ==> (ttl <= i64::MAX && cached is Some
            && now_ms - cached->0.cached_at_ms >= ttl ==> r is None),
        cached is None ==> r is None && final(tracker).view() == old(tracker).view()
            && *final(stats) == (CachedQueryStats {
                cache_misses: (old(stats).cache_misses + 1) as u64,
                db_queries: (old(stats).db_queries + 1) as u64,
                ..*old(stats)
            }),
        cached is Some && !cached_hit(strategy, old(tracker).view(), key@, cached, now_ms) ==> r is None
            && version_of(final(tracker).view(), key@) is None
            && (forall|k: KeyView| k != key@ ==> #[trigger] version_of(final(tracker).view(), k)
                == version_of(old(tracker).view(), k))
            && *final(stats) == (CachedQueryStats {
                cache_misses: (old(stats).cache_misses + 1) as u64,
                db_queries: (old(stats).db_queries + 1) as u64,
                invalidations: (old(stats).invalidations + 1) as u64,
                ..*old(stats)
            }),
{
    match cached {
        Some(entry) => {
            if tracker.is_entry_valid(strategy, &entry, key, now_ms) {
                stats.record_lookup(true, false);
                return Some(entry.data);
            }
            tracker.remove(key);
            stats.record_invalidation();
            stats.record_lookup(false, true);
            None
        },
        None => {
            stats.record_lookup(false, true);
            None
        },
    }
}

/// The last step of a cached query that missed: the query's `data` becomes
/// a first-version entry stored at `now_ms` with its `dependencies`, and
/// version 1 is recorded for `key`.
pub fn store_query_result<T>(
    tracker: &mut VersionTracker,
    key: &CacheKey,
    data: T,
    dependencies: Vec<CacheKey>,
    now_ms: i64,
) -> (r: CacheEntry<T>)
    requires
        old(tracker).wf(),
    ensures
        final(tracker).wf(),
        r.data == data,
        r.cached_at_ms == now_ms,
        r.version == 1,
        r.dependencies@ == dependencies@,
        version_of(final(tracker).view(), key@) == Some(1u64),
        forall|k: KeyView| k != key@ ==> #[trigger] version_of(final(tracker).view(), k) == version_of(old(tracker).view(), k),
{
    let entry = CacheEntry::new(data, dependencies, now_ms);
    tracker.insert(key, entry.version);
    entry
}

} // verus!
