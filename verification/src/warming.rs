//! Cache warming and prefetching decisions: access counts per key, the set
//! of keys worth warming, the bounded prefetch queue, and the order of
//! startup warming.
//!
//! Times are milliseconds since the Unix epoch, durations milliseconds, all
//! supplied by the caller.
use vstd::prelude::*;
use crate::cache_key::{CacheKey, KeyView};
use crate::history::{keep_recent, trim_to};
use crate::intelligent_cache::PrefetchPriority;
use crate::key_set::{views_of, KeySet};

verus! {

/// How keys are chosen for warming.
#[derive(Debug, Clone, Copy, PartialEq, Eq, Structural)]
pub enum WarmingStrategy {
    HistoricalPattern,
    Predictive,
    Configured,
    TimeBased,
    Behavioral,
}

/// How keys are chosen for prefetching.
#[derive(Debug, Clone, Copy, PartialEq, Eq, Structural)]
pub enum PrefetchStrategy {
    FrequencyBased,
    Sequential,
    GraphBased,
    TimeBased,
    Contextual,
}

/// Configuration of cache warming.
#[derive(Debug, Clone, Copy, PartialEq, Eq, Structural)]
pub struct WarmingConfig {
    pub enable_warming: bool,
    pub warming_strategy: WarmingStrategy,
    pub prefetch_strategy: PrefetchStrategy,
    pub max_warming_batch: usize,
    pub warming_interval_ms: u64,
    pub prefetch_threshold: u32,
    pub max_prefetch_queue: usize,
    pub prefetch_window_ms: u64,
}

impl Default for WarmingConfig {
    /// Warming on, by historical pattern, prefetching by frequency, batches
    /// of 100 every five minutes, a threshold of 3 accesses, a queue of
    /// 1000 prefetches looking one minute ahead.
    fn default() -> (r: Self)
        ensures
            r == (WarmingConfig {
                enable_warming: true,
                warming_strategy: WarmingStrategy::HistoricalPattern,
                prefetch_strategy: PrefetchStrategy::FrequencyBased,
                max_warming_batch: 100,
                warming_interval_ms: 300000,
                prefetch_threshold: 3,
                max_prefetch_queue: 1000,
                prefetch_window_ms: 60000,
            }),
    {
        WarmingConfig {
            enable_warming: true,
            warming_strategy: WarmingStrategy::HistoricalPattern,
            prefetch_strategy: PrefetchStrategy::FrequencyBased,
            max_warming_batch: 100,
            warming_interval_ms: 300000,
            prefetch_threshold: 3,
            max_prefetch_queue: 1000,
            prefetch_window_ms: 60000,
        }
    }
}

/// Priority class of a key at startup warming.
#[derive(Debug, Clone, Copy, PartialEq, Eq, Hash, Structural)]
pub enum WarmingPriority {
    Critical,
    High,
    Medium,
    Low,
}

/// Progress of a startup warming.
#[derive(Debug, Clone, Copy, PartialEq, Eq, Structural)]
pub struct WarmingProgress {
    pub total_keys: usize,
    pub warmed_keys: usize,
    pub failed_keys: usize,
    pub start_time_ms: Option<i64>,
    pub end_time_ms: Option<i64>,
}

impl Default for WarmingProgress {
    /// Nothing warmed, not started.
    fn default() -> (r: Self)
        ensures
            r == (WarmingProgress { total_keys: 0, warmed_keys: 0, failed_keys: 0, start_time_ms: None, end_time_ms: None }),
    {
        WarmingProgress { total_keys: 0, warmed_keys: 0, failed_keys: 0, start_time_ms: None, end_time_ms: None }
    }
}

/// Counters of warmings and prefetches (ratios are derived by the caller).
#[derive(Debug, Clone, Copy, PartialEq, Eq, Structural)]
pub struct WarmingStats {
    pub total_warmings: u64,
    pub successful_warmings: u64,
    pub failed_warmings: u64,
    pub total_prefetches: u64,
    pub successful_prefetches: u64,
    pub failed_prefetches: u64,
    pub prefetch_hits: u64,
}

/// A key expected to be read soon.
pub struct PrefetchItem {
    pub key: CacheKey,
    pub priority: u8,
    pub predicted_access_time_ms: i64,
    pub context: Vec<(String, String)>,
}

/// The queue rank of a prefetch recommended by the adaptive cache:
/// critical 5, high 4, medium 3, low 2.
pub fn prefetch_rank(p: PrefetchPriority) -> (r: u8)
    ensures
        r == (match p {
            PrefetchPriority::Critical => 5u8,
            PrefetchPriority::High => 4u8,
            PrefetchPriority::Medium => 3u8,
            PrefetchPriority::Low => 2u8,
        }),
{
    match p {
        PrefetchPriority::Critical => 5,
        PrefetchPriority::High => 4,
        PrefetchPriority::Medium => 3,
        PrefetchPriority::Low => 2,
    }
}

/// The look-ahead of the prefetch queue: the window, or one minute when it
/// is longer than `i64::MAX` milliseconds.
pub open spec fn effective_window_ms(window_ms: u64) -> int {
    if window_ms <= i64::MAX { window_ms as int } else { 60000 }
}

/// Whether an item predicted for `t_ms` is due at `now_ms`.
pub open spec fn is_due(t_ms: i64, now_ms: i64, window_ms: u64) -> bool {
    t_ms <= now_ms + effective_window_ms(window_ms)
}

/// An item is due exactly when its predicted time falls within the
/// configured window from now, whenever the window is representable (at
/// most `i64::MAX` ms); only a longer window is taken as one minute.
pub proof fn lemma_due_within_window(t_ms: i64, now_ms: i64, window_ms: u64)
    ensures
        window_ms <= i64::MAX ==> (is_due(t_ms, now_ms, window_ms) <==> t_ms <= now_ms + window_ms),
        window_ms > i64::MAX ==> (is_due(t_ms, now_ms, window_ms) <==> t_ms <= now_ms + 60000),
{
}

/// The prefetch queue, oldest first, never longer than its bound.
pub struct PrefetchQueue {
    items: Vec<PrefetchItem>,
}

impl PrefetchQueue {
    /// Each item's predicted time.
    pub closed spec fn spec_times(&self) -> Seq<i64> {
        self.items@.map_values(|i: PrefetchItem| i.predicted_access_time_ms)
    }

    /// Each item's key.
    pub closed spec fn spec_keys(&self) -> Seq<KeyView> {
        self.items@.map_values(|i: PrefetchItem| i.key@)
    }

    /// An empty queue.
    pub fn new() -> (r: Self)
        ensures
            r.spec_times().len() == 0,
            r.spec_keys().len() == 0,
    {
        let r = PrefetchQueue { items: Vec::new() };
        proof {
            assert(r.spec_times() =~= Seq::<i64>::empty());
            assert(r.spec_keys() =~= Seq::<KeyView>::empty());
        }
        r
    }

    /// The number of queued items.
    pub fn len(&self) -> (r: usize)
        ensures
            r == self.spec_times().len(),
    {
        self.items.len()
    }

    /// Queues an item at the end; while the queue is longer than `max`,
    /// the oldest items leave.
    pub fn push(&mut self, item: PrefetchItem, max: usize)
        ensures
            final(self).spec_times() == keep_recent(old(self).spec_times().push(item.predicted_access_time_ms), max as nat),
            final(self).spec_keys() == keep_recent(old(self).spec_keys().push(item.key@), max as nat),
    {
        let ghost t0 = self.spec_times();
        let ghost k0 = self.spec_keys();
        let ghost it = item.predicted_access_time_ms;
        let ghost kv = item.key@;
        self.items.push(item);
        let ghost all = self.items@;
        proof {
            assert(self.spec_times() =~= t0.push(it));
            assert(self.spec_keys() =~= k0.push(kv));
        }
        trim_to(&mut self.items, max);
        proof {
            assert(self.items@ == keep_recent(all, max as nat));
            assert(self.spec_times() =~= keep_recent(t0.push(it), max as nat));
            assert(self.spec_keys() =~= keep_recent(k0.push(kv), max as nat));
        }
    }

    /// Takes the items due at `now_ms` off the front of the queue, stopping
    /// at the first one that is not due.
    pub fn take_due(&mut self, now_ms: i64, window_ms: u64) -> (r: Vec<PrefetchItem>)
        ensures
            exists|k: int| 0 <= k <= old(self).spec_times().len()
                && (forall|i: int| 0 <= i < k ==> is_due(#[trigger] old(self).spec_times()[i], now_ms, window_ms))
                && (k < old(self).spec_times().len() ==> !is_due(old(self).spec_times()[k], now_ms, window_ms))
                && r@.map_values(|i: PrefetchItem| i.predicted_access_time_ms) == old(self).spec_times().take(k)
                && r@.map_values(|i: PrefetchItem| i.key@) == old(self).spec_keys().take(k)
                && final(self).spec_times() == old(self).spec_times().skip(k)
                && final(self).spec_keys() == old(self).spec_keys().skip(k),
            window_ms <= i64::MAX ==> forall|i: int| 0 <= i < r@.len()
                ==> (#[trigger] r@[i]).predicted_access_time_ms <= now_ms + window_ms,
            window_ms <= i64::MAX && r@.len() < old(self).spec_times().len()
                ==> old(self).spec_times()[r@.len() as int] > now_ms + window_ms,
            r@.len() + final(self).spec_times().len() == old(self).spec_times().len(),
    {
        let ghost s = self.items@;
        let limit: i128 = if window_ms <= 9223372036854775807u64 { window_ms as i128 } else { 60000 };
        let horizon: i128 = now_ms as i128 + limit;
        let mut out: Vec<PrefetchItem> = Vec::new();
        let mut k: usize = 0;
        let total = self.items.len();
        while self.items.len() > 0 && (self.items[0].predicted_access_time_ms as i128) <= horizon
            invariant
                k <= s.len(),
                total == s.len(),
                horizon == now_ms + effective_window_ms(window_ms),
                out@ == s.take(k as int),
                self.items@ == s.skip(k as int),
                forall|i: int| 0 <= i < k ==> is_due((#[trigger] s[i]).predicted_access_time_ms, now_ms, window_ms),
            decreases self.items@.len(),
        {
            let x = self.items.remove(0);
            out.push(x);
            k = k + 1;
            proof {
                assert(out@ =~= s.take(k as int));
                assert(self.items@ =~= s.skip(k as int));
            }
        }
        proof {
            let times = s.map_values(|i: PrefetchItem| i.predicted_access_time_ms);
            let keys = s.map_values(|i: PrefetchItem| i.key@);
            assert(out@.map_values(|i: PrefetchItem| i.predicted_access_time_ms) =~= times.take(k as int));
            assert(out@.map_values(|i: PrefetchItem| i.key@) =~= keys.take(k as int));
            assert(self.spec_times() =~= times.skip(k as int));
            assert(self.spec_keys() =~= keys.skip(k as int));
            if k < s.len() {
                assert(self.items@[0] == s[k as int]);
            }
            assert forall|i: int| 0 <= i < k implies is_due(#[trigger] times[i], now_ms, window_ms) by {
                assert(times[i] == s[i].predicted_access_time_ms);
            }
            let kk = k as int;
            assert(times =~= old(self).spec_times());
            assert(keys =~= old(self).spec_keys());
            if kk < times.len() {
                assert(times[kk] == s[kk].predicted_access_time_ms);
                assert(!is_due(times[kk], now_ms, window_ms));
            }
            assert(0 <= kk <= times.len()
                && (forall|i: int| 0 <= i < kk ==> is_due(#[trigger] times[i], now_ms, window_ms))
                && (kk < times.len() ==> !is_due(times[kk], now_ms, window_ms))
                && out@.map_values(|i: PrefetchItem| i.predicted_access_time_ms) == times.take(kk)
                && out@.map_values(|i: PrefetchItem| i.key@) == keys.take(kk)
                && self.spec_times() == times.skip(kk)
                && self.spec_keys() == keys.skip(kk));
        }
        out
    }
}

/// The access count and last access of a key.
#[derive(Debug, Clone, Copy, PartialEq, Eq, Structural)]
pub struct AccessCount {
    pub access_count: u64,
    pub last_access_ms: i64,
}

/// Access counts per key, the keys worth warming, and warming counters.
///
/// An access is timed against itself, so the hourly access frequency stays
/// at 0: no next access is ever predicted, and every tracked key warms at
/// low priority.
pub struct WarmingEngine {
    config: WarmingConfig,
    patterns: Vec<(CacheKey, AccessCount)>,
    candidates: KeySet,
    stats: WarmingStats,
    startup_keys: Vec<CacheKey>,
    priority_order: Vec<WarmingPriority>,
    startup_progress: WarmingProgress,
}

/// The number of `true` outcomes.
pub open spec fn count_true(s: Seq<bool>) -> nat
    decreases s.len(),
{
    if s.len() == 0 {
        0
    } else {
        count_true(s.drop_last()) + if s.last() { 1nat } else { 0nat }
    }
}

proof fn lemma_count_true_le(s: Seq<bool>)
    ensures
        count_true(s) <= s.len(),
    decreases s.len(),
{
    if s.len() > 0 {
        lemma_count_true_le(s.drop_last());
    }
}

/// No key is tracked twice.
pub open spec fn patterns_unique(s: Seq<(KeyView, AccessCount)>) -> bool {
    forall|i: int, j: int| 0 <= i < s.len() && 0 <= j < s.len() && i != j ==> s[i].0 != s[j].0
}

/// Whether `k` is tracked.
pub open spec fn is_tracked(s: Seq<(KeyView, AccessCount)>, k: KeyView) -> bool {
    exists|i: int| 0 <= i < s.len() && s[i].0 == k
}

/// The position of `k` (meaningful when tracked).
pub open spec fn tracked_pos(s: Seq<(KeyView, AccessCount)>, k: KeyView) -> int {
    choose|i: int| 0 <= i < s.len() && s[i].0 == k
}

/// The access count of `k` (0 when untracked).
pub open spec fn count_of(s: Seq<(KeyView, AccessCount)>, k: KeyView) -> nat {
    if is_tracked(s, k) { s[tracked_pos(s, k)].1.access_count as nat } else { 0 }
}

/// The startup priority of a key: low when tracked, medium otherwise.
/// A tracked key's access frequency is a running midpoint of `1 / h` over
/// the whole numbers of hours `h >= 1` between its accesses, starting from
/// 0, so it never exceeds one access per hour, the lowest threshold above
/// low priority.
pub open spec fn spec_key_priority(s: Seq<(KeyView, AccessCount)>, k: KeyView) -> WarmingPriority {
    if is_tracked(s, k) { WarmingPriority::Low } else { WarmingPriority::Medium }
}

/// The startup warming order: for each priority in `order`, the startup
/// keys of that priority, in startup order.
pub open spec fn startup_sequence(
    s: Seq<(KeyView, AccessCount)>,
    keys: Seq<KeyView>,
    order: Seq<WarmingPriority>,
) -> Seq<KeyView>
    decreases order.len(),
{
    if order.len() == 0 {
        Seq::empty()
    } else {
        startup_sequence(s, keys, order.drop_last()) + keys.filter(
            |k: KeyView| spec_key_priority(s, k) == order.last(),
        )
    }
}

impl WarmingEngine {
    pub closed spec fn spec_config(&self) -> WarmingConfig {
        self.config
    }

    pub closed spec fn spec_patterns(&self) -> Seq<(KeyView, AccessCount)> {
        self.patterns@.map_values(|e: (CacheKey, AccessCount)| (e.0@, e.1))
    }

    pub closed spec fn spec_candidates(&self) -> Seq<KeyView> {
        self.candidates.view()
    }

    pub closed spec fn spec_stats(&self) -> WarmingStats {
        self.stats
    }

    pub closed spec fn spec_startup_keys(&self) -> Seq<KeyView> {
        views_of(self.startup_keys@)
    }

    pub closed spec fn spec_priority_order(&self) -> Seq<WarmingPriority> {
        self.priority_order@
    }

    pub closed spec fn spec_startup_progress(&self) -> WarmingProgress {
        self.startup_progress
    }

    pub open spec fn wf(&self) -> bool {
        &&& patterns_unique(self.spec_patterns())
        &&& self.spec_candidates().no_duplicates()
    }

    /// A fresh engine: nothing tracked, no candidate, counters at zero,
    /// no startup keys, and startup priorities critical, high, medium, low.
    pub fn new(config: WarmingConfig) -> (r: Self)
        ensures
            r.wf(),
            r.spec_config() == config,
            r.spec_patterns().len() == 0,
            r.spec_candidates().len() == 0,
            r.spec_stats() == (WarmingStats {
                total_warmings: 0,
                successful_warmings: 0,
                failed_warmings: 0,
                total_prefetches: 0,
                successful_prefetches: 0,
                failed_prefetches: 0,
                prefetch_hits: 0,
            }),
            r.spec_startup_keys().len() == 0,
            r.spec_startup_progress() == (WarmingProgress {
                total_keys: 0,
                warmed_keys: 0,
                failed_keys: 0,
                start_time_ms: None,
                end_time_ms: None,
            }),
            r.spec_priority_order() == seq![
                WarmingPriority::Critical,
                WarmingPriority::High,
                WarmingPriority::Medium,
                WarmingPriority::Low,
            ],
    {
        let mut order: Vec<WarmingPriority> = Vec::new();
        order.push(WarmingPriority::Critical);
        order.push(WarmingPriority::High);
        order.push(WarmingPriority::Medium);
        order.push(WarmingPriority::Low);
        let r = WarmingEngine {
            config,
            patterns: Vec::new(),
            candidates: KeySet::new(),
            stats: WarmingStats {
                total_warmings: 0,
                successful_warmings: 0,
                failed_warmings: 0,
                total_prefetches: 0,
                successful_prefetches: 0,
                failed_prefetches: 0,
                prefetch_hits: 0,
            },
            startup_keys: Vec::new(),
            priority_order: order,
            startup_progress: WarmingProgress {
                total_keys: 0,
                warmed_keys: 0,
                failed_keys: 0,
                start_time_ms: None,
                end_time_ms: None,
            },
        };
        proof {
            assert(r.spec_patterns() =~= Seq::<(KeyView, AccessCount)>::empty());
            assert(r.spec_startup_keys() =~= Seq::<KeyView>::empty());
            assert(r.spec_priority_order() =~= seq![
                WarmingPriority::Critical,
                WarmingPriority::High,
                WarmingPriority::Medium,
                WarmingPriority::Low,
            ]);
        }
        r
    }

    /// The warming counters.
    pub fn stats(&self) -> (r: WarmingStats)
        ensures
            r == self.spec_stats(),
    {
        self.stats
    }

    /// The number of keys worth warming.
    pub fn candidate_count(&self) -> (r: usize)
        ensures
            r == self.spec_candidates().len(),
    {
        self.candidates.len()
    }

    /// The number of tracked keys.
    pub fn tracked_count(&self) -> (r: usize)
        ensures
            r == self.spec_patterns().len(),
    {
        self.patterns.len()
    }

    fn find(&self, key: &CacheKey) -> (r: Option<usize>)
        requires
            self.wf(),
        ensures
            match r {
                Some(i) => i < self.spec_patterns().len() && self.spec_patterns()[i as int].0 == key@
                    && is_tracked(self.spec_patterns(), key@) && tracked_pos(self.spec_patterns(), key@) == i,
                None => !is_tracked(self.spec_patterns(), key@),
            },
    {
        let mut i: usize = 0;
        while i < self.patterns.len()
            invariant
                i <= self.patterns@.len(),
                self.wf(),
                self.spec_patterns().len() == self.patterns@.len(),
                forall|j: int| 0 <= j < i ==> #[trigger] self.spec_patterns()[j].0 != key@,
            decreases self.patterns@.len() - i,
        {
            proof {
                assert(self.spec_patterns()[i as int] == (self.patterns@[i as int].0@, self.patterns@[i as int].1));
            }
            if self.patterns[i].0.same_as(key) {
                proof {
                    let p = tracked_pos(self.spec_patterns(), key@);
                    assert(is_tracked(self.spec_patterns(), key@));
                    assert(self.spec_patterns()[p].0 == key@);
                }
                return Some(i);
            }
            i = i + 1;
        }
        None
    }

    /// The access count of `key`, if tracked.
    pub fn access_count(&self, key: &CacheKey) -> (r: Option<AccessCount>)
        requires
            self.wf(),
        ensures
            match r {
                Some(c) => is_tracked(self.spec_patterns(), key@) && c == self.spec_patterns()[tracked_pos(self.spec_patterns(), key@)].1,
                None => !is_tracked(self.spec_patterns(), key@),
            },
    {
        match self.find(key) {
            Some(i) => Some(self.patterns[i].1),
            None => None,
        }
    }

    /// Records an access to `key` at `now_ms`: its count rises by one and
    /// its last access is now; once the count reaches the threshold the key
    /// becomes a warming candidate.
    pub fn record_access(&mut self, key: &CacheKey, now_ms: i64)
        requires
            old(self).wf(),
            count_of(old(self).spec_patterns(), key@) < u64::MAX,
        ensures
            final(self).wf(),
            is_tracked(final(self).spec_patterns(), key@),
            final(self).spec_patterns()[tracked_pos(final(self).spec_patterns(), key@)].1 == (AccessCount {
                access_count: (count_of(old(self).spec_patterns(), key@) + 1) as u64,
                last_access_ms: now_ms,
            }),
            forall|k: KeyView| k != key@ ==> (#[trigger] is_tracked(final(self).spec_patterns(), k)) == is_tracked(old(self).spec_patterns(), k)
                && count_of(final(self).spec_patterns(), k) == count_of(old(self).spec_patterns(), k),
            final(self).spec_candidates() == if count_of(old(self).spec_patterns(), key@) + 1 >= old(self).spec_config().prefetch_threshold
                && !old(self).spec_candidates().contains(key@) {
                old(self).spec_candidates().push(key@)
            } else {
                old(self).spec_candidates()
            },
            final(self).spec_config() == old(self).spec_config(),
            final(self).spec_stats() == old(self).spec_stats(),
            final(self).spec_startup_keys() == old(self).spec_startup_keys(),
            final(self).spec_priority_order() == old(self).spec_priority_order(),
    {
        let ghost s = self.spec_patterns();
        let count: u64 = match self.find(key) {
            Some(i) => {
                let c = self.patterns[i].1.access_count + 1;
                let entry = (self.patterns[i].0.copy(), AccessCount { access_count: c, last_access_ms: now_ms });
                self.patterns.set(i, entry);
                proof {
                    let t = self.spec_patterns();
                    assert(t =~= s.update(i as int, (key@, AccessCount { access_count: c, last_access_ms: now_ms })));
                    assert(t[i as int].0 == key@);
                    lemma_patterns_update(s, i as int, AccessCount { access_count: c, last_access_ms: now_ms });
                }
                c
            },
            None => {
                self.patterns.push((key.copy(), AccessCount { access_count: 1, last_access_ms: now_ms }));
                proof {
                    let t = self.spec_patterns();
                    assert(t =~= s.push((key@, AccessCount { access_count: 1, last_access_ms: now_ms })));
                    lemma_patterns_push(s, key@, AccessCount { access_count: 1, last_access_ms: now_ms });
                }
                1
            },
        };
        if count >= self.config.prefetch_threshold as u64 {
            self.candidates.insert(key);
        }
    }

    /// Marks `key` as a warming candidate.
    pub fn add_warming_candidate(&mut self, key: &CacheKey)
        requires
            old(self).wf(),
        ensures
            final(self).wf(),
            final(self).spec_candidates() == if old(self).spec_candidates().contains(key@) {
                old(self).spec_candidates()
            } else {
                old(self).spec_candidates().push(key@)
            },
            final(self).spec_patterns() == old(self).spec_patterns(),
            final(self).spec_stats() == old(self).spec_stats(),
    {
        self.candidates.insert(key);
    }

    /// Removes `key` from the warming candidates.
    pub fn remove_warming_candidate(&mut self, key: &CacheKey)
        requires
            old(self).wf(),
        ensures
            final(self).wf(),
            final(self).spec_candidates() == if old(self).spec_candidates().contains(key@) {
                old(self).spec_candidates().remove(old(self).spec_candidates().index_of(key@))
            } else {
                old(self).spec_candidates()
            },
            final(self).spec_patterns() == old(self).spec_patterns(),
            final(self).spec_stats() == old(self).spec_stats(),
    {
        self.candidates.remove(key);
    }

    /// The candidates of the next warming cycle: none when warming is off,
    /// otherwise the first `max_warming_batch` candidates.
    pub fn warming_batch(&self) -> (r: Vec<CacheKey>)
        ensures
            !self.spec_config().enable_warming ==> r@.len() == 0,
            self.spec_config().enable_warming ==> views_of(r@) == self.spec_candidates().take(
                if self.spec_config().max_warming_batch <= self.spec_candidates().len() {
                    self.spec_config().max_warming_batch as int
                } else {
                    self.spec_candidates().len() as int
                },
            ),
    {
        if !self.config.enable_warming {
            return Vec::new();
        }
        self.candidates.first_n(self.config.max_warming_batch)
    }

    /// A candidate of the warming cycle was warmed: counted as a successful
    /// warming, and, unless it was already cached, no longer a candidate.
    pub fn key_warmed(&mut self, key: &CacheKey, already_cached: bool)
        requires
            old(self).wf(),
            old(self).spec_stats().total_warmings < u64::MAX,
            old(self).spec_stats().successful_warmings < u64::MAX,
        ensures
            final(self).wf(),
            final(self).spec_stats() == (WarmingStats {
                total_warmings: (old(self).spec_stats().total_warmings + 1) as u64,
                successful_warmings: (old(self).spec_stats().successful_warmings + 1) as u64,
                ..old(self).spec_stats()
            }),
            final(self).spec_candidates() == if already_cached || !old(self).spec_candidates().contains(key@) {
                old(self).spec_candidates()
            } else {
                old(self).spec_candidates().remove(old(self).spec_candidates().index_of(key@))
            },
            final(self).spec_patterns() == old(self).spec_patterns(),
    {
        if !already_cached {
            self.candidates.remove(key);
        }
        self.stats.total_warmings = self.stats.total_warmings + 1;
        self.stats.successful_warmings = self.stats.successful_warmings + 1;
    }

    /// A warming failed: counted as a failed warming.
    pub fn warming_failed(&mut self)
        requires
            old(self).spec_stats().total_warmings < u64::MAX,
            old(self).spec_stats().failed_warmings < u64::MAX,
        ensures
            final(self).spec_stats() == (WarmingStats {
                total_warmings: (old(self).spec_stats().total_warmings + 1) as u64,
                failed_warmings: (old(self).spec_stats().failed_warmings + 1) as u64,
                ..old(self).spec_stats()
            }),
            final(self).spec_candidates() == old(self).spec_candidates(),
            final(self).spec_patterns() == old(self).spec_patterns(),
            final(self).wf() == old(self).wf(),
    {
        self.stats.total_warmings = self.stats.total_warmings + 1;
        self.stats.failed_warmings = self.stats.failed_warmings + 1;
    }

    /// A prefetch ran, successfully or not.
    pub fn prefetch_done(&mut self, succeeded: bool)
        requires
            old(self).spec_stats().total_prefetches < u64::MAX,
            succeeded ==> old(self).spec_stats().successful_prefetches < u64::MAX,
            !succeeded ==> old(self).spec_stats().failed_prefetches < u64::MAX,
        ensures
            final(self).spec_stats() == if succeeded {
                WarmingStats {
                    total_prefetches: (old(self).spec_stats().total_prefetches + 1) as u64,
                    successful_prefetches: (old(self).spec_stats().successful_prefetches + 1) as u64,
                    ..old(self).spec_stats()
                }
            } else {
                WarmingStats {
                    total_prefetches: (old(self).spec_stats().total_prefetches + 1) as u64,
                    failed_prefetches: (old(self).spec_stats().failed_prefetches + 1) as u64,
                    ..old(self).spec_stats()
                }
            },
            final(self).spec_candidates() == old(self).spec_candidates(),
            final(self).spec_patterns() == old(self).spec_patterns(),
            final(self).wf() == old(self).wf(),
    {
        self.stats.total_prefetches = self.stats.total_prefetches + 1;
        if succeeded {
            self.stats.successful_prefetches = self.stats.successful_prefetches + 1;
        } else {
            self.stats.failed_prefetches = self.stats.failed_prefetches + 1;
        }
    }

    /// Sets the keys warmed at startup and the order of their priority
    /// classes.
    pub fn configure_startup_warming(&mut self, keys: Vec<CacheKey>, priorities: Vec<WarmingPriority>)
        ensures
            final(self).spec_startup_keys() == views_of(keys@),
            final(self).spec_priority_order() == priorities@,
            final(self).spec_patterns() == old(self).spec_patterns(),
            final(self).spec_candidates() == old(self).spec_candidates(),
            final(self).spec_stats() == old(self).spec_stats(),
            final(self).wf() == old(self).wf(),
    {
        self.startup_keys = keys;
        self.priority_order = priorities;
    }

    /// The progress of the last startup warming.
    pub fn startup_warming_progress(&self) -> (r: WarmingProgress)
        ensures
            r == self.spec_startup_progress(),
    {
        self.startup_progress
    }

    /// When the last startup warming ended, if one has run.
    pub fn last_startup_warming(&self) -> (r: Option<i64>)
        ensures
            r == self.spec_startup_progress().end_time_ms,
    {
        self.startup_progress.end_time_ms
    }

    /// Records a startup warming that ran from `start_ms` to `end_ms` and
    /// warmed the keys of `startup_order`, each successfully (`true`) or
    /// not, as `outcomes` says in that order. Without startup keys nothing
    /// runs and the progress is the empty one. Otherwise every key counts
    /// as a warming, successful or failed, and the progress (all startup
    /// keys, those warmed, those failed, both times) is kept and returned.
    pub fn record_startup_warming(&mut self, outcomes: &Vec<bool>, start_ms: i64, end_ms: i64) -> (r: WarmingProgress)
        requires
            outcomes@.len() == startup_sequence(old(self).spec_patterns(), old(self).spec_startup_keys(),
                old(self).spec_priority_order()).len(),
            old(self).spec_stats().total_warmings + outcomes@.len() <= u64::MAX,
            old(self).spec_stats().successful_warmings + count_true(outcomes@) <= u64::MAX,
            old(self).spec_stats().failed_warmings + (outcomes@.len() - count_true(outcomes@)) <= u64::MAX,
        ensures
            final(self).spec_config() == old(self).spec_config(),
            final(self).spec_patterns() == old(self).spec_patterns(),
            final(self).spec_candidates() == old(self).spec_candidates(),
            final(self).spec_startup_keys() == old(self).spec_startup_keys(),
            final(self).spec_priority_order() == old(self).spec_priority_order(),
            final(self).wf() == old(self).wf(),
            old(self).spec_startup_keys().len() == 0 ==> r == (WarmingProgress {
                total_keys: 0,
                warmed_keys: 0,
                failed_keys: 0,
                start_time_ms: None,
                end_time_ms: None,
            }) && final(self).spec_stats() == old(self).spec_stats()
                && final(self).spec_startup_progress() == old(self).spec_startup_progress(),
            old(self).spec_startup_keys().len() > 0 ==> r == (WarmingProgress {
                total_keys: old(self).spec_startup_keys().len() as usize,
                warmed_keys: count_true(outcomes@) as usize,
                failed_keys: (outcomes@.len() - count_true(outcomes@)) as usize,
                start_time_ms: Some(start_ms),
                end_time_ms: Some(end_ms),
            }) && final(self).spec_stats() == (WarmingStats {
                total_warmings: (old(self).spec_stats().total_warmings + outcomes@.len()) as u64,
                successful_warmings: (old(self).spec_stats().successful_warmings + count_true(outcomes@)) as u64,
                failed_warmings: (old(self).spec_stats().failed_warmings + (outcomes@.len() - count_true(outcomes@))) as u64,
                ..old(self).spec_stats()
            }) && final(self).spec_startup_progress() == r,
    {
        if self.startup_keys.len() == 0 {
            return WarmingProgress { total_keys: 0, warmed_keys: 0, failed_keys: 0, start_time_ms: None, end_time_ms: None };
        }
        let mut warmed: usize = 0;
        let mut failed: usize = 0;
        let mut i: usize = 0;
        while i < outcomes.len()
            invariant
                i <= outcomes@.len(),
                warmed == count_true(outcomes@.take(i as int)),
                failed == i - count_true(outcomes@.take(i as int)),
            decreases outcomes@.len() - i,
        {
            proof {
                assert(outcomes@.take(i + 1).drop_last() =~= outcomes@.take(i as int));
                lemma_count_true_le(outcomes@.take(i as int));
            }
            if outcomes[i] {
                warmed = warmed + 1;
            } else {
                failed = failed + 1;
            }
            i = i + 1;
        }
        proof {
            assert(outcomes@.take(outcomes@.len() as int) =~= outcomes@);
            lemma_count_true_le(outcomes@);
        }
        let n = outcomes.len() as u64;
        self.stats.total_warmings = self.stats.total_warmings + n;
        self.stats.successful_warmings = self.stats.successful_warmings + warmed as u64;
        self.stats.failed_warmings = self.stats.failed_warmings + failed as u64;
        let progress = WarmingProgress {
            total_keys: self.startup_keys.len(),
            warmed_keys: warmed,
            failed_keys: failed,
            start_time_ms: Some(start_ms),
            end_time_ms: Some(end_ms),
        };
        self.startup_progress = progress;
        progress
    }

    /// The startup priority of `key`: low when it is tracked, medium
    /// otherwise.
    pub fn key_priority(&self, key: &CacheKey) -> (r: WarmingPriority)
        requires
            self.wf(),
        ensures
            r == spec_key_priority(self.spec_patterns(), key@),
    {
        match self.find(key) {
            Some(_) => WarmingPriority::Low,
            None => WarmingPriority::Medium,
        }
    }

    /// The startup keys in warming order: for each priority class of the
    /// configured order, the startup keys of that class in startup order.
    pub fn startup_order(&self) -> (r: Vec<CacheKey>)
        requires
            self.wf(),
        ensures
            views_of(r@) == startup_sequence(self.spec_patterns(), self.spec_startup_keys(), self.spec_priority_order()),
    {
        let ghost s = self.spec_patterns();
        let ghost keys = self.spec_startup_keys();
        let ghost order = self.spec_priority_order();
        let mut out: Vec<CacheKey> = Vec::new();
        let mut p: usize = 0;
        while p < self.priority_order.len()
            invariant
                p <= order.len(),
                self.wf(),
                s == self.spec_patterns(),
                keys == self.spec_startup_keys(),
                order == self.spec_priority_order(),
                views_of(out@) == startup_sequence(s, keys, order.take(p as int)),
            decreases order.len() - p,
        {
            let class = self.priority_order[p];
            let ghost f = |k: KeyView| spec_key_priority(s, k) == class;
            let ghost base = out@;
            let mut i: usize = 0;
            while i < self.startup_keys.len()
                invariant
                    i <= keys.len(),
                    self.wf(),
                    s == self.spec_patterns(),
                    keys == self.spec_startup_keys(),
                    keys.len() == self.startup_keys@.len(),
                    f == (|k: KeyView| spec_key_priority(s, k) == class),
                    views_of(out@) == views_of(base) + keys.take(i as int).filter(f),
                decreases keys.len() - i,
            {
                let ghost before = out@;
                proof {
                    assert(keys[i as int] == self.startup_keys@[i as int]@);
                    assert(keys.take(i + 1) =~= keys.take(i as int).push(keys[i as int]));
                    keys.take(i as int).lemma_filter_push(keys[i as int], f);
                }
                if self.key_priority(&self.startup_keys[i]) == class {
                    let c = self.startup_keys[i].copy();
                    out.push(c);
                    proof {
                        assert(views_of(out@) =~= views_of(before).push(c@));
                    }
                }
                i = i + 1;
            }
            proof {
                assert(keys.take(i as int) =~= keys);
                assert(order.take(p + 1).drop_last() =~= order.take(p as int));
                assert(order.take(p + 1).last() == class);
            }
            p = p + 1;
        }
        proof {
            assert(order.take(p as int) =~= order);
        }
        out
    }
}

proof fn lemma_patterns_update(s: Seq<(KeyView, AccessCount)>, i: int, c: AccessCount)
    requires
        patterns_unique(s),
        0 <= i < s.len(),
    ensures
        patterns_unique(s.update(i, (s[i].0, c))),
        is_tracked(s.update(i, (s[i].0, c)), s[i].0),
        tracked_pos(s.update(i, (s[i].0, c)), s[i].0) == i,
        forall|k: KeyView| k != s[i].0 ==> (#[trigger] is_tracked(s.update(i, (s[i].0, c)), k)) == is_tracked(s, k)
            && count_of(s.update(i, (s[i].0, c)), k) == count_of(s, k),
        tracked_pos(s, s[i].0) == i,
{
    let t = s.update(i, (s[i].0, c));
    assert(t[i].0 == s[i].0);
    let q = tracked_pos(t, s[i].0);
    assert(t[q].0 == s[i].0);
    let q0 = tracked_pos(s, s[i].0);
    assert(s[q0].0 == s[i].0);
    assert forall|k: KeyView| k != s[i].0 implies (#[trigger] is_tracked(t, k)) == is_tracked(s, k)
        && count_of(t, k) == count_of(s, k) by {
        if is_tracked(s, k) {
            let p = tracked_pos(s, k);
            assert(t[p].0 == k);
            let pt = tracked_pos(t, k);
            assert(t[pt].0 == k);
        }
        if is_tracked(t, k) {
            let pt = tracked_pos(t, k);
            assert(s[pt].0 == k);
        }
    }
}

proof fn lemma_patterns_push(s: Seq<(KeyView, AccessCount)>, key: KeyView, c: AccessCount)
    requires
        patterns_unique(s),
        !is_tracked(s, key),
    ensures
        patterns_unique(s.push((key, c))),
        is_tracked(s.push((key, c)), key),
        tracked_pos(s.push((key, c)), key) == s.len(),
        forall|k: KeyView| k != key ==> (#[trigger] is_tracked(s.push((key, c)), k)) == is_tracked(s, k)
            && count_of(s.push((key, c)), k) == count_of(s, k),
{
    let t = s.push((key, c));
    assert(t[s.len() as int].0 == key);
    let q = tracked_pos(t, key);
    assert(t[q].0 == key);
    assert forall|k: KeyView| k != key implies (#[trigger] is_tracked(t, k)) == is_tracked(s, k)
        && count_of(t, k) == count_of(s, k) by {
        if is_tracked(s, k) {
            let p = tracked_pos(s, k);
            assert(t[p].0 == k);
            let pt = tracked_pos(t, k);
            assert(t[pt].0 == k);
        }
        if is_tracked(t, k) {
            let pt = tracked_pos(t, k);
            assert(s[pt].0 == k);
        }
    }
}

/// A key accessed as often as the threshold is a warming candidate.
pub proof fn lemma_threshold_makes_candidate(old_candidates: Seq<KeyView>, key: KeyView, new_count: nat, threshold: u32)
    requires
        new_count >= threshold,
    ensures
        (if new_count >= threshold && !old_candidates.contains(key) {
            old_candidates.push(key)
        } else {
            old_candidates
        }).contains(key),
{
    if !old_candidates.contains(key) {
        assert(old_candidates.push(key)[old_candidates.len() as int] == key);
    }
}

} // verus!
