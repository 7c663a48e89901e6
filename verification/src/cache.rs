//! In-memory cache with per-entry expiry, access statistics, size tracking
//! and eviction when the cache is full.
//!
//! Keys are strings; time is a millisecond counter supplied by the caller.
use vstd::prelude::*;
use crate::size_tracker::{
    dist_count, dist_total, dist_wf, spec_average, spec_can_add, spec_counts_after_add, spec_counts_after_remove, SizeTracker,
    TrackerView,
};

verus! {

/// How the eviction victim is chosen when the cache is full.
#[derive(Debug, Clone, Copy, PartialEq, Eq, Structural)]
pub enum EvictionOrder {
    /// The entry accessed longest ago.
    LeastRecentlyUsed,
    /// The entry accessed the fewest times.
    LeastFrequentlyUsed,
    /// The entry the caller ranked lowest by a score of its own.
    ByScore,
}

/// One stored entry.
pub struct CacheEntry<V> {
    key: String,
    value: V,
    expires_at_ms: u64,
    access_count: u64,
    last_accessed_ms: u64,
    size_bytes: usize,
    created_at_ms: u64,
}

/// Abstract state of an entry.
pub struct EntryView<V> {
    pub key: Seq<char>,
    pub value: V,
    pub expires_at_ms: u64,
    pub access_count: u64,
    pub last_accessed_ms: u64,
    pub size_bytes: usize,
    pub created_at_ms: u64,
}

impl<V> CacheEntry<V> {
    pub closed spec fn view(&self) -> EntryView<V> {
        EntryView {
            key: self.key@,
            value: self.value,
            expires_at_ms: self.expires_at_ms,
            access_count: self.access_count,
            last_accessed_ms: self.last_accessed_ms,
            size_bytes: self.size_bytes,
            created_at_ms: self.created_at_ms,
        }
    }
}

/// Abstract state of a cache.
pub struct CacheView<V> {
    pub entries: Seq<EntryView<V>>,
    pub default_ttl_ms: u64,
    pub max_size: usize,
    pub order: EvictionOrder,
    pub tracker: TrackerView,
}

/// A cache of values of type `V` under string keys.
pub struct Cache<V> {
    entries: Vec<CacheEntry<V>>,
    default_ttl_ms: u64,
    max_size: usize,
    order: EvictionOrder,
    tracker: SizeTracker,
}

/// Counters reported by `Cache::stats`.
#[derive(Debug, Clone, Copy, PartialEq, Eq)]
pub struct CacheCounts {
    pub total_entries: usize,
    pub total_hits: u64,
    pub total_misses: u64,
    pub evictions: u64,
    pub memory_usage_estimate: usize,
}

/// Size statistics reported by `Cache::get_size_stats`.
pub struct SizeStats {
    pub total_entries: usize,
    pub total_size_bytes: usize,
    pub average_entry_size: usize,
    /// (size, count) pairs, one per distinct entry size.
    pub size_distribution: Vec<(usize, usize)>,
    pub eviction_order: EvictionOrder,
}

/// No two entries share a key.
pub open spec fn keys_unique<V>(s: Seq<EntryView<V>>) -> bool {
    forall|i: int, j: int| 0 <= i < s.len() && 0 <= j < s.len() && i != j ==> s[i].key != s[j].key
}

/// Whether some entry has key `k`.
pub open spec fn has_key<V>(s: Seq<EntryView<V>>, k: Seq<char>) -> bool {
    exists|i: int| 0 <= i < s.len() && s[i].key == k
}

/// Position of the entry with key `k` (meaningful when `has_key`).
pub open spec fn key_pos<V>(s: Seq<EntryView<V>>, k: Seq<char>) -> int {
    choose|i: int| 0 <= i < s.len() && s[i].key == k
}

/// The entry stored under `k`, if any.
pub open spec fn lookup<V>(s: Seq<EntryView<V>>, k: Seq<char>) -> Option<EntryView<V>> {
    if has_key(s, k) {
        Some(s[key_pos(s, k)])
    } else {
        None
    }
}

/// Stores `e` under its key: replaces the entry with that key, or appends.
pub open spec fn put<V>(s: Seq<EntryView<V>>, e: EntryView<V>) -> Seq<EntryView<V>> {
    if has_key(s, e.key) {
        s.update(key_pos(s, e.key), e)
    } else {
        s.push(e)
    }
}

/// The entry that an insertion at `now_ms` creates.
pub open spec fn new_entry<V>(key: Seq<char>, value: V, size: usize, ttl_ms: u64, now_ms: u64) -> EntryView<V> {
    EntryView {
        key,
        value,
        expires_at_ms: (now_ms + ttl_ms) as u64,
        access_count: 0,
        last_accessed_ms: now_ms,
        size_bytes: size,
        created_at_ms: now_ms,
    }
}

/// Whether storing an entry must first evict one: the cache is full, that
/// is, it holds `max_size` entries or more (and holds any).
pub open spec fn spec_needs_eviction<V>(v: CacheView<V>, size: usize) -> bool {
    &&& v.entries.len() > 0
    &&& v.entries.len() >= v.max_size
}

/// The most entries a cache of `max_size` holds: `max_size`, and one for a
/// cache of size 0 (which evicts before each store).
pub open spec fn entry_cap(max_size: usize) -> nat {
    if max_size == 0 { 1 } else { max_size as nat }
}

/// Whether the entry at `j` was accessed no later than any other.
pub open spec fn least_recent<V>(v: CacheView<V>, j: int) -> bool {
    forall|i: int| 0 <= i < v.entries.len() ==> v.entries[j].last_accessed_ms <= #[trigger] v.entries[i].last_accessed_ms
}

/// Whether the entry at `j` may be evicted under the cache's order.
pub open spec fn is_victim<V>(v: CacheView<V>, j: int, scored: Option<usize>) -> bool {
    &&& 0 <= j < v.entries.len()
    &&& match v.order {
        EvictionOrder::LeastRecentlyUsed => least_recent(v, j),
        EvictionOrder::LeastFrequentlyUsed => forall|i: int|
            0 <= i < v.entries.len() ==> v.entries[j].access_count <= #[trigger] v.entries[i].access_count,
        EvictionOrder::ByScore => if scored matches Some(k) && k < v.entries.len() {
            scored == Some(j as usize)
        } else {
            least_recent(v, j)
        },
    }
}

/// Whether an entry is still live at `now_ms`.
pub open spec fn live<V>(e: EntryView<V>, now_ms: u64) -> bool {
    now_ms <= e.expires_at_ms
}

/// The predicate "live at `now_ms`".
pub open spec fn live_at<V>(now_ms: u64) -> spec_fn(EntryView<V>) -> bool {
    |e: EntryView<V>| live(e, now_ms)
}

/// The entries that are live at `now_ms`, in order.
pub open spec fn keep_live<V>(s: Seq<EntryView<V>>, now_ms: u64) -> Seq<EntryView<V>> {
    s.filter(live_at(now_ms))
}

/// Sum of the access counts.
pub open spec fn sum_counts<V>(s: Seq<EntryView<V>>) -> nat
    decreases s.len(),
{
    if s.len() == 0 {
        0
    } else {
        sum_counts(s.drop_last()) + s.last().access_count as nat
    }
}

/// The cache after an access at `now_ms` to the live entry at `i`.
pub open spec fn touched<V>(s: Seq<EntryView<V>>, i: int, now_ms: u64) -> Seq<EntryView<V>> {
    s.update(i, EntryView {
        access_count: s[i].access_count.wrapping_add(1),
        last_accessed_ms: now_ms,
        ..s[i]
    })
}

proof fn lemma_lookup_pos<V>(s: Seq<EntryView<V>>, i: int)
    requires
        keys_unique(s),
        0 <= i < s.len(),
    ensures
        has_key(s, s[i].key),
        key_pos(s, s[i].key) == i,
        lookup(s, s[i].key) == Some(s[i]),
{
    assert(has_key(s, s[i].key));
}

/// Storing an entry keeps the keys distinct, makes it the entry under its key
/// and leaves every other key alone.
pub proof fn lemma_put<V>(s: Seq<EntryView<V>>, e: EntryView<V>)
    requires
        keys_unique(s),
    ensures
        keys_unique(put(s, e)),
        lookup(put(s, e), e.key) == Some(e),
        forall|k: Seq<char>| k != e.key ==> lookup(put(s, e), k) == lookup(s, k),
{
    let t = put(s, e);
    if has_key(s, e.key) {
        let p = key_pos(s, e.key);
        assert(keys_unique(t));
        lemma_lookup_pos(t, p);
        assert forall|k: Seq<char>| k != e.key implies lookup(t, k) == lookup(s, k) by {
            if has_key(s, k) {
                let q = key_pos(s, k);
                assert(t[q] == s[q]);
                lemma_lookup_pos(t, q);
            } else {
                if has_key(t, k) {
                    let q = key_pos(t, k);
                    assert(s[q].key == k);
                }
            }
        }
    } else {
        assert(keys_unique(t));
        lemma_lookup_pos(t, s.len() as int);
        assert forall|k: Seq<char>| k != e.key implies lookup(t, k) == lookup(s, k) by {
            if has_key(s, k) {
                let q = key_pos(s, k);
                assert(t[q] == s[q]);
                lemma_lookup_pos(t, q);
            } else {
                if has_key(t, k) {
                    let q = key_pos(t, k);
                    assert(q < s.len());
                    assert(s[q].key == k);
                }
            }
        }
    }
}

/// Removing the entry at `i` keeps the keys distinct, drops its key and leaves
/// every other key alone.
pub proof fn lemma_remove<V>(s: Seq<EntryView<V>>, i: int)
    requires
        keys_unique(s),
        0 <= i < s.len(),
    ensures
        keys_unique(s.remove(i)),
        lookup(s.remove(i), s[i].key) is None,
        forall|k: Seq<char>| k != s[i].key ==> lookup(s.remove(i), k) == lookup(s, k),
{
    let t = s.remove(i);
    assert forall|a: int, b: int| 0 <= a < t.len() && 0 <= b < t.len() && a != b implies t[a].key != t[b].key by {
        let aa = if a < i { a } else { a + 1 };
        let bb = if b < i { b } else { b + 1 };
        assert(t[a] == s[aa]);
        assert(t[b] == s[bb]);
    }
    if has_key(t, s[i].key) {
        let q = key_pos(t, s[i].key);
        let qq = if q < i { q } else { q + 1 };
        assert(t[q] == s[qq]);
    }
    assert forall|k: Seq<char>| k != s[i].key implies lookup(t, k) == lookup(s, k) by {
        if has_key(s, k) {
            let q = key_pos(s, k);
            let q2 = if q < i { q } else { q - 1 };
            assert(t[q2] == s[q]);
            lemma_lookup_pos(t, q2);
        } else {
            if has_key(t, k) {
                let q = key_pos(t, k);
                let qq = if q < i { q } else { q + 1 };
                assert(t[q] == s[qq]);
            }
        }
    }
}

/// The live entries are exactly the entries that have not expired.
pub proof fn lemma_keep_live<V>(s: Seq<EntryView<V>>, now_ms: u64)
    requires
        keys_unique(s),
    ensures
        keys_unique(keep_live(s, now_ms)),
        forall|k: Seq<char>| #[trigger] lookup(keep_live(s, now_ms), k) == (match lookup(s, k) {
            Some(e) => if live(e, now_ms) { Some(e) } else { None },
            None => None,
        }),
    decreases s.len(),
{
    broadcast use vstd::seq_lib::group_filter_ensures;
    let p = live_at::<V>(now_ms);
    if s.len() == 0 {
        reveal(Seq::filter);
        assert(keep_live(s, now_ms) =~= s);
    } else {
        let d = s.drop_last();
        let l = s.last();
        assert(keys_unique(d));
        lemma_keep_live(d, now_ms);
        let td = keep_live(d, now_ms);
        assert(d.push(l) =~= s);
        d.lemma_filter_push(l, p);
        // `l`'s key is nowhere else, neither in `d` nor in its live part.
        assert(!has_key(d, l.key)) by {
            if has_key(d, l.key) {
                let q = key_pos(d, l.key);
                assert(s[q] == d[q]);
            }
        }
        assert(!has_key(td, l.key)) by {
            if has_key(td, l.key) {
                let q = key_pos(td, l.key);
                assert(td.contains(td[q]));
                d.lemma_filter_contains_rev(p, td[q]);
                let r = choose|r: int| 0 <= r < d.len() && d[r] == td[q];
                assert(d[r].key == l.key);
            }
        }
        assert(put(d, l) == s);
        lemma_put(d, l);
        if live(l, now_ms) {
            assert(put(td, l) == keep_live(s, now_ms));
            lemma_put(td, l);
        } else {
            assert(td == keep_live(s, now_ms));
        }
    }
}

proof fn lemma_sum_counts_push<V>(s: Seq<EntryView<V>>, e: EntryView<V>)
    ensures
        sum_counts(s.push(e)) == sum_counts(s) + e.access_count,
{
    assert(s.push(e).drop_last() =~= s);
}

/// The bytes of the entries, summed.
pub open spec fn sum_sizes<V>(s: Seq<EntryView<V>>) -> nat
    decreases s.len(),
{
    if s.len() == 0 {
        0
    } else {
        sum_sizes(s.drop_last()) + s.last().size_bytes as nat
    }
}

/// How many entries have `size` bytes.
pub open spec fn count_size<V>(s: Seq<EntryView<V>>, size: usize) -> nat
    decreases s.len(),
{
    if s.len() == 0 {
        0
    } else {
        count_size(s.drop_last(), size) + if s.last().size_bytes == size { 1nat } else { 0nat }
    }
}

/// The size tracker describes exactly the stored entries: their number,
/// their bytes, the number of entries of each size (in ascending order of
/// size, the counts adding up to the number of entries), and the average.
pub open spec fn tracker_matches<V>(s: Seq<EntryView<V>>, t: TrackerView) -> bool {
    &&& t.total_entries == s.len()
    &&& t.total_size_bytes == sum_sizes(s)
    &&& forall|z: usize| #[trigger] dist_count(t.distribution, z) == count_size(s, z)
    &&& dist_total(t.distribution) == s.len()
    &&& t.average_entry_size == spec_average(t.total_size_bytes, t.total_entries)
    &&& dist_wf(t.distribution)
}

proof fn lemma_sizes_push<V>(s: Seq<EntryView<V>>, e: EntryView<V>)
    ensures
        sum_sizes(s.push(e)) == sum_sizes(s) + e.size_bytes,
        forall|z: usize| #[trigger] count_size(s.push(e), z) == count_size(s, z) + if e.size_bytes == z { 1nat } else { 0nat },
{
    assert(s.push(e).drop_last() =~= s);
}

proof fn lemma_sizes_remove<V>(s: Seq<EntryView<V>>, i: int)
    requires
        0 <= i < s.len(),
    ensures
        sum_sizes(s.remove(i)) + s[i].size_bytes == sum_sizes(s),
        forall|z: usize| #[trigger] count_size(s.remove(i), z) + (if s[i].size_bytes == z { 1nat } else { 0nat })
            == count_size(s, z),
    decreases s.len(),
{
    let r = s.remove(i);
    if i == s.len() - 1 {
        assert(r =~= s.drop_last());
        assert forall|z: usize| #[trigger] count_size(r, z) + (if s[i].size_bytes == z { 1nat } else { 0nat })
            == count_size(s, z) by {
            assert(count_size(s, z) == count_size(s.drop_last(), z) + if s.last().size_bytes == z { 1nat } else { 0nat });
        }
    } else {
        lemma_sizes_remove(s.drop_last(), i);
        assert(r.drop_last() =~= s.drop_last().remove(i));
        assert(r.last() == s.last());
        assert(s.drop_last()[i] == s[i]);
        assert forall|z: usize| #[trigger] count_size(r, z) + (if s[i].size_bytes == z { 1nat } else { 0nat })
            == count_size(s, z) by {
            assert(count_size(s, z) == count_size(s.drop_last(), z) + if s.last().size_bytes == z { 1nat } else { 0nat });
            assert(count_size(r, z) == count_size(r.drop_last(), z) + if r.last().size_bytes == z { 1nat } else { 0nat });
            assert(count_size(s.drop_last().remove(i), z) + (if s[i].size_bytes == z { 1nat } else { 0nat })
                == count_size(s.drop_last(), z));
        }
    }
}

proof fn lemma_sizes_update<V>(s: Seq<EntryView<V>>, i: int, e: EntryView<V>)
    requires
        0 <= i < s.len(),
    ensures
        sum_sizes(s.update(i, e)) + s[i].size_bytes == sum_sizes(s) + e.size_bytes,
        forall|z: usize| #[trigger] count_size(s.update(i, e), z) + (if s[i].size_bytes == z { 1nat } else { 0nat })
            == count_size(s, z) + (if e.size_bytes == z { 1nat } else { 0nat }),
    decreases s.len(),
{
    let u = s.update(i, e);
    if i == s.len() - 1 {
        assert(u.drop_last() =~= s.drop_last());
        assert forall|z: usize| #[trigger] count_size(u, z) + (if s[i].size_bytes == z { 1nat } else { 0nat })
            == count_size(s, z) + (if e.size_bytes == z { 1nat } else { 0nat }) by {
            assert(count_size(s, z) == count_size(s.drop_last(), z) + if s.last().size_bytes == z { 1nat } else { 0nat });
            assert(count_size(u, z) == count_size(u.drop_last(), z) + if u.last().size_bytes == z { 1nat } else { 0nat });
        }
    } else {
        lemma_sizes_update(s.drop_last(), i, e);
        assert(u.drop_last() =~= s.drop_last().update(i, e));
        assert(s.drop_last()[i] == s[i]);
        assert forall|z: usize| #[trigger] count_size(u, z) + (if s[i].size_bytes == z { 1nat } else { 0nat })
            == count_size(s, z) + (if e.size_bytes == z { 1nat } else { 0nat }) by {
            assert(count_size(s, z) == count_size(s.drop_last(), z) + if s.last().size_bytes == z { 1nat } else { 0nat });
            assert(count_size(u, z) == count_size(u.drop_last(), z) + if u.last().size_bytes == z { 1nat } else { 0nat });
            assert(count_size(s.drop_last().update(i, e), z) + (if s[i].size_bytes == z { 1nat } else { 0nat })
                == count_size(s.drop_last(), z) + (if e.size_bytes == z { 1nat } else { 0nat }));
        }
    }
}

/// What `SizeTracker::record_removed` guarantees of the tracker after
/// forgetting an entry of `size` bytes.
pub open spec fn tracker_removed(t: TrackerView, u: TrackerView, size: usize) -> bool {
    &&& u.total_entries == t.total_entries.saturating_sub(1)
    &&& u.total_size_bytes == t.total_size_bytes.saturating_sub(size)
    &&& u.average_entry_size == spec_average(u.total_size_bytes, u.total_entries)
    &&& forall|z: usize| #[trigger] dist_count(u.distribution, z) == spec_counts_after_remove(t, size, z)
    &&& dist_count(t.distribution, size) > 0 ==> dist_total(u.distribution) + 1 == dist_total(t.distribution)
    &&& dist_wf(u.distribution)
}

/// What `SizeTracker::record_added` guarantees of the tracker after
/// recording an entry of `size` bytes.
pub open spec fn tracker_added(t: TrackerView, u: TrackerView, size: usize) -> bool {
    &&& u.total_entries == t.total_entries + 1
    &&& u.total_size_bytes == t.total_size_bytes + size
    &&& u.average_entry_size == spec_average(u.total_size_bytes, u.total_entries)
    &&& forall|z: usize| #[trigger] dist_count(u.distribution, z) == spec_counts_after_add(t, size, z)
    &&& dist_total(u.distribution) == dist_total(t.distribution) + 1
    &&& dist_wf(u.distribution)
}

/// Forgetting the entry at `i` keeps the tracker describing the entries.
proof fn lemma_track_remove<V>(s: Seq<EntryView<V>>, i: int, t: TrackerView, u: TrackerView)
    requires
        tracker_matches(s, t),
        0 <= i < s.len(),
        tracker_removed(t, u, s[i].size_bytes),
    ensures
        tracker_matches(s.remove(i), u),
{
    lemma_sizes_remove(s, i);
    let z0 = s[i].size_bytes;
    assert(count_size(s.remove(i), z0) + 1 == count_size(s, z0));
    assert(count_size(s, z0) >= 1);
    assert(dist_count(t.distribution, z0) == count_size(s, z0));
    assert forall|z: usize| #[trigger] dist_count(u.distribution, z) == count_size(s.remove(i), z) by {
        assert(dist_count(t.distribution, z) == count_size(s, z));
    }
}

/// Recording a new last entry keeps the tracker describing the entries.
proof fn lemma_track_push<V>(s: Seq<EntryView<V>>, e: EntryView<V>, t: TrackerView, u: TrackerView)
    requires
        tracker_matches(s, t),
        tracker_added(t, u, e.size_bytes),
    ensures
        tracker_matches(s.push(e), u),
{
    lemma_sizes_push(s, e);
    assert forall|z: usize| #[trigger] dist_count(u.distribution, z) == count_size(s.push(e), z) by {
        assert(dist_count(t.distribution, z) == count_size(s, z));
    }
}

/// Forgetting the entry at `i` and recording `e` in its place keeps the
/// tracker describing the entries.
proof fn lemma_track_update<V>(s: Seq<EntryView<V>>, i: int, e: EntryView<V>, t: TrackerView, m: TrackerView, u: TrackerView)
    requires
        tracker_matches(s, t),
        0 <= i < s.len(),
        tracker_removed(t, m, s[i].size_bytes),
        tracker_added(m, u, e.size_bytes),
    ensures
        tracker_matches(s.update(i, e), u),
{
    lemma_track_remove(s, i, t, m);
    lemma_sizes_remove(s, i);
    lemma_sizes_update(s, i, e);
    assert forall|z: usize| #[trigger] dist_count(u.distribution, z) == count_size(s.update(i, e), z) by {
        assert(dist_count(m.distribution, z) == count_size(s.remove(i), z));
        assert(count_size(s.remove(i), z) + (if s[i].size_bytes == z { 1nat } else { 0nat }) == count_size(s, z));
    }
}

/// Touching an entry keeps its size, so the tracker still describes the
/// entries.
proof fn lemma_track_same_size<V>(s: Seq<EntryView<V>>, i: int, e: EntryView<V>, t: TrackerView)
    requires
        tracker_matches(s, t),
        0 <= i < s.len(),
        e.size_bytes == s[i].size_bytes,
    ensures
        tracker_matches(s.update(i, e), t),
{
    lemma_sizes_update(s, i, e);
    assert forall|z: usize| #[trigger] dist_count(t.distribution, z) == count_size(s.update(i, e), z) by {
        assert(dist_count(t.distribution, z) == count_size(s, z));
    }
}

impl<V> Cache<V> {
    /// The abstract state.
    pub closed spec fn view(&self) -> CacheView<V> {
        CacheView {
            entries: self.entries@.map_values(|e: CacheEntry<V>| e.view()),
            default_ttl_ms: self.default_ttl_ms,
            max_size: self.max_size,
            order: self.order,
            tracker: self.tracker@,
        }
    }

    /// Whether the internal invariants hold: distinct keys, at most
    /// `entry_cap(max_size)` entries, and a size tracker that describes the
    /// stored entries.
    pub closed spec fn wf(&self) -> bool {
        &&& keys_unique(self.view().entries)
        &&& self.tracker.wf()
        &&& tracker_matches(self.view().entries, self.view().tracker)
        &&& self.max_size * 1024 <= usize::MAX
        &&& self.view().entries.len() <= entry_cap(self.max_size)
    }

    /// What every valid cache keeps: distinct keys, at most
    /// `entry_cap(max_size)` entries, and a size tracker that describes the
    /// stored entries exactly.
    pub proof fn lemma_wf(&self)
        requires
            self.wf(),
        ensures
            keys_unique(self.view().entries),
            self.view().entries.len() <= entry_cap(self.view().max_size),
            tracker_matches(self.view().entries, self.view().tracker),
    {
    }

    /// A cache whose entries live `default_ttl_ms` by default and that holds
    /// at most `max_size` entries: storing into a full cache first evicts one.
    pub fn with_strategy(default_ttl_ms: u64, max_size: usize, order: EvictionOrder) -> (r: Self)
        requires
            max_size * 1024 <= usize::MAX,
        ensures
            r.wf(),
            r.view().entries.len() == 0,
            r.view().default_ttl_ms == default_ttl_ms,
            r.view().max_size == max_size,
            r.view().order == order,
            r.view().tracker.total_entries == 0,
            r.view().tracker.total_size_bytes == 0,
            r.view().tracker.average_entry_size == 0,
            forall|s: usize| dist_count(r.view().tracker.distribution, s) == 0,
    {
        let r = Cache {
            entries: Vec::new(),
            default_ttl_ms,
            max_size,
            order,
            tracker: SizeTracker::new(),
        };
        proof {
            assert(r.view().entries =~= Seq::empty());
        }
        r
    }

    /// A cache with the adaptive eviction order: the victim is the entry
    /// the caller scores lowest (the least recently used one when the caller
    /// names no entry).
    pub fn new(default_ttl_ms: u64, max_size: usize) -> (r: Self)
        requires
            max_size * 1024 <= usize::MAX,
        ensures
            r.wf(),
            r.view().entries.len() == 0,
            r.view().default_ttl_ms == default_ttl_ms,
            r.view().max_size == max_size,
            r.view().order == EvictionOrder::ByScore,
            r.view().tracker.total_entries == 0,
            r.view().tracker.total_size_bytes == 0,
    {
        Cache::with_strategy(default_ttl_ms, max_size, EvictionOrder::ByScore)
    }

    /// Number of entries.
    pub fn len(&self) -> (r: usize)
        ensures
            r == self.view().entries.len(),
    {
        self.entries.len()
    }

    /// Whether one more entry of `size_bytes` can be tracked without overflow.
    pub fn can_track(&self, size_bytes: usize) -> (r: bool)
        requires
            self.wf(),
        ensures
            r == spec_can_add(self.view().tracker, size_bytes),
    {
        self.tracker.can_add(size_bytes)
    }

    fn find(&self, key: &String) -> (r: Option<usize>)
        requires
            self.wf(),
        ensures
            match r {
                Some(i) => i < self.view().entries.len() && self.view().entries[i as int].key == key@
                    && has_key(self.view().entries, key@) && key_pos(self.view().entries, key@) == i,
                None => !has_key(self.view().entries, key@),
            },
    {
        let mut i: usize = 0;
        while i < self.entries.len()
            invariant
                i <= self.entries@.len(),
                self.wf(),
                forall|j: int| 0 <= j < i ==> self.view().entries[j].key != key@,
            decreases self.entries@.len() - i,
        {
            if self.entries[i].key == *key {
                proof {
                    lemma_lookup_pos(self.view().entries, i as int);
                }
                return Some(i);
            }
            i = i + 1;
        }
        None
    }

    fn least_recent_index(&self) -> (r: usize)
        requires
            self.view().entries.len() > 0,
        ensures
            r < self.view().entries.len(),
            least_recent(self.view(), r as int),
    {
        let mut best: usize = 0;
        let mut i: usize = 1;
        while i < self.entries.len()
            invariant
                1 <= i <= self.entries@.len(),
                best < i,
                forall|j: int| 0 <= j < i ==> self.view().entries[best as int].last_accessed_ms
                    <= #[trigger] self.view().entries[j].last_accessed_ms,
            decreases self.entries@.len() - i,
        {
            if self.entries[i].last_accessed_ms < self.entries[best].last_accessed_ms {
                best = i;
            }
            i = i + 1;
        }
        best
    }

    fn victim(&self, scored_victim: Option<usize>) -> (r: Option<usize>)
        requires
            self.wf(),
        ensures
            match r {
                Some(j) => is_victim(self.view(), j as int, scored_victim),
                None => self.view().entries.len() == 0,
            },
    {
        if self.entries.len() == 0 {
            return None;
        }
        match self.order {
            EvictionOrder::ByScore => match scored_victim {
                Some(j) => if j < self.entries.len() { Some(j) } else { Some(self.least_recent_index()) },
                None => Some(self.least_recent_index()),
            },
            EvictionOrder::LeastRecentlyUsed => Some(self.least_recent_index()),
            EvictionOrder::LeastFrequentlyUsed => {
                let mut best: usize = 0;
                let mut i: usize = 1;
                while i < self.entries.len()
                    invariant
                        1 <= i <= self.entries@.len(),
                        best < i,
                        forall|j: int| 0 <= j < i ==> self.view().entries[best as int].access_count
                            <= #[trigger] self.view().entries[j].access_count,
                    decreases self.entries@.len() - i,
                {
                    if self.entries[i].access_count < self.entries[best].access_count {
                        best = i;
                    }
                    i = i + 1;
                }
                Some(best)
            },
        }
    }

    /// Evicts one entry, chosen by the cache's order, from a full cache.
    fn evict_entries(&mut self, scored_victim: Option<usize>) -> (r: Option<usize>)
        requires
            old(self).wf(),
            old(self).view().entries.len() >= old(self).view().max_size,
        ensures
            final(self).wf(),
            final(self).view().default_ttl_ms == old(self).view().default_ttl_ms,
            final(self).view().max_size == old(self).view().max_size,
            final(self).view().order == old(self).view().order,
            match r {
                Some(j) => spec_needs_eviction(old(self).view(), 0)
                    && is_victim(old(self).view(), j as int, scored_victim)
                    && final(self).view().entries == old(self).view().entries.remove(j as int)
                    && final(self).view().tracker.total_entries == old(self).view().tracker.total_entries.saturating_sub(1)
                    && final(self).view().tracker.total_size_bytes == old(self).view().tracker.total_size_bytes.saturating_sub(
                        old(self).view().entries[j as int].size_bytes)
                    && final(self).view().tracker.average_entry_size == spec_average(
                        final(self).view().tracker.total_size_bytes, final(self).view().tracker.total_entries)
                    && forall|s: usize| dist_count(final(self).view().tracker.distribution, s)
                        == spec_counts_after_remove(old(self).view().tracker, old(self).view().entries[j as int].size_bytes, s),
                None => final(self).view() == old(self).view() && !spec_needs_eviction(old(self).view(), 0),
            },
    {
        match self.victim(scored_victim) {
            Some(j) => {
                let ghost before = self.view().entries;
                let ghost t0 = self.view().tracker;
                let removed = self.entries.remove(j);
                proof {
                    assert(self.view().entries =~= before.remove(j as int));
                    lemma_remove(before, j as int);
                }
                self.tracker.record_removed(removed.size_bytes);
                proof {
                    lemma_track_remove(before, j as int, t0, self.view().tracker);
                }
                Some(j)
            },
            None => None,
        }
    }

    /// Stores `value` under `key` for `ttl_ms` milliseconds from `now_ms`,
    /// recording `size_bytes` for it. When the cache is full (holds `max_size`
    /// entries) this first evicts one entry; under `EvictionOrder::ByScore`
    /// the victim is the position the caller ranked lowest, `scored_victim`,
    /// or the least recently used entry when that names no entry.
    pub fn insert_with_ttl(
        &mut self,
        key: String,
        value: V,
        size_bytes: usize,
        ttl_ms: u64,
        now_ms: u64,
        scored_victim: Option<usize>,
    )
        requires
            old(self).wf(),
            now_ms + ttl_ms <= u64::MAX,
            spec_can_add(old(self).view().tracker, size_bytes),
        ensures
            final(self).wf(),
            final(self).view().default_ttl_ms == old(self).view().default_ttl_ms,
            final(self).view().max_size == old(self).view().max_size,
            final(self).view().order == old(self).view().order,
            spec_needs_eviction(old(self).view(), size_bytes) ==> exists|j: int| #![trigger is_victim(old(self).view(), j, scored_victim)]
                is_victim(old(self).view(), j, scored_victim)
                && final(self).view().entries == put(old(self).view().entries.remove(j),
                    new_entry(key@, value, size_bytes, ttl_ms, now_ms)),
            !spec_needs_eviction(old(self).view(), size_bytes) ==>
                final(self).view().entries == put(old(self).view().entries,
                    new_entry(key@, value, size_bytes, ttl_ms, now_ms)),
            final(self).view().entries.len() <= entry_cap(final(self).view().max_size),
            tracker_matches(final(self).view().entries, final(self).view().tracker),
            lookup(final(self).view().entries, key@) == Some(new_entry(key@, value, size_bytes, ttl_ms, now_ms)),
    {
        let ghost old_view = self.view();
        let mut evicted: Option<usize> = None;
        if self.entries.len() >= self.max_size {
            evicted = self.evict_entries(scored_victim);
        }
        let ghost mid = self.view();
        proof {
            if evicted is None {
                assert(mid == old_view);
            }
        }
        let entry = CacheEntry {
            key,
            value,
            expires_at_ms: now_ms + ttl_ms,
            access_count: 0,
            last_accessed_ms: now_ms,
            size_bytes,
            created_at_ms: now_ms,
        };
        proof {
            assert(entry.view() == new_entry(entry.key@, entry.value, size_bytes, ttl_ms, now_ms));
            match evicted {
                Some(j) => {
                    let sz = old_view.entries[j as int].size_bytes;
                    assert(spec_counts_after_remove(old_view.tracker, sz, size_bytes) <= dist_count(old_view.tracker.distribution, size_bytes));
                },
                None => {},
            }
        }
        let ghost e = entry.view();
        let ghost t1 = self.view().tracker;
        proof {
            lemma_put(mid.entries, e);
        }
        match self.find(&entry.key) {
            Some(i) => {
                let old_size = self.entries[i].size_bytes;
                self.tracker.record_removed(old_size);
                let ghost t2 = self.view().tracker;
                proof {
                    assert(spec_counts_after_remove(t1, old_size, size_bytes) <= dist_count(t1.distribution, size_bytes));
                }
                self.tracker.record_added(size_bytes);
                self.entries.set(i, entry);
                proof {
                    assert(self.view().entries =~= mid.entries.update(i as int, e));
                    lemma_track_update(mid.entries, i as int, e, t1, t2, self.view().tracker);
                }
            },
            None => {
                self.tracker.record_added(size_bytes);
                self.entries.push(entry);
                proof {
                    assert(self.view().entries =~= mid.entries.push(e));
                    lemma_track_push(mid.entries, e, t1, self.view().tracker);
                }
            },
        }
        proof {
            assert(self.view().entries =~= put(mid.entries, e));
        }
    }

    /// Stores `value` under `key` with the cache's default lifetime.
    pub fn insert(&mut self, key: String, value: V, size_bytes: usize, now_ms: u64, scored_victim: Option<usize>)
        requires
            old(self).wf(),
            now_ms + old(self).view().default_ttl_ms <= u64::MAX,
            spec_can_add(old(self).view().tracker, size_bytes),
        ensures
            final(self).wf(),
            final(self).view().default_ttl_ms == old(self).view().default_ttl_ms,
            final(self).view().max_size == old(self).view().max_size,
            final(self).view().order == old(self).view().order,
            spec_needs_eviction(old(self).view(), size_bytes) ==> exists|j: int| #![trigger is_victim(old(self).view(), j, scored_victim)]
                is_victim(old(self).view(), j, scored_victim)
                && final(self).view().entries == put(old(self).view().entries.remove(j),
                    new_entry(key@, value, size_bytes, old(self).view().default_ttl_ms, now_ms)),
            !spec_needs_eviction(old(self).view(), size_bytes) ==>
                final(self).view().entries == put(old(self).view().entries,
                    new_entry(key@, value, size_bytes, old(self).view().default_ttl_ms, now_ms)),
            final(self).view().entries.len() <= entry_cap(final(self).view().max_size),
            tracker_matches(final(self).view().entries, final(self).view().tracker),
            lookup(final(self).view().entries, key@) == Some(
                new_entry(key@, value, size_bytes, old(self).view().default_ttl_ms, now_ms),
            ),
    {
        let ttl = self.default_ttl_ms;
        self.insert_with_ttl(key, value, size_bytes, ttl, now_ms, scored_victim);
    }

    /// Reads the value under `key` at `now_ms`. An expired entry is removed
    /// (and forgotten by the size tracker) and gives `None`; a live one has
    /// its access count and access time updated and gives a clone of its value.
    pub fn get(&mut self, key: &String, now_ms: u64) -> (r: Option<V>)
        where V: Clone,
        requires
            old(self).wf(),
        ensures
            final(self).wf(),
            final(self).view().default_ttl_ms == old(self).view().default_ttl_ms,
            final(self).view().max_size == old(self).view().max_size,
            final(self).view().order == old(self).view().order,
            match lookup(old(self).view().entries, key@) {
                None => r is None && final(self).view() == old(self).view(),
                Some(e) => if now_ms > e.expires_at_ms {
                    r is None
                    && final(self).view().entries == old(self).view().entries.remove(key_pos(old(self).view().entries, key@))
                    && final(self).view().tracker.total_entries == old(self).view().tracker.total_entries.saturating_sub(1)
                    && final(self).view().tracker.total_size_bytes == old(self).view().tracker.total_size_bytes.saturating_sub(e.size_bytes)
                    && forall|s: usize| dist_count(final(self).view().tracker.distribution, s)
                        == spec_counts_after_remove(old(self).view().tracker, e.size_bytes, s)
                } else {
                    r matches Some(v) && cloned(e.value, v)
                    && final(self).view().entries == touched(old(self).view().entries, key_pos(old(self).view().entries, key@), now_ms)
                    && final(self).view().tracker == old(self).view().tracker
                },
            },
    {
        match self.find(key) {
            None => None,
            Some(i) => {
                let ghost before = self.view().entries;
                let ghost t0 = self.view().tracker;
                if now_ms > self.entries[i].expires_at_ms {
                    let removed = self.entries.remove(i);
                    proof {
                        assert(self.view().entries =~= before.remove(i as int));
                        lemma_remove(before, i as int);
                    }
                    self.tracker.record_removed(removed.size_bytes);
                    proof {
                        lemma_track_remove(before, i as int, t0, self.view().tracker);
                    }
                    None
                } else {
                    let count = self.entries[i].access_count;
                    self.entries[i].access_count = count.wrapping_add(1);
                    self.entries[i].last_accessed_ms = now_ms;
                    proof {
                        assert(self.view().entries =~= touched(before, i as int, now_ms));
                        let t = touched(before, i as int, now_ms);
                        lemma_track_same_size(before, i as int, t[i as int], t0);
                        assert(t =~= before.update(i as int, t[i as int]));
                        assert forall|a: int, b: int| 0 <= a < t.len() && 0 <= b < t.len() && a != b implies t[a].key != t[b].key by {
                            assert(t[a].key == before[a].key);
                            assert(t[b].key == before[b].key);
                        }
                    }
                    let v = self.entries[i].value.clone();
                    Some(v)
                }
            },
        }
    }

    /// Removes the entry under `key` and gives its value; the size tracker
    /// forgets it.
    pub fn remove(&mut self, key: &String) -> (r: Option<V>)
        requires
            old(self).wf(),
        ensures
            final(self).wf(),
            final(self).view().default_ttl_ms == old(self).view().default_ttl_ms,
            final(self).view().max_size == old(self).view().max_size,
            final(self).view().order == old(self).view().order,
            tracker_matches(final(self).view().entries, final(self).view().tracker),
            match lookup(old(self).view().entries, key@) {
                None => r is None && final(self).view().entries == old(self).view().entries
                    && final(self).view().tracker == old(self).view().tracker,
                Some(e) => r == Some(e.value)
                    && final(self).view().entries == old(self).view().entries.remove(key_pos(old(self).view().entries, key@)),
            },
    {
        match self.find(key) {
            None => None,
            Some(i) => {
                let ghost before = self.view().entries;
                let ghost t0 = self.view().tracker;
                let removed = self.entries.remove(i);
                proof {
                    assert(self.view().entries =~= before.remove(i as int));
                    lemma_remove(before, i as int);
                }
                self.tracker.record_removed(removed.size_bytes);
                proof {
                    lemma_track_remove(before, i as int, t0, self.view().tracker);
                }
                Some(removed.value)
            },
        }
    }

    /// Removes every entry; the size tracker forgets them all.
    pub fn clear(&mut self)
        requires
            old(self).wf(),
        ensures
            final(self).wf(),
            final(self).view().entries.len() == 0,
            final(self).view().default_ttl_ms == old(self).view().default_ttl_ms,
            final(self).view().max_size == old(self).view().max_size,
            final(self).view().order == old(self).view().order,
            tracker_matches(final(self).view().entries, final(self).view().tracker),
    {
        self.entries.clear();
        self.tracker = SizeTracker::new();
        proof {
            assert(self.view().entries =~= Seq::<EntryView<V>>::empty());
        }
    }

    /// Removes every entry that has expired at `now_ms`; the size tracker
    /// forgets each of them.
    pub fn cleanup_expired(&mut self, now_ms: u64)
        requires
            old(self).wf(),
        ensures
            final(self).wf(),
            final(self).view().entries == keep_live(old(self).view().entries, now_ms),
            final(self).view().default_ttl_ms == old(self).view().default_ttl_ms,
            final(self).view().max_size == old(self).view().max_size,
            final(self).view().order == old(self).view().order,
            tracker_matches(final(self).view().entries, final(self).view().tracker),
    {
        let ghost orig = self.view().entries;
        let ghost old_view = self.view();
        let mut pending: Vec<CacheEntry<V>> = Vec::new();
        std::mem::swap(&mut pending, &mut self.entries);
        let ghost n = orig.len();
        let mut consumed: usize = 0;
        proof {
            assert(self.view().entries =~= Seq::<EntryView<V>>::empty());
            assert(orig.take(0) =~= Seq::<EntryView<V>>::empty());
            assert(pending@.map_values(|e: CacheEntry<V>| e.view()) =~= orig);
            assert(pending@.len() == orig.len());
            assert(self.view().entries + orig.skip(0) =~= orig);
        }
        let initial_len = pending.len();
        assert(initial_len == n);
        while pending.len() > 0
            invariant
                consumed + pending@.len() == n,
                consumed <= n,
                n <= usize::MAX,
                n == orig.len(),
                tracker_matches(self.view().entries + orig.skip(consumed as int), self.view().tracker),
                self.view().default_ttl_ms == old_view.default_ttl_ms,
                self.view().max_size == old_view.max_size,
                self.view().order == old_view.order,
                pending@.map_values(|e: CacheEntry<V>| e.view()) == orig.skip(consumed as int),
                self.view().entries == keep_live(orig.take(consumed as int), now_ms),
                self.tracker.wf(),
                self.max_size * 1024 <= usize::MAX,
            decreases pending@.len(),
        {
            let ghost before_pending = pending@;
            let e = pending.remove(0);
            let ghost ev = e.view();
            proof {
                assert(before_pending.map_values(|e: CacheEntry<V>| e.view())[0] == ev);
                assert(orig.skip(consumed as int)[0] == orig[consumed as int]);
                assert(ev == orig[consumed as int]);
                assert(orig.take(consumed + 1) =~= orig.take(consumed as int).push(ev));
                orig.take(consumed as int).lemma_filter_push(ev, live_at::<V>(now_ms));
            }
            let ghost kept = self.view().entries;
            let ghost x = kept + orig.skip(consumed as int);
            let ghost t0 = self.view().tracker;
            proof {
                assert(x[kept.len() as int] == ev);
            }
            if now_ms <= e.expires_at_ms {
                self.entries.push(e);
                proof {
                    assert(self.view().entries + orig.skip(consumed + 1) =~= x);
                }
            } else {
                let size = e.size_bytes;
                self.tracker.record_removed(size);
                proof {
                    lemma_track_remove(x, kept.len() as int, t0, self.view().tracker);
                    assert(x.remove(kept.len() as int) =~= kept + orig.skip(consumed + 1));
                }
            }
            consumed = consumed + 1;
            proof {
                assert(self.view().entries =~= keep_live(orig.take(consumed as int), now_ms));
                assert(pending@ == before_pending.remove(0));
                let pm = pending@.map_values(|e: CacheEntry<V>| e.view());
                let bm = before_pending.map_values(|e: CacheEntry<V>| e.view());
                assert forall|i: int| 0 <= i < pm.len() implies pm[i] == orig.skip(consumed as int)[i] by {
                    assert(pm[i] == bm[i + 1]);
                    assert(bm[i + 1] == orig.skip(consumed - 1)[i + 1]);
                }
                assert(pm =~= orig.skip(consumed as int));
            }
        }
        proof {
            assert(orig.take(n as int) =~= orig);
            lemma_keep_live(orig, now_ms);
            assert(self.view().entries + orig.skip(n as int) =~= self.view().entries);
        }
    }

    /// Entry count, total hits (the sum of the access counts, modulo 2^64),
    /// no misses and no evictions, and a memory estimate of the entry count
    /// times `entry_footprint` bytes.
    pub fn stats(&self, entry_footprint: usize) -> (r: CacheCounts)
        requires
            self.view().entries.len() * entry_footprint <= usize::MAX,
        ensures
            r.total_entries == self.view().entries.len(),
            r.total_hits == sum_counts(self.view().entries) % 0x1_0000_0000_0000_0000,
            r.total_misses == 0,
            r.evictions == 0,
            r.memory_usage_estimate == self.view().entries.len() * entry_footprint,
    {
        let mut hits: u64 = 0;
        let mut i: usize = 0;
        while i < self.entries.len()
            invariant
                i <= self.entries@.len(),
                hits == sum_counts(self.view().entries.take(i as int)) % 0x1_0000_0000_0000_0000,
            decreases self.entries@.len() - i,
        {
            let c = self.entries[i].access_count;
            proof {
                let s = self.view().entries;
                assert(s.take(i + 1) =~= s.take(i as int).push(s[i as int]));
                lemma_sum_counts_push(s.take(i as int), s[i as int]);
                let a = sum_counts(s.take(i as int));
                assert((hits + c) % 0x1_0000_0000_0000_0000 == (a + c) % 0x1_0000_0000_0000_0000) by (nonlinear_arith)
                    requires
                        hits == a % 0x1_0000_0000_0000_0000,
                        a >= 0,
                ;
            }
            hits = hits.wrapping_add(c);
            i = i + 1;
        }
        proof {
            assert(self.view().entries.take(self.view().entries.len() as int) =~= self.view().entries);
        }
        let total_entries = self.entries.len();
        CacheCounts {
            total_entries,
            total_hits: hits,
            total_misses: 0,
            evictions: 0,
            memory_usage_estimate: total_entries * entry_footprint,
        }
    }

    /// Entry count, tracked bytes and average, the size distribution and the
    /// eviction order.
    pub fn get_size_stats(&self) -> (r: SizeStats)
        requires
            self.wf(),
        ensures
            r.total_entries == self.view().entries.len(),
            r.total_size_bytes == sum_sizes(self.view().entries),
            r.average_entry_size == spec_average(r.total_size_bytes, r.total_entries),
            r.size_distribution@ == self.view().tracker.distribution,
            forall|z: usize| #[trigger] dist_count(r.size_distribution@, z) == count_size(self.view().entries, z),
            dist_total(r.size_distribution@) == self.view().entries.len(),
            dist_wf(r.size_distribution@),
            r.eviction_order == self.view().order,
    {
        SizeStats {
            total_entries: self.entries.len(),
            total_size_bytes: self.tracker.total_size_bytes(),
            average_entry_size: self.tracker.average_entry_size(),
            size_distribution: self.tracker.distribution(),
            eviction_order: self.order,
        }
    }
}

/// What a read gives back of a write: right after `value` is stored under
/// `key`, reading `key` before it expires gives a clone of `value`.
pub proof fn lemma_read_after_write<V>(s: Seq<EntryView<V>>, key: Seq<char>, value: V, size: usize, ttl_ms: u64,
    now_ms: u64)
    requires
        keys_unique(s),
        now_ms + ttl_ms <= u64::MAX,
    ensures
        lookup(put(s, new_entry(key, value, size, ttl_ms, now_ms)), key) == Some(new_entry(key, value, size, ttl_ms, now_ms)),
        live(new_entry(key, value, size, ttl_ms, now_ms), now_ms),
{
    lemma_put(s, new_entry(key, value, size, ttl_ms, now_ms));
}

/// A read keeps what it read: after a live entry is accessed, it is still the
/// entry under its key, with the same value and expiry, so a later read
/// before it expires gives the value again.
pub proof fn lemma_read_keeps_entry<V>(s: Seq<EntryView<V>>, i: int, now_ms: u64)
    requires
        keys_unique(s),
        0 <= i < s.len(),
    ensures
        keys_unique(touched(s, i, now_ms)),
        lookup(touched(s, i, now_ms), s[i].key) == Some(touched(s, i, now_ms)[i]),
        touched(s, i, now_ms)[i].value == s[i].value,
        touched(s, i, now_ms)[i].expires_at_ms == s[i].expires_at_ms,
        key_pos(touched(s, i, now_ms), s[i].key) == i,
{
    let t = touched(s, i, now_ms);
    assert forall|a: int, b: int| 0 <= a < t.len() && 0 <= b < t.len() && a != b implies t[a].key != t[b].key by {
        assert(t[a].key == s[a].key);
        assert(t[b].key == s[b].key);
    }
    lemma_lookup_pos(t, i);
}

/// The bytes an entry is counted for: its key's and value's sizes plus 128
/// bytes of map overhead, or `None` where that does not fit in a `usize`.
pub fn entry_size(key_bytes: usize, value_bytes: usize) -> (r: Option<usize>)
    ensures
        match r {
            Some(n) => n == key_bytes + value_bytes + 128,
            None => key_bytes + value_bytes + 128 > usize::MAX,
        },
{
    match key_bytes.checked_add(value_bytes) {
        Some(s) => s.checked_add(128),
        None => None,
    }
}

/// Time to live (ms) and capacity of each cache of the cache manager:
/// agents, tasks, status, metrics, performance.
pub fn manager_cache_settings() -> (r: [(u64, usize); 5])
    ensures
        r@ == seq![(300000u64, 1000usize), (600000u64, 5000usize), (30000u64, 100usize), (60000u64, 1000usize), (180000u64, 10000usize)],
{
    let r = [(300000u64, 1000usize), (600000u64, 5000usize), (30000u64, 100usize), (60000u64, 1000usize), (180000u64, 10000usize)];
    proof {
        assert(r@ =~= seq![(300000u64, 1000usize), (600000u64, 5000usize), (30000u64, 100usize), (60000u64, 1000usize), (180000u64, 10000usize)]);
    }
    r
}

} // verus!
