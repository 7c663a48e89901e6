//! Deduplication of identical queries: while a query runs, later callers
//! with the same key wait for it; once it has completed, they get its
//! stored result; once its entry expires, the next caller runs it again.
//!
//! The caller runs the query, hands out results to waiters, and expires an
//! entry when its time is up.
use vstd::prelude::*;
use crate::text::str_eq;
use crate::cached_query::CachedQueryStats;

verus! {

/// The state of one deduplicated query.
pub struct QueryExecution<R> {
    pub completed: bool,
    /// The stored result, once completed.
    pub result: Option<R>,
}

/// What to do with a query.
pub enum DedupDecision<'a, R> {
    /// It has completed: answer with its stored result.
    Cached(&'a R),
    /// It is running: wait for its result.
    Wait,
    /// Run it.
    Execute,
}

/// Abstract value of a decision.
pub enum DecisionView<R> {
    Cached(R),
    Wait,
    Execute,
}

impl<'a, R> DedupDecision<'a, R> {
    pub open spec fn view(&self) -> DecisionView<R> {
        match self {
            DedupDecision::Cached(r) => DecisionView::Cached(**r),
            DedupDecision::Wait => DecisionView::Wait,
            DedupDecision::Execute => DecisionView::Execute,
        }
    }
}

/// The decision for a query whose entry is `e`.
pub open spec fn spec_decision<R>(e: Option<QueryExecution<R>>) -> DecisionView<R> {
    match e {
        None => DecisionView::Execute,
        Some(x) => if !x.completed {
            DecisionView::Wait
        } else {
            match x.result {
                Some(v) => DecisionView::Cached(v),
                None => DecisionView::Execute,
            }
        },
    }
}

/// No key has two entries.
pub open spec fn keys_unique<R>(s: Seq<(Seq<char>, QueryExecution<R>)>) -> bool {
    forall|i: int, j: int| 0 <= i < s.len() && 0 <= j < s.len() && i != j ==> s[i].0 != s[j].0
}

/// Whether `k` has an entry.
pub open spec fn has_key<R>(s: Seq<(Seq<char>, QueryExecution<R>)>, k: Seq<char>) -> bool {
    exists|i: int| 0 <= i < s.len() && s[i].0 == k
}

/// The position of `k`'s entry (meaningful when it has one).
pub open spec fn key_pos<R>(s: Seq<(Seq<char>, QueryExecution<R>)>, k: Seq<char>) -> int {
    choose|i: int| 0 <= i < s.len() && s[i].0 == k
}

/// The entry of `k`, if any.
pub open spec fn entry_of<R>(s: Seq<(Seq<char>, QueryExecution<R>)>, k: Seq<char>) -> Option<QueryExecution<R>> {
    if has_key(s, k) {
        Some(s[key_pos(s, k)].1)
    } else {
        None
    }
}

/// The entries with `k`'s entry set to `e` (added at the end if new).
pub open spec fn put_entry<R>(s: Seq<(Seq<char>, QueryExecution<R>)>, k: Seq<char>, e: QueryExecution<R>) -> Seq<(Seq<char>, QueryExecution<R>)> {
    if has_key(s, k) {
        s.update(key_pos(s, k), (k, e))
    } else {
        s.push((k, e))
    }
}

/// The entries after `k`'s query starts: running, with no result.
pub open spec fn spec_begin<R>(s: Seq<(Seq<char>, QueryExecution<R>)>, k: Seq<char>) -> Seq<(Seq<char>, QueryExecution<R>)> {
    put_entry(s, k, QueryExecution { completed: false, result: None })
}

/// The entries after `k`'s query completes with `r`: its entry, if it
/// still has one, holds the result.
pub open spec fn spec_finish<R>(s: Seq<(Seq<char>, QueryExecution<R>)>, k: Seq<char>, r: R) -> Seq<(Seq<char>, QueryExecution<R>)> {
    if has_key(s, k) {
        put_entry(s, k, QueryExecution { completed: true, result: Some(r) })
    } else {
        s
    }
}

/// The entries after `k`'s entry expires.
pub open spec fn spec_expire<R>(s: Seq<(Seq<char>, QueryExecution<R>)>, k: Seq<char>) -> Seq<(Seq<char>, QueryExecution<R>)> {
    if has_key(s, k) {
        s.remove(key_pos(s, k))
    } else {
        s
    }
}

/// Setting an entry keeps the keys unique, makes it what a read of its key
/// gives, and changes no other key's entry.
pub proof fn lemma_put_entry<R>(s: Seq<(Seq<char>, QueryExecution<R>)>, k: Seq<char>, e: QueryExecution<R>, other: Seq<char>)
    requires
        keys_unique(s),
    ensures
        keys_unique(put_entry(s, k, e)),
        entry_of(put_entry(s, k, e), k) == Some(e),
        other != k ==> entry_of(put_entry(s, k, e), other) == entry_of(s, other),
{
    let t = put_entry(s, k, e);
    if has_key(s, k) {
        let p = key_pos(s, k);
        assert(t[p].0 == k);
        assert(has_key(t, k));
        let q = key_pos(t, k);
        assert(q == p);
        if other != k {
            if has_key(s, other) {
                let o = key_pos(s, other);
                assert(t[o].0 == other);
                assert(has_key(t, other));
                assert(key_pos(t, other) == o);
            } else {
                assert forall|i: int| 0 <= i < t.len() implies t[i].0 != other by {
                    if i != p {
                        assert(t[i] == s[i]);
                    }
                }
            }
        }
    } else {
        let p = s.len() as int;
        assert(t[p].0 == k);
        assert(has_key(t, k));
        let q = key_pos(t, k);
        assert(q == p);
        if other != k {
            if has_key(s, other) {
                let o = key_pos(s, other);
                assert(t[o] == s[o]);
                assert(has_key(t, other));
                assert(key_pos(t, other) == o);
            } else {
                assert forall|i: int| 0 <= i < t.len() implies t[i].0 != other by {
                    if i < p {
                        assert(t[i] == s[i]);
                    }
                }
            }
        }
    }
}

/// Removing an entry keeps the keys unique, leaves its key without one,
/// and changes no other key's entry.
pub proof fn lemma_expire<R>(s: Seq<(Seq<char>, QueryExecution<R>)>, k: Seq<char>, other: Seq<char>)
    requires
        keys_unique(s),
    ensures
        keys_unique(spec_expire(s, k)),
        entry_of(spec_expire(s, k), k) is None,
        other != k ==> entry_of(spec_expire(s, k), other) == entry_of(s, other),
{
    if has_key(s, k) {
        let p = key_pos(s, k);
        let t = s.remove(p);
        assert forall|i: int, j: int| 0 <= i < t.len() && 0 <= j < t.len() && i != j implies t[i].0 != t[j].0 by {
            let si = if i < p { i } else { i + 1 };
            let sj = if j < p { j } else { j + 1 };
            assert(t[i] == s[si]);
            assert(t[j] == s[sj]);
        }
        assert forall|i: int| 0 <= i < t.len() implies t[i].0 != k by {
            let si = if i < p { i } else { i + 1 };
            assert(t[i] == s[si]);
        }
        if other != k {
            if has_key(s, other) {
                let o = key_pos(s, other);
                let to = if o < p { o } else { o - 1 };
                assert(t[to] == s[o]);
                assert(has_key(t, other));
                let q = key_pos(t, other);
                let sq = if q < p { q } else { q + 1 };
                assert(t[q] == s[sq]);
            } else {
                assert forall|i: int| 0 <= i < t.len() implies t[i].0 != other by {
                    let si = if i < p { i } else { i + 1 };
                    assert(t[i] == s[si]);
                }
            }
        }
    }
}

/// A query's life: while it runs, callers with its key wait; once it has
/// completed with `r`, they get `r`; once its entry expires, the next one
/// runs it. Other keys' decisions are never touched.
pub proof fn lemma_dedup_lifecycle<R>(s: Seq<(Seq<char>, QueryExecution<R>)>, k: Seq<char>, r: R, other: Seq<char>)
    requires
        keys_unique(s),
    ensures
        spec_decision(entry_of(spec_begin(s, k), k)) == DecisionView::<R>::Wait,
        spec_decision(entry_of(spec_finish(spec_begin(s, k), k, r), k)) == DecisionView::Cached(r),
        spec_decision(entry_of(spec_expire(spec_finish(spec_begin(s, k), k, r), k), k)) == DecisionView::<R>::Execute,
        other != k ==> entry_of(spec_begin(s, k), other) == entry_of(s, other),
        other != k ==> entry_of(spec_finish(spec_begin(s, k), k, r), other) == entry_of(s, other),
        other != k ==> entry_of(spec_expire(spec_finish(spec_begin(s, k), k, r), k), other) == entry_of(s, other),
{
    let running = QueryExecution::<R> { completed: false, result: None };
    let done = QueryExecution { completed: true, result: Some(r) };
    lemma_put_entry(s, k, running, other);
    let b = spec_begin(s, k);
    assert(has_key(b, k));
    lemma_put_entry(b, k, done, other);
    let f = spec_finish(b, k, r);
    lemma_expire(f, k, other);
}

/// The table of deduplicated queries, by query key.
pub struct QueryDeduplication<R> {
    entries: Vec<(String, QueryExecution<R>)>,
}

impl<R> QueryDeduplication<R> {
    pub closed spec fn view(&self) -> Seq<(Seq<char>, QueryExecution<R>)> {
        self.entries@.map_values(|e: (String, QueryExecution<R>)| (e.0@, e.1))
    }

    pub open spec fn wf(&self) -> bool {
        keys_unique(self.view())
    }

    /// No query known.
    pub fn new() -> (r: Self)
        ensures
            r.wf(),
            r.view().len() == 0,
    {
        let r = QueryDeduplication { entries: Vec::new() };
        proof {
            assert(r.view() =~= Seq::<(Seq<char>, QueryExecution<R>)>::empty());
        }
        r
    }

    fn find(&self, key: &str) -> (r: Option<usize>)
        requires
            self.wf(),
        ensures
            match r {
                Some(i) => i < self.view().len() && has_key(self.view(), key@) && key_pos(self.view(), key@) == i,
                None => !has_key(self.view(), key@),
            },
    {
        let mut i: usize = 0;
        while i < self.entries.len()
            invariant
                i <= self.entries@.len(),
                self.wf(),
                self.view().len() == self.entries@.len(),
                forall|j: int| 0 <= j < i ==> #[trigger] self.view()[j].0 != key@,
            decreases self.entries@.len() - i,
        {
            proof {
                assert(self.view()[i as int] == (self.entries@[i as int].0@, self.entries@[i as int].1));
            }
            if str_eq(self.entries[i].0.as_str(), key) {
                proof {
                    assert(has_key(self.view(), key@));
                    let p = key_pos(self.view(), key@);
                    assert(self.view()[p].0 == key@);
                }
                return Some(i);
            }
            i = i + 1;
        }
        None
    }

    /// What to do with the query `key`: answer with its stored result once
    /// it has completed, wait while it runs, otherwise run it.
    pub fn decide(&self, key: &str) -> (r: DedupDecision<'_, R>)
        requires
            self.wf(),
        ensures
            r.view() == spec_decision(entry_of(self.view(), key@)),
    {
        match self.find(key) {
            None => DedupDecision::Execute,
            Some(i) => {
                let e = &self.entries[i].1;
                proof {
                    assert(self.view()[i as int].1 == self.entries@[i as int].1);
                }
                if !e.completed {
                    DedupDecision::Wait
                } else {
                    match &e.result {
                        Some(v) => DedupDecision::Cached(v),
                        None => DedupDecision::Execute,
                    }
                }
            },
        }
    }

    /// `decide`, counting an answer from a completed query as a cache hit
    /// in `stats` (waiting and running count nothing here).
    pub fn decide_counted(&self, key: &str, stats: &mut CachedQueryStats) -> (r: DedupDecision<'_, R>)
        requires
            self.wf(),
            spec_decision(entry_of(self.view(), key@)) is Cached ==> old(stats).cache_hits < u64::MAX,
        ensures
            r.view() == spec_decision(entry_of(self.view(), key@)),
            *final(stats) == if r.view() is Cached {
                CachedQueryStats { cache_hits: (old(stats).cache_hits + 1) as u64, ..*old(stats) }
            } else {
                *old(stats)
            },
    {
        let d = self.decide(key);
        match d {
            DedupDecision::Cached(_) => {
                stats.record_lookup(true, false);
            },
            _ => {},
        }
        d
    }

    fn put(&mut self, key: String, e: QueryExecution<R>)
        requires
            old(self).wf(),
        ensures
            final(self).view() == put_entry(old(self).view(), key@, e),
            final(self).wf(),
    {
        let ghost s = self.view();
        let ghost ev = e;
        proof {
            lemma_put_entry(s, key@, e, key@);
        }
        match self.find(key.as_str()) {
            Some(i) => {
                self.entries.set(i, (key, e));
                proof {
                    assert(self.view() =~= s.update(i as int, (key@, ev)));
                }
            },
            None => {
                self.entries.push((key, e));
                proof {
                    assert(self.view() =~= s.push((key@, ev)));
                }
            },
        }
    }

    /// The query `key` starts running.
    pub fn begin(&mut self, key: String)
        requires
            old(self).wf(),
        ensures
            final(self).wf(),
            final(self).view() == spec_begin(old(self).view(), key@),
    {
        self.put(key, QueryExecution { completed: false, result: None });
    }

    /// The query `key` completed with `result`; if its entry has expired in
    /// the meantime, nothing is stored.
    pub fn finish(&mut self, key: &str, result: R)
        requires
            old(self).wf(),
        ensures
            final(self).wf(),
            final(self).view() == spec_finish(old(self).view(), key@, result),
    {
        match self.find(key) {
            Some(i) => {
                let ghost s = self.view();
                proof {
                    lemma_put_entry(s, key@, QueryExecution { completed: true, result: Some(result) }, key@);
                }
                let k = self.entries[i].0.clone();
                proof {
                    assert(self.view()[i as int].0 == key@);
                }
                self.entries.set(i, (k, QueryExecution { completed: true, result: Some(result) }));
                proof {
                    assert(self.view() =~= s.update(i as int, (key@, QueryExecution { completed: true, result: Some(result) })));
                }
            },
            None => {},
        }
    }

    /// The entry of the query `key` expires.
    pub fn expire(&mut self, key: &str)
        requires
            old(self).wf(),
        ensures
            final(self).wf(),
            final(self).view() == spec_expire(old(self).view(), key@),
    {
        let ghost s = self.view();
        proof {
            lemma_expire(s, key@, key@);
        }
        match self.find(key) {
            Some(i) => {
                self.entries.remove(i);
                proof {
                    assert(self.view() =~= s.remove(i as int));
                }
            },
            None => {},
        }
    }
}

} // verus!
