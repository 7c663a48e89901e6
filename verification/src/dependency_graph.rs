//! Dependency relation between cache keys: which keys depend on which.
use vstd::prelude::*;
use crate::cache_key::{CacheKey, KeyView};

verus! {

/// A set of (key, dependency) pairs: `key` depends on `dependency`.
pub struct DependencyGraph {
    /// Distinct pairs.
    edges: Vec<(CacheKey, CacheKey)>,
}

/// Abstract value of an edge list.
pub open spec fn edge_views(s: Seq<(CacheKey, CacheKey)>) -> Seq<(KeyView, KeyView)> {
    s.map_values(|e: (CacheKey, CacheKey)| (e.0@, e.1@))
}

impl View for DependencyGraph {
    type V = Set<(KeyView, KeyView)>;

    closed spec fn view(&self) -> Set<(KeyView, KeyView)> {
        edge_views(self.edges@).to_set()
    }
}

/// The keys that depend on `key` (its dependents).
pub open spec fn dependents_of(g: Set<(KeyView, KeyView)>, key: KeyView) -> Set<KeyView> {
    Set::new(|k: KeyView| g.contains((k, key)))
}

/// The keys that `key` depends on (its dependencies).
pub open spec fn dependencies_of(g: Set<(KeyView, KeyView)>, key: KeyView) -> Set<KeyView> {
    Set::new(|d: KeyView| g.contains((key, d)))
}

/// The views of a list of keys.
pub open spec fn key_views(s: Seq<CacheKey>) -> Seq<KeyView> {
    s.map_values(|k: CacheKey| k@)
}

impl DependencyGraph {
    /// Whether no pair is listed twice.
    pub closed spec fn wf(&self) -> bool {
        edge_views(self.edges@).no_duplicates()
    }

    /// An empty graph.
    pub fn new() -> (r: Self)
        ensures
            r.wf(),
            r@ == Set::<(KeyView, KeyView)>::empty(),
    {
        let r = DependencyGraph { edges: Vec::new() };
        proof {
            assert(r@ =~= Set::<(KeyView, KeyView)>::empty());
        }
        r
    }

    fn find(&self, key: &CacheKey, depends_on: &CacheKey) -> (r: Option<usize>)
        requires
            self.wf(),
        ensures
            match r {
                Some(i) => i < self.edges@.len() && edge_views(self.edges@)[i as int] == (key@, depends_on@),
                None => !self@.contains((key@, depends_on@)),
            },
    {
        let mut i: usize = 0;
        while i < self.edges.len()
            invariant
                i <= self.edges@.len(),
                forall|j: int| 0 <= j < i ==> edge_views(self.edges@)[j] != (key@, depends_on@),
            decreases self.edges@.len() - i,
        {
            if self.edges[i].0.same_as(key) && self.edges[i].1.same_as(depends_on) {
                return Some(i);
            }
            i = i + 1;
        }
        None
    }

    /// Records that `key` depends on `depends_on`.
    pub fn add_dependency(&mut self, key: CacheKey, depends_on: CacheKey)
        requires
            old(self).wf(),
        ensures
            final(self).wf(),
            final(self)@ == old(self)@.insert((key@, depends_on@)),
    {
        let ghost pair = (key@, depends_on@);
        match self.find(&key, &depends_on) {
            Some(i) => {
                proof {
                    assert(edge_views(self.edges@).contains(pair));
                    assert(self@.insert(pair) =~= self@);
                }
            },
            None => {
                let ghost before = self.edges@;
                self.edges.push((key, depends_on));
                proof {
                    assert(edge_views(self.edges@) =~= edge_views(before).push(pair));
                    assert(!edge_views(before).contains(pair));
                    let ev = edge_views(self.edges@);
                    assert forall|a: int, b: int| 0 <= a < ev.len() && 0 <= b < ev.len() && a != b implies ev[a]
                        != ev[b] by {
                        if a == ev.len() - 1 {
                            assert(edge_views(before)[b] == ev[b]);
                        } else if b == ev.len() - 1 {
                            assert(edge_views(before)[a] == ev[a]);
                        }
                    }
                    assert forall|p: (KeyView, KeyView)| #[trigger] ev.contains(p) == edge_views(before).push(pair).contains(p) by {}
                    assert(self@ =~= Set::new(|p: (KeyView, KeyView)| edge_views(before).contains(p)).insert(pair)) by {
                        assert forall|p: (KeyView, KeyView)| ev.contains(p) <==> (edge_views(before).contains(p) || p == pair) by {
                            if ev.contains(p) && p != pair {
                                let i = choose|i: int| 0 <= i < ev.len() && ev[i] == p;
                                assert(edge_views(before)[i] == p);
                            }
                            if edge_views(before).contains(p) {
                                let i = choose|i: int| 0 <= i < edge_views(before).len() && edge_views(before)[i] == p;
                                assert(ev[i] == p);
                            }
                            if p == pair {
                                assert(ev[ev.len() - 1] == p);
                            }
                        }
                    }
                }
            },
        }
    }

    /// Forgets that `key` depends on `depends_on`.
    pub fn remove_dependency(&mut self, key: &CacheKey, depends_on: &CacheKey)
        requires
            old(self).wf(),
        ensures
            final(self).wf(),
            final(self)@ == old(self)@.remove((key@, depends_on@)),
    {
        let ghost pair = (key@, depends_on@);
        match self.find(key, depends_on) {
            None => {
                proof {
                    assert(self@.remove(pair) =~= self@);
                }
            },
            Some(i) => {
                let ghost before = self.edges@;
                let ghost bv = edge_views(before);
                self.edges.remove(i);
                proof {
                    let ev = edge_views(self.edges@);
                    assert(ev =~= bv.remove(i as int));
                    assert forall|a: int, b: int| 0 <= a < ev.len() && 0 <= b < ev.len() && a != b implies ev[a]
                        != ev[b] by {
                        let aa = if a < i { a } else { a + 1 };
                        let bb = if b < i { b } else { b + 1 };
                        assert(ev[a] == bv[aa]);
                        assert(ev[b] == bv[bb]);
                    }
                    assert forall|p: (KeyView, KeyView)| ev.contains(p) <==> (bv.contains(p) && p != pair) by {
                        if ev.contains(p) {
                            let j = choose|j: int| 0 <= j < ev.len() && ev[j] == p;
                            let jj = if j < i { j } else { j + 1 };
                            assert(ev[j] == bv[jj]);
                            assert(jj != i);
                        }
                        if bv.contains(p) && p != pair {
                            let j = choose|j: int| 0 <= j < bv.len() && bv[j] == p;
                            assert(j != i);
                            let j2 = if j < i { j } else { j - 1 };
                            assert(ev[j2] == bv[j]);
                        }
                    }
                    assert(self@ =~= old(self)@.remove(pair));
                }
            },
        }
    }

    /// The keys that depend on `key`, each once.
    pub fn get_dependents(&self, key: &CacheKey) -> (r: Vec<CacheKey>)
        requires
            self.wf(),
        ensures
            key_views(r@).no_duplicates(),
            key_views(r@).to_set() == dependents_of(self@, key@),
    {
        let mut out: Vec<CacheKey> = Vec::new();
        let mut i: usize = 0;
        while i < self.edges.len()
            invariant
                self.wf(),
                i <= self.edges@.len(),
                key_views(out@).no_duplicates(),
                forall|k: KeyView| key_views(out@).contains(k) <==> (exists|j: int| 0 <= j < i
                    && #[trigger] edge_views(self.edges@)[j] == (k, key@)),
            decreases self.edges@.len() - i,
        {
            let ghost ev = edge_views(self.edges@);
            if self.edges[i].1.same_as(key) {
                let k = self.edges[i].0.copy();
                let ghost before = out@;
                proof {
                    // A pair is listed once, so this dependent was not seen yet.
                    if key_views(before).contains(k@) {
                        let j = choose|j: int| 0 <= j < i && #[trigger] ev[j] == (k@, key@);
                        assert(ev[i as int] == (k@, key@));
                    }
                }
                out.push(k);
                proof {
                    assert(key_views(out@) =~= key_views(before).push(k@));
                    let kv = key_views(out@);
                    assert forall|a: int, b: int| 0 <= a < kv.len() && 0 <= b < kv.len() && a != b implies kv[a]
                        != kv[b] by {
                        if a == kv.len() - 1 {
                            assert(key_views(before)[b] == kv[b]);
                        } else if b == kv.len() - 1 {
                            assert(key_views(before)[a] == kv[a]);
                        }
                    }
                    assert forall|k2: KeyView| key_views(out@).contains(k2) <==> (exists|j: int| 0 <= j < i + 1
                        && #[trigger] ev[j] == (k2, key@)) by {
                        if key_views(out@).contains(k2) && k2 != k@ {
                            let q = choose|q: int| 0 <= q < kv.len() && kv[q] == k2;
                            assert(key_views(before)[q] == k2);
                            assert(key_views(before).contains(k2));
                        }
                        if k2 == k@ {
                            assert(ev[i as int] == (k2, key@));
                            assert(kv[kv.len() - 1] == k2);
                        }
                        if exists|j: int| 0 <= j < i + 1 && #[trigger] ev[j] == (k2, key@) {
                            let j = choose|j: int| 0 <= j < i + 1 && #[trigger] ev[j] == (k2, key@);
                            if j < i {
                                assert(key_views(before).contains(k2));
                                let q = choose|q: int| 0 <= q < key_views(before).len() && key_views(before)[q] == k2;
                                assert(kv[q] == k2);
                            }
                        }
                    }
                }
            } else {
                proof {
                    assert forall|k2: KeyView| key_views(out@).contains(k2) <==> (exists|j: int| 0 <= j < i + 1
                        && #[trigger] ev[j] == (k2, key@)) by {
                        if exists|j: int| 0 <= j < i + 1 && #[trigger] ev[j] == (k2, key@) {
                            let j = choose|j: int| 0 <= j < i + 1 && #[trigger] ev[j] == (k2, key@);
                            assert(j != i);
                        }
                    }
                }
            }
            i = i + 1;
        }
        proof {
            let ev = edge_views(self.edges@);
            assert forall|k: KeyView| key_views(out@).to_set().contains(k) <==> dependents_of(self@, key@).contains(k) by {
                if ev.contains((k, key@)) {
                    let j = choose|j: int| 0 <= j < ev.len() && ev[j] == (k, key@);
                }
            }
            assert(key_views(out@).to_set() =~= dependents_of(self@, key@));
        }
        out
    }

    /// The keys that `key` depends on, each once.
    pub fn get_dependencies(&self, key: &CacheKey) -> (r: Vec<CacheKey>)
        requires
            self.wf(),
        ensures
            key_views(r@).no_duplicates(),
            key_views(r@).to_set() == dependencies_of(self@, key@),
    {
        let mut out: Vec<CacheKey> = Vec::new();
        let mut i: usize = 0;
        while i < self.edges.len()
            invariant
                self.wf(),
                i <= self.edges@.len(),
                key_views(out@).no_duplicates(),
                forall|d: KeyView| key_views(out@).contains(d) <==> (exists|j: int| 0 <= j < i
                    && #[trigger] edge_views(self.edges@)[j] == (key@, d)),
            decreases self.edges@.len() - i,
        {
            let ghost ev = edge_views(self.edges@);
            if self.edges[i].0.same_as(key) {
                let d = self.edges[i].1.copy();
                let ghost before = out@;
                proof {
                    if key_views(before).contains(d@) {
                        let j = choose|j: int| 0 <= j < i && #[trigger] ev[j] == (key@, d@);
                        assert(ev[i as int] == (key@, d@));
                    }
                }
                out.push(d);
                proof {
                    assert(key_views(out@) =~= key_views(before).push(d@));
                    let kv = key_views(out@);
                    assert forall|a: int, b: int| 0 <= a < kv.len() && 0 <= b < kv.len() && a != b implies kv[a]
                        != kv[b] by {
                        if a == kv.len() - 1 {
                            assert(key_views(before)[b] == kv[b]);
                        } else if b == kv.len() - 1 {
                            assert(key_views(before)[a] == kv[a]);
                        }
                    }
                    assert forall|d2: KeyView| key_views(out@).contains(d2) <==> (exists|j: int| 0 <= j < i + 1
                        && #[trigger] ev[j] == (key@, d2)) by {
                        if key_views(out@).contains(d2) && d2 != d@ {
                            let q = choose|q: int| 0 <= q < kv.len() && kv[q] == d2;
                            assert(key_views(before)[q] == d2);
                            assert(key_views(before).contains(d2));
                        }
                        if d2 == d@ {
                            assert(ev[i as int] == (key@, d2));
                            assert(kv[kv.len() - 1] == d2);
                        }
                        if exists|j: int| 0 <= j < i + 1 && #[trigger] ev[j] == (key@, d2) {
                            let j = choose|j: int| 0 <= j < i + 1 && #[trigger] ev[j] == (key@, d2);
                            if j < i {
                                assert(key_views(before).contains(d2));
                                let q = choose|q: int| 0 <= q < key_views(before).len() && key_views(before)[q] == d2;
                                assert(kv[q] == d2);
                            }
                        }
                    }
                }
            } else {
                proof {
                    assert forall|d2: KeyView| key_views(out@).contains(d2) <==> (exists|j: int| 0 <= j < i + 1
                        && #[trigger] ev[j] == (key@, d2)) by {
                        if exists|j: int| 0 <= j < i + 1 && #[trigger] ev[j] == (key@, d2) {
                            let j = choose|j: int| 0 <= j < i + 1 && #[trigger] ev[j] == (key@, d2);
                            assert(j != i);
                        }
                    }
                }
            }
            i = i + 1;
        }
        proof {
            let ev = edge_views(self.edges@);
            assert forall|d: KeyView| key_views(out@).to_set().contains(d) <==> dependencies_of(self@, key@).contains(d) by {
                if ev.contains((key@, d)) {
                    let j = choose|j: int| 0 <= j < ev.len() && ev[j] == (key@, d);
                }
            }
            assert(key_views(out@).to_set() =~= dependencies_of(self@, key@));
        }
        out
    }

    /// Forgets every dependency.
    pub fn clear(&mut self)
        ensures
            final(self).wf(),
            final(self)@ == Set::<(KeyView, KeyView)>::empty(),
    {
        self.edges.clear();
        proof {
            assert(edge_views(self.edges@) =~= Seq::<(KeyView, KeyView)>::empty());
            assert(self@ =~= Set::<(KeyView, KeyView)>::empty());
        }
    }
}

/// The two directions agree: `d` is a dependency of `k` exactly when `k` is a
/// dependent of `d`.
pub proof fn lemma_directions_agree(g: Set<(KeyView, KeyView)>, k: KeyView, d: KeyView)
    ensures
        dependencies_of(g, k).contains(d) <==> dependents_of(g, d).contains(k),
{
}

/// After recording that `k` depends on `d`, `d` is among the dependencies of
/// `k` and `k` among the dependents of `d`; other keys' relations are unchanged.
pub proof fn lemma_add_then_query(g: Set<(KeyView, KeyView)>, k: KeyView, d: KeyView, x: KeyView)
    ensures
        dependencies_of(g.insert((k, d)), k).contains(d),
        dependents_of(g.insert((k, d)), d).contains(k),
        x != k ==> dependencies_of(g.insert((k, d)), x) == dependencies_of(g, x),
        x != d ==> dependents_of(g.insert((k, d)), x) == dependents_of(g, x),
{
    assert(x != k ==> dependencies_of(g.insert((k, d)), x) =~= dependencies_of(g, x));
    assert(x != d ==> dependents_of(g.insert((k, d)), x) =~= dependents_of(g, x));
}

/// Removing a dependency that was just added, and was not there before,
/// restores the graph.
pub proof fn lemma_remove_undoes_add(g: Set<(KeyView, KeyView)>, k: KeyView, d: KeyView)
    requires
        !g.contains((k, d)),
    ensures
        g.insert((k, d)).remove((k, d)) == g,
{
    assert(g.insert((k, d)).remove((k, d)) =~= g);
}

} // verus!
