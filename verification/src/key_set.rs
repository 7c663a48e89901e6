//! An insertion-ordered set of cache keys.
use vstd::prelude::*;
use crate::cache_key::{CacheKey, KeyView};

verus! {

/// Cache keys, each at most once, in the order they were added.
pub struct KeySet {
    keys: Vec<CacheKey>,
}

/// The abstract values of a sequence of keys.
pub open spec fn views_of(s: Seq<CacheKey>) -> Seq<KeyView> {
    s.map_values(|k: CacheKey| k@)
}

impl KeySet {
    /// The keys in the order they were added.
    pub closed spec fn view(&self) -> Seq<KeyView> {
        views_of(self.keys@)
    }

    /// No key appears twice.
    pub open spec fn wf(&self) -> bool {
        self.view().no_duplicates()
    }

    /// The empty set.
    pub fn new() -> (r: Self)
        ensures
            r.wf(),
            r.view() == Seq::<KeyView>::empty(),
    {
        let r = KeySet { keys: Vec::new() };
        proof {
            assert(r.view() =~= Seq::<KeyView>::empty());
        }
        r
    }

    /// The number of keys.
    pub fn len(&self) -> (r: usize)
        ensures
            r == self.view().len(),
    {
        self.keys.len()
    }

    fn position(&self, key: &CacheKey) -> (r: Option<usize>)
        ensures
            match r {
                Some(i) => i < self.view().len() && self.view()[i as int] == key@,
                None => !self.view().contains(key@),
            },
    {
        let mut i: usize = 0;
        while i < self.keys.len()
            invariant
                i <= self.keys@.len(),
                self.view().len() == self.keys@.len(),
                forall|j: int| 0 <= j < i ==> #[trigger] self.view()[j] != key@,
            decreases self.keys@.len() - i,
        {
            if self.keys[i].same_as(key) {
                return Some(i);
            }
            i = i + 1;
        }
        None
    }

    /// Whether `key` is in the set.
    pub fn contains(&self, key: &CacheKey) -> (r: bool)
        ensures
            r == self.view().contains(key@),
    {
        match self.position(key) {
            Some(_) => true,
            None => false,
        }
    }

    /// Adds `key` at the end, unless it is already in the set.
    pub fn insert(&mut self, key: &CacheKey)
        requires
            old(self).wf(),
        ensures
            final(self).wf(),
            final(self).view() == if old(self).view().contains(key@) {
                old(self).view()
            } else {
                old(self).view().push(key@)
            },
    {
        match self.position(key) {
            Some(_) => {},
            None => {
                let ghost s = self.view();
                self.keys.push(key.copy());
                proof {
                    assert(self.view() =~= s.push(key@));
                }
            },
        }
    }

    /// Takes `key` out of the set, if it is there.
    pub fn remove(&mut self, key: &CacheKey)
        requires
            old(self).wf(),
        ensures
            final(self).wf(),
            final(self).view() == if old(self).view().contains(key@) {
                old(self).view().remove(old(self).view().index_of(key@))
            } else {
                old(self).view()
            },
    {
        match self.position(key) {
            Some(i) => {
                let ghost s = self.view();
                proof {
                    s.index_of_first_ensures(key@);
                    assert(s.index_of(key@) == i) by {
                        let k = s.index_of(key@);
                        assert(s[k] == key@);
                    }
                }
                self.keys.remove(i);
                proof {
                    assert(self.view() =~= s.remove(i as int));
                }
            },
            None => {},
        }
    }

    /// Copies of the first `n` keys (all of them when there are fewer).
    pub fn first_n(&self, n: usize) -> (r: Vec<CacheKey>)
        ensures
            views_of(r@) == self.view().take(if n <= self.view().len() { n as int } else { self.view().len() as int }),
    {
        let k = if n <= self.keys.len() { n } else { self.keys.len() };
        let mut out: Vec<CacheKey> = Vec::new();
        let mut i: usize = 0;
        while i < k
            invariant
                i <= k,
                k <= self.keys@.len(),
                views_of(out@) == self.view().take(i as int),
            decreases k - i,
        {
            let ghost before = out@;
            let c = self.keys[i].copy();
            out.push(c);
            proof {
                assert(self.view()[i as int] == self.keys@[i as int]@);
                assert(views_of(out@) =~= views_of(before).push(c@));
                assert(self.view().take(i + 1) =~= self.view().take(i as int).push(self.view()[i as int]));
            }
            i = i + 1;
        }
        out
    }

    /// Takes every key, in order, leaving the set empty.
    pub fn drain(&mut self) -> (r: Vec<CacheKey>)
        requires
            old(self).wf(),
        ensures
            final(self).wf(),
            final(self).view() == Seq::<KeyView>::empty(),
            views_of(r@) == old(self).view(),
    {
        let mut out: Vec<CacheKey> = Vec::new();
        std::mem::swap(&mut out, &mut self.keys);
        proof {
            assert(self.view() =~= Seq::<KeyView>::empty());
        }
        out
    }
}

} // verus!
