//! Bookkeeping of how many cache entries of each size were stored.
use vstd::prelude::*;

verus! {

/// How many entries and bytes the cache has stored, with a count per entry size.
pub struct SizeTracker {
    total_entries: usize,
    total_size_bytes: usize,
    average_entry_size: usize,
    /// Pairs (size, count) in ascending order of size, with positive counts.
    distribution: Vec<(usize, usize)>,
}

/// Abstract state of a tracker.
pub struct TrackerView {
    pub total_entries: usize,
    pub total_size_bytes: usize,
    pub average_entry_size: usize,
    pub distribution: Seq<(usize, usize)>,
}

/// Number of entries of `size` recorded in a distribution.
pub open spec fn dist_count(d: Seq<(usize, usize)>, size: usize) -> nat
    decreases d.len(),
{
    if d.len() == 0 {
        0
    } else if d.last().0 == size {
        d.last().1 as nat
    } else {
        dist_count(d.drop_last(), size)
    }
}

/// Sizes are in strictly ascending order and every count is positive.
pub open spec fn dist_wf(d: Seq<(usize, usize)>) -> bool {
    &&& forall|i: int, j: int| 0 <= i < j < d.len() ==> d[i].0 < d[j].0
    &&& forall|i: int| 0 <= i < d.len() ==> d[i].1 > 0
}

/// The sum of the counts of a distribution.
pub open spec fn dist_total(d: Seq<(usize, usize)>) -> nat
    decreases d.len(),
{
    if d.len() == 0 {
        0
    } else {
        dist_total(d.drop_last()) + d.last().1 as nat
    }
}

proof fn lemma_dist_total_update(d: Seq<(usize, usize)>, i: int, p: (usize, usize))
    requires
        0 <= i < d.len(),
    ensures
        dist_total(d.update(i, p)) + d[i].1 == dist_total(d) + p.1,
    decreases d.len(),
{
    let u = d.update(i, p);
    if i == d.len() - 1 {
        assert(u.drop_last() =~= d.drop_last());
    } else {
        lemma_dist_total_update(d.drop_last(), i, p);
        assert(u.drop_last() =~= d.drop_last().update(i, p));
    }
}

proof fn lemma_dist_total_remove(d: Seq<(usize, usize)>, i: int)
    requires
        0 <= i < d.len(),
    ensures
        dist_total(d.remove(i)) + d[i].1 == dist_total(d),
    decreases d.len(),
{
    let u = d.remove(i);
    if i == d.len() - 1 {
        assert(u =~= d.drop_last());
    } else {
        lemma_dist_total_remove(d.drop_last(), i);
        assert(u.drop_last() =~= d.drop_last().remove(i));
    }
}

proof fn lemma_dist_total_insert(d: Seq<(usize, usize)>, i: int, p: (usize, usize))
    requires
        0 <= i <= d.len(),
    ensures
        dist_total(d.insert(i, p)) == dist_total(d) + p.1,
    decreases d.len(),
{
    let u = d.insert(i, p);
    if i == d.len() {
        assert(u.drop_last() =~= d);
    } else {
        lemma_dist_total_insert(d.drop_last(), i, p);
        assert(u.drop_last() =~= d.drop_last().insert(i, p));
    }
}

/// Average size: total divided by count, or 0 when nothing is counted.
pub open spec fn spec_average(total_size: usize, entries: usize) -> usize {
    if entries > 0 {
        (total_size / entries) as usize
    } else {
        0
    }
}

/// Whether recording one more entry of `size` stays within machine integers.
pub open spec fn spec_can_add(t: TrackerView, size: usize) -> bool {
    &&& t.total_entries < usize::MAX
    &&& t.total_size_bytes + size <= usize::MAX
    &&& dist_count(t.distribution, size) < usize::MAX
}

impl View for SizeTracker {
    type V = TrackerView;

    closed spec fn view(&self) -> TrackerView {
        TrackerView {
            total_entries: self.total_entries,
            total_size_bytes: self.total_size_bytes,
            average_entry_size: self.average_entry_size,
            distribution: self.distribution@,
        }
    }
}

proof fn lemma_dist_count_index(d: Seq<(usize, usize)>, size: usize, i: int)
    requires
        dist_wf(d),
        0 <= i < d.len(),
        d[i].0 == size,
    ensures
        dist_count(d, size) == d[i].1,
    decreases d.len(),
{
    if i != d.len() - 1 {
        assert(d.drop_last()[i] == d[i]);
        assert(dist_wf(d.drop_last()));
        lemma_dist_count_index(d.drop_last(), size, i);
    }
}

proof fn lemma_dist_count_absent(d: Seq<(usize, usize)>, size: usize)
    requires
        forall|i: int| 0 <= i < d.len() ==> d[i].0 != size,
    ensures
        dist_count(d, size) == 0,
    decreases d.len(),
{
    if d.len() > 0 {
        assert forall|i: int| 0 <= i < d.drop_last().len() implies d.drop_last()[i].0 != size by {
            assert(d.drop_last()[i] == d[i]);
        }
        lemma_dist_count_absent(d.drop_last(), size);
    }
}

/// Appending a new size leaves the counts of the others alone.
proof fn lemma_dist_count_push(d: Seq<(usize, usize)>, p: (usize, usize), size: usize)
    ensures
        dist_count(d.push(p), size) == if p.0 == size { p.1 as nat } else { dist_count(d, size) },
{
    assert(d.push(p).drop_last() =~= d);
}

/// Updating the entry at `i` changes only the count of its size.
proof fn lemma_dist_count_update(d: Seq<(usize, usize)>, i: int, c: usize, size: usize)
    requires
        dist_wf(d),
        0 <= i < d.len(),
        c > 0,
    ensures
        dist_wf(d.update(i, (d[i].0, c))),
        dist_count(d.update(i, (d[i].0, c)), size) == if d[i].0 == size {
            c as nat
        } else {
            dist_count(d, size)
        },
{
    let d2 = d.update(i, (d[i].0, c));
    assert forall|a: int, b: int| 0 <= a < b < d2.len() implies d2[a].0 < d2[b].0 by {
        assert(d2[a].0 == d[a].0);
        assert(d2[b].0 == d[b].0);
    }
    assert(dist_wf(d2));
    if d[i].0 == size {
        lemma_dist_count_index(d2, size, i);
    } else {
        if exists|j: int| 0 <= j < d.len() && d[j].0 == size {
            let j = choose|j: int| 0 <= j < d.len() && d[j].0 == size;
            lemma_dist_count_index(d, size, j);
            lemma_dist_count_index(d2, size, j);
        } else {
            lemma_dist_count_absent(d, size);
            assert forall|j: int| 0 <= j < d2.len() implies d2[j].0 != size by {}
            lemma_dist_count_absent(d2, size);
        }
    }
}

/// Removing the entry at `i` drops its size and leaves the others alone.
proof fn lemma_dist_count_remove(d: Seq<(usize, usize)>, i: int, size: usize)
    requires
        dist_wf(d),
        0 <= i < d.len(),
    ensures
        dist_wf(d.remove(i)),
        dist_count(d.remove(i), size) == if d[i].0 == size { 0 } else { dist_count(d, size) },
{
    let d2 = d.remove(i);
    assert forall|a: int, b: int| 0 <= a < b < d2.len() implies d2[a].0 < d2[b].0 by {
        let aa = if a < i { a } else { a + 1 };
        let bb = if b < i { b } else { b + 1 };
        assert(d2[a] == d[aa]);
        assert(d2[b] == d[bb]);
    }
    assert forall|a: int| 0 <= a < d2.len() implies d2[a].1 > 0 by {
        let aa = if a < i { a } else { a + 1 };
        assert(d2[a] == d[aa]);
    }
    if d[i].0 == size {
        assert forall|j: int| 0 <= j < d2.len() implies d2[j].0 != size by {
            let jj = if j < i { j } else { j + 1 };
            assert(d2[j] == d[jj]);
        }
        lemma_dist_count_absent(d2, size);
    } else {
        if exists|j: int| 0 <= j < d.len() && d[j].0 == size {
            let j = choose|j: int| 0 <= j < d.len() && d[j].0 == size;
            lemma_dist_count_index(d, size, j);
            let j2 = if j < i { j } else { j - 1 };
            assert(d2[j2] == d[j]);
            lemma_dist_count_index(d2, size, j2);
        } else {
            lemma_dist_count_absent(d, size);
            assert forall|j: int| 0 <= j < d2.len() implies d2[j].0 != size by {
                let jj = if j < i { j } else { j + 1 };
                assert(d2[j] == d[jj]);
            }
            lemma_dist_count_absent(d2, size);
        }
    }
}

/// Inserting a new size at its place in the order keeps the distribution
/// well formed, counts it once, and leaves the other counts alone.
proof fn lemma_dist_count_insert(d: Seq<(usize, usize)>, k: int, size: usize, s: usize)
    requires
        dist_wf(d),
        0 <= k <= d.len(),
        forall|j: int| 0 <= j < k ==> d[j].0 < size,
        forall|j: int| k <= j < d.len() ==> d[j].0 > size,
    ensures
        dist_wf(d.insert(k, (size, 1usize))),
        dist_count(d.insert(k, (size, 1usize)), s) == if s == size { 1 } else { dist_count(d, s) },
{
    let d2 = d.insert(k, (size, 1usize));
    assert forall|a: int, b: int| 0 <= a < b < d2.len() implies d2[a].0 < d2[b].0 by {
        if a < k {
            assert(d2[a] == d[a]);
        } else if a > k {
            assert(d2[a] == d[a - 1]);
        }
        if b < k {
            assert(d2[b] == d[b]);
        } else if b > k {
            assert(d2[b] == d[b - 1]);
        }
    }
    assert forall|a: int| 0 <= a < d2.len() implies d2[a].1 > 0 by {
        if a < k {
            assert(d2[a] == d[a]);
        } else if a > k {
            assert(d2[a] == d[a - 1]);
        }
    }
    assert(dist_wf(d2));
    if s == size {
        lemma_dist_count_index(d2, s, k);
    } else if exists|j: int| 0 <= j < d.len() && d[j].0 == s {
        let j = choose|j: int| 0 <= j < d.len() && d[j].0 == s;
        lemma_dist_count_index(d, s, j);
        let j2 = if j < k { j } else { j + 1 };
        assert(d2[j2] == d[j]);
        lemma_dist_count_index(d2, s, j2);
    } else {
        lemma_dist_count_absent(d, s);
        assert forall|j: int| 0 <= j < d2.len() implies d2[j].0 != s by {
            if j < k {
                assert(d2[j] == d[j]);
            } else if j > k {
                assert(d2[j] == d[j - 1]);
            }
        }
        lemma_dist_count_absent(d2, s);
    }
}

/// Counts after recording an entry of `size`.
pub open spec fn spec_counts_after_add(t: TrackerView, size: usize, s: usize) -> nat {
    if s == size {
        dist_count(t.distribution, s) + 1
    } else {
        dist_count(t.distribution, s)
    }
}

/// Counts after forgetting an entry of `size`.
pub open spec fn spec_counts_after_remove(t: TrackerView, size: usize, s: usize) -> nat {
    if s == size && dist_count(t.distribution, s) > 0 {
        (dist_count(t.distribution, s) - 1) as nat
    } else {
        dist_count(t.distribution, s)
    }
}

impl SizeTracker {
    /// Whether the tracker's distribution is well formed.
    pub open spec fn wf(&self) -> bool {
        dist_wf(self@.distribution)
    }

    /// An empty tracker.
    pub fn new() -> (r: Self)
        ensures
            r.wf(),
            r@.total_entries == 0,
            r@.total_size_bytes == 0,
            r@.average_entry_size == 0,
            r@.distribution.len() == 0,
            forall|s: usize| dist_count(r@.distribution, s) == 0,
            dist_total(r@.distribution) == 0,
    {
        SizeTracker {
            total_entries: 0,
            total_size_bytes: 0,
            average_entry_size: 0,
            distribution: Vec::new(),
        }
    }

    fn find_size(&self, size: usize) -> (r: Option<usize>)
        requires
            self.wf(),
        ensures
            match r {
                Some(i) => i < self@.distribution.len() && self@.distribution[i as int].0 == size
                    && dist_count(self@.distribution, size) == self@.distribution[i as int].1,
                None => forall|j: int| 0 <= j < self@.distribution.len() ==> self@.distribution[j].0 != size,
            },
    {
        let mut i: usize = 0;
        while i < self.distribution.len()
            invariant
                i <= self.distribution@.len(),
                self.wf(),
                forall|j: int| 0 <= j < i ==> self.distribution@[j].0 != size,
            decreases self.distribution@.len() - i,
        {
            if self.distribution[i].0 == size {
                proof {
                    lemma_dist_count_index(self@.distribution, size, i as int);
                }
                return Some(i);
            }
            i = i + 1;
        }
        None
    }

    /// Whether one more entry of `size` can be recorded.
    pub fn can_add(&self, size: usize) -> (r: bool)
        requires
            self.wf(),
        ensures
            r == spec_can_add(self@, size),
    {
        let count = match self.find_size(size) {
            Some(i) => self.distribution[i].1,
            None => {
                proof {
                    lemma_dist_count_absent(self@.distribution, size);
                }
                0
            },
        };
        self.total_entries < usize::MAX && size <= usize::MAX - self.total_size_bytes && count < usize::MAX
    }

    fn update_average(&mut self)
        ensures
            final(self)@ == (TrackerView {
                average_entry_size: spec_average(old(self)@.total_size_bytes, old(self)@.total_entries),
                ..old(self)@
            }),
    {
        if self.total_entries > 0 {
            self.average_entry_size = self.total_size_bytes / self.total_entries;
        } else {
            self.average_entry_size = 0;
        }
    }

    /// Records one stored entry of `size` bytes.
    pub fn record_added(&mut self, size: usize)
        requires
            old(self).wf(),
            spec_can_add(old(self)@, size),
        ensures
            final(self).wf(),
            final(self)@.total_entries == old(self)@.total_entries + 1,
            final(self)@.total_size_bytes == old(self)@.total_size_bytes + size,
            final(self)@.average_entry_size == spec_average(final(self)@.total_size_bytes, final(self)@.total_entries),
            forall|s: usize| dist_count(final(self)@.distribution, s) == spec_counts_after_add(old(self)@, size, s),
            dist_total(final(self)@.distribution) == dist_total(old(self)@.distribution) + 1,
    {
        self.total_entries = self.total_entries + 1;
        self.total_size_bytes = self.total_size_bytes + size;
        match self.find_size(size) {
            Some(i) => {
                let c = self.distribution[i].1;
                proof {
                    assert forall|s: usize| dist_count(self@.distribution.update(i as int, (size, (c + 1) as usize)), s)
                        == spec_counts_after_add(old(self)@, size, s) by {
                        lemma_dist_count_update(self@.distribution, i as int, (c + 1) as usize, s);
                    }
                    lemma_dist_count_update(self@.distribution, i as int, (c + 1) as usize, size);
                    lemma_dist_total_update(self@.distribution, i as int, (size, (c + 1) as usize));
                }
                self.distribution.set(i, (size, c + 1));
            },
            None => {
                let mut k: usize = 0;
                while k < self.distribution.len() && self.distribution[k].0 < size
                    invariant
                        k <= self.distribution@.len(),
                        dist_wf(self@.distribution),
                        forall|j: int| 0 <= j < k ==> self.distribution@[j].0 < size,
                    decreases self.distribution@.len() - k,
                {
                    k = k + 1;
                }
                proof {
                    let d = self@.distribution;
                    lemma_dist_count_absent(d, size);
                    assert forall|j: int| k <= j < d.len() implies d[j].0 > size by {
                        assert(d[j].0 != size);
                        if j > k {
                            assert(d[k as int].0 < d[j].0);
                        }
                    }
                    assert forall|s: usize| dist_count(d.insert(k as int, (size, 1usize)), s)
                        == spec_counts_after_add(old(self)@, size, s) by {
                        lemma_dist_count_insert(d, k as int, size, s);
                    }
                    lemma_dist_count_insert(d, k as int, size, size);
                    lemma_dist_total_insert(d, k as int, (size, 1usize));
                }
                self.distribution.insert(k, (size, 1));
            },
        }
        self.update_average();
    }

    /// Forgets one stored entry of `size` bytes, never going below zero.
    pub fn record_removed(&mut self, size: usize)
        requires
            old(self).wf(),
        ensures
            final(self).wf(),
            final(self)@.total_entries == old(self)@.total_entries.saturating_sub(1),
            final(self)@.total_size_bytes == old(self)@.total_size_bytes.saturating_sub(size),
            final(self)@.average_entry_size == spec_average(final(self)@.total_size_bytes, final(self)@.total_entries),
            forall|s: usize| dist_count(final(self)@.distribution, s) == spec_counts_after_remove(old(self)@, size, s),
            dist_count(old(self)@.distribution, size) > 0 ==> dist_total(final(self)@.distribution) + 1 == dist_total(
                old(self)@.distribution),
            dist_count(old(self)@.distribution, size) == 0 ==> final(self)@.distribution == old(self)@.distribution,
    {
        self.total_entries = self.total_entries.saturating_sub(1);
        self.total_size_bytes = self.total_size_bytes.saturating_sub(size);
        match self.find_size(size) {
            Some(i) => {
                let c = self.distribution[i].1;
                if c > 1 {
                    proof {
                        assert forall|s: usize| dist_count(self@.distribution.update(i as int, (size, (c - 1) as usize)), s)
                            == spec_counts_after_remove(old(self)@, size, s) by {
                            lemma_dist_count_update(self@.distribution, i as int, (c - 1) as usize, s);
                        }
                        lemma_dist_count_update(self@.distribution, i as int, (c - 1) as usize, size);
                        lemma_dist_total_update(self@.distribution, i as int, (size, (c - 1) as usize));
                    }
                    self.distribution.set(i, (size, c - 1));
                } else {
                    proof {
                        assert forall|s: usize| dist_count(self@.distribution.remove(i as int), s)
                            == spec_counts_after_remove(old(self)@, size, s) by {
                            lemma_dist_count_remove(self@.distribution, i as int, s);
                        }
                        lemma_dist_count_remove(self@.distribution, i as int, size);
                        lemma_dist_total_remove(self@.distribution, i as int);
                    }
                    self.distribution.remove(i);
                }
            },
            None => {
                proof {
                    lemma_dist_count_absent(self@.distribution, size);
                }
            },
        }
        self.update_average();
    }

    /// Total bytes recorded.
    pub fn total_size_bytes(&self) -> (r: usize)
        ensures
            r == self@.total_size_bytes,
    {
        self.total_size_bytes
    }

    /// Average entry size recorded.
    pub fn average_entry_size(&self) -> (r: usize)
        ensures
            r == self@.average_entry_size,
    {
        self.average_entry_size
    }

    /// The (size, count) pairs, one per recorded size.
    pub fn distribution(&self) -> (r: Vec<(usize, usize)>)
        ensures
            r@ == self@.distribution,
    {
        let mut out: Vec<(usize, usize)> = Vec::new();
        let mut i: usize = 0;
        while i < self.distribution.len()
            invariant
                i <= self.distribution@.len(),
                out@ == self.distribution@.subrange(0, i as int),
            decreases self.distribution@.len() - i,
        {
            out.push(self.distribution[i]);
            i = i + 1;
            proof {
                assert(out@ =~= self.distribution@.subrange(0, i as int));
            }
        }
        proof {
            assert(out@ =~= self.distribution@);
        }
        out
    }
}

} // verus!
