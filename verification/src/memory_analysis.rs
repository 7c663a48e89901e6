//! Memory accounting per component: live allocation records, the running
//! total and the peak total of each component.
//!
//! Time is a millisecond counter supplied by the caller.
use vstd::prelude::*;
use crate::text::str_eq;

verus! {

/// What an allocation was made for.
#[derive(Debug, Clone, Copy, PartialEq, Eq, Structural)]
pub enum AllocationType {
    Streaming,
    Caching,
    NeuralProcessing,
    General,
}

/// One live allocation.
#[derive(Debug, Clone)]
pub struct AllocationRecord {
    pub size: usize,
    pub timestamp_ms: u64,
    pub component: String,
    pub allocation_type: AllocationType,
}

/// Abstract state of an allocation record.
pub struct RecordView {
    pub size: usize,
    pub timestamp_ms: u64,
    pub component: Seq<char>,
    pub allocation_type: AllocationType,
}

impl AllocationRecord {
    pub closed spec fn view(&self) -> RecordView {
        RecordView {
            size: self.size,
            timestamp_ms: self.timestamp_ms,
            component: self.component@,
            allocation_type: self.allocation_type,
        }
    }
}

/// Overall verdict on the memory optimisation targets.
#[derive(Debug, Clone, Copy, PartialEq, Eq, Structural)]
pub enum MemoryOptimizationStatus {
    Excellent,
    Good,
    NeedsImprovement,
}

/// Direction in which memory usage moves.
#[derive(Debug, Clone, Copy, PartialEq, Eq, Structural)]
pub enum MemoryTrend {
    Increasing,
    Decreasing,
    Stable,
}

/// Memory assumed to be installed in the machine, in bytes (8 GiB).
pub const SYSTEM_MEMORY_BYTES: u64 = 8589934592;

/// The bookkeeping of one component.
struct Ledger {
    name: String,
    records: Vec<AllocationRecord>,
    total: usize,
    peak: usize,
}

/// Abstract state of one component's bookkeeping.
pub struct LedgerView {
    pub name: Seq<char>,
    pub records: Seq<RecordView>,
    pub total: usize,
    pub peak: usize,
}

impl Ledger {
    closed spec fn view(&self) -> LedgerView {
        LedgerView {
            name: self.name@,
            records: self.records@.map_values(|r: AllocationRecord| r.view()),
            total: self.total,
            peak: self.peak,
        }
    }
}

/// Tracks live allocations, totals and peaks by component.
pub struct AllocationTracker {
    ledgers: Vec<Ledger>,
    allocation_count: u64,
    deallocation_count: u64,
}

/// No two ledgers belong to the same component, and no component's total
/// exceeds its peak.
pub open spec fn ledgers_wf(s: Seq<LedgerView>) -> bool {
    &&& forall|i: int, j: int| 0 <= i < s.len() && 0 <= j < s.len() && i != j ==> s[i].name != s[j].name
    &&& forall|i: int| 0 <= i < s.len() ==> #[trigger] s[i].total <= s[i].peak
}

/// Whether `name` has a ledger.
pub open spec fn has_component(s: Seq<LedgerView>, name: Seq<char>) -> bool {
    exists|i: int| 0 <= i < s.len() && s[i].name == name
}

/// The position of the ledger of `name` (meaningful when it has one).
pub open spec fn component_pos(s: Seq<LedgerView>, name: Seq<char>) -> int {
    choose|i: int| 0 <= i < s.len() && s[i].name == name
}

/// The current total of `name` (0 for a component never seen).
pub open spec fn total_of(s: Seq<LedgerView>, name: Seq<char>) -> nat {
    if has_component(s, name) {
        s[component_pos(s, name)].total as nat
    } else {
        0
    }
}

/// The peak total of `name` (0 for a component never seen).
pub open spec fn peak_of(s: Seq<LedgerView>, name: Seq<char>) -> nat {
    if has_component(s, name) {
        s[component_pos(s, name)].peak as nat
    } else {
        0
    }
}

/// The live records of `name`.
pub open spec fn records_of(s: Seq<LedgerView>, name: Seq<char>) -> Seq<RecordView> {
    if has_component(s, name) {
        s[component_pos(s, name)].records
    } else {
        Seq::empty()
    }
}

/// The larger of two sizes.
pub open spec fn max_size(a: usize, b: usize) -> usize {
    if a >= b { a } else { b }
}

/// The bookkeeping after an allocation of `size` bytes by `name`.
pub open spec fn spec_allocate(s: Seq<LedgerView>, rec: RecordView) -> Seq<LedgerView> {
    if has_component(s, rec.component) {
        let i = component_pos(s, rec.component);
        let t = (s[i].total + rec.size) as usize;
        s.update(i, LedgerView {
            name: s[i].name,
            records: s[i].records.push(rec),
            total: t,
            peak: max_size(s[i].peak, t),
        })
    } else {
        s.push(LedgerView { name: rec.component, records: seq![rec], total: rec.size, peak: rec.size })
    }
}

/// Whether `i` is the first position of a record of `size` bytes.
pub open spec fn is_first_of_size(r: Seq<RecordView>, size: usize, i: int) -> bool {
    &&& 0 <= i < r.len()
    &&& r[i].size == size
    &&& forall|j: int| 0 <= j < i ==> #[trigger] r[j].size != size
}

/// The records without the first one of `size` bytes (unchanged if none).
pub open spec fn remove_first_of_size(r: Seq<RecordView>, size: usize) -> Seq<RecordView> {
    if exists|i: int| is_first_of_size(r, size, i) {
        r.remove(choose|i: int| is_first_of_size(r, size, i))
    } else {
        r
    }
}

/// The bookkeeping after `name` releases `size` bytes: the first record of
/// that size leaves, and the total drops by `size`, stopping at 0. A
/// component never seen is left without a ledger.
pub open spec fn spec_release(s: Seq<LedgerView>, name: Seq<char>, size: usize) -> Seq<LedgerView> {
    if has_component(s, name) {
        let i = component_pos(s, name);
        s.update(i, LedgerView {
            name: s[i].name,
            records: remove_first_of_size(s[i].records, size),
            total: if s[i].total >= size { (s[i].total - size) as usize } else { 0 },
            peak: s[i].peak,
        })
    } else {
        s
    }
}

/// Sum of the totals of all components.
pub open spec fn sum_totals(s: Seq<LedgerView>) -> nat
    decreases s.len(),
{
    if s.len() == 0 {
        0
    } else {
        sum_totals(s.drop_last()) + s.last().total as nat
    }
}

impl AllocationTracker {
    /// The ledgers, one per component, in the order components first appeared.
    pub closed spec fn view(&self) -> Seq<LedgerView> {
        self.ledgers@.map_values(|l: Ledger| l.view())
    }

    pub open spec fn wf(&self) -> bool {
        ledgers_wf(self.view())
    }

    /// How many allocations were recorded.
    pub closed spec fn spec_allocation_count(&self) -> u64 {
        self.allocation_count
    }

    /// How many deallocations were recorded.
    pub closed spec fn spec_deallocation_count(&self) -> u64 {
        self.deallocation_count
    }

    /// An empty tracker.
    pub fn new() -> (r: Self)
        ensures
            r.wf(),
            r.view() == Seq::<LedgerView>::empty(),
            r.spec_allocation_count() == 0,
            r.spec_deallocation_count() == 0,
    {
        let r = AllocationTracker { ledgers: Vec::new(), allocation_count: 0, deallocation_count: 0 };
        proof {
            assert(r.view() =~= Seq::<LedgerView>::empty());
        }
        r
    }

    fn find(&self, name: &String) -> (r: Option<usize>)
        requires
            self.wf(),
        ensures
            match r {
                Some(i) => i < self.view().len() && self.view()[i as int].name == name@
                    && has_component(self.view(), name@) && component_pos(self.view(), name@) == i,
                None => !has_component(self.view(), name@),
            },
    {
        let mut i: usize = 0;
        while i < self.ledgers.len()
            invariant
                i <= self.ledgers@.len(),
                self.wf(),
                self.view().len() == self.ledgers@.len(),
                forall|j: int| 0 <= j < i ==> #[trigger] self.view()[j].name != name@,
            decreases self.ledgers@.len() - i,
        {
            proof {
                assert(self.view()[i as int] == self.ledgers@[i as int].view());
            }
            if str_eq(self.ledgers[i].name.as_str(), name.as_str()) {
                proof {
                    assert(self.view()[i as int].name == name@);
                    let p = component_pos(self.view(), name@);
                    assert(has_component(self.view(), name@));
                    assert(self.view()[p].name == name@);
                }
                return Some(i);
            }
            i = i + 1;
        }
        None
    }

    /// The numbers of allocations and of deallocations recorded.
    pub fn allocation_counts(&self) -> (r: (u64, u64))
        ensures
            r == (self.spec_allocation_count(), self.spec_deallocation_count()),
    {
        (self.allocation_count, self.deallocation_count)
    }

    /// The ledger of `name` as (total, peak, number of live records), if
    /// the component was ever seen.
    pub fn component_totals(&self, name: &String) -> (r: Option<(usize, usize, usize)>)
        requires
            self.wf(),
        ensures
            match r {
                Some(t) => has_component(self.view(), name@) && t.0 == total_of(self.view(), name@)
                    && t.1 == peak_of(self.view(), name@) && t.2 == records_of(self.view(), name@).len(),
                None => !has_component(self.view(), name@),
            },
    {
        match self.find(name) {
            Some(i) => {
                let l = &self.ledgers[i];
                Some((l.total, l.peak, l.records.len()))
            },
            None => None,
        }
    }

    /// Records an allocation of `size` bytes by `component` at `now_ms`:
    /// one more allocation is counted, the record joins the component's live records, the total grows by
    /// `size` and the peak follows the total when it rises above it.
    pub fn record_allocation(
        &mut self,
        component: &String,
        size: usize,
        allocation_type: AllocationType,
        now_ms: u64,
    )
        requires
            old(self).wf(),
            total_of(old(self).view(), component@) + size <= usize::MAX,
            old(self).spec_allocation_count() < u64::MAX,
        ensures
            final(self).wf(),
            final(self).view() == spec_allocate(
                old(self).view(),
                RecordView { size, timestamp_ms: now_ms, component: component@, allocation_type },
            ),
            final(self).spec_allocation_count() == old(self).spec_allocation_count() + 1,
            final(self).spec_deallocation_count() == old(self).spec_deallocation_count(),
    {
        self.allocation_count = self.allocation_count + 1;
        let ghost s = self.view();
        let ghost rec = RecordView { size, timestamp_ms: now_ms, component: component@, allocation_type };
        let record = AllocationRecord {
            size,
            timestamp_ms: now_ms,
            component: component.clone(),
            allocation_type,
        };
        proof {
            assert(record.view() == rec);
        }
        match self.find(component) {
            Some(i) => {
                let mut l = self.ledgers.remove(i);
                proof {
                    assert(l.view() == s[i as int]);
                }
                l.records.push(record);
                l.total = l.total + size;
                if l.total > l.peak {
                    l.peak = l.total;
                }
                proof {
                    assert(l.view().records =~= s[i as int].records.push(rec));
                }
                self.ledgers.insert(i, l);
                proof {
                    assert(self.view() =~= spec_allocate(s, rec));
                }
            },
            None => {
                let mut records: Vec<AllocationRecord> = Vec::new();
                records.push(record);
                let l = Ledger { name: component.clone(), records, total: size, peak: size };
                proof {
                    assert(l.view().records =~= seq![rec]);
                }
                self.ledgers.push(l);
                proof {
                    assert(self.view() =~= spec_allocate(s, rec));
                }
            },
        }
    }

    /// Records that `component` released `size` bytes: one more deallocation
    /// is counted, the first live record of that size leaves and the total
    /// drops by `size`, stopping at 0.
    pub fn record_deallocation(&mut self, component: &String, size: usize)
        requires
            old(self).wf(),
            old(self).spec_deallocation_count() < u64::MAX,
        ensures
            final(self).wf(),
            final(self).view() == spec_release(old(self).view(), component@, size),
            final(self).spec_allocation_count() == old(self).spec_allocation_count(),
            final(self).spec_deallocation_count() == old(self).spec_deallocation_count() + 1,
    {
        self.deallocation_count = self.deallocation_count + 1;
        let ghost s = self.view();
        match self.find(component) {
            Some(i) => {
                let mut l = self.ledgers.remove(i);
                proof {
                    assert(l.view() == s[i as int]);
                }
                let ghost before = l.view().records;
                let mut k: usize = 0;
                let n = l.records.len();
                while k < n && l.records[k].size != size
                    invariant
                        k <= n,
                        n == l.records@.len(),
                        before == l.records@.map_values(|r: AllocationRecord| r.view()),
                        forall|j: int| 0 <= j < k ==> #[trigger] before[j].size != size,
                    decreases n - k,
                {
                    proof {
                        assert(before[k as int] == l.records@[k as int].view());
                    }
                    k = k + 1;
                }
                if k < n {
                    proof {
                        assert(before[k as int] == l.records@[k as int].view());
                        assert(is_first_of_size(before, size, k as int));
                        let c = choose|j: int| is_first_of_size(before, size, j);
                        assert(is_first_of_size(before, size, c));
                        assert(c == k) by {
                            if c < k {
                                assert(before[c].size != size);
                            }
                            if k < c {
                                assert(before[k as int].size != size);
                            }
                        }
                    }
                    l.records.remove(k);
                    proof {
                        assert(l.records@.map_values(|r: AllocationRecord| r.view()) =~= before.remove(k as int));
                    }
                } else {
                    proof {
                        assert(!exists|j: int| is_first_of_size(before, size, j));
                    }
                }
                l.total = l.total.saturating_sub(size);
                self.ledgers.insert(i, l);
                proof {
                    assert(self.view() =~= spec_release(s, component@, size));
                }
            },
            None => {},
        }
    }

    /// The sum of all component totals, or `None` where it does not fit in
    /// a `usize`.
    pub fn checked_total_memory(&self) -> (r: Option<usize>)
        ensures
            match r {
                Some(t) => t == sum_totals(self.view()),
                None => sum_totals(self.view()) > usize::MAX,
            },
    {
        let mut sum: usize = 0;
        let mut i: usize = 0;
        while i < self.ledgers.len()
            invariant
                i <= self.ledgers@.len(),
                self.view().len() == self.ledgers@.len(),
                sum == sum_totals(self.view().subrange(0, i as int)),
            decreases self.ledgers@.len() - i,
        {
            proof {
                assert(self.view().subrange(0, i + 1).drop_last() =~= self.view().subrange(0, i as int));
            }
            match sum.checked_add(self.ledgers[i].total) {
                Some(t) => {
                    sum = t;
                },
                None => {
                    proof {
                        lemma_sum_totals_prefix(self.view(), i + 1);
                    }
                    return None;
                },
            }
            i = i + 1;
        }
        proof {
            assert(self.view().subrange(0, i as int) =~= self.view());
        }
        Some(sum)
    }

    /// Each component with its current total, in the order components first
    /// appeared.
    pub fn breakdown(&self) -> (r: Vec<(String, usize)>)
        ensures
            r@.len() == self.view().len(),
            forall|i: int| 0 <= i < r@.len() ==> #[trigger] r@[i].0@ == self.view()[i].name
                && r@[i].1 == self.view()[i].total,
    {
        let mut out: Vec<(String, usize)> = Vec::new();
        let mut i: usize = 0;
        while i < self.ledgers.len()
            invariant
                i <= self.ledgers@.len(),
                self.view().len() == self.ledgers@.len(),
                out@.len() == i,
                forall|j: int| 0 <= j < i ==> #[trigger] out@[j].0@ == self.view()[j].name
                    && out@[j].1 == self.view()[j].total,
            decreases self.ledgers@.len() - i,
        {
            out.push((self.ledgers[i].name.clone(), self.ledgers[i].total));
            i = i + 1;
        }
        out
    }
}

proof fn lemma_sum_totals_prefix(s: Seq<LedgerView>, k: int)
    requires
        0 <= k <= s.len(),
    ensures
        sum_totals(s.subrange(0, k)) <= sum_totals(s),
    decreases s.len() - k,
{
    if k < s.len() {
        lemma_sum_totals_prefix(s, k + 1);
        assert(s.subrange(0, k + 1).drop_last() =~= s.subrange(0, k));
    } else {
        assert(s.subrange(0, k) =~= s);
    }
}

/// Allocating by one component raises its total by the allocated size,
/// appends the record to its live records, lifts its peak to at least the
/// new total, and leaves every other component as it was.
pub proof fn lemma_allocate_effects(s: Seq<LedgerView>, rec: RecordView, n: Seq<char>)
    requires
        ledgers_wf(s),
        total_of(s, rec.component) + rec.size <= usize::MAX,
    ensures
        ledgers_wf(spec_allocate(s, rec)),
        n == rec.component ==> {
            &&& total_of(spec_allocate(s, rec), n) == total_of(s, n) + rec.size
            &&& records_of(spec_allocate(s, rec), n) == records_of(s, n).push(rec)
            &&& peak_of(spec_allocate(s, rec), n) >= peak_of(s, n)
            &&& peak_of(spec_allocate(s, rec), n) >= total_of(spec_allocate(s, rec), n)
        },
        n != rec.component ==> {
            &&& total_of(spec_allocate(s, rec), n) == total_of(s, n)
            &&& records_of(spec_allocate(s, rec), n) == records_of(s, n)
            &&& peak_of(spec_allocate(s, rec), n) == peak_of(s, n)
        },
{
    let t = spec_allocate(s, rec);
    if has_component(s, rec.component) {
        let i = component_pos(s, rec.component);
        assert(t[i].name == rec.component);
        lemma_pos_unique(t, rec.component, i);
        if has_component(s, n) && n != rec.component {
            let p = component_pos(s, n);
            assert(t[p].name == n);
            lemma_pos_unique(t, n, p);
        }
        if has_component(t, n) && n != rec.component {
            let q = component_pos(t, n);
            assert(s[q].name == n);
        }
    } else {
        let i = s.len() as int;
        assert(t[i].name == rec.component);
        lemma_pos_unique(t, rec.component, i);
        assert(records_of(s, rec.component) =~= Seq::<RecordView>::empty());
        assert(seq![rec] =~= Seq::<RecordView>::empty().push(rec));
        if has_component(s, n) {
            let p = component_pos(s, n);
            assert(t[p].name == n);
            lemma_pos_unique(t, n, p);
        }
        if has_component(t, n) && n != rec.component {
            let q = component_pos(t, n);
            assert(s[q].name == n);
        }
    }
}

/// Releasing memory of one component lowers its total by the released size
/// (stopping at 0), keeps its peak, and leaves every other component as it
/// was.
pub proof fn lemma_release_effects(s: Seq<LedgerView>, c: Seq<char>, size: usize, n: Seq<char>)
    requires
        ledgers_wf(s),
    ensures
        ledgers_wf(spec_release(s, c, size)),
        n == c ==> {
            &&& total_of(spec_release(s, c, size), n) == (if total_of(s, n) >= size {
                total_of(s, n) - size
            } else {
                0
            })
            &&& records_of(spec_release(s, c, size), n) == remove_first_of_size(records_of(s, n), size)
            &&& peak_of(spec_release(s, c, size), n) == peak_of(s, n)
        },
        n != c ==> {
            &&& total_of(spec_release(s, c, size), n) == total_of(s, n)
            &&& records_of(spec_release(s, c, size), n) == records_of(s, n)
            &&& peak_of(spec_release(s, c, size), n) == peak_of(s, n)
        },
{
    let t = spec_release(s, c, size);
    if has_component(s, c) {
        let i = component_pos(s, c);
        assert(t[i].name == c);
        lemma_pos_unique(t, c, i);
        if has_component(s, n) && n != c {
            let p = component_pos(s, n);
            assert(t[p].name == n);
            lemma_pos_unique(t, n, p);
        }
        if has_component(t, n) && n != c {
            let q = component_pos(t, n);
            assert(s[q].name == n);
        }
    } else {
        assert(remove_first_of_size(Seq::<RecordView>::empty(), size) =~= Seq::<RecordView>::empty()) by {
            assert(!exists|i: int| is_first_of_size(Seq::<RecordView>::empty(), size, i));
        }
    }
}

/// Releasing the size just allocated by a component gives back the total it
/// had before and the same number of live records; its peak does not fall.
pub proof fn lemma_release_undoes_allocate(s: Seq<LedgerView>, rec: RecordView)
    requires
        ledgers_wf(s),
        total_of(s, rec.component) + rec.size <= usize::MAX,
    ensures
        total_of(spec_release(spec_allocate(s, rec), rec.component, rec.size), rec.component)
            == total_of(s, rec.component),
        records_of(spec_release(spec_allocate(s, rec), rec.component, rec.size), rec.component).len()
            == records_of(s, rec.component).len(),
        peak_of(spec_release(spec_allocate(s, rec), rec.component, rec.size), rec.component)
            >= peak_of(s, rec.component),
{
    let c = rec.component;
    lemma_allocate_effects(s, rec, c);
    let t = spec_allocate(s, rec);
    lemma_release_effects(t, c, rec.size, c);
    let r = records_of(t, c);
    let last = r.len() - 1;
    assert(r[last].size == rec.size);
    assert(exists|i: int| is_first_of_size(r, rec.size, i)) by {
        lemma_first_of_size_exists(r, rec.size, last);
    }
}

proof fn lemma_first_of_size_exists(r: Seq<RecordView>, size: usize, k: int)
    requires
        0 <= k < r.len(),
        r[k].size == size,
    ensures
        exists|i: int| is_first_of_size(r, size, i),
    decreases k,
{
    if forall|j: int| 0 <= j < k ==> #[trigger] r[j].size != size {
        assert(is_first_of_size(r, size, k));
    } else {
        let j = choose|j: int| 0 <= j < k && #[trigger] r[j].size == size;
        lemma_first_of_size_exists(r, size, j);
    }
}

proof fn lemma_pos_unique(s: Seq<LedgerView>, n: Seq<char>, i: int)
    requires
        ledgers_wf(s),
        0 <= i < s.len(),
        s[i].name == n,
    ensures
        has_component(s, n),
        component_pos(s, n) == i,
{
    assert(has_component(s, n));
    let p = component_pos(s, n);
    assert(s[p].name == n);
}

/// Memory left free when `total_memory` bytes are in use: the assumed
/// system memory less the total, stopping at 0.
pub fn available_memory(total_memory: usize) -> (r: u64)
    ensures
        r == (if total_memory >= SYSTEM_MEMORY_BYTES { 0 } else { SYSTEM_MEMORY_BYTES - total_memory }),
{
    let t = total_memory as u64;
    SYSTEM_MEMORY_BYTES.saturating_sub(t)
}

/// The overall verdict from the three targets: all met is excellent, the
/// streaming or the reduction target met is good, otherwise improvement is
/// needed.
pub fn optimization_status(streaming_efficiency_met: bool, memory_reduction_met: bool, fragmentation_acceptable: bool) -> (r: MemoryOptimizationStatus)
    ensures
        r == (if streaming_efficiency_met && memory_reduction_met && fragmentation_acceptable {
            MemoryOptimizationStatus::Excellent
        } else if streaming_efficiency_met || memory_reduction_met {
            MemoryOptimizationStatus::Good
        } else {
            MemoryOptimizationStatus::NeedsImprovement
        }),
{
    if streaming_efficiency_met && memory_reduction_met && fragmentation_acceptable {
        MemoryOptimizationStatus::Excellent
    } else if streaming_efficiency_met || memory_reduction_met {
        MemoryOptimizationStatus::Good
    } else {
        MemoryOptimizationStatus::NeedsImprovement
    }
}

} // verus!
