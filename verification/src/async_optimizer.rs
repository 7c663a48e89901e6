//! Scheduling decisions for asynchronous operations: the priority queue of
//! a batch processor, execution counters, and the slot accounting of a
//! connection pool.
use vstd::prelude::*;
use crate::platform::logical_cpus;

verus! {

/// Configuration of the asynchronous operation optimizer. Durations are in
/// milliseconds.
#[derive(Debug, Clone, Copy, PartialEq, Eq, Structural)]
pub struct AsyncOptimizerConfig {
    /// Operations that may run at once.
    pub max_concurrent_ops: usize,
    /// Operations taken from the queue per batch.
    pub batch_size: usize,
    /// Longest wait before a partial batch is processed.
    pub batch_timeout_ms: u64,
    /// Connections kept for outside services.
    pub connection_pool_size: usize,
    /// Whether queued operations are ordered by priority.
    pub enable_prioritization: bool,
    /// Interval between metrics reports.
    pub metrics_interval_ms: u64,
}

impl AsyncOptimizerConfig {
    /// The default configuration on a machine with `cpus` logical cores:
    /// four concurrent operations per core (saturating at `usize::MAX`),
    /// batches of 100 with a 50 ms timeout, 20 pooled connections,
    /// prioritisation on and a report every 30 s.
    pub fn for_cpus(cpus: usize) -> (r: Self)
        ensures
            r.max_concurrent_ops == (if cpus * 4 <= usize::MAX { cpus * 4 } else { usize::MAX as int }),
            r.batch_size == 100,
            r.batch_timeout_ms == 50,
            r.connection_pool_size == 20,
            r.enable_prioritization,
            r.metrics_interval_ms == 30000,
    {
        let ops = match cpus.checked_mul(4) {
            Some(n) => n,
            None => usize::MAX,
        };
        AsyncOptimizerConfig {
            max_concurrent_ops: ops,
            batch_size: 100,
            batch_timeout_ms: 50,
            connection_pool_size: 20,
            enable_prioritization: true,
            metrics_interval_ms: 30000,
        }
    }
}

/// Four concurrent operations per core on `n` cores, saturating at
/// `usize::MAX`.
pub open spec fn four_per_cpu(n: usize) -> int {
    if n * 4 <= usize::MAX { n * 4 } else { usize::MAX as int }
}

impl Default for AsyncOptimizerConfig {
    /// The defaults of `for_cpus` on this machine's logical core count
    /// (at least 1).
    fn default() -> (r: Self)
        ensures
            r.max_concurrent_ops >= 4,
            exists|n: usize| n >= 1 && r.max_concurrent_ops == #[trigger] four_per_cpu(n),
            r.batch_size == 100,
            r.batch_timeout_ms == 50,
            r.connection_pool_size == 20,
            r.enable_prioritization,
            r.metrics_interval_ms == 30000,
    {
        let cpus = logical_cpus();
        let r = AsyncOptimizerConfig::for_cpus(cpus);
        proof {
            assert(cpus >= 1 && r.max_concurrent_ops == four_per_cpu(cpus));
        }
        r
    }
}

/// Priority of a queued operation, from lowest to highest.
#[derive(Debug, Clone, Copy, PartialEq, Eq, PartialOrd, Ord, Structural)]
pub enum OperationPriority {
    Low,
    Normal,
    High,
    Critical,
}

/// The numeric level of a priority: 0 for `Low` up to 3 for `Critical`.
pub open spec fn priority_rank(p: OperationPriority) -> int {
    match p {
        OperationPriority::Low => 0,
        OperationPriority::Normal => 1,
        OperationPriority::High => 2,
        OperationPriority::Critical => 3,
    }
}

/// Whether `a` ranks strictly below `b`.
pub fn priority_below(a: OperationPriority, b: OperationPriority) -> (r: bool)
    ensures
        r == (priority_rank(a) < priority_rank(b)),
{
    let ra: u8 = match a {
        OperationPriority::Low => 0,
        OperationPriority::Normal => 1,
        OperationPriority::High => 2,
        OperationPriority::Critical => 3,
    };
    let rb: u8 = match b {
        OperationPriority::Low => 0,
        OperationPriority::Normal => 1,
        OperationPriority::High => 2,
        OperationPriority::Critical => 3,
    };
    ra < rb
}

/// Where an operation of priority `p` joins the queue `s`: before the first
/// queued operation of lower priority, or at the end.
pub open spec fn insert_pos<T>(s: Seq<(OperationPriority, T)>, p: OperationPriority) -> int {
    if exists|i: int| 0 <= i < s.len() && priority_rank(#[trigger] s[i].0) < priority_rank(p) {
        choose|i: int| 0 <= i < s.len() && priority_rank(s[i].0) < priority_rank(p)
            && forall|j: int| 0 <= j < i ==> priority_rank(p) <= priority_rank(#[trigger] s[j].0)
    } else {
        s.len() as int
    }
}

/// Whether the queue runs from higher to lower priority.
pub open spec fn by_priority<T>(s: Seq<(OperationPriority, T)>) -> bool {
    forall|i: int, j: int| 0 <= i <= j < s.len() ==> priority_rank(#[trigger] s[j].0) <= priority_rank(#[trigger] s[i].0)
}

/// The operations waiting for a batch, each with its priority.
pub struct BatchQueue<T> {
    items: Vec<(OperationPriority, T)>,
}

impl<T> BatchQueue<T> {
    pub closed spec fn view(&self) -> Seq<(OperationPriority, T)> {
        self.items@
    }

    /// An empty queue.
    pub fn new() -> (r: Self)
        ensures
            r.view() == Seq::<(OperationPriority, T)>::empty(),
    {
        BatchQueue { items: Vec::new() }
    }

    /// The number of waiting operations.
    pub fn len(&self) -> (r: usize)
        ensures
            r == self.view().len(),
    {
        self.items.len()
    }

    /// Queues `item`. With prioritisation it goes before the first waiting
    /// operation of lower priority (after all of equal or higher priority);
    /// without, it goes to the end.
    pub fn add(&mut self, priority: OperationPriority, item: T, prioritize: bool)
        ensures
            prioritize ==> final(self).view() == old(self).view().insert(
                insert_pos(old(self).view(), priority),
                (priority, item),
            ),
            !prioritize ==> final(self).view() == old(self).view().push((priority, item)),
    {
        if !prioritize {
            self.items.push((priority, item));
            return;
        }
        let ghost s = self.items@;
        let n = self.items.len();
        let mut i: usize = 0;
        while i < n && !priority_below(self.items[i].0, priority)
            invariant
                i <= n,
                n == self.items@.len(),
                self.items@ == s,
                forall|j: int| 0 <= j < i ==> priority_rank(priority) <= priority_rank(#[trigger] s[j].0),
            decreases n - i,
        {
            i = i + 1;
        }
        proof {
            if i < n {
                assert(priority_rank(s[i as int].0) < priority_rank(priority));
                let c = choose|k: int| 0 <= k < s.len() && priority_rank(s[k].0) < priority_rank(priority)
                    && forall|j: int| 0 <= j < k ==> priority_rank(priority) <= priority_rank(#[trigger] s[j].0);
                assert(0 <= c < s.len() && priority_rank(s[c].0) < priority_rank(priority)
                    && forall|j: int| 0 <= j < c ==> priority_rank(priority) <= priority_rank(#[trigger] s[j].0));
                if c < i {
                    assert(priority_rank(priority) <= priority_rank(s[c].0));
                }
                if i < c {
                    assert(priority_rank(priority) <= priority_rank(s[i as int].0));
                }
                assert(insert_pos(s, priority) == i);
            } else {
                assert(!exists|k: int| 0 <= k < s.len() && priority_rank(#[trigger] s[k].0) < priority_rank(priority));
                assert(insert_pos(s, priority) == n);
            }
        }
        self.items.insert(i, (priority, item));
    }

    /// Takes the first `min(batch_size, len)` operations off the queue, in
    /// queue order.
    pub fn take_batch(&mut self, batch_size: usize) -> (r: Vec<(OperationPriority, T)>)
        ensures
            r@ == old(self).view().take(
                if batch_size <= old(self).view().len() { batch_size as int } else { old(self).view().len() as int },
            ),
            final(self).view() == old(self).view().skip(
                if batch_size <= old(self).view().len() { batch_size as int } else { old(self).view().len() as int },
            ),
    {
        let ghost s = self.items@;
        let k = if batch_size <= self.items.len() { batch_size } else { self.items.len() };
        let mut out: Vec<(OperationPriority, T)> = Vec::new();
        let mut taken: usize = 0;
        while taken < k
            invariant
                taken <= k,
                k <= s.len(),
                out@ == s.take(taken as int),
                self.items@ == s.skip(taken as int),
            decreases k - taken,
        {
            let x = self.items.remove(0);
            out.push(x);
            taken = taken + 1;
            proof {
                assert(out@ =~= s.take(taken as int));
                assert(self.items@ =~= s.skip(taken as int));
            }
        }
        out
    }
}

/// Adding with prioritisation keeps a queue ordered from higher to lower
/// priority, and the new operation comes after every waiting operation of
/// equal or higher priority.
pub proof fn lemma_add_keeps_priority_order<T>(s: Seq<(OperationPriority, T)>, p: OperationPriority, item: T)
    requires
        by_priority(s),
    ensures
        by_priority(s.insert(insert_pos(s, p), (p, item))),
        forall|j: int| 0 <= j < insert_pos(s, p) ==> priority_rank(p) <= priority_rank(#[trigger] s[j].0),
        forall|j: int| insert_pos(s, p) <= j < s.len() ==> priority_rank(#[trigger] s[j].0) < priority_rank(p),
{
    let k = insert_pos(s, p);
    if exists|i: int| 0 <= i < s.len() && priority_rank(#[trigger] s[i].0) < priority_rank(p) {
        let w = choose|i: int| 0 <= i < s.len() && priority_rank(#[trigger] s[i].0) < priority_rank(p);
        assert(0 <= w < s.len() && priority_rank(s[w].0) < priority_rank(p));
        lemma_first_lower_exists(s, p, w);
        assert(0 <= k < s.len() && priority_rank(s[k].0) < priority_rank(p)
            && forall|j: int| 0 <= j < k ==> priority_rank(p) <= priority_rank(#[trigger] s[j].0));
        assert forall|j: int| k <= j < s.len() implies priority_rank(#[trigger] s[j].0) < priority_rank(p) by {
            assert(priority_rank(s[j].0) <= priority_rank(s[k].0));
        }
    } else {
        assert(k == s.len());
    }
    let t = s.insert(k, (p, item));
    assert forall|i: int, j: int| 0 <= i <= j < t.len() implies priority_rank(#[trigger] t[j].0) <= priority_rank(#[trigger] t[i].0) by {
        if i < k && j < k {
        } else if i < k && j == k {
        } else if i < k && j > k {
            assert(t[j] == s[j - 1]);
        } else if i == k && j > k {
            assert(t[j] == s[j - 1]);
        } else if i > k {
            assert(t[i] == s[i - 1]);
            assert(t[j] == s[j - 1]);
        }
    }
}

proof fn lemma_first_lower_exists<T>(s: Seq<(OperationPriority, T)>, p: OperationPriority, k: int)
    requires
        0 <= k < s.len(),
        priority_rank(s[k].0) < priority_rank(p),
    ensures
        exists|i: int| 0 <= i < s.len() && priority_rank(s[i].0) < priority_rank(p)
            && forall|j: int| 0 <= j < i ==> priority_rank(p) <= priority_rank(#[trigger] s[j].0),
    decreases k,
{
    if forall|j: int| 0 <= j < k ==> priority_rank(p) <= priority_rank(#[trigger] s[j].0) {
    } else {
        let j = choose|j: int| 0 <= j < k && !(priority_rank(p) <= priority_rank(#[trigger] s[j].0));
        lemma_first_lower_exists(s, p, j);
    }
}

/// Taking a batch splits the queue: the batch followed by what remains is
/// the queue as it was.
pub proof fn lemma_batch_split<T>(s: Seq<(OperationPriority, T)>, k: int)
    requires
        0 <= k <= s.len(),
    ensures
        s.take(k) + s.skip(k) == s,
{
    assert(s.take(k) + s.skip(k) =~= s);
}

/// Counters of the batches processed.
#[derive(Debug, Clone, Copy, PartialEq, Eq, Structural)]
pub struct BatchCounters {
    pub total_operations: u64,
    pub batched_operations: u64,
    pub processing_time_ms: u64,
}

impl BatchCounters {
    /// No batch processed yet.
    pub fn new() -> (r: Self)
        ensures
            r == (BatchCounters { total_operations: 0, batched_operations: 0, processing_time_ms: 0 }),
    {
        BatchCounters { total_operations: 0, batched_operations: 0, processing_time_ms: 0 }
    }

    /// A batch of `operations` operations ran in `elapsed_ms`. An empty
    /// batch did not run, and leaves the counters as they were.
    pub fn record_batch(&mut self, operations: u64, elapsed_ms: u64)
        requires
            operations > 0 ==> old(self).total_operations + operations <= u64::MAX,
            operations > 0 ==> old(self).batched_operations < u64::MAX,
            operations > 0 ==> old(self).processing_time_ms + elapsed_ms <= u64::MAX,
        ensures
            operations == 0 ==> *final(self) == *old(self),
            operations > 0 ==> final(self).total_operations == old(self).total_operations + operations
                && final(self).batched_operations == old(self).batched_operations + 1
                && final(self).processing_time_ms == old(self).processing_time_ms + elapsed_ms,
    {
        if operations == 0 {
            return;
        }
        self.total_operations = self.total_operations + operations;
        self.batched_operations = self.batched_operations + 1;
        self.processing_time_ms = self.processing_time_ms + elapsed_ms;
    }
}

/// Counters of the operations executed under the optimizer's limit.
#[derive(Debug, Clone, Copy, PartialEq, Eq, Structural)]
pub struct ExecutionCounters {
    pub total_operations: u64,
    pub successful_operations: u64,
    pub failed_operations: u64,
    pub current_concurrent_ops: usize,
    pub peak_concurrent_ops: usize,
}

impl ExecutionCounters {
    /// Nothing executed yet.
    pub fn new() -> (r: Self)
        ensures
            r == (ExecutionCounters {
                total_operations: 0,
                successful_operations: 0,
                failed_operations: 0,
                current_concurrent_ops: 0,
                peak_concurrent_ops: 0,
            }),
    {
        ExecutionCounters {
            total_operations: 0,
            successful_operations: 0,
            failed_operations: 0,
            current_concurrent_ops: 0,
            peak_concurrent_ops: 0,
        }
    }

    /// The number of running operations was observed: `max_concurrent_ops`
    /// permits less the `available_permits`. The peak follows it upward.
    pub fn observe_concurrency(&mut self, max_concurrent_ops: usize, available_permits: usize)
        requires
            available_permits <= max_concurrent_ops,
        ensures
            final(self).current_concurrent_ops == max_concurrent_ops - available_permits,
            final(self).peak_concurrent_ops == (if old(self).peak_concurrent_ops >= max_concurrent_ops
                - available_permits {
                old(self).peak_concurrent_ops as int
            } else {
                max_concurrent_ops - available_permits
            }),
            final(self).total_operations == old(self).total_operations,
            final(self).successful_operations == old(self).successful_operations,
            final(self).failed_operations == old(self).failed_operations,
    {
        self.current_concurrent_ops = max_concurrent_ops - available_permits;
        if self.current_concurrent_ops > self.peak_concurrent_ops {
            self.peak_concurrent_ops = self.current_concurrent_ops;
        }
    }

    /// An operation finished, successfully or not.
    pub fn record_outcome(&mut self, succeeded: bool)
        requires
            old(self).total_operations < u64::MAX,
            succeeded ==> old(self).successful_operations < u64::MAX,
            !succeeded ==> old(self).failed_operations < u64::MAX,
        ensures
            final(self).total_operations == old(self).total_operations + 1,
            final(self).successful_operations == old(self).successful_operations + if succeeded { 1int } else { 0int },
            final(self).failed_operations == old(self).failed_operations + if succeeded { 0int } else { 1int },
            final(self).current_concurrent_ops == old(self).current_concurrent_ops,
            final(self).peak_concurrent_ops == old(self).peak_concurrent_ops,
    {
        self.total_operations = self.total_operations + 1;
        if succeeded {
            self.successful_operations = self.successful_operations + 1;
        } else {
            self.failed_operations = self.failed_operations + 1;
        }
    }
}

/// Why a connection could not be had.
#[derive(Debug, Clone, Copy, PartialEq, Eq, Structural)]
pub enum PoolError {
    /// Every slot of the pool is taken.
    ResourceExhausted,
}

impl PoolError {
    /// The name of the exhausted resource.
    pub fn resource(&self) -> (r: &'static str)
        ensures
            r@ == "connection_pool"@,
    {
        "connection_pool"
    }
}

/// Slot accounting of a connection pool of fixed size.
pub struct ConnectionPoolOptimizer {
    pool_size: usize,
    active: usize,
    total_connections_created: u64,
    active_connections: usize,
    peak_connections: usize,
    connection_errors: u64,
}

/// Abstract state of a connection pool.
pub struct PoolView {
    pub pool_size: usize,
    pub active: usize,
    pub total_connections_created: u64,
    pub active_connections: usize,
    pub peak_connections: usize,
    pub connection_errors: u64,
}

/// Counters reported by a connection pool.
#[derive(Debug, Clone, Copy, PartialEq, Eq, Structural)]
pub struct ConnectionMetrics {
    pub total_connections_created: u64,
    pub active_connections: usize,
    pub peak_connections: usize,
    pub connection_errors: u64,
}

/// The pool after a slot is taken.
pub open spec fn after_reserve(v: PoolView) -> PoolView {
    PoolView { active: (v.active + 1) as usize, ..v }
}

/// The pool after the connection of a reserved slot was made or failed.
pub open spec fn after_complete(v: PoolView, succeeded: bool) -> PoolView {
    PoolView {
        pool_size: v.pool_size,
        active: if succeeded || v.active == 0 { v.active } else { (v.active - 1) as usize },
        total_connections_created: (v.total_connections_created + 1) as u64,
        active_connections: v.active,
        peak_connections: if v.peak_connections >= v.active { v.peak_connections } else { v.active },
        connection_errors: if succeeded { v.connection_errors } else { (v.connection_errors + 1) as u64 },
    }
}

/// The pool after a connection is given back.
pub open spec fn after_release(v: PoolView) -> PoolView {
    PoolView {
        active: if v.active == 0 { 0 } else { (v.active - 1) as usize },
        active_connections: if v.active == 0 { 0 } else { (v.active - 1) as usize },
        ..v
    }
}

/// A connection attempt that fails gives its slot back: the pool has as
/// many slots taken as before the reservation.
pub proof fn lemma_failed_connection_frees_slot(v: PoolView)
    requires
        v.active < v.pool_size,
    ensures
        after_complete(after_reserve(v), false).active == v.active,
{
}

/// A connection made and then given back leaves as many slots taken as
/// before, and no pool ever holds more than its size.
pub proof fn lemma_release_undoes_reserve(v: PoolView)
    requires
        v.active < v.pool_size,
    ensures
        after_release(after_complete(after_reserve(v), true)).active == v.active,
        after_reserve(v).active <= v.pool_size,
{
}

impl ConnectionPoolOptimizer {
    pub closed spec fn view(&self) -> PoolView {
        PoolView {
            pool_size: self.pool_size,
            active: self.active,
            total_connections_created: self.total_connections_created,
            active_connections: self.active_connections,
            peak_connections: self.peak_connections,
            connection_errors: self.connection_errors,
        }
    }

    /// The pool never holds more connections than it has slots.
    pub open spec fn wf(&self) -> bool {
        self.view().active <= self.view().pool_size
    }

    /// A pool of `pool_size` free slots.
    pub fn new(pool_size: usize) -> (r: Self)
        ensures
            r.wf(),
            r.view() == (PoolView {
                pool_size,
                active: 0,
                total_connections_created: 0,
                active_connections: 0,
                peak_connections: 0,
                connection_errors: 0,
            }),
    {
        ConnectionPoolOptimizer {
            pool_size,
            active: 0,
            total_connections_created: 0,
            active_connections: 0,
            peak_connections: 0,
            connection_errors: 0,
        }
    }

    /// Takes a slot for a new connection, or fails when every slot is taken.
    pub fn try_reserve(&mut self) -> (r: Result<(), PoolError>)
        requires
            old(self).wf(),
        ensures
            final(self).wf(),
            r is Ok <==> old(self).view().active < old(self).view().pool_size,
            r is Ok ==> final(self).view() == after_reserve(old(self).view()),
            r is Err ==> final(self).view() == old(self).view(),
    {
        if self.active < self.pool_size {
            self.active = self.active + 1;
            Ok(())
        } else {
            Err(PoolError::ResourceExhausted)
        }
    }

    /// The connection for a reserved slot was made, or failed: the count of
    /// attempts rises, the reported active count and peak follow the slots,
    /// and a failure counts an error and gives its slot back.
    pub fn complete(&mut self, succeeded: bool)
        requires
            old(self).wf(),
            old(self).view().total_connections_created < u64::MAX,
            !succeeded ==> old(self).view().connection_errors < u64::MAX,
        ensures
            final(self).wf(),
            final(self).view() == after_complete(old(self).view(), succeeded),
    {
        self.total_connections_created = self.total_connections_created + 1;
        self.active_connections = self.active;
        if self.active > self.peak_connections {
            self.peak_connections = self.active;
        }
        if !succeeded {
            self.connection_errors = self.connection_errors + 1;
            self.active = self.active.saturating_sub(1);
        }
    }

    /// A connection was given back: its slot frees (no slot is freed when
    /// none is taken) and the reported active count follows.
    pub fn release(&mut self)
        requires
            old(self).wf(),
        ensures
            final(self).wf(),
            final(self).view() == after_release(old(self).view()),
    {
        self.active = self.active.saturating_sub(1);
        self.active_connections = self.active;
    }

    /// The pool's counters.
    pub fn metrics(&self) -> (r: ConnectionMetrics)
        ensures
            r == (ConnectionMetrics {
                total_connections_created: self.view().total_connections_created,
                active_connections: self.view().active_connections,
                peak_connections: self.view().peak_connections,
                connection_errors: self.view().connection_errors,
            }),
    {
        ConnectionMetrics {
            total_connections_created: self.total_connections_created,
            active_connections: self.active_connections,
            peak_connections: self.peak_connections,
            connection_errors: self.connection_errors,
        }
    }

    /// The number of slots taken.
    pub fn active_slots(&self) -> (r: usize)
        ensures
            r == self.view().active,
    {
        self.active
    }
}

} // verus!
