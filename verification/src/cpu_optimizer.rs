//! Worker bookkeeping for CPU-bound task execution: configuration, worker
//! selection by load-balancing strategy, and per-worker task counters.
use vstd::prelude::*;
use crate::platform::logical_cpus;

verus! {

/// How a worker is chosen for the next task.
#[derive(Debug, Clone, Copy, PartialEq, Eq, Structural)]
pub enum LoadBalancingStrategy {
    RoundRobin,
    LeastLoaded,
    Weighted,
}

/// Priority of a CPU task, from lowest to highest.
#[derive(Debug, Clone, Copy, PartialEq, Eq, PartialOrd, Ord, Structural)]
pub enum TaskPriority {
    Low,
    Normal,
    High,
    Critical,
}

impl TaskPriority {
    pub open spec fn spec_rank(self) -> u8 {
        match self {
            TaskPriority::Low => 0,
            TaskPriority::Normal => 1,
            TaskPriority::High => 2,
            TaskPriority::Critical => 3,
        }
    }

    /// The numeric level of the priority: 0 for `Low` up to 3 for `Critical`.
    pub fn rank(&self) -> (r: u8)
        ensures
            r == self.spec_rank(),
    {
        match self {
            TaskPriority::Low => 0,
            TaskPriority::Normal => 1,
            TaskPriority::High => 2,
            TaskPriority::Critical => 3,
        }
    }
}

/// Configuration of the CPU optimizer.
#[derive(Debug, Clone, Copy, PartialEq, Eq, Structural)]
pub struct CpuOptimizerConfig {
    /// Number of worker threads.
    pub worker_threads: usize,
    /// Whether vectorised operations are used.
    pub enable_simd: bool,
    /// CPU cache line size in bytes.
    pub cache_line_size: usize,
    /// Task queue size.
    pub task_queue_size: usize,
    /// Whether threads are pinned to cores.
    pub enable_cpu_affinity: bool,
    /// How workers are chosen.
    pub load_balancing_strategy: LoadBalancingStrategy,
    /// Tasks that one worker may run at once.
    pub max_concurrent_tasks_per_worker: usize,
}

impl Default for CpuOptimizerConfig {
    /// One worker per logical core, vectorisation and affinity on, 64-byte
    /// cache lines, a queue of 10000 tasks, round-robin selection and four
    /// tasks per worker.
    fn default() -> (r: Self)
        ensures
            r.worker_threads >= 1,
            r.enable_simd,
            r.cache_line_size == 64,
            r.task_queue_size == 10000,
            r.enable_cpu_affinity,
            r.load_balancing_strategy == LoadBalancingStrategy::RoundRobin,
            r.max_concurrent_tasks_per_worker == 4,
    {
        CpuOptimizerConfig {
            worker_threads: logical_cpus(),
            enable_simd: true,
            cache_line_size: 64,
            task_queue_size: 10000,
            enable_cpu_affinity: true,
            load_balancing_strategy: LoadBalancingStrategy::RoundRobin,
            max_concurrent_tasks_per_worker: 4,
        }
    }
}

impl CpuOptimizerConfig {
    /// The number of tasks that may run at once over all workers, or `None`
    /// where the product does not fit in a `usize`.
    pub fn total_permits(&self) -> (r: Option<usize>)
        ensures
            match r {
                Some(n) => n == self.worker_threads * self.max_concurrent_tasks_per_worker,
                None => self.worker_threads * self.max_concurrent_tasks_per_worker > usize::MAX,
            },
    {
        self.worker_threads.checked_mul(self.max_concurrent_tasks_per_worker)
    }
}

/// Vectorised numeric operations under a configuration.
pub struct SimdProcessor {
    config: CpuOptimizerConfig,
}

impl SimdProcessor {
    pub closed spec fn spec_config(&self) -> CpuOptimizerConfig {
        self.config
    }

    /// A processor working under `config`.
    pub fn new(config: CpuOptimizerConfig) -> (r: Self)
        ensures
            r.spec_config() == config,
    {
        SimdProcessor { config }
    }

    /// The configuration the processor works under.
    pub fn config(&self) -> (r: CpuOptimizerConfig)
        ensures
            r == self.spec_config(),
    {
        self.config
    }

    /// How many padding elements an aligned allocation puts before its data
    /// when its buffer starts at address `addr`: the distance to the next
    /// multiple of the cache line size (none when `addr` is one already).
    pub fn aligned_offset(&self, addr: usize) -> (r: usize)
        requires
            self.spec_config().cache_line_size > 0,
        ensures
            r == spec_aligned_offset(addr, self.spec_config().cache_line_size),
            r < self.spec_config().cache_line_size,
            (addr + r) % (self.spec_config().cache_line_size as int) == 0,
    {
        let alignment = self.config.cache_line_size;
        let rem = addr % alignment;
        let r = if rem == 0 { 0 } else { alignment - rem };
        proof {
            let a = alignment as int;
            let x = addr as int;
            assert(x == a * (x / a) + x % a) by (nonlinear_arith)
                requires a > 0;
            if rem != 0 {
                assert((x + (a - x % a)) == a * (x / a + 1)) by (nonlinear_arith)
                    requires x == a * (x / a) + x % a;
                assert((a * (x / a + 1)) % a == 0) by (nonlinear_arith)
                    requires a > 0;
            } else {
                assert((a * (x / a)) % a == 0) by (nonlinear_arith)
                    requires a > 0;
            }
        }
        r
    }
}

/// The padding before an aligned allocation's data at address `addr`: the
/// distance up to the next multiple of `alignment`.
pub open spec fn spec_aligned_offset(addr: usize, alignment: usize) -> int {
    if addr % alignment == 0 { 0 } else { alignment - addr % alignment }
}

/// Counters of one worker.
#[derive(Debug, Clone, Copy, PartialEq, Eq, Structural)]
pub struct WorkerLoad {
    pub id: usize,
    pub active_tasks: usize,
    pub total_tasks_processed: u64,
}

/// Whether `i` is the first worker with the fewest active tasks.
pub open spec fn is_least_loaded(w: Seq<WorkerLoad>, i: int) -> bool {
    &&& 0 <= i < w.len()
    &&& forall|j: int| 0 <= j < w.len() ==> w[i].active_tasks <= #[trigger] w[j].active_tasks
    &&& forall|j: int| 0 <= j < i ==> w[i].active_tasks < #[trigger] w[j].active_tasks
}

/// The number of workers with at least one active task.
pub open spec fn count_active(w: Seq<WorkerLoad>) -> nat
    decreases w.len(),
{
    if w.len() == 0 {
        0
    } else {
        count_active(w.drop_last()) + if w.last().active_tasks > 0 { 1nat } else { 0nat }
    }
}

/// The sum of the active tasks of all workers.
pub open spec fn sum_active(w: Seq<WorkerLoad>) -> nat
    decreases w.len(),
{
    if w.len() == 0 {
        0
    } else {
        sum_active(w.drop_last()) + w.last().active_tasks as nat
    }
}

/// The counters after a task starts on worker `id` (unchanged for an id
/// out of range).
pub open spec fn after_begin(w: Seq<WorkerLoad>, id: usize) -> Seq<WorkerLoad> {
    if id < w.len() {
        w.update(id as int, WorkerLoad { active_tasks: (w[id as int].active_tasks + 1) as usize, ..w[id as int] })
    } else {
        w
    }
}

/// The counters after a task finishes on worker `id` (unchanged for an id
/// out of range).
pub open spec fn after_finish(w: Seq<WorkerLoad>, id: usize) -> Seq<WorkerLoad> {
    if id < w.len() {
        w.update(id as int, WorkerLoad {
            active_tasks: if w[id as int].active_tasks > 0 { (w[id as int].active_tasks - 1) as usize } else { 0 },
            total_tasks_processed: (w[id as int].total_tasks_processed + 1) as u64,
            ..w[id as int]
        })
    } else {
        w
    }
}

/// A task that starts and then finishes on a worker leaves every worker's
/// active count as it was, and adds one to that worker's completed count.
pub proof fn lemma_finish_undoes_begin(w: Seq<WorkerLoad>, id: usize)
    requires
        id < w.len() ==> w[id as int].active_tasks < usize::MAX,
        id < w.len() ==> w[id as int].total_tasks_processed < u64::MAX,
    ensures
        after_finish(after_begin(w, id), id).len() == w.len(),
        forall|j: int| 0 <= j < w.len() ==> #[trigger] after_finish(after_begin(w, id), id)[j].active_tasks
            == w[j].active_tasks,
        id < w.len() ==> after_finish(after_begin(w, id), id)[id as int].total_tasks_processed
            == w[id as int].total_tasks_processed + 1,
        count_active(after_finish(after_begin(w, id), id)) == count_active(w),
{
    let r = after_finish(after_begin(w, id), id);
    lemma_count_active_same(r, w);
}

proof fn lemma_count_active_same(a: Seq<WorkerLoad>, b: Seq<WorkerLoad>)
    requires
        a.len() == b.len(),
        forall|j: int| 0 <= j < a.len() ==> #[trigger] a[j].active_tasks == b[j].active_tasks,
    ensures
        count_active(a) == count_active(b),
    decreases a.len(),
{
    if a.len() > 0 {
        lemma_count_active_same(a.drop_last(), b.drop_last());
    }
}

/// Whether the pool should grow, shrink or stay as it is.
#[derive(Debug, Clone, Copy, PartialEq, Eq, Structural)]
pub enum PoolAdvice {
    ScaleUp,
    ScaleDown,
    Keep,
}

/// The workers of the optimizer and the number of tasks they completed.
pub struct WorkerPool {
    workers: Vec<WorkerLoad>,
    total_tasks_processed: u64,
}

impl WorkerPool {
    pub closed spec fn spec_workers(&self) -> Seq<WorkerLoad> {
        self.workers@
    }

    pub closed spec fn spec_total_processed(&self) -> u64 {
        self.total_tasks_processed
    }

    /// `count` idle workers numbered from 0.
    pub fn new(count: usize) -> (r: Self)
        ensures
            r.spec_total_processed() == 0,
            r.spec_workers().len() == count,
            forall|i: int| 0 <= i < count ==> #[trigger] r.spec_workers()[i] == (WorkerLoad {
                id: i as usize,
                active_tasks: 0,
                total_tasks_processed: 0,
            }),
    {
        let mut workers: Vec<WorkerLoad> = Vec::new();
        let mut i: usize = 0;
        while i < count
            invariant
                i <= count,
                workers@.len() == i,
                forall|j: int| 0 <= j < i ==> #[trigger] workers@[j] == (WorkerLoad {
                    id: j as usize,
                    active_tasks: 0,
                    total_tasks_processed: 0,
                }),
            decreases count - i,
        {
            workers.push(WorkerLoad { id: i, active_tasks: 0, total_tasks_processed: 0 });
            i = i + 1;
        }
        WorkerPool { workers, total_tasks_processed: 0 }
    }

    /// The workers' counters.
    pub fn workers(&self) -> (r: Vec<WorkerLoad>)
        ensures
            r@ == self.spec_workers(),
    {
        self.workers.clone()
    }

    /// Tasks completed over all workers.
    pub fn total_tasks_processed(&self) -> (r: u64)
        ensures
            r == self.spec_total_processed(),
    {
        self.total_tasks_processed
    }

    /// The first worker with the fewest active tasks; 0 when there is none.
    pub fn least_loaded(&self) -> (r: usize)
        ensures
            self.spec_workers().len() == 0 ==> r == 0,
            self.spec_workers().len() > 0 ==> is_least_loaded(self.spec_workers(), r as int),
    {
        let n = self.workers.len();
        if n == 0 {
            return 0;
        }
        let mut best: usize = 0;
        let mut i: usize = 1;
        while i < n
            invariant
                n == self.workers@.len(),
                1 <= i <= n,
                best < i,
                forall|j: int| 0 <= j < i ==> self.workers@[best as int].active_tasks <= #[trigger] self.workers@[j].active_tasks,
                forall|j: int| 0 <= j < best ==> self.workers@[best as int].active_tasks < #[trigger] self.workers@[j].active_tasks,
            decreases n - i,
        {
            if self.workers[i].active_tasks < self.workers[best].active_tasks {
                best = i;
            }
            i = i + 1;
        }
        best
    }

    /// The worker for the next task. Round robin takes the elapsed
    /// nanoseconds modulo the number of workers; least loaded takes the
    /// first worker with the fewest active tasks; weighted takes the worker
    /// the caller ranked best by its timing weights. With no workers the
    /// choice is 0.
    pub fn select_worker(&self, strategy: LoadBalancingStrategy, elapsed_nanos: u128, weighted_pick: usize) -> (r: usize)
        requires
            strategy == LoadBalancingStrategy::RoundRobin ==> self.spec_workers().len() > 0,
            strategy == LoadBalancingStrategy::Weighted && self.spec_workers().len() > 0
                ==> weighted_pick < self.spec_workers().len(),
        ensures
            strategy == LoadBalancingStrategy::RoundRobin ==> r == elapsed_nanos % (self.spec_workers().len() as u128),
            strategy == LoadBalancingStrategy::LeastLoaded ==> (if self.spec_workers().len() == 0 {
                r == 0
            } else {
                is_least_loaded(self.spec_workers(), r as int)
            }),
            strategy == LoadBalancingStrategy::Weighted ==> r == (if self.spec_workers().len() == 0 {
                0
            } else {
                weighted_pick
            }),
    {
        match strategy {
            LoadBalancingStrategy::RoundRobin => {
                let n = self.workers.len() as u128;
                (elapsed_nanos % n) as usize
            },
            LoadBalancingStrategy::LeastLoaded => self.least_loaded(),
            LoadBalancingStrategy::Weighted => {
                if self.workers.len() == 0 {
                    0
                } else {
                    weighted_pick
                }
            },
        }
    }

    /// A task starts on worker `id`: its active count rises by one. An id
    /// out of range changes nothing.
    pub fn begin_task(&mut self, id: usize)
        requires
            id < old(self).spec_workers().len() ==> old(self).spec_workers()[id as int].active_tasks < usize::MAX,
        ensures
            final(self).spec_total_processed() == old(self).spec_total_processed(),
            final(self).spec_workers() == after_begin(old(self).spec_workers(), id),
    {
        if id < self.workers.len() {
            let mut w = self.workers[id];
            w.active_tasks = w.active_tasks + 1;
            self.workers.set(id, w);
        }
    }

    /// A task finished on worker `id`: the pool's completed count rises by
    /// one; the worker's active count falls by one (stopping at 0) and its
    /// completed count rises by one. An id out of range only counts the task.
    pub fn finish_task(&mut self, id: usize)
        requires
            old(self).spec_total_processed() < u64::MAX,
            id < old(self).spec_workers().len() ==> old(self).spec_workers()[id as int].total_tasks_processed < u64::MAX,
        ensures
            final(self).spec_total_processed() == old(self).spec_total_processed() + 1,
            final(self).spec_workers() == after_finish(old(self).spec_workers(), id),
    {
        self.total_tasks_processed = self.total_tasks_processed + 1;
        if id < self.workers.len() {
            let mut w = self.workers[id];
            w.active_tasks = w.active_tasks.saturating_sub(1);
            w.total_tasks_processed = w.total_tasks_processed + 1;
            self.workers.set(id, w);
        }
    }

    /// The number of workers with at least one active task.
    pub fn active_workers(&self) -> (r: usize)
        ensures
            r == count_active(self.spec_workers()),
    {
        let mut count: usize = 0;
        let mut i: usize = 0;
        while i < self.workers.len()
            invariant
                i <= self.workers@.len(),
                count == count_active(self.workers@.subrange(0, i as int)),
                count <= i,
            decreases self.workers@.len() - i,
        {
            proof {
                assert(self.workers@.subrange(0, i + 1).drop_last() =~= self.workers@.subrange(0, i as int));
            }
            if self.workers[i].active_tasks > 0 {
                count = count + 1;
            }
            i = i + 1;
        }
        proof {
            assert(self.workers@.subrange(0, i as int) =~= self.workers@);
        }
        count
    }

    /// Whether the pool should grow or shrink: the mean number of active
    /// tasks per worker above four fifths of `max_per_worker` asks for more
    /// workers, below one fifth for fewer. An empty pool has a mean of 0.
    pub fn load_advice(&self, max_per_worker: usize) -> (r: PoolAdvice)
        requires
            sum_active(self.spec_workers()) <= usize::MAX,
        ensures
            r == (if self.spec_workers().len() > 0
                && 5 * sum_active(self.spec_workers()) > 4 * max_per_worker * self.spec_workers().len() {
                PoolAdvice::ScaleUp
            } else if (if self.spec_workers().len() > 0 {
                5 * sum_active(self.spec_workers()) < max_per_worker * self.spec_workers().len()
            } else {
                0 < max_per_worker
            }) {
                PoolAdvice::ScaleDown
            } else {
                PoolAdvice::Keep
            }),
    {
        let n = self.workers.len();
        let mut sum: usize = 0;
        let mut i: usize = 0;
        while i < n
            invariant
                n == self.workers@.len(),
                i <= n,
                sum == sum_active(self.workers@.subrange(0, i as int)),
                sum_active(self.workers@) <= usize::MAX,
            decreases n - i,
        {
            proof {
                assert(self.workers@.subrange(0, i + 1).drop_last() =~= self.workers@.subrange(0, i as int));
                lemma_sum_active_prefix(self.workers@, i + 1);
            }
            sum = sum + self.workers[i].active_tasks;
            i = i + 1;
        }
        proof {
            assert(self.workers@.subrange(0, i as int) =~= self.workers@);
        }
        if n == 0 {
            if 0 < max_per_worker {
                return PoolAdvice::ScaleDown;
            }
            return PoolAdvice::Keep;
        }
        let five_sum = 5 * (sum as u128);
        let m = max_per_worker as u128;
        let k = n as u128;
        proof {
            assert(m * k <= usize::MAX * usize::MAX) by (nonlinear_arith)
                requires m <= usize::MAX, k <= usize::MAX;
            assert(usize::MAX * usize::MAX < u128::MAX) by (nonlinear_arith)
                requires usize::MAX <= u64::MAX;
        }
        let mk = m * k;
        proof {
            assert(4 * max_per_worker * n == 4 * mk) by (nonlinear_arith)
                requires mk == m * k, m == max_per_worker, k == n;
        }
        let up = if mk > five_sum {
            false
        } else {
            five_sum > 4 * mk
        };
        if up {
            PoolAdvice::ScaleUp
        } else if five_sum < mk {
            PoolAdvice::ScaleDown
        } else {
            PoolAdvice::Keep
        }
    }
}

proof fn lemma_sum_active_prefix(s: Seq<WorkerLoad>, k: int)
    requires
        0 <= k <= s.len(),
    ensures
        sum_active(s.subrange(0, k)) <= sum_active(s),
    decreases s.len() - k,
{
    if k < s.len() {
        lemma_sum_active_prefix(s, k + 1);
        assert(s.subrange(0, k + 1).drop_last() =~= s.subrange(0, k));
    } else {
        assert(s.subrange(0, k) =~= s);
    }
}

} // verus!
