//! The single-queue task board: task fields with defaults, the queue of
//! waiting tasks, per-task metrics, a bounded execution history, and the
//! pairing of waiting tasks with free agents.
//!
//! Ids are the 128-bit values of UUIDs; times are milliseconds since the
//! Unix epoch, supplied by the caller.
use vstd::prelude::*;
use crate::history::push_bounded;
use crate::tasks::{
    id_pos, ids_unique, lemma_set_metrics, metrics_of, priority_or_medium, set_metrics, spec_priority_named,
    tracked_id, ExecutionRecord, TaskConfigError, TaskPriority,
};

verus! {

/// Executions kept in the history; older ones are dropped.
pub const HISTORY_LIMIT: usize = 1000;

/// Executions looked at for the recent-performance figures.
pub const RECENT_WINDOW: usize = 100;

/// Where a task stands in its lifecycle.
#[derive(Debug, Clone, Copy, PartialEq, Eq, Structural)]
pub enum TaskStatus {
    Pending,
    Assigned,
    Running,
    Completed,
    Failed,
    Retrying,
}

impl Default for TaskStatus {
    /// A new task is pending.
    fn default() -> (r: Self)
        ensures
            r == TaskStatus::Pending,
    {
        TaskStatus::Pending
    }
}

/// Per-task timestamps, assignment and attempts.
#[derive(Debug, Clone, Copy, PartialEq, Eq, Structural)]
pub struct TaskMetrics {
    pub created_at_ms: i64,
    pub started_at_ms: Option<i64>,
    pub completed_at_ms: Option<i64>,
    pub assigned_agent: Option<u128>,
    pub execution_attempts: u32,
    pub status: TaskStatus,
}

/// The fields of a new task, with their defaults.
pub struct TaskFields {
    pub title: String,
    pub description: String,
    pub task_type: String,
    pub priority: TaskPriority,
}

/// The value of an optional field, or its default.
pub open spec fn or_default(v: Option<Seq<char>>, d: Seq<char>) -> Seq<char> {
    match v {
        Some(s) => s,
        None => d,
    }
}

/// The fields of a new task from the configuration's optional values: an
/// absent title is "Untitled Task", an absent description is empty, an
/// absent type is "general", and an absent or unknown priority is medium.
pub fn task_fields(title: Option<&str>, description: Option<&str>, task_type: Option<&str>, priority: Option<&str>) -> (r: TaskFields)
    ensures
        r.title@ == or_default(match title { Some(t) => Some(t@), None => None }, "Untitled Task"@),
        r.description@ == or_default(match description { Some(t) => Some(t@), None => None }, Seq::empty()),
        r.task_type@ == or_default(match task_type { Some(t) => Some(t@), None => None }, "general"@),
        r.priority == (match priority {
            Some(p) => match spec_priority_named(p@) {
                Some(q) => q,
                None => TaskPriority::Medium,
            },
            None => TaskPriority::Medium,
        }),
{
    proof {
        reveal_strlit("Untitled Task");
        reveal_strlit("general");
    }
    let t = match title {
        Some(v) => v.to_owned(),
        None => "Untitled Task".to_owned(),
    };
    let d = match description {
        Some(v) => v.to_owned(),
        None => String::new(),
    };
    let k = match task_type {
        Some(v) => v.to_owned(),
        None => "general".to_owned(),
    };
    TaskFields { title: t, description: d, task_type: k, priority: priority_or_medium(priority) }
}

/// Checks a task configuration: only an object is accepted.
pub fn validate_task_config(is_object: bool) -> (r: Result<(), TaskConfigError>)
    ensures
        is_object ==> r is Ok,
        !is_object ==> r matches Err(TaskConfigError::NotAnObject),
{
    if is_object { Ok(()) } else { Err(TaskConfigError::NotAnObject) }
}

/// A task asked for that is not waiting in the queue.
#[derive(Debug, Clone, Copy, PartialEq, Eq, Structural)]
pub struct TaskNotFound {
    pub id: u128,
}

/// The number of tracked tasks with `status`.
pub open spec fn status_count(s: Seq<(u128, TaskMetrics)>, status: TaskStatus) -> nat
    decreases s.len(),
{
    if s.len() == 0 {
        0
    } else {
        status_count(s.drop_last(), status) + if s.last().1.status == status { 1nat } else { 0nat }
    }
}

/// The number of tracked tasks in each status.
#[derive(Debug, Clone, Copy, PartialEq, Eq, Structural)]
pub struct StatusCounts {
    pub pending: usize,
    pub assigned: usize,
    pub running: usize,
    pub completed: usize,
    pub failed: usize,
    pub retrying: usize,
}

/// The counts of all statuses add up to the number of tracked tasks.
pub proof fn lemma_status_counts_total(s: Seq<(u128, TaskMetrics)>)
    ensures
        status_count(s, TaskStatus::Pending) + status_count(s, TaskStatus::Assigned) + status_count(s, TaskStatus::Running)
            + status_count(s, TaskStatus::Completed) + status_count(s, TaskStatus::Failed)
            + status_count(s, TaskStatus::Retrying) == s.len(),
    decreases s.len(),
{
    if s.len() > 0 {
        lemma_status_counts_total(s.drop_last());
    }
}

/// Waiting tasks, per-task metrics and the bounded execution history.
pub struct TaskBoard {
    queue: Vec<u128>,
    metrics: Vec<(u128, TaskMetrics)>,
    history: Vec<ExecutionRecord>,
}

/// The metrics after tasks `ids` are assigned to `agents`, pairwise.
pub open spec fn assign_all(s: Seq<(u128, TaskMetrics)>, ids: Seq<u128>, agents: Seq<u128>) -> Seq<(u128, TaskMetrics)>
    decreases ids.len(),
{
    if ids.len() == 0 || agents.len() == 0 {
        s
    } else {
        let t = assign_all(s, ids.drop_last(), agents.drop_last());
        let id = ids.last();
        match metrics_of(t, id) {
            Some(m) => set_metrics(t, id, TaskMetrics {
                status: TaskStatus::Assigned,
                assigned_agent: Some(agents.last()),
                ..m
            }),
            None => t,
        }
    }
}

impl TaskBoard {
    pub closed spec fn spec_queue(&self) -> Seq<u128> {
        self.queue@
    }

    pub closed spec fn spec_metrics(&self) -> Seq<(u128, TaskMetrics)> {
        self.metrics@
    }

    pub closed spec fn spec_history(&self) -> Seq<ExecutionRecord> {
        self.history@
    }

    /// Ids are unique and the history within its limit.
    pub open spec fn wf(&self) -> bool {
        &&& ids_unique(self.spec_metrics())
        &&& self.spec_history().len() <= HISTORY_LIMIT
    }

    /// An empty board.
    pub fn new() -> (r: Self)
        ensures
            r.wf(),
            r.spec_queue().len() == 0,
            r.spec_metrics().len() == 0,
            r.spec_history().len() == 0,
    {
        TaskBoard { queue: Vec::new(), metrics: Vec::new(), history: Vec::new() }
    }

    fn find(&self, id: u128) -> (r: Option<usize>)
        requires
            ids_unique(self.spec_metrics()),
        ensures
            match r {
                Some(i) => i < self.spec_metrics().len() && self.spec_metrics()[i as int].0 == id
                    && tracked_id(self.spec_metrics(), id) && id_pos(self.spec_metrics(), id) == i,
                None => !tracked_id(self.spec_metrics(), id),
            },
    {
        let mut i: usize = 0;
        while i < self.metrics.len()
            invariant
                i <= self.metrics@.len(),
                ids_unique(self.spec_metrics()),
                forall|j: int| 0 <= j < i ==> #[trigger] self.metrics@[j].0 != id,
            decreases self.metrics@.len() - i,
        {
            if self.metrics[i].0 == id {
                proof {
                    let p = id_pos(self.spec_metrics(), id);
                    assert(tracked_id(self.spec_metrics(), id));
                    assert(self.spec_metrics()[p].0 == id);
                }
                return Some(i);
            }
            i = i + 1;
        }
        None
    }

    /// The metrics of task `id`, if tracked.
    pub fn task_metrics(&self, id: u128) -> (r: Option<TaskMetrics>)
        requires
            self.wf(),
        ensures
            r == metrics_of(self.spec_metrics(), id),
    {
        match self.find(id) {
            Some(i) => Some(self.metrics[i].1),
            None => None,
        }
    }

    /// A task created at `now_ms` is tracked as pending and queued.
    pub fn create(&mut self, id: u128, now_ms: i64)
        requires
            old(self).wf(),
        ensures
            final(self).wf(),
            final(self).spec_queue() == old(self).spec_queue().push(id),
            final(self).spec_history() == old(self).spec_history(),
            final(self).spec_metrics() == set_metrics(
                old(self).spec_metrics(),
                id,
                TaskMetrics {
                    created_at_ms: now_ms,
                    started_at_ms: None,
                    completed_at_ms: None,
                    assigned_agent: None,
                    execution_attempts: 0,
                    status: TaskStatus::Pending,
                },
            ),
    {
        let m = TaskMetrics {
            created_at_ms: now_ms,
            started_at_ms: None,
            completed_at_ms: None,
            assigned_agent: None,
            execution_attempts: 0,
            status: TaskStatus::Pending,
        };
        proof {
            lemma_set_metrics(self.spec_metrics(), id, m, id);
        }
        match self.find(id) {
            Some(i) => {
                self.metrics.set(i, (id, m));
            },
            None => {
                self.metrics.push((id, m));
            },
        }
        self.queue.push(id);
    }

    /// Creates task `id` at `now_ms` from a configuration: one that is not
    /// an object is refused and the board is left as it was; otherwise the
    /// task is tracked as pending and queued, as `create` does.
    pub fn create_from_config(&mut self, is_object: bool, id: u128, now_ms: i64) -> (r: Result<(), TaskConfigError>)
        requires
            old(self).wf(),
        ensures
            final(self).wf(),
            !is_object ==> (r matches Err(TaskConfigError::NotAnObject)) && final(self).spec_queue() == old(self).spec_queue()
                && final(self).spec_metrics() == old(self).spec_metrics()
                && final(self).spec_history() == old(self).spec_history(),
            is_object ==> r is Ok && final(self).spec_queue() == old(self).spec_queue().push(id)
                && final(self).spec_history() == old(self).spec_history()
                && final(self).spec_metrics() == set_metrics(
                    old(self).spec_metrics(),
                    id,
                    TaskMetrics {
                        created_at_ms: now_ms,
                        started_at_ms: None,
                        completed_at_ms: None,
                        assigned_agent: None,
                        execution_attempts: 0,
                        status: TaskStatus::Pending,
                    },
                ),
    {
        match validate_task_config(is_object) {
            Ok(()) => {
                self.create(id, now_ms);
                Ok(())
            },
            Err(e) => Err(e),
        }
    }

    /// The number of tracked tasks in each status.
    pub fn status_counts(&self) -> (r: StatusCounts)
        ensures
            r.pending == status_count(self.spec_metrics(), TaskStatus::Pending),
            r.assigned == status_count(self.spec_metrics(), TaskStatus::Assigned),
            r.running == status_count(self.spec_metrics(), TaskStatus::Running),
            r.completed == status_count(self.spec_metrics(), TaskStatus::Completed),
            r.failed == status_count(self.spec_metrics(), TaskStatus::Failed),
            r.retrying == status_count(self.spec_metrics(), TaskStatus::Retrying),
            r.pending + r.assigned + r.running + r.completed + r.failed + r.retrying == self.spec_metrics().len(),
    {
        let ghost s = self.spec_metrics();
        let mut c = StatusCounts { pending: 0, assigned: 0, running: 0, completed: 0, failed: 0, retrying: 0 };
        let mut i: usize = 0;
        while i < self.metrics.len()
            invariant
                i <= s.len(),
                s == self.spec_metrics(),
                c.pending == status_count(s.take(i as int), TaskStatus::Pending),
                c.assigned == status_count(s.take(i as int), TaskStatus::Assigned),
                c.running == status_count(s.take(i as int), TaskStatus::Running),
                c.completed == status_count(s.take(i as int), TaskStatus::Completed),
                c.failed == status_count(s.take(i as int), TaskStatus::Failed),
                c.retrying == status_count(s.take(i as int), TaskStatus::Retrying),
            decreases s.len() - i,
        {
            proof {
                assert(s.take(i + 1).drop_last() =~= s.take(i as int));
                lemma_status_counts_total(s.take(i as int));
            }
            match self.metrics[i].1.status {
                TaskStatus::Pending => { c.pending = c.pending + 1; },
                TaskStatus::Assigned => { c.assigned = c.assigned + 1; },
                TaskStatus::Running => { c.running = c.running + 1; },
                TaskStatus::Completed => { c.completed = c.completed + 1; },
                TaskStatus::Failed => { c.failed = c.failed + 1; },
                TaskStatus::Retrying => { c.retrying = c.retrying + 1; },
            }
            i = i + 1;
        }
        proof {
            assert(s.take(s.len() as int) =~= s);
            lemma_status_counts_total(s);
        }
        c
    }

    /// An execution of task `id` by `agent` starts at `now_ms`, as the
    /// distributor runs it: a task that is not waiting in the queue is not
    /// found and nothing changes; otherwise it leaves the queue and its
    /// execution starts as `start_execution` says.
    pub fn begin_queued_execution(&mut self, id: u128, agent: u128, now_ms: i64) -> (r: Result<(), TaskNotFound>)
        requires
            old(self).wf(),
            match metrics_of(old(self).spec_metrics(), id) {
                Some(m) => m.execution_attempts < u32::MAX,
                None => true,
            },
        ensures
            final(self).wf(),
            final(self).spec_history() == old(self).spec_history(),
            r is Ok <==> old(self).spec_queue().contains(id),
            r is Err ==> r == Err::<(), TaskNotFound>(TaskNotFound { id }) && final(self).spec_queue() == old(self).spec_queue()
                && final(self).spec_metrics() == old(self).spec_metrics(),
            r is Ok ==> (exists|i: int| 0 <= i < old(self).spec_queue().len() && old(self).spec_queue()[i] == id
                && final(self).spec_queue() == old(self).spec_queue().remove(i)
                && forall|j: int| 0 <= j < i ==> #[trigger] old(self).spec_queue()[j] != id)
                && final(self).spec_metrics() == match metrics_of(old(self).spec_metrics(), id) {
                    Some(m) => set_metrics(
                        old(self).spec_metrics(),
                        id,
                        TaskMetrics {
                            started_at_ms: Some(now_ms),
                            assigned_agent: Some(agent),
                            status: TaskStatus::Running,
                            execution_attempts: (m.execution_attempts + 1) as u32,
                            ..m
                        },
                    ),
                    None => old(self).spec_metrics(),
                },
    {
        if !self.take_from_queue(id) {
            return Err(TaskNotFound { id });
        }
        self.start_execution(id, agent, now_ms);
        Ok(())
    }

    /// The waiting tasks, in queue order.
    pub fn queued(&self) -> (r: Vec<u128>)
        ensures
            r@ == self.spec_queue(),
    {
        self.queue.clone()
    }

    /// Takes task `id` off the queue (its first occurrence); `false` when it
    /// is not queued.
    pub fn take_from_queue(&mut self, id: u128) -> (r: bool)
        requires
            old(self).wf(),
        ensures
            final(self).wf(),
            final(self).spec_metrics() == old(self).spec_metrics(),
            final(self).spec_history() == old(self).spec_history(),
            r == old(self).spec_queue().contains(id),
            r ==> exists|i: int| 0 <= i < old(self).spec_queue().len() && old(self).spec_queue()[i] == id
                && final(self).spec_queue() == old(self).spec_queue().remove(i)
                && forall|j: int| 0 <= j < i ==> #[trigger] old(self).spec_queue()[j] != id,
            !r ==> final(self).spec_queue() == old(self).spec_queue(),
    {
        let mut i: usize = 0;
        while i < self.queue.len()
            invariant
                i <= self.queue@.len(),
                self.metrics@ == old(self).metrics@,
                self.history@ == old(self).history@,
                self.queue@ == old(self).queue@,
                old(self).wf(),
                forall|j: int| 0 <= j < i ==> #[trigger] self.queue@[j] != id,
            decreases self.queue@.len() - i,
        {
            if self.queue[i] == id {
                let ghost q = self.queue@;
                self.queue.remove(i);
                proof {
                    let k = i as int;
                    assert(q.contains(id));
                    assert(0 <= k < q.len() && q[k] == id && self.queue@ == q.remove(k)
                        && forall|j: int| 0 <= j < k ==> #[trigger] q[j] != id);
                }
                return true;
            }
            i = i + 1;
        }
        false
    }

    /// An execution of task `id` by `agent` starts at `now_ms`: the task is
    /// running, stamped, assigned to the agent, and one more attempt is
    /// counted. An untracked task changes nothing.
    pub fn start_execution(&mut self, id: u128, agent: u128, now_ms: i64)
        requires
            old(self).wf(),
            match metrics_of(old(self).spec_metrics(), id) {
                Some(m) => m.execution_attempts < u32::MAX,
                None => true,
            },
        ensures
            final(self).wf(),
            final(self).spec_queue() == old(self).spec_queue(),
            final(self).spec_history() == old(self).spec_history(),
            final(self).spec_metrics() == match metrics_of(old(self).spec_metrics(), id) {
                Some(m) => set_metrics(
                    old(self).spec_metrics(),
                    id,
                    TaskMetrics {
                        started_at_ms: Some(now_ms),
                        assigned_agent: Some(agent),
                        status: TaskStatus::Running,
                        execution_attempts: (m.execution_attempts + 1) as u32,
                        ..m
                    },
                ),
                None => old(self).spec_metrics(),
            },
    {
        match self.find(id) {
            Some(i) => {
                let m = self.metrics[i].1;
                let n = TaskMetrics {
                    started_at_ms: Some(now_ms),
                    assigned_agent: Some(agent),
                    status: TaskStatus::Running,
                    execution_attempts: m.execution_attempts + 1,
                    ..m
                };
                proof {
                    lemma_set_metrics(self.spec_metrics(), id, n, id);
                }
                self.metrics.set(i, (id, n));
            },
            None => {},
        }
    }

    /// An execution of task `id` by `agent` ended at `now_ms` after
    /// `execution_time_ms`: the task is completed or failed and stamped,
    /// and the execution joins the history, the oldest one leaving when the
    /// history would exceed its limit.
    pub fn finish_execution(&mut self, id: u128, agent: u128, success: bool, now_ms: i64, execution_time_ms: u64)
        requires
            old(self).wf(),
        ensures
            final(self).wf(),
            final(self).spec_queue() == old(self).spec_queue(),
            final(self).spec_history() == {
                let h = old(self).spec_history().push(
                    ExecutionRecord { task_id: id, agent_id: agent, success, execution_time_ms },
                );
                if h.len() > HISTORY_LIMIT { h.skip(1) } else { h }
            },
            final(self).spec_metrics() == match metrics_of(old(self).spec_metrics(), id) {
                Some(m) => set_metrics(
                    old(self).spec_metrics(),
                    id,
                    TaskMetrics {
                        completed_at_ms: Some(now_ms),
                        status: if success { TaskStatus::Completed } else { TaskStatus::Failed },
                        ..m
                    },
                ),
                None => old(self).spec_metrics(),
            },
    {
        match self.find(id) {
            Some(i) => {
                let m = self.metrics[i].1;
                let n = TaskMetrics {
                    completed_at_ms: Some(now_ms),
                    status: if success { TaskStatus::Completed } else { TaskStatus::Failed },
                    ..m
                };
                proof {
                    lemma_set_metrics(self.spec_metrics(), id, n, id);
                }
                self.metrics.set(i, (id, n));
            },
            None => {},
        }
        push_bounded(&mut self.history, ExecutionRecord { task_id: id, agent_id: agent, success, execution_time_ms }, HISTORY_LIMIT);
    }

    /// The recorded executions, oldest first.
    pub fn execution_history(&self) -> (r: Vec<ExecutionRecord>)
        ensures
            r@ == self.spec_history(),
    {
        self.history.clone()
    }

    /// Pairs waiting tasks with `agents`: as many tasks as there are agents
    /// (or all of them, when fewer) leave the front of the queue, the i-th
    /// going to the i-th agent, and each is marked assigned to its agent.
    pub fn distribute(&mut self, agents: &Vec<u128>) -> (r: Vec<(u128, u128)>)
        requires
            old(self).wf(),
        ensures
            final(self).wf(),
            final(self).spec_history() == old(self).spec_history(),
            r@.len() == (if old(self).spec_queue().len() <= agents@.len() {
                old(self).spec_queue().len()
            } else {
                agents@.len()
            }),
            forall|i: int| 0 <= i < r@.len() ==> #[trigger] r@[i] == (old(self).spec_queue()[i], agents@[i]),
            final(self).spec_queue() == old(self).spec_queue().skip(r@.len() as int),
            final(self).spec_metrics() == assign_all(
                old(self).spec_metrics(),
                old(self).spec_queue().take(r@.len() as int),
                agents@.take(r@.len() as int),
            ),
    {
        let ghost q = self.queue@;
        let ghost s = self.metrics@;
        let ghost h0 = self.history@;
        let n = if self.queue.len() <= agents.len() { self.queue.len() } else { agents.len() };
        let mut out: Vec<(u128, u128)> = Vec::new();
        let mut i: usize = 0;
        while i < n
            invariant
                i <= n,
                n <= q.len(),
                n <= agents@.len(),
                out@.len() == i,
                forall|j: int| 0 <= j < i ==> #[trigger] out@[j] == (q[j], agents@[j]),
                self.queue@ == q,
                ids_unique(self.metrics@),
                self.metrics@ == assign_all(s, q.take(i as int), agents@.take(i as int)),
                self.history@ == h0,
                h0.len() <= HISTORY_LIMIT,
            decreases n - i,
        {
            let id = self.queue[i];
            let agent = agents[i];
            proof {
                assert(q.take(i + 1).drop_last() =~= q.take(i as int));
                assert(agents@.take(i + 1).drop_last() =~= agents@.take(i as int));
                assert(q.take(i + 1).last() == id);
                assert(agents@.take(i + 1).last() == agent);
            }
            match self.find(id) {
                Some(k) => {
                    let m = self.metrics[k].1;
                    let upd = TaskMetrics { status: TaskStatus::Assigned, assigned_agent: Some(agent), ..m };
                    proof {
                        lemma_set_metrics(self.metrics@, id, upd, id);
                    }
                    self.metrics.set(k, (id, upd));
                },
                None => {},
            }
            out.push((id, agent));
            i = i + 1;
        }
        let ghost before = self.queue@;
        let ghost m1 = self.metrics@;
        let ghost h1 = self.history@;
        let mut d: usize = 0;
        while d < n
            invariant
                d <= n,
                n <= before.len(),
                self.queue@ == before.skip(d as int),
                self.metrics@ == m1,
                self.history@ == h1,
            decreases n - d,
        {
            self.queue.remove(0);
            d = d + 1;
            proof {
                assert(self.queue@ =~= before.skip(d as int));
            }
        }
        out
    }

    /// Successes, total time and sample size over the last executions (at
    /// most `RECENT_WINDOW`); `None` when the time does not fit in a `u64`.
    pub fn recent_performance(&self) -> (r: Option<(usize, u64, usize)>)
        ensures
            match r {
                Some(t) => {
                    let w = self.spec_history().skip(crate::tasks::recent_start(self.spec_history().len(), RECENT_WINDOW));
                    t.0 == crate::tasks::count_success(w) && t.1 == crate::tasks::sum_times(w) && t.2 == w.len()
                },
                None => crate::tasks::sum_times(
                    self.spec_history().skip(crate::tasks::recent_start(self.spec_history().len(), RECENT_WINDOW)),
                ) > u64::MAX,
            },
    {
        let n = self.history.len();
        let start = if n > RECENT_WINDOW { n - RECENT_WINDOW } else { 0 };
        let ghost w = self.history@.skip(start as int);
        let mut ok: usize = 0;
        let mut time: u64 = 0;
        let mut i: usize = start;
        while i < n
            invariant
                start <= i <= n,
                n == self.history@.len(),
                start == crate::tasks::recent_start(n as nat, RECENT_WINDOW),
                w == self.history@.skip(start as int),
                ok == crate::tasks::count_success(w.subrange(0, i - start)),
                time == crate::tasks::sum_times(w.subrange(0, i - start)),
                ok <= i - start,
            decreases n - i,
        {
            proof {
                assert(w.subrange(0, i - start + 1).drop_last() =~= w.subrange(0, i - start));
                assert(w.subrange(0, i - start + 1).last() == self.history@[i as int]);
            }
            match time.checked_add(self.history[i].execution_time_ms) {
                Some(t) => {
                    time = t;
                },
                None => {
                    proof {
                        lemma_sum_prefix(w, i - start + 1);
                        assert(crate::tasks::sum_times(w.subrange(0, i - start + 1))
                            == time + self.history@[i as int].execution_time_ms);
                    }
                    return None;
                },
            }
            if self.history[i].success {
                ok = ok + 1;
            }
            i = i + 1;
        }
        proof {
            assert(w.subrange(0, i - start) =~= w);
        }
        Some((ok, time, n - start))
    }
}

proof fn lemma_sum_prefix(h: Seq<ExecutionRecord>, k: int)
    requires
        0 <= k <= h.len(),
    ensures
        crate::tasks::sum_times(h.subrange(0, k)) <= crate::tasks::sum_times(h),
    decreases h.len() - k,
{
    if k < h.len() {
        lemma_sum_prefix(h, k + 1);
        assert(h.subrange(0, k + 1).drop_last() =~= h.subrange(0, k));
    } else {
        assert(h.subrange(0, k) =~= h);
    }
}

} // verus!
