//! Task lifecycle bookkeeping: per-task metrics keyed by task id, the
//! execution history, and the counts that status reports and analytics are
//! built from.
//!
//! Task and agent ids are the 128-bit values of their UUIDs; times are
//! milliseconds since the Unix epoch, supplied by the caller.
use vstd::prelude::*;

verus! {

/// Where a task stands in its lifecycle.
#[derive(Debug, Clone, Copy, PartialEq, Eq, Structural)]
pub enum TaskStatus {
    Pending,
    Assigned,
    Running,
    Completed,
    Failed,
    Cancelled,
}

impl Default for TaskStatus {
    /// A new task is pending.
    fn default() -> (r: Self)
        ensures
            r == TaskStatus::Pending,
    {
        TaskStatus::Pending
    }
}

impl TaskStatus {
    /// The status's name as it appears in reports.
    pub fn name(&self) -> (r: &'static str)
        ensures
            r@ == status_name(*self),
    {
        match self {
            TaskStatus::Pending => "Pending",
            TaskStatus::Assigned => "Assigned",
            TaskStatus::Running => "Running",
            TaskStatus::Completed => "Completed",
            TaskStatus::Failed => "Failed",
            TaskStatus::Cancelled => "Cancelled",
        }
    }
}

/// The report name of a status.
pub open spec fn status_name(s: TaskStatus) -> Seq<char> {
    match s {
        TaskStatus::Pending => "Pending"@,
        TaskStatus::Assigned => "Assigned"@,
        TaskStatus::Running => "Running"@,
        TaskStatus::Completed => "Completed"@,
        TaskStatus::Failed => "Failed"@,
        TaskStatus::Cancelled => "Cancelled"@,
    }
}

/// Priority of a task.
#[derive(Debug, Clone, Copy, PartialEq, Eq, Structural)]
pub enum TaskPriority {
    Low,
    Medium,
    High,
    Critical,
}

/// Why a task configuration was refused.
#[derive(Debug, Clone, PartialEq, Eq)]
pub enum TaskConfigError {
    /// The configuration is not an object.
    NotAnObject,
    /// The title is missing.
    MissingTitle,
    /// The priority is none of the known names; carries the name given.
    UnknownPriority(String),
}

impl TaskConfigError {
    /// The field the error is about.
    pub fn field(&self) -> (r: &'static str)
        ensures
            r@ == (match self {
                TaskConfigError::NotAnObject => "config"@,
                TaskConfigError::MissingTitle => "title"@,
                TaskConfigError::UnknownPriority(_) => "priority"@,
            }),
    {
        match self {
            TaskConfigError::NotAnObject => "config",
            TaskConfigError::MissingTitle => "title",
            TaskConfigError::UnknownPriority(_) => "priority",
        }
    }
}

/// The priority named `name`: "low", "medium", "high" or "critical".
pub open spec fn spec_priority_named(name: Seq<char>) -> Option<TaskPriority> {
    if name == "low"@ {
        Some(TaskPriority::Low)
    } else if name == "medium"@ {
        Some(TaskPriority::Medium)
    } else if name == "high"@ {
        Some(TaskPriority::High)
    } else if name == "critical"@ {
        Some(TaskPriority::Critical)
    } else {
        None
    }
}

fn priority_named(name: &str) -> (r: Option<TaskPriority>)
    ensures
        r == spec_priority_named(name@),
{
    let owned = name.to_owned();
    let low = "low".to_owned();
    let medium = "medium".to_owned();
    let high = "high".to_owned();
    let critical = "critical".to_owned();
    proof {
        reveal_strlit("low");
        reveal_strlit("medium");
        reveal_strlit("high");
        reveal_strlit("critical");
    }
    if owned == low {
        Some(TaskPriority::Low)
    } else if owned == medium {
        Some(TaskPriority::Medium)
    } else if owned == high {
        Some(TaskPriority::High)
    } else if owned == critical {
        Some(TaskPriority::Critical)
    } else {
        None
    }
}

/// The priority given in a task configuration. An absent priority counts
/// as the empty name; a name that is not one of "low", "medium", "high" or
/// "critical" is refused.
pub fn parse_task_priority(priority: Option<&str>) -> (r: Result<TaskPriority, TaskConfigError>)
    ensures
        match priority {
            Some(p) => match spec_priority_named(p@) {
                Some(q) => r == Ok::<TaskPriority, TaskConfigError>(q),
                None => r matches Err(TaskConfigError::UnknownPriority(n)) && n@ == p@,
            },
            None => r matches Err(TaskConfigError::UnknownPriority(n)) && n@ == Seq::<char>::empty(),
        },
{
    match priority {
        Some(p) => match priority_named(p) {
            Some(q) => Ok(q),
            None => Err(TaskConfigError::UnknownPriority(p.to_owned())),
        },
        None => {
            let empty = String::new();
            Err(TaskConfigError::UnknownPriority(empty))
        },
    }
}

/// The fields of a task to create, read from its configuration.
pub struct TaskRequest {
    pub title: String,
    pub description: String,
    pub priority: TaskPriority,
}

/// Reads a task configuration: it must be an object, then hold a text
/// title, then a known priority; the description is empty when absent.
/// `title`, `description` and `priority` are the configuration's text
/// values under those names, if any.
pub fn read_task_config(is_object: bool, title: Option<&str>, description: Option<&str>, priority: Option<&str>) -> (r:
    Result<TaskRequest, TaskConfigError>)
    ensures
        !is_object ==> r matches Err(TaskConfigError::NotAnObject),
        is_object && title is None ==> r matches Err(TaskConfigError::MissingTitle),
        is_object && title is Some ==> match priority {
            Some(p) => match spec_priority_named(p@) {
                Some(q) => r matches Ok(req) && req.priority == q && req.title@ == title->0@
                    && req.description@ == (match description {
                        Some(d) => d@,
                        None => Seq::<char>::empty(),
                    }),
                None => r matches Err(TaskConfigError::UnknownPriority(n)) && n@ == p@,
            },
            None => r matches Err(TaskConfigError::UnknownPriority(n)) && n@ == Seq::<char>::empty(),
        },
{
    if !is_object {
        return Err(TaskConfigError::NotAnObject);
    }
    let t = match title {
        Some(t) => t,
        None => {
            return Err(TaskConfigError::MissingTitle);
        },
    };
    let d = match description {
        Some(d) => d.to_string(),
        None => String::new(),
    };
    match parse_task_priority(priority) {
        Ok(q) => Ok(TaskRequest { title: t.to_string(), description: d, priority: q }),
        Err(e) => Err(e),
    }
}

/// The priority given in a task configuration, falling back to medium for
/// an absent or unknown name.
pub fn priority_or_medium(priority: Option<&str>) -> (r: TaskPriority)
    ensures
        r == (match priority {
            Some(p) => match spec_priority_named(p@) {
                Some(q) => q,
                None => TaskPriority::Medium,
            },
            None => TaskPriority::Medium,
        }),
{
    match priority {
        Some(p) => match priority_named(p) {
            Some(q) => q,
            None => TaskPriority::Medium,
        },
        None => TaskPriority::Medium,
    }
}

/// Per-task counters and timestamps (the mean time and the performance
/// score, floating-point, are derived by the caller).
#[derive(Debug, Clone, Copy, PartialEq, Eq, Structural)]
pub struct TaskMetrics {
    pub execution_attempts: u32,
    pub failure_count: u32,
    pub total_execution_time_ms: u64,
    pub created_at_ms: Option<i64>,
    pub assigned_at_ms: Option<i64>,
    pub completed_at_ms: Option<i64>,
    pub status: TaskStatus,
}

impl Default for TaskMetrics {
    /// No attempt, no failure, no time spent, no timestamps, pending.
    fn default() -> (r: Self)
        ensures
            r == spec_default_metrics(),
    {
        TaskMetrics {
            execution_attempts: 0,
            failure_count: 0,
            total_execution_time_ms: 0,
            created_at_ms: None,
            assigned_at_ms: None,
            completed_at_ms: None,
            status: TaskStatus::Pending,
        }
    }
}

/// The metrics of a task nothing happened to yet.
pub open spec fn spec_default_metrics() -> TaskMetrics {
    TaskMetrics {
        execution_attempts: 0,
        failure_count: 0,
        total_execution_time_ms: 0,
        created_at_ms: None,
        assigned_at_ms: None,
        completed_at_ms: None,
        status: TaskStatus::Pending,
    }
}

/// One execution of a task by an agent.
#[derive(Debug, Clone, Copy, PartialEq, Eq, Structural)]
pub struct ExecutionRecord {
    pub task_id: u128,
    pub agent_id: u128,
    pub success: bool,
    pub execution_time_ms: u64,
}

/// The metrics after a status change at `now_ms`: completing stamps the
/// completion time, failing counts a failure.
pub open spec fn spec_with_status(m: TaskMetrics, status: TaskStatus, now_ms: i64) -> TaskMetrics {
    match status {
        TaskStatus::Completed => TaskMetrics { completed_at_ms: Some(now_ms), status, ..m },
        TaskStatus::Failed => TaskMetrics { failure_count: (m.failure_count + 1) as u32, status, ..m },
        _ => TaskMetrics { status, ..m },
    }
}

/// No task id appears twice.
pub open spec fn ids_unique<M>(s: Seq<(u128, M)>) -> bool {
    forall|i: int, j: int| 0 <= i < s.len() && 0 <= j < s.len() && i != j ==> s[i].0 != s[j].0
}

/// Whether `id` is tracked.
pub open spec fn tracked_id<M>(s: Seq<(u128, M)>, id: u128) -> bool {
    exists|i: int| 0 <= i < s.len() && s[i].0 == id
}

/// The position of `id` (meaningful when tracked).
pub open spec fn id_pos<M>(s: Seq<(u128, M)>, id: u128) -> int {
    choose|i: int| 0 <= i < s.len() && s[i].0 == id
}

/// The metrics of `id`, if tracked.
pub open spec fn metrics_of<M>(s: Seq<(u128, M)>, id: u128) -> Option<M> {
    if tracked_id(s, id) {
        Some(s[id_pos(s, id)].1)
    } else {
        None
    }
}

/// The metrics with `id`'s entry set to `m` (added at the end if new).
pub open spec fn set_metrics<M>(s: Seq<(u128, M)>, id: u128, m: M) -> Seq<(u128, M)> {
    if tracked_id(s, id) {
        s.update(id_pos(s, id), (id, m))
    } else {
        s.push((id, m))
    }
}

/// The number of tasks with `status`.
pub open spec fn count_status(s: Seq<(u128, TaskMetrics)>, status: TaskStatus) -> nat
    decreases s.len(),
{
    if s.len() == 0 {
        0
    } else {
        count_status(s.drop_last(), status) + if s.last().1.status == status { 1nat } else { 0nat }
    }
}

/// The ids of the tasks with `status`, in tracking order.
pub open spec fn ids_with_status(s: Seq<(u128, TaskMetrics)>, status: TaskStatus) -> Seq<u128>
    decreases s.len(),
{
    if s.len() == 0 {
        Seq::empty()
    } else if s.last().1.status == status {
        ids_with_status(s.drop_last(), status).push(s.last().0)
    } else {
        ids_with_status(s.drop_last(), status)
    }
}

/// Total time over the tasks that spent any, and how many did.
pub open spec fn time_totals(s: Seq<(u128, TaskMetrics)>) -> (nat, nat)
    decreases s.len(),
{
    if s.len() == 0 {
        (0, 0)
    } else {
        let p = time_totals(s.drop_last());
        if s.last().1.total_execution_time_ms > 0 {
            (p.0 + s.last().1.total_execution_time_ms as nat, p.1 + 1)
        } else {
            p
        }
    }
}

/// The number of successful executions.
pub open spec fn count_success(h: Seq<ExecutionRecord>) -> nat
    decreases h.len(),
{
    if h.len() == 0 {
        0
    } else {
        count_success(h.drop_last()) + if h.last().success { 1nat } else { 0nat }
    }
}

/// The sum of the execution times.
pub open spec fn sum_times(h: Seq<ExecutionRecord>) -> nat
    decreases h.len(),
{
    if h.len() == 0 {
        0
    } else {
        sum_times(h.drop_last()) + h.last().execution_time_ms as nat
    }
}

/// The executions by `agent`, in order.
pub open spec fn by_agent(h: Seq<ExecutionRecord>, agent: u128) -> Seq<ExecutionRecord> {
    h.filter(|r: ExecutionRecord| r.agent_id == agent)
}

/// Counts over all tasks, for the performance summary.
#[derive(Debug, Clone, Copy, PartialEq, Eq, Structural)]
pub struct PerformanceCounts {
    pub total_tasks: usize,
    pub completed_tasks: usize,
    pub failed_tasks: usize,
    pub pending_tasks: usize,
    /// Time spent over the tasks that spent any.
    pub total_execution_time_ms: u64,
    /// How many tasks spent any time.
    pub execution_count: usize,
}

/// Counts over a run of executions.
#[derive(Debug, Clone, Copy, PartialEq, Eq, Structural)]
pub struct ExecutionCounts {
    pub total_executions: usize,
    pub successful_executions: usize,
    pub failed_executions: usize,
    pub total_execution_time_ms: u64,
}

/// Per-task metrics and the history of executions.
pub struct TaskRegistry {
    metrics: Vec<(u128, TaskMetrics)>,
    history: Vec<ExecutionRecord>,
}

impl TaskRegistry {
    pub closed spec fn spec_metrics(&self) -> Seq<(u128, TaskMetrics)> {
        self.metrics@
    }

    pub closed spec fn spec_history(&self) -> Seq<ExecutionRecord> {
        self.history@
    }

    pub open spec fn wf(&self) -> bool {
        ids_unique(self.spec_metrics())
    }

    /// No task and no execution.
    pub fn new() -> (r: Self)
        ensures
            r.wf(),
            r.spec_metrics().len() == 0,
            r.spec_history().len() == 0,
    {
        TaskRegistry { metrics: Vec::new(), history: Vec::new() }
    }

    fn find(&self, id: u128) -> (r: Option<usize>)
        requires
            self.wf(),
        ensures
            match r {
                Some(i) => i < self.spec_metrics().len() && self.spec_metrics()[i as int].0 == id
                    && tracked_id(self.spec_metrics(), id) && id_pos(self.spec_metrics(), id) == i,
                None => !tracked_id(self.spec_metrics(), id),
            },
    {
        let mut i: usize = 0;
        while i < self.metrics.len()
            invariant
                i <= self.metrics@.len(),
                self.wf(),
                forall|j: int| 0 <= j < i ==> #[trigger] self.metrics@[j].0 != id,
            decreases self.metrics@.len() - i,
        {
            if self.metrics[i].0 == id {
                proof {
                    let p = id_pos(self.spec_metrics(), id);
                    assert(tracked_id(self.spec_metrics(), id));
                    assert(self.spec_metrics()[p].0 == id);
                }
                return Some(i);
            }
            i = i + 1;
        }
        None
    }

    fn put(&mut self, id: u128, m: TaskMetrics)
        requires
            old(self).wf(),
        ensures
            final(self).wf(),
            final(self).spec_metrics() == set_metrics(old(self).spec_metrics(), id, m),
            final(self).spec_history() == old(self).spec_history(),
    {
        match self.find(id) {
            Some(i) => {
                self.metrics.set(i, (id, m));
            },
            None => {
                self.metrics.push((id, m));
            },
        }
    }

    /// The metrics of task `id`, if it is tracked.
    pub fn task_metrics(&self, id: u128) -> (r: Option<TaskMetrics>)
        requires
            self.wf(),
        ensures
            r == metrics_of(self.spec_metrics(), id),
    {
        match self.find(id) {
            Some(i) => Some(self.metrics[i].1),
            None => None,
        }
    }

    /// Starts tracking task `id`, created at `now_ms`, as pending.
    pub fn register(&mut self, id: u128, now_ms: i64)
        requires
            old(self).wf(),
        ensures
            final(self).wf(),
            final(self).spec_metrics() == set_metrics(
                old(self).spec_metrics(),
                id,
                TaskMetrics { created_at_ms: Some(now_ms), ..spec_default_metrics() },
            ),
            final(self).spec_history() == old(self).spec_history(),
    {
        let m = TaskMetrics {
            execution_attempts: 0,
            failure_count: 0,
            total_execution_time_ms: 0,
            created_at_ms: Some(now_ms),
            assigned_at_ms: None,
            completed_at_ms: None,
            status: TaskStatus::Pending,
        };
        self.put(id, m);
    }

    /// Task `id` starts running at `now_ms`: it is stamped as assigned and
    /// one more attempt is counted. An untracked id changes nothing.
    pub fn begin_execution(&mut self, id: u128, now_ms: i64)
        requires
            old(self).wf(),
            match metrics_of(old(self).spec_metrics(), id) {
                Some(m) => m.execution_attempts < u32::MAX,
                None => true,
            },
        ensures
            final(self).wf(),
            final(self).spec_history() == old(self).spec_history(),
            final(self).spec_metrics() == match metrics_of(old(self).spec_metrics(), id) {
                Some(m) => set_metrics(
                    old(self).spec_metrics(),
                    id,
                    TaskMetrics {
                        status: TaskStatus::Running,
                        assigned_at_ms: Some(now_ms),
                        execution_attempts: (m.execution_attempts + 1) as u32,
                        ..m
                    },
                ),
                None => old(self).spec_metrics(),
            },
    {
        match self.find(id) {
            Some(i) => {
                let m = self.metrics[i].1;
                let n = TaskMetrics {
                    status: TaskStatus::Running,
                    assigned_at_ms: Some(now_ms),
                    execution_attempts: m.execution_attempts + 1,
                    ..m
                };
                self.metrics.set(i, (id, n));
            },
            None => {},
        }
    }

    /// Task `id` finished successfully on `agent` at `now_ms` after
    /// `execution_time_ms`: it is completed and stamped, its time grows, and
    /// the execution joins the history.
    pub fn complete_execution(&mut self, id: u128, agent: u128, now_ms: i64, execution_time_ms: u64)
        requires
            old(self).wf(),
            match metrics_of(old(self).spec_metrics(), id) {
                Some(m) => m.total_execution_time_ms + execution_time_ms <= u64::MAX,
                None => true,
            },
        ensures
            final(self).wf(),
            final(self).spec_history() == old(self).spec_history().push(
                ExecutionRecord { task_id: id, agent_id: agent, success: true, execution_time_ms },
            ),
            final(self).spec_metrics() == match metrics_of(old(self).spec_metrics(), id) {
                Some(m) => set_metrics(
                    old(self).spec_metrics(),
                    id,
                    TaskMetrics {
                        status: TaskStatus::Completed,
                        completed_at_ms: Some(now_ms),
                        total_execution_time_ms: (m.total_execution_time_ms + execution_time_ms) as u64,
                        ..m
                    },
                ),
                None => old(self).spec_metrics(),
            },
    {
        match self.find(id) {
            Some(i) => {
                let m = self.metrics[i].1;
                let n = TaskMetrics {
                    status: TaskStatus::Completed,
                    completed_at_ms: Some(now_ms),
                    total_execution_time_ms: m.total_execution_time_ms + execution_time_ms,
                    ..m
                };
                self.metrics.set(i, (id, n));
            },
            None => {},
        }
        self.history.push(ExecutionRecord { task_id: id, agent_id: agent, success: true, execution_time_ms });
    }

    /// Sets the status of task `id` at `now_ms`: completing stamps the
    /// completion time, failing counts a failure. An untracked id changes
    /// nothing.
    pub fn update_task_status(&mut self, id: u128, status: TaskStatus, now_ms: i64)
        requires
            old(self).wf(),
            status == TaskStatus::Failed ==> match metrics_of(old(self).spec_metrics(), id) {
                Some(m) => m.failure_count < u32::MAX,
                None => true,
            },
        ensures
            final(self).wf(),
            final(self).spec_history() == old(self).spec_history(),
            final(self).spec_metrics() == match metrics_of(old(self).spec_metrics(), id) {
                Some(m) => set_metrics(old(self).spec_metrics(), id, spec_with_status(m, status, now_ms)),
                None => old(self).spec_metrics(),
            },
    {
        match self.find(id) {
            Some(i) => {
                let m = self.metrics[i].1;
                let n = match status {
                    TaskStatus::Completed => TaskMetrics { completed_at_ms: Some(now_ms), status, ..m },
                    TaskStatus::Failed => TaskMetrics { failure_count: m.failure_count + 1, status, ..m },
                    _ => TaskMetrics { status, ..m },
                };
                self.metrics.set(i, (id, n));
            },
            None => {},
        }
    }

    /// The ids of the tasks with `status`, in the order they were first
    /// tracked.
    pub fn tasks_by_status(&self, status: TaskStatus) -> (r: Vec<u128>)
        ensures
            r@ == ids_with_status(self.spec_metrics(), status),
    {
        let mut out: Vec<u128> = Vec::new();
        let mut i: usize = 0;
        while i < self.metrics.len()
            invariant
                i <= self.metrics@.len(),
                out@ == ids_with_status(self.metrics@.subrange(0, i as int), status),
            decreases self.metrics@.len() - i,
        {
            proof {
                assert(self.metrics@.subrange(0, i + 1).drop_last() =~= self.metrics@.subrange(0, i as int));
            }
            if self.metrics[i].1.status == status {
                out.push(self.metrics[i].0);
            }
            i = i + 1;
        }
        proof {
            assert(self.metrics@.subrange(0, i as int) =~= self.metrics@);
        }
        out
    }

    /// The number of tasks with `status`.
    pub fn count_with_status(&self, status: TaskStatus) -> (r: usize)
        ensures
            r == count_status(self.spec_metrics(), status),
    {
        let mut n: usize = 0;
        let mut i: usize = 0;
        while i < self.metrics.len()
            invariant
                i <= self.metrics@.len(),
                n == count_status(self.metrics@.subrange(0, i as int), status),
                n <= i,
            decreases self.metrics@.len() - i,
        {
            proof {
                assert(self.metrics@.subrange(0, i + 1).drop_last() =~= self.metrics@.subrange(0, i as int));
            }
            if self.metrics[i].1.status == status {
                n = n + 1;
            }
            i = i + 1;
        }
        proof {
            assert(self.metrics@.subrange(0, i as int) =~= self.metrics@);
        }
        n
    }

    /// Counts for the performance summary: tasks in all, completed, failed
    /// and pending, and the time over the tasks that spent any. `None` when
    /// that time does not fit in a `u64`.
    pub fn performance_counts(&self) -> (r: Option<PerformanceCounts>)
        ensures
            match r {
                Some(c) => c.total_tasks == self.spec_metrics().len()
                    && c.completed_tasks == count_status(self.spec_metrics(), TaskStatus::Completed)
                    && c.failed_tasks == count_status(self.spec_metrics(), TaskStatus::Failed)
                    && c.pending_tasks == count_status(self.spec_metrics(), TaskStatus::Pending)
                    && c.total_execution_time_ms == time_totals(self.spec_metrics()).0
                    && c.execution_count == time_totals(self.spec_metrics()).1,
                None => time_totals(self.spec_metrics()).0 > u64::MAX,
            },
    {
        let completed = self.count_with_status(TaskStatus::Completed);
        let failed = self.count_with_status(TaskStatus::Failed);
        let pending = self.count_with_status(TaskStatus::Pending);
        let mut total: u64 = 0;
        let mut count: usize = 0;
        let mut i: usize = 0;
        while i < self.metrics.len()
            invariant
                i <= self.metrics@.len(),
                total == time_totals(self.metrics@.subrange(0, i as int)).0,
                count == time_totals(self.metrics@.subrange(0, i as int)).1,
                count <= i,
            decreases self.metrics@.len() - i,
        {
            proof {
                assert(self.metrics@.subrange(0, i + 1).drop_last() =~= self.metrics@.subrange(0, i as int));
            }
            let t = self.metrics[i].1.total_execution_time_ms;
            if t > 0 {
                match total.checked_add(t) {
                    Some(s) => {
                        total = s;
                    },
                    None => {
                        proof {
                            lemma_time_totals_prefix(self.metrics@, i + 1);
                        }
                        return None;
                    },
                }
                count = count + 1;
            }
            i = i + 1;
        }
        proof {
            assert(self.metrics@.subrange(0, i as int) =~= self.metrics@);
        }
        Some(PerformanceCounts {
            total_tasks: self.metrics.len(),
            completed_tasks: completed,
            failed_tasks: failed,
            pending_tasks: pending,
            total_execution_time_ms: total,
            execution_count: count,
        })
    }

    /// The recorded executions, oldest first.
    pub fn execution_history(&self) -> (r: Vec<ExecutionRecord>)
        ensures
            r@ == self.spec_history(),
    {
        self.history.clone()
    }

    /// Forgets every recorded execution.
    pub fn clear_execution_history(&mut self)
        ensures
            final(self).spec_history().len() == 0,
            final(self).spec_metrics() == old(self).spec_metrics(),
    {
        self.history.clear();
    }

    /// The first recorded execution of task `id`.
    pub fn task_execution_result(&self, id: u128) -> (r: Option<ExecutionRecord>)
        ensures
            match r {
                Some(e) => exists|i: int| 0 <= i < self.spec_history().len() && self.spec_history()[i] == e
                    && e.task_id == id
                    && forall|j: int| 0 <= j < i ==> #[trigger] self.spec_history()[j].task_id != id,
                None => forall|j: int| 0 <= j < self.spec_history().len() ==> #[trigger] self.spec_history()[j].task_id != id,
            },
    {
        let mut i: usize = 0;
        while i < self.history.len()
            invariant
                i <= self.history@.len(),
                forall|j: int| 0 <= j < i ==> #[trigger] self.history@[j].task_id != id,
            decreases self.history@.len() - i,
        {
            if self.history[i].task_id == id {
                proof {
                    let k = i as int;
                    assert(0 <= k < self.spec_history().len() && self.spec_history()[k] == self.history@[k]
                        && self.history@[k].task_id == id
                        && forall|j: int| 0 <= j < k ==> #[trigger] self.spec_history()[j].task_id != id);
                }
                return Some(self.history[i]);
            }
            i = i + 1;
        }
        None
    }

    /// The executions by `agent`, oldest first.
    pub fn agent_execution_history(&self, agent: u128) -> (r: Vec<ExecutionRecord>)
        ensures
            r@ == by_agent(self.spec_history(), agent),
    {
        let ghost f = |r: ExecutionRecord| r.agent_id == agent;
        let mut out: Vec<ExecutionRecord> = Vec::new();
        let mut i: usize = 0;
        while i < self.history.len()
            invariant
                i <= self.history@.len(),
                out@ == self.history@.take(i as int).filter(f),
                f == (|r: ExecutionRecord| r.agent_id == agent),
            decreases self.history@.len() - i,
        {
            proof {
                assert(self.history@.take(i + 1) =~= self.history@.take(i as int).push(self.history@[i as int]));
                self.history@.take(i as int).lemma_filter_push(self.history@[i as int], f);
            }
            if self.history[i].agent_id == agent {
                out.push(self.history[i]);
            }
            i = i + 1;
        }
        proof {
            assert(self.history@.take(i as int) =~= self.history@);
        }
        out
    }

    /// The successful and the failed executions by `agent`.
    pub fn agent_success_counts(&self, agent: u128) -> (r: (usize, usize))
        ensures
            r.0 == count_success(by_agent(self.spec_history(), agent)),
            r.1 == by_agent(self.spec_history(), agent).len() - count_success(by_agent(self.spec_history(), agent)),
            r.0 + r.1 == by_agent(self.spec_history(), agent).len(),
    {
        let ghost h = self.history@;
        let ghost f = |r: ExecutionRecord| r.agent_id == agent;
        let mut ok: usize = 0;
        let mut failed: usize = 0;
        let mut i: usize = 0;
        while i < self.history.len()
            invariant
                h == self.history@,
                i <= h.len(),
                f == (|r: ExecutionRecord| r.agent_id == agent),
                ok == count_success(h.take(i as int).filter(f)),
                ok + failed == h.take(i as int).filter(f).len(),
                h.take(i as int).filter(f).len() <= i,
            decreases h.len() - i,
        {
            let x = self.history[i];
            proof {
                assert(h.take(i + 1) =~= h.take(i as int).push(x));
                h.take(i as int).lemma_filter_push(x, f);
                let g = h.take(i as int).filter(f);
                assert(g.push(x).drop_last() =~= g);
            }
            if x.agent_id == agent {
                if x.success {
                    ok = ok + 1;
                } else {
                    failed = failed + 1;
                }
            }
            i = i + 1;
        }
        proof {
            assert(h.take(h.len() as int) =~= h);
            lemma_count_success_le(h.filter(f));
        }
        (ok, failed)
    }

    /// Counts over the whole history; `None` when the total time does not
    /// fit in a `u64`.
    pub fn execution_counts(&self) -> (r: Option<ExecutionCounts>)
        ensures
            match r {
                Some(c) => c == counts_of(self.spec_history()),
                None => sum_times(self.spec_history()) > u64::MAX,
            },
    {
        proof {
            assert(self.history@.subrange(0, self.history@.len() as int) =~= self.history@);
        }
        counts_over(&self.history, 0, self.history.len())
    }

    /// Counts over the last `window` executions (all of them when fewer);
    /// `None` when their total time does not fit in a `u64`.
    pub fn recent_counts(&self, window: usize) -> (r: Option<ExecutionCounts>)
        ensures
            match r {
                Some(c) => c == counts_of(self.spec_history().skip(recent_start(self.spec_history().len(), window))),
                None => sum_times(self.spec_history().skip(recent_start(self.spec_history().len(), window))) > u64::MAX,
            },
    {
        let n = self.history.len();
        let start = if n > window { n - window } else { 0 };
        proof {
            assert(self.history@.subrange(start as int, n as int) =~= self.history@.skip(start as int));
        }
        counts_over(&self.history, start, n)
    }

    /// Counts over the `window` executions before the last `window` (as
    /// many as there are); `None` when their total time does not fit in a
    /// `u64`.
    pub fn earlier_counts(&self, window: usize) -> (r: Option<ExecutionCounts>)
        ensures
            match r {
                Some(c) => c == counts_of(self.spec_history().subrange(
                    earlier_start(self.spec_history().len(), window),
                    recent_start(self.spec_history().len(), window),
                )),
                None => sum_times(self.spec_history().subrange(
                    earlier_start(self.spec_history().len(), window),
                    recent_start(self.spec_history().len(), window),
                )) > u64::MAX,
            },
    {
        let n = self.history.len();
        let end = if n > window { n - window } else { 0 };
        let start = if end > window { end - window } else { 0 };
        counts_over(&self.history, start, end)
    }

    /// How many executions each agent ran, agents in the order of their
    /// first execution.
    pub fn agent_workload(&self) -> (r: Vec<(u128, usize)>)
        ensures
            r@.len() == agents_in_order(self.spec_history()).len(),
            forall|k: int| 0 <= k < r@.len() ==> (#[trigger] r@[k]).0 == agents_in_order(self.spec_history())[k]
                && r@[k].1 == by_agent(self.spec_history(), r@[k].0).len(),
    {
        let ghost h = self.history@;
        let mut out: Vec<(u128, usize)> = Vec::new();
        let mut i: usize = 0;
        while i < self.history.len()
            invariant
                h == self.history@,
                i <= h.len(),
                out@.len() == agents_in_order(h.take(i as int)).len(),
                forall|k: int| 0 <= k < out@.len() ==> (#[trigger] out@[k]).0 == agents_in_order(h.take(i as int))[k]
                    && out@[k].1 == by_agent(h.take(i as int), out@[k].0).len(),
            decreases h.len() - i,
        {
            let x = self.history[i];
            let a = x.agent_id;
            let ghost p = h.take(i as int);
            let ghost q = h.take(i + 1);
            proof {
                assert(q =~= p.push(x));
                assert(q.drop_last() =~= p);
                lemma_agents_in_order(p, a);
            }
            let mut k: usize = 0;
            while k < out.len() && out[k].0 != a
                invariant
                    k <= out@.len(),
                    forall|j: int| 0 <= j < k ==> (#[trigger] out@[j]).0 != a,
                decreases out@.len() - k,
            {
                k = k + 1;
            }
            let ghost before = out@;
            if k < out.len() {
                let c = out[k].1;
                proof {
                    assert(agents_in_order(p).contains(a));
                    assert(agents_in_order(q) == agents_in_order(p));
                    p.lemma_filter_len(|r: ExecutionRecord| r.agent_id == a);
                    assert(c <= p.len());
                }
                out.set(k, (a, c + 1));
                proof {
                    assert forall|j: int| 0 <= j < out@.len() implies (#[trigger] out@[j]).0 == agents_in_order(q)[j]
                        && out@[j].1 == by_agent(q, out@[j].0).len() by {
                        let b = before[j].0;
                        p.lemma_filter_push(x, |r: ExecutionRecord| r.agent_id == b);
                        if j != k {
                            assert(agents_in_order(p)[j] != agents_in_order(p)[k as int]);
                        }
                    }
                }
            } else {
                proof {
                    assert(!agents_in_order(p).contains(a)) by {
                        if agents_in_order(p).contains(a) {
                            let j = choose|j: int| 0 <= j < agents_in_order(p).len() && agents_in_order(p)[j] == a;
                            assert(before[j].0 == a);
                        }
                    }
                    assert(agents_in_order(q) == agents_in_order(p).push(a));
                    p.lemma_filter_push(x, |r: ExecutionRecord| r.agent_id == a);
                }
                out.push((a, 1));
                proof {
                    assert forall|j: int| 0 <= j < out@.len() implies (#[trigger] out@[j]).0 == agents_in_order(q)[j]
                        && out@[j].1 == by_agent(q, out@[j].0).len() by {
                        let b = out@[j].0;
                        p.lemma_filter_push(x, |r: ExecutionRecord| r.agent_id == b);
                        if j < before.len() {
                            assert(agents_in_order(p)[j] != a);
                        }
                    }
                }
            }
            i = i + 1;
        }
        proof {
            assert(h.take(h.len() as int) =~= h);
        }
        out
    }
}

/// Where the last `window` of `n` records begin.
pub open spec fn recent_start(n: nat, window: usize) -> int {
    if n > window { n - window } else { 0 }
}

/// Where the `window` records before the last `window` of `n` begin.
pub open spec fn earlier_start(n: nat, window: usize) -> int {
    let end = recent_start(n, window);
    if end > window { end - window } else { 0 }
}

/// The agents that ran executions, in the order of their first execution.
pub open spec fn agents_in_order(h: Seq<ExecutionRecord>) -> Seq<u128>
    decreases h.len(),
{
    if h.len() == 0 {
        Seq::empty()
    } else {
        let prev = agents_in_order(h.drop_last());
        if prev.contains(h.last().agent_id) {
            prev
        } else {
            prev.push(h.last().agent_id)
        }
    }
}

/// An agent is listed once, and exactly when it ran an execution.
proof fn lemma_agents_in_order(h: Seq<ExecutionRecord>, a: u128)
    ensures
        agents_in_order(h).no_duplicates(),
        agents_in_order(h).contains(a) <==> by_agent(h, a).len() > 0,
    decreases h.len(),
{
    if h.len() == 0 {
        h.lemma_filter_len(|r: ExecutionRecord| r.agent_id == a);
        assert(by_agent(h, a).len() == 0);
        assert(agents_in_order(h) =~= Seq::<u128>::empty());
        assert(!agents_in_order(h).contains(a));
    } else {
        let p = h.drop_last();
        let x = h.last();
        lemma_agents_in_order(p, a);
        lemma_agents_in_order(p, x.agent_id);
        assert(h =~= p.push(x));
        let f = |r: ExecutionRecord| r.agent_id == a;
        p.lemma_filter_push(x, f);
        assert(by_agent(h, a) == p.push(x).filter(f));
        assert(by_agent(p, a) == p.filter(f));
        let prev = agents_in_order(p);
        if prev.contains(x.agent_id) {
            assert(agents_in_order(h) == prev);
            if x.agent_id == a {
                assert(by_agent(h, a).len() == by_agent(p, a).len() + 1);
            } else {
                assert(by_agent(h, a) == by_agent(p, a));
            }
        } else {
            let t = prev.push(x.agent_id);
            assert forall|i: int, j: int| 0 <= i < t.len() && 0 <= j < t.len() && i != j implies t[i] != t[j] by {
                if i < prev.len() && j < prev.len() {
                } else if i == prev.len() {
                    assert(prev[j] != x.agent_id);
                } else {
                    assert(prev[i] != x.agent_id);
                }
            }
            assert(agents_in_order(h) == t);
            if a != x.agent_id {
                assert(by_agent(h, a) == by_agent(p, a));
                assert(t.contains(a) ==> prev.contains(a)) by {
                    if t.contains(a) {
                        let j = choose|j: int| 0 <= j < t.len() && t[j] == a;
                        assert(prev[j] == a);
                    }
                }
                assert(prev.contains(a) ==> t.contains(a)) by {
                    if prev.contains(a) {
                        let j = choose|j: int| 0 <= j < prev.len() && prev[j] == a;
                        assert(t[j] == a);
                    }
                }
            } else {
                assert(t[prev.len() as int] == a);
                assert(by_agent(h, a).len() == by_agent(p, a).len() + 1);
            }
        }
    }
}

/// Counts over a run of executions (meaningful when the time fits).
pub open spec fn counts_of(h: Seq<ExecutionRecord>) -> ExecutionCounts {
    ExecutionCounts {
        total_executions: h.len() as usize,
        successful_executions: count_success(h) as usize,
        failed_executions: (h.len() - count_success(h)) as usize,
        total_execution_time_ms: sum_times(h) as u64,
    }
}

proof fn lemma_count_success_le(h: Seq<ExecutionRecord>)
    ensures
        count_success(h) <= h.len(),
    decreases h.len(),
{
    if h.len() > 0 {
        lemma_count_success_le(h.drop_last());
    }
}

proof fn lemma_sum_times_prefix(h: Seq<ExecutionRecord>, k: int)
    requires
        0 <= k <= h.len(),
    ensures
        sum_times(h.subrange(0, k)) <= sum_times(h),
    decreases h.len() - k,
{
    if k < h.len() {
        lemma_sum_times_prefix(h, k + 1);
        assert(h.subrange(0, k + 1).drop_last() =~= h.subrange(0, k));
    } else {
        assert(h.subrange(0, k) =~= h);
    }
}

proof fn lemma_time_totals_prefix(s: Seq<(u128, TaskMetrics)>, k: int)
    requires
        0 <= k <= s.len(),
    ensures
        time_totals(s.subrange(0, k)).0 <= time_totals(s).0,
    decreases s.len() - k,
{
    if k < s.len() {
        lemma_time_totals_prefix(s, k + 1);
        assert(s.subrange(0, k + 1).drop_last() =~= s.subrange(0, k));
    } else {
        assert(s.subrange(0, k) =~= s);
    }
}

fn counts_over(h: &Vec<ExecutionRecord>, start: usize, end: usize) -> (r: Option<ExecutionCounts>)
    requires
        start <= end <= h@.len(),
    ensures
        match r {
            Some(c) => c == counts_of(h@.subrange(start as int, end as int)),
            None => sum_times(h@.subrange(start as int, end as int)) > u64::MAX,
        },
{
    let ghost s = h@.subrange(start as int, end as int);
    let mut ok: usize = 0;
    let mut time: u64 = 0;
    let mut i: usize = start;
    while i < end
        invariant
            start <= i <= end <= h@.len(),
            s == h@.subrange(start as int, end as int),
            ok == count_success(s.subrange(0, i - start)),
            time == sum_times(s.subrange(0, i - start)),
            ok <= i - start,
        decreases end - i,
    {
        proof {
            assert(s.subrange(0, i - start + 1).drop_last() =~= s.subrange(0, i - start));
            assert(s.subrange(0, i - start + 1).last() == h@[i as int]);
        }
        match time.checked_add(h[i].execution_time_ms) {
            Some(t) => {
                time = t;
            },
            None => {
                proof {
                    lemma_sum_times_prefix(s, i - start + 1);
                }
                return None;
            },
        }
        if h[i].success {
            ok = ok + 1;
        }
        i = i + 1;
    }
    proof {
        assert(s.subrange(0, i - start) =~= s);
        lemma_count_success_le(s);
    }
    Some(ExecutionCounts {
        total_executions: end - start,
        successful_executions: ok,
        failed_executions: (end - start) - ok,
        total_execution_time_ms: time,
    })
}

/// Changing a task's status touches no other task, and the task's status
/// is the new one.
pub proof fn lemma_status_update_local(s: Seq<(u128, TaskMetrics)>, id: u128, status: TaskStatus, now_ms: i64, other: u128)
    requires
        ids_unique(s),
        tracked_id(s, id),
    ensures
        metrics_of(set_metrics(s, id, spec_with_status(s[id_pos(s, id)].1, status, now_ms)), id)
            == Some(spec_with_status(s[id_pos(s, id)].1, status, now_ms)),
        metrics_of(set_metrics(s, id, spec_with_status(s[id_pos(s, id)].1, status, now_ms)), id).unwrap().status == status,
        other != id ==> metrics_of(set_metrics(s, id, spec_with_status(s[id_pos(s, id)].1, status, now_ms)), other)
            == metrics_of(s, other),
{
    let m = spec_with_status(s[id_pos(s, id)].1, status, now_ms);
    lemma_set_metrics(s, id, m, other);
}

/// Setting a task's metrics leaves the ids unique, makes them what a read
/// of that task gives, and changes nothing for any other task.
pub proof fn lemma_set_metrics<M>(s: Seq<(u128, M)>, id: u128, m: M, other: u128)
    requires
        ids_unique(s),
    ensures
        ids_unique(set_metrics(s, id, m)),
        metrics_of(set_metrics(s, id, m), id) == Some(m),
        other != id ==> metrics_of(set_metrics(s, id, m), other) == metrics_of(s, other),
{
    let t = set_metrics(s, id, m);
    let i = if tracked_id(s, id) { id_pos(s, id) } else { s.len() as int };
    assert(t[i].0 == id);
    assert(tracked_id(t, id));
    let q = id_pos(t, id);
    assert(t[q].0 == id);
    if other != id {
        if tracked_id(s, other) {
            let p = id_pos(s, other);
            assert(t[p].0 == other);
            let pt = id_pos(t, other);
            assert(t[pt].0 == other);
        }
        if tracked_id(t, other) {
            let pt = id_pos(t, other);
            assert(s[pt].0 == other);
        }
    }
}

} // verus!
