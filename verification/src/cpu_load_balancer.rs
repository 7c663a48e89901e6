//! Worker pool sizing for the CPU load balancer: growing and shrinking the
//! pool within its limits, the counters of those events, and the simulated
//! processing time of a task by priority.
use vstd::prelude::*;
use crate::platform::logical_cpus;
use crate::tasks::TaskPriority;

verus! {

/// The bounds of the worker pool.
#[derive(Debug, Clone, Copy, PartialEq, Eq, Structural)]
pub struct PoolLimits {
    pub min_workers: usize,
    pub max_workers: usize,
}

impl PoolLimits {
    /// The limits on a machine with `cpus` logical cores: one worker per
    /// core at least, four per core at most (saturating at `usize::MAX`).
    pub fn for_cpus(cpus: usize) -> (r: Self)
        ensures
            r.min_workers == cpus,
            r.max_workers == (if cpus * 4 <= usize::MAX { cpus * 4 } else { usize::MAX as int }),
    {
        let max = match cpus.checked_mul(4) {
            Some(m) => m,
            None => usize::MAX,
        };
        PoolLimits { min_workers: cpus, max_workers: max }
    }

    /// The limits on this machine: those of `for_cpus` for its logical
    /// core count, which is at least 1.
    pub fn for_this_machine() -> (r: Self)
        ensures
            r.min_workers >= 1,
            r.min_workers <= r.max_workers,
            r.max_workers == (if r.min_workers * 4 <= usize::MAX { r.min_workers * 4 } else { usize::MAX as int }),
    {
        PoolLimits::for_cpus(logical_cpus())
    }
}

/// The size of the worker pool and the counters of its changes.
#[derive(Debug, Clone, Copy, PartialEq, Eq, Structural)]
pub struct PoolScaling {
    pub active_workers: usize,
    pub peak_workers: usize,
    pub scale_up_events: u64,
    pub scale_down_events: u64,
}

/// The pool after a request to grow: one more worker when below the
/// maximum, the peak following; otherwise unchanged.
pub open spec fn spec_scale_up(s: PoolScaling, limits: PoolLimits) -> PoolScaling {
    if s.active_workers < limits.max_workers {
        PoolScaling {
            active_workers: (s.active_workers + 1) as usize,
            peak_workers: if s.peak_workers >= s.active_workers + 1 { s.peak_workers } else { (s.active_workers + 1) as usize },
            scale_up_events: (s.scale_up_events + 1) as u64,
            scale_down_events: s.scale_down_events,
        }
    } else {
        s
    }
}

/// The pool after a request to shrink: one worker fewer when above the
/// minimum; otherwise unchanged.
pub open spec fn spec_scale_down(s: PoolScaling, limits: PoolLimits) -> PoolScaling {
    if s.active_workers > limits.min_workers {
        PoolScaling {
            active_workers: (s.active_workers - 1) as usize,
            scale_down_events: (s.scale_down_events + 1) as u64,
            ..s
        }
    } else {
        s
    }
}

impl PoolScaling {
    /// A pool started with `min_workers` workers.
    pub fn start(limits: PoolLimits) -> (r: Self)
        ensures
            r == (PoolScaling {
                active_workers: limits.min_workers,
                peak_workers: limits.min_workers,
                scale_up_events: 0,
                scale_down_events: 0,
            }),
    {
        PoolScaling {
            active_workers: limits.min_workers,
            peak_workers: limits.min_workers,
            scale_up_events: 0,
            scale_down_events: 0,
        }
    }

    /// Grows the pool by one worker if it is below the maximum.
    pub fn scale_up(&mut self, limits: PoolLimits)
        requires
            old(self).scale_up_events < u64::MAX,
        ensures
            *final(self) == spec_scale_up(*old(self), limits),
    {
        if self.active_workers < limits.max_workers {
            self.active_workers = self.active_workers + 1;
            if self.active_workers > self.peak_workers {
                self.peak_workers = self.active_workers;
            }
            self.scale_up_events = self.scale_up_events + 1;
        }
    }

    /// Shrinks the pool by one worker if it is above the minimum.
    pub fn scale_down(&mut self, limits: PoolLimits)
        requires
            old(self).scale_down_events < u64::MAX,
        ensures
            *final(self) == spec_scale_down(*old(self), limits),
    {
        if self.active_workers > limits.min_workers {
            self.active_workers = self.active_workers - 1;
            self.scale_down_events = self.scale_down_events + 1;
        }
    }
}

/// Scaling keeps a pool within its limits and its peak at or above its
/// size.
pub proof fn lemma_scaling_within_limits(s: PoolScaling, limits: PoolLimits)
    requires
        limits.min_workers <= s.active_workers <= limits.max_workers,
        s.active_workers <= s.peak_workers,
    ensures
        limits.min_workers <= spec_scale_up(s, limits).active_workers <= limits.max_workers,
        spec_scale_up(s, limits).active_workers <= spec_scale_up(s, limits).peak_workers,
        limits.min_workers <= spec_scale_down(s, limits).active_workers <= limits.max_workers,
        spec_scale_down(s, limits).active_workers <= spec_scale_down(s, limits).peak_workers,
        spec_scale_up(s, limits).peak_workers >= s.peak_workers,
        spec_scale_down(s, limits).peak_workers == s.peak_workers,
{
}

/// Growing and then shrinking a pool below its maximum and at or above its
/// minimum gives back its size.
pub proof fn lemma_scale_down_undoes_up(s: PoolScaling, limits: PoolLimits)
    requires
        limits.min_workers <= s.active_workers < limits.max_workers,
    ensures
        spec_scale_down(spec_scale_up(s, limits), limits).active_workers == s.active_workers,
{
}

/// Whether a worker queue admits a task: it does whenever it has any
/// capacity, the permit taken for the check being given back at once.
pub fn queue_admits(queue_capacity: usize) -> (r: bool)
    ensures
        r == (queue_capacity > 0),
{
    queue_capacity > 0
}

/// The simulated processing time of a task: 50 ms for low priority, 30 for
/// medium, 20 for high, 10 for critical.
pub fn processing_time_ms(priority: TaskPriority) -> (r: u64)
    ensures
        r == (match priority {
            TaskPriority::Low => 50u64,
            TaskPriority::Medium => 30u64,
            TaskPriority::High => 20u64,
            TaskPriority::Critical => 10u64,
        }),
{
    match priority {
        TaskPriority::Low => 50,
        TaskPriority::Medium => 30,
        TaskPriority::High => 20,
        TaskPriority::Critical => 10,
    }
}

} // verus!
