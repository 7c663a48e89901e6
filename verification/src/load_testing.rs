//! Load test operations and the ramp-up schedule.
use vstd::prelude::*;

verus! {

/// An operation a virtual user performs.
#[derive(Debug, Clone, Copy, PartialEq, Eq, Structural)]
pub enum LoadTestOperation {
    TaskSubmission,
    MessageSending,
    MemoryPoolOperations,
    LoadBalancerOperations,
    OptimizedCommunication,
    HealthChecks,
}

/// The pause between starting two virtual users during ramp-up: the
/// ramp-up time in milliseconds divided evenly among the users.
pub fn ramp_step_ms(ramp_up_secs: u64, users: usize) -> (r: u128)
    requires
        users > 0,
    ensures
        r == (ramp_up_secs as int * 1000) / (users as int),
{
    let ms: u128 = ramp_up_secs as u128 * 1000;
    ms / (users as u128)
}

/// The operations of the default load test, in order.
pub fn default_operations() -> (r: Vec<LoadTestOperation>)
    ensures
        r@ == seq![
            LoadTestOperation::TaskSubmission,
            LoadTestOperation::MessageSending,
            LoadTestOperation::MemoryPoolOperations,
            LoadTestOperation::LoadBalancerOperations,
        ],
{
    let mut v: Vec<LoadTestOperation> = Vec::new();
    v.push(LoadTestOperation::TaskSubmission);
    v.push(LoadTestOperation::MessageSending);
    v.push(LoadTestOperation::MemoryPoolOperations);
    v.push(LoadTestOperation::LoadBalancerOperations);
    proof {
        assert(v@ =~= seq![
            LoadTestOperation::TaskSubmission,
            LoadTestOperation::MessageSending,
            LoadTestOperation::MemoryPoolOperations,
            LoadTestOperation::LoadBalancerOperations,
        ]);
    }
    v
}

} // verus!
