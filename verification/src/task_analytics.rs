//! Advice drawn from task analytics: the recommendation for a performance
//! trend and the recommendations of a system health assessment.
//!
//! Success rates, queue efficiency and workload balance are measured by
//! the caller, which passes the outcome of comparing them with their
//! targets.
use vstd::prelude::*;
use crate::text::str_eq;

verus! {

/// The recommendation for the trend named `trend`.
pub open spec fn spec_trend_recommendation(trend: Seq<char>) -> Seq<char> {
    if trend == "improving"@ {
        "Performance is improving. Continue current optimization efforts."@
    } else if trend == "declining"@ {
        "Performance is declining. Investigate recent changes and system bottlenecks."@
    } else if trend == "stable"@ {
        "Performance is stable. Monitor for opportunities to further optimize."@
    } else {
        "Insufficient data for trend analysis. Continue collecting performance metrics."@
    }
}

/// The recommendation for a performance trend: "improving", "declining",
/// "stable", or anything else for too little data.
pub fn trend_recommendation(trend: &str) -> (r: String)
    ensures
        r@ == spec_trend_recommendation(trend@),
{
    if str_eq(trend, "improving") {
        "Performance is improving. Continue current optimization efforts.".to_string()
    } else if str_eq(trend, "declining") {
        "Performance is declining. Investigate recent changes and system bottlenecks.".to_string()
    } else if str_eq(trend, "stable") {
        "Performance is stable. Monitor for opportunities to further optimize.".to_string()
    } else {
        "Insufficient data for trend analysis. Continue collecting performance metrics.".to_string()
    }
}

pub open spec fn low_success_advice() -> Seq<char> {
    "Task success rate is below 80%. Consider reviewing agent capabilities and task requirements."@
}

pub open spec fn queue_advice() -> Seq<char> {
    "Queue efficiency is suboptimal. Consider optimizing work-stealing queue configuration."@
}

pub open spec fn imbalance_advice() -> Seq<char> {
    "Agent workload is imbalanced. Consider redistributing tasks or adding more agents."@
}

pub open spec fn healthy_advice() -> Seq<char> {
    "System is performing well. Continue monitoring for optimal performance."@
}

/// The advice of a health assessment, in order: one line per shortfall
/// (success rate under 80%, queue efficiency under 70%, workload
/// imbalance over 30%), or the all-clear when there is none.
pub open spec fn spec_health_recommendations(low_success: bool, inefficient_queue: bool, imbalanced: bool) -> Seq<Seq<char>> {
    let found = (if low_success { seq![low_success_advice()] } else { Seq::empty() })
        + (if inefficient_queue { seq![queue_advice()] } else { Seq::empty() })
        + (if imbalanced { seq![imbalance_advice()] } else { Seq::empty() });
    if found.len() == 0 {
        seq![healthy_advice()]
    } else {
        found
    }
}

/// The recommendations of a system health assessment.
pub fn health_recommendations(low_success: bool, inefficient_queue: bool, imbalanced: bool) -> (r: Vec<String>)
    ensures
        r@.map_values(|s: String| s@) == spec_health_recommendations(low_success, inefficient_queue, imbalanced),
{
    let mut out: Vec<String> = Vec::new();
    if low_success {
        out.push(
            "Task success rate is below 80%. Consider reviewing agent capabilities and task requirements.".to_string(),
        );
    }
    if inefficient_queue {
        out.push("Queue efficiency is suboptimal. Consider optimizing work-stealing queue configuration.".to_string());
    }
    if imbalanced {
        out.push("Agent workload is imbalanced. Consider redistributing tasks or adding more agents.".to_string());
    }
    if out.len() == 0 {
        out.push("System is performing well. Continue monitoring for optimal performance.".to_string());
    }
    proof {
        assert(out@.map_values(|s: String| s@)
            =~= spec_health_recommendations(low_success, inefficient_queue, imbalanced));
    }
    out
}

} // verus!
