//! Kinds used by metrics analysis (trends and anomalies), and the advice
//! drawn from the collected system metrics.
use vstd::prelude::*;

verus! {

/// Direction of a metric's trend.
#[derive(Debug, Clone, Copy, PartialEq, Eq, Structural)]
pub enum TrendDirection {
    Increasing,
    Decreasing,
    Stable,
}

/// Kind of anomaly.
#[derive(Debug, Clone, Copy, PartialEq, Eq, Structural)]
pub enum AnomalyType {
    PerformanceSpike,
    PerformanceDrop,
    ResourceExhaustion,
    UnusualPattern,
}

/// Severity of an anomaly.
#[derive(Debug, Clone, Copy, PartialEq, Eq, Structural)]
pub enum AnomalySeverity {
    Low,
    Medium,
    High,
    Critical,
}

/// Trends of the main system metrics.
#[derive(Debug, Clone, Copy, PartialEq, Eq, Structural)]
pub struct TrendAnalysis {
    pub cpu_trend: TrendDirection,
    pub memory_trend: TrendDirection,
    pub health_trend: TrendDirection,
    pub agent_count_trend: TrendDirection,
}

impl Default for TrendAnalysis {
    fn default() -> (r: Self)
        ensures
            r.cpu_trend == TrendDirection::Stable,
            r.memory_trend == TrendDirection::Stable,
            r.health_trend == TrendDirection::Stable,
            r.agent_count_trend == TrendDirection::Stable,
    {
        TrendAnalysis {
            cpu_trend: TrendDirection::Stable,
            memory_trend: TrendDirection::Stable,
            health_trend: TrendDirection::Stable,
            agent_count_trend: TrendDirection::Stable,
        }
    }
}

/// The advice for the collected system metrics, in order: CPU usage over
/// 80%, memory usage over 85%, 95th percentile response time over 200 ms.
pub open spec fn spec_metrics_advice(high_cpu: bool, high_memory: bool, slow_network: bool) -> Seq<Seq<char>> {
    (if high_cpu { seq!["Consider scaling up CPU resources or optimizing agent workloads"@] } else { Seq::empty() })
        + (if high_memory {
        seq!["Memory usage is high - consider garbage collection or memory optimization"@]
    } else {
        Seq::empty()
    }) + (if slow_network { seq!["Network latency is elevated - check network configuration"@] } else { Seq::empty() })
}

/// The recommendations for what the system metrics show.
pub fn metrics_advice(high_cpu: bool, high_memory: bool, slow_network: bool) -> (r: Vec<String>)
    ensures
        r@.map_values(|s: String| s@) == spec_metrics_advice(high_cpu, high_memory, slow_network),
{
    let mut out: Vec<String> = Vec::new();
    if high_cpu {
        out.push("Consider scaling up CPU resources or optimizing agent workloads".to_string());
    }
    if high_memory {
        out.push("Memory usage is high - consider garbage collection or memory optimization".to_string());
    }
    if slow_network {
        out.push("Network latency is elevated - check network configuration".to_string());
    }
    proof {
        assert(out@.map_values(|s: String| s@) =~= spec_metrics_advice(high_cpu, high_memory, slow_network));
    }
    out
}

} // verus!
