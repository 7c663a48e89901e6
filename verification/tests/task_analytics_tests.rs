use hive::task_analytics::{health_recommendations, trend_recommendation};

#[test]
fn trend_recommendations() {
    assert_eq!(trend_recommendation("improving"), "Performance is improving. Continue current optimization efforts.");
    assert_eq!(
        trend_recommendation("declining"),
        "Performance is declining. Investigate recent changes and system bottlenecks."
    );
    assert_eq!(trend_recommendation("stable"), "Performance is stable. Monitor for opportunities to further optimize.");
    assert_eq!(
        trend_recommendation("insufficient_data"),
        "Insufficient data for trend analysis. Continue collecting performance metrics."
    );
}

#[test]
fn healthy_system_gets_all_clear() {
    assert_eq!(
        health_recommendations(false, false, false),
        vec!["System is performing well. Continue monitoring for optimal performance.".to_string()]
    );
}

#[test]
fn shortfalls_listed_in_order() {
    let r = health_recommendations(true, false, true);
    assert_eq!(r.len(), 2);
    assert_eq!(
        r[0],
        "Task success rate is below 80%. Consider reviewing agent capabilities and task requirements."
    );
    assert_eq!(r[1], "Agent workload is imbalanced. Consider redistributing tasks or adding more agents.");
    let all = health_recommendations(true, true, true);
    assert_eq!(all[1], "Queue efficiency is suboptimal. Consider optimizing work-stealing queue configuration.");
}
