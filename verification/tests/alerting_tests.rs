use hive::alerting::{
    can_auto_resolve, channel_accepts, extract_metric_name, generate_anomaly_actions, generate_suggested_actions,
    get_alert_statistics, most_frequent_alert, severity_to_level, suppression_key, within_correlation_window,
    AlertLevel, AlertRecord, AlertSuppression, IntelligentAlertConfig, HOUR_MS, MINUTE_MS,
};
use hive::metrics_types::{AnomalySeverity, AnomalyType};

#[test]
fn default_alert_config() {
    let c = IntelligentAlertConfig::default();
    assert_eq!(c.max_alert_history, 10000);
    assert_eq!(c.alert_correlation_window_minutes, 5);
    assert_eq!(c.suppression_window_minutes, 30);
    assert!(!c.escalation_enabled);
}

#[test]
fn suppression_keys() {
    assert_eq!(suppression_key(&"CPU high".to_string(), AlertLevel::Critical), "CPU high_2");
    assert_eq!(suppression_key(&"x".to_string(), AlertLevel::Info), "x_0");
}

#[test]
fn repeated_alert_is_suppressed_within_window() {
    let mut s = AlertSuppression::new();
    let batch = vec![("CPU high".to_string(), AlertLevel::Warning), ("CPU high".to_string(), AlertLevel::Warning)];
    assert_eq!(s.apply_suppression(&batch, 0, 30), vec![true, false]);
    let again = vec![("CPU high".to_string(), AlertLevel::Warning)];
    assert_eq!(s.apply_suppression(&again, 29 * MINUTE_MS, 30), vec![false]);
    assert_eq!(s.apply_suppression(&again, 31 * MINUTE_MS, 30), vec![true]);
    let other = vec![("CPU high".to_string(), AlertLevel::Critical)];
    assert_eq!(s.apply_suppression(&other, 31 * MINUTE_MS, 30), vec![true]);
}

#[test]
fn channel_filters() {
    assert!(channel_accepts(true, &vec![], AlertLevel::Info));
    assert!(!channel_accepts(false, &vec![], AlertLevel::Info));
    assert!(channel_accepts(true, &vec![AlertLevel::Critical], AlertLevel::Critical));
    assert!(!channel_accepts(true, &vec![AlertLevel::Critical], AlertLevel::Warning));
}

#[test]
fn correlation_window() {
    assert!(within_correlation_window(5 * MINUTE_MS, 0, 5));
    assert!(!within_correlation_window(5 * MINUTE_MS + 1, 0, 5));
}

#[test]
fn severity_mapping() {
    assert_eq!(severity_to_level(AnomalySeverity::Low), AlertLevel::Info);
    assert_eq!(severity_to_level(AnomalySeverity::Medium), AlertLevel::Warning);
    assert_eq!(severity_to_level(AnomalySeverity::High), AlertLevel::Critical);
    assert_eq!(severity_to_level(AnomalySeverity::Critical), AlertLevel::Critical);
}

#[test]
fn metric_names_and_actions() {
    assert_eq!(extract_metric_name("High CPU usage"), Some("cpu_usage".to_string()));
    assert_eq!(extract_metric_name("Memory pressure"), Some("memory_usage".to_string()));
    assert_eq!(extract_metric_name("Health degraded"), Some("system_health_score".to_string()));
    assert_eq!(extract_metric_name("Disk"), None);
    assert!(can_auto_resolve("memory_usage"));
    assert!(can_auto_resolve("agent_count"));
    assert!(!can_auto_resolve("cpu_usage"));
    assert_eq!(generate_suggested_actions("cpu_usage").len(), 3);
    assert_eq!(generate_suggested_actions("other"), vec!["Monitor the situation".to_string()]);
    assert!(!generate_anomaly_actions(AnomalyType::PerformanceSpike).is_empty());
}

#[test]
fn statistics_over_history() {
    let now = 2 * 24 * HOUR_MS;
    let history = vec![
        AlertRecord { title: "A".to_string(), level: AlertLevel::Critical, timestamp_ms: now - 10 },
        AlertRecord { title: "B".to_string(), level: AlertLevel::Warning, timestamp_ms: now - 2 * HOUR_MS },
        AlertRecord { title: "A".to_string(), level: AlertLevel::Critical, timestamp_ms: now - 30 * HOUR_MS },
    ];
    let stats = get_alert_statistics(&history, now);
    assert_eq!(stats.total_alerts, 3);
    assert_eq!(stats.alerts_last_24h, 2);
    assert_eq!(stats.alerts_last_hour, 1);
    assert_eq!(stats.critical_alerts_24h, 1);
    assert_eq!(stats.most_frequent_alert, Some("A".to_string()));
    assert_eq!(most_frequent_alert(&vec![]), None);
}
