use hive::tasks::{
    read_task_config, parse_task_priority, priority_or_medium, TaskConfigError, TaskMetrics, TaskPriority, TaskRegistry, TaskStatus,
};

#[test]
fn test_task_status_enum() {
    assert_eq!(TaskStatus::Pending, TaskStatus::default());
    assert_eq!(TaskStatus::Assigned, TaskStatus::Assigned);
    assert_eq!(TaskStatus::Cancelled.name(), "Cancelled");
    assert_eq!(TaskStatus::Running.name(), "Running");
}

#[test]
fn strict_priority_parsing() {
    assert_eq!(parse_task_priority(Some("low")), Ok(TaskPriority::Low));
    assert_eq!(parse_task_priority(Some("medium")), Ok(TaskPriority::Medium));
    assert_eq!(parse_task_priority(Some("high")), Ok(TaskPriority::High));
    assert_eq!(parse_task_priority(Some("critical")), Ok(TaskPriority::Critical));
    let err = parse_task_priority(Some("urgent")).unwrap_err();
    assert_eq!(err, TaskConfigError::UnknownPriority("urgent".to_string()));
    assert_eq!(err.field(), "priority");
    assert_eq!(parse_task_priority(None), Err(TaskConfigError::UnknownPriority(String::new())));
}

#[test]
fn test_task_priority_parsing() {
    let cases = vec![
        ("low", TaskPriority::Low),
        ("medium", TaskPriority::Medium),
        ("high", TaskPriority::High),
        ("critical", TaskPriority::Critical),
        ("invalid", TaskPriority::Medium),
    ];
    for (name, expected) in cases {
        assert_eq!(priority_or_medium(Some(name)), expected);
    }
    assert_eq!(priority_or_medium(None), TaskPriority::Medium);
}

#[test]
fn test_task_metrics_creation() {
    let m = TaskMetrics::default();
    assert_eq!(m.execution_attempts, 0);
    assert_eq!(m.failure_count, 0);
    assert!(m.created_at_ms.is_none());
    assert_eq!(m.status, TaskStatus::Pending);
}

#[test]
fn registry_lifecycle() {
    let mut reg = TaskRegistry::new();
    reg.register(1, 100);
    reg.register(2, 100);
    let m = reg.task_metrics(1).unwrap();
    assert_eq!(m.status, TaskStatus::Pending);
    assert_eq!(m.created_at_ms, Some(100));
    reg.begin_execution(1, 150);
    let m = reg.task_metrics(1).unwrap();
    assert_eq!(m.status, TaskStatus::Running);
    assert_eq!(m.execution_attempts, 1);
    assert_eq!(m.assigned_at_ms, Some(150));
    reg.complete_execution(1, 77, 200, 50);
    let m = reg.task_metrics(1).unwrap();
    assert_eq!(m.status, TaskStatus::Completed);
    assert_eq!(m.completed_at_ms, Some(200));
    assert_eq!(m.total_execution_time_ms, 50);
    assert_eq!(reg.execution_history().len(), 1);
    assert_eq!(reg.tasks_by_status(TaskStatus::Pending), vec![2]);
    assert_eq!(reg.count_with_status(TaskStatus::Completed), 1);
    assert!(reg.task_metrics(3).is_none());
}

#[test]
fn status_update_counts_failures() {
    let mut reg = TaskRegistry::new();
    reg.register(5, 0);
    reg.update_task_status(5, TaskStatus::Failed, 10);
    reg.update_task_status(5, TaskStatus::Failed, 11);
    let m = reg.task_metrics(5).unwrap();
    assert_eq!(m.failure_count, 2);
    assert_eq!(m.status, TaskStatus::Failed);
    reg.update_task_status(5, TaskStatus::Completed, 12);
    assert_eq!(reg.task_metrics(5).unwrap().completed_at_ms, Some(12));
    reg.update_task_status(99, TaskStatus::Failed, 13);
    assert!(reg.task_metrics(99).is_none());
}

#[test]
fn performance_and_execution_counts() {
    let mut reg = TaskRegistry::new();
    reg.register(1, 0);
    reg.register(2, 0);
    reg.register(3, 0);
    reg.complete_execution(1, 10, 5, 100);
    reg.complete_execution(2, 11, 6, 200);
    reg.update_task_status(3, TaskStatus::Failed, 7);
    let p = reg.performance_counts().unwrap();
    assert_eq!(p.total_tasks, 3);
    assert_eq!(p.completed_tasks, 2);
    assert_eq!(p.failed_tasks, 1);
    assert_eq!(p.pending_tasks, 0);
    assert_eq!(p.total_execution_time_ms, 300);
    assert_eq!(p.execution_count, 2);
    let e = reg.execution_counts().unwrap();
    assert_eq!(e.total_executions, 2);
    assert_eq!(e.successful_executions, 2);
    assert_eq!(e.failed_executions, 0);
    assert_eq!(e.total_execution_time_ms, 300);
    let recent = reg.recent_counts(1).unwrap();
    assert_eq!(recent.total_executions, 1);
    assert_eq!(recent.total_execution_time_ms, 200);
    assert_eq!(reg.agent_execution_history(11).len(), 1);
    assert_eq!(reg.task_execution_result(2).unwrap().agent_id, 11);
    assert!(reg.task_execution_result(3).is_none());
    reg.clear_execution_history();
    assert_eq!(reg.execution_history().len(), 0);
}

#[test]
fn agent_workload_in_first_run_order() {
    let mut reg = TaskRegistry::new();
    for id in 1..=5u128 {
        reg.register(id, 0);
    }
    reg.complete_execution(1, 20, 1, 10);
    reg.complete_execution(2, 10, 2, 10);
    reg.complete_execution(3, 20, 3, 10);
    reg.complete_execution(4, 30, 4, 10);
    reg.complete_execution(5, 20, 5, 10);
    assert_eq!(reg.agent_workload(), vec![(20, 3), (10, 1), (30, 1)]);
    assert!(TaskRegistry::new().agent_workload().is_empty());
}

#[test]
fn earlier_window_counts() {
    let mut reg = TaskRegistry::new();
    for id in 1..=5u128 {
        reg.register(id, 0);
        reg.complete_execution(id, 1, id as i64, id as u64);
    }
    let earlier = reg.earlier_counts(2).unwrap();
    assert_eq!(earlier.total_executions, 2);
    assert_eq!(earlier.total_execution_time_ms, 2 + 3);
    let recent = reg.recent_counts(2).unwrap();
    assert_eq!(recent.total_execution_time_ms, 4 + 5);
    let few = reg.earlier_counts(4).unwrap();
    assert_eq!(few.total_executions, 1);
    assert_eq!(few.total_execution_time_ms, 1);
    assert_eq!(reg.earlier_counts(10).unwrap().total_executions, 0);
}

#[test]
fn task_config_reading() {
    assert_eq!(read_task_config(false, Some("t"), None, Some("low")).err(), Some(TaskConfigError::NotAnObject));
    assert_eq!(read_task_config(true, None, None, Some("low")).err(), Some(TaskConfigError::MissingTitle));
    assert_eq!(
        read_task_config(true, Some("t"), None, Some("urgent")).err(),
        Some(TaskConfigError::UnknownPriority("urgent".to_string()))
    );
    assert_eq!(
        read_task_config(true, Some("t"), None, None).err(),
        Some(TaskConfigError::UnknownPriority(String::new()))
    );
    let req = read_task_config(true, Some("Build"), Some("the thing"), Some("high")).ok().unwrap();
    assert_eq!(req.title, "Build");
    assert_eq!(req.description, "the thing");
    assert_eq!(req.priority, TaskPriority::High);
    let plain = read_task_config(true, Some("Build"), None, Some("low")).ok().unwrap();
    assert_eq!(plain.description, "");
}

#[test]
fn per_agent_success_and_failure() {
    let mut reg = TaskRegistry::new();
    for id in 1..=4u128 {
        reg.register(id, 0);
    }
    reg.complete_execution(1, 20, 1, 10);
    reg.complete_execution(2, 20, 2, 10);
    reg.complete_execution(3, 30, 3, 10);
    assert_eq!(reg.agent_success_counts(20), (2, 0));
    assert_eq!(reg.agent_success_counts(30), (1, 0));
    assert_eq!(reg.agent_success_counts(99), (0, 0));
}
