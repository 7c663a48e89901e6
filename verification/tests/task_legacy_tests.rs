use hive::task_legacy::{task_fields, validate_task_config, TaskBoard, TaskNotFound, TaskStatus, HISTORY_LIMIT};
use hive::tasks::TaskConfigError;
use hive::tasks::TaskPriority;

#[test]
fn test_task_status_enum_legacy() {
    assert_eq!(TaskStatus::Pending, TaskStatus::default());
    assert_eq!(TaskStatus::Retrying, TaskStatus::Retrying);
}

#[test]
fn test_create_task_missing_title() {
    let f = task_fields(None, Some("A task without title"), Some("computation"), None);
    assert_eq!(f.title, "Untitled Task");
    assert_eq!(f.description, "A task without title");
    assert_eq!(f.task_type, "computation");
    assert_eq!(f.priority, TaskPriority::Medium);
    let mut board = TaskBoard::new();
    assert_eq!(board.create_from_config(true, 7, 0), Ok(()));
    assert_eq!(board.queued(), vec![7]);
    assert_eq!(board.task_metrics(7).unwrap().status, TaskStatus::Pending);
}

#[test]
fn test_create_task_with_invalid_priority() {
    let f = task_fields(Some("Invalid Priority Task"), None, None, Some("invalid"));
    assert_eq!(f.priority, TaskPriority::Medium);
    assert_eq!(f.description, "");
    assert_eq!(f.task_type, "general");
    let g = task_fields(Some("t"), None, None, Some("critical"));
    assert_eq!(g.priority, TaskPriority::Critical);
    let mut board = TaskBoard::new();
    assert_eq!(board.create_from_config(true, 9, 5), Ok(()));
    assert_eq!(board.queued(), vec![9]);
    assert_eq!(board.task_metrics(9).unwrap().created_at_ms, 5);
}

#[test]
fn test_task_metrics_tracking() {
    let mut board = TaskBoard::new();
    board.create(1, 100);
    let m = board.task_metrics(1).unwrap();
    assert_eq!(m.status, TaskStatus::Pending);
    assert!(m.assigned_agent.is_none());
    assert_eq!(m.execution_attempts, 0);
    assert!(board.take_from_queue(1));
    board.start_execution(1, 42, 110);
    board.finish_execution(1, 42, true, 120, 10);
    let m = board.task_metrics(1).unwrap();
    assert_eq!(m.status, TaskStatus::Completed);
    assert_eq!(m.assigned_agent, Some(42));
    assert_eq!(m.execution_attempts, 1);
    assert!(m.started_at_ms.is_some());
    assert!(m.completed_at_ms.is_some());
}

#[test]
fn test_task_execution_history_limit() {
    let mut board = TaskBoard::new();
    for i in 0..1500u128 {
        board.create(i, 0);
        board.start_execution(i, 7, 1);
        board.finish_execution(i, 7, true, 2, 1);
    }
    let history = board.execution_history();
    assert!(history.len() <= 1000);
    assert_eq!(history.len(), HISTORY_LIMIT);
    assert_eq!(history[0].task_id, 500);
}

#[test]
fn test_distribute_tasks() {
    let mut board = TaskBoard::new();
    board.create(1, 0);
    board.create(2, 0);
    board.create(3, 0);
    let pairs = board.distribute(&vec![10, 20]);
    assert_eq!(pairs, vec![(1, 10), (2, 20)]);
    assert_eq!(board.queued(), vec![3]);
    assert_eq!(board.task_metrics(1).unwrap().status, TaskStatus::Assigned);
    assert_eq!(board.task_metrics(2).unwrap().assigned_agent, Some(20));
    assert_eq!(board.task_metrics(3).unwrap().status, TaskStatus::Pending);
}

#[test]
fn test_get_recent_performance_no_history() {
    let board = TaskBoard::new();
    assert_eq!(board.recent_performance(), Some((0, 0, 0)));
}

#[test]
fn test_get_recent_performance_with_history() {
    let mut board = TaskBoard::new();
    board.finish_execution(1, 1, true, 0, 100);
    board.finish_execution(2, 2, false, 0, 200);
    board.finish_execution(3, 3, true, 0, 150);
    let (ok, time, n) = board.recent_performance().unwrap();
    assert_eq!(n, 3);
    assert_eq!(ok, 2);
    assert_eq!(time, 450);
    assert!(((ok as f64 / n as f64) - 0.666666).abs() < 0.01);
    assert!(((time as f64 / n as f64) - 150.0).abs() < 0.01);
}

#[test]
fn take_from_queue_missing_task() {
    let mut board = TaskBoard::new();
    board.create(4, 0);
    assert!(!board.take_from_queue(5));
    assert_eq!(board.queued(), vec![4]);
}

#[test]
fn test_validate_task_config_valid() {
    // {"type": "computation", "title": "Valid Task", "description": "A valid task"} is an object
    assert!(validate_task_config(true).is_ok());
}

#[test]
fn test_validate_task_config_invalid() {
    // "invalid" is a string, not an object
    assert_eq!(validate_task_config(false), Err(TaskConfigError::NotAnObject));
}

#[test]
fn test_create_task_invalid_config() {
    let mut board = TaskBoard::new();
    // "invalid_config" is a string, not an object
    assert!(board.create_from_config(false, 1, 0).is_err());
}

#[test]
fn refused_config_creates_nothing() {
    let mut board = TaskBoard::new();
    assert_eq!(board.create_from_config(false, 1, 0), Err(TaskConfigError::NotAnObject));
    assert!(board.queued().is_empty());
    assert!(board.task_metrics(1).is_none());
    assert_eq!(board.create_from_config(true, 2, 0), Ok(()));
    assert_eq!(board.queued(), vec![2]);
}

#[test]
fn test_get_status() {
    let board = TaskBoard::new();
    assert_eq!(board.queued().len(), 0);
    let c = board.status_counts();
    assert_eq!(c.pending + c.assigned + c.running + c.completed + c.failed + c.retrying, 0);
}

#[test]
fn status_counts_add_up() {
    let mut board = TaskBoard::new();
    board.create(1, 0);
    board.create(2, 0);
    board.create(3, 0);
    assert_eq!(board.begin_queued_execution(2, 9, 5), Ok(()));
    board.finish_execution(2, 9, false, 6, 1);
    assert_eq!(board.begin_queued_execution(3, 9, 7), Ok(()));
    let c = board.status_counts();
    assert_eq!((c.pending, c.running, c.failed), (1, 1, 1));
    assert_eq!(c.pending + c.assigned + c.running + c.completed + c.failed + c.retrying, 3);
}

#[test]
fn test_execute_task_with_verification_nonexistent_task() {
    let mut board = TaskBoard::new();
    assert!(board.begin_queued_execution(42, 1, 0).is_err());
}

#[test]
fn queued_execution_starts_and_leaves_queue() {
    let mut board = TaskBoard::new();
    assert_eq!(board.begin_queued_execution(42, 1, 0), Err(TaskNotFound { id: 42 }));
    assert!(board.execution_history().is_empty());
    board.create(1, 0);
    assert_eq!(board.begin_queued_execution(1, 7, 3), Ok(()));
    let m = board.task_metrics(1).unwrap();
    assert_eq!(m.status, TaskStatus::Running);
    assert_eq!(m.assigned_agent, Some(7));
    assert_eq!(m.execution_attempts, 1);
    assert!(board.queued().is_empty());
}
