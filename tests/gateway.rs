use indexify_core::gateway::{
    cancelled_tasks, check_task_outcome, executors_to_remove, tasks_for_executor,
    ProtocolViolation,
};
use indexify_core::liveness::LivenessConfig;
use indexify_core::model::{Content, DataPayload, ExecutorId, ExecutorMetadata, Task, TaskOutcome};
use indexify_core::state::{Command, State};
use indexify_core::stream::prune_point;
use indexify_core::test_objects::{mock_graph_a, TEST_NAMESPACE};

fn task(input: u64) -> Task {
    Task {
        id: 0,
        namespace: TEST_NAMESPACE.to_string(),
        compute_graph_name: "graph_A".to_string(),
        compute_fn_name: "fn_a".to_string(),
        input_content_id: input,
        created_at: 0,
        outcome: TaskOutcome::Unknown,
        assigned_executor: None,
        attempt: 0,
    }
}

fn executor(id: &str) -> ExecutorMetadata {
    ExecutorMetadata {
        id: ExecutorId::new(id.to_string()),
        runner_name: String::new(),
        addr: String::new(),
        labels: vec![],
    }
}

/// Three tasks: 0 and 1 held by e1, 2 held by e2; task 1 then finished.
fn state() -> State {
    let mut s = State::new();
    assert!(s.apply(Command::CreateNamespace { name: TEST_NAMESPACE.to_string() }, 1).is_ok());
    assert!(s.apply(Command::CreateGraph { graph: mock_graph_a() }, 1).is_ok());
    let content = Content {
        id: 3,
        namespace: TEST_NAMESPACE.to_string(),
        compute_graph_name: "graph_A".to_string(),
        parent_id: None,
        root_id: None,
        payload: DataPayload { path: "p".to_string(), size: 1, sha256_hash: "h".to_string() },
        mime: None,
        source_fn: None,
        created_at: 1,
    };
    assert!(s.apply(Command::IngestContent { content }, 1).is_ok());
    assert!(s.apply(Command::RegisterExecutor { executor: executor("e1") }, 1).is_ok());
    assert!(s.apply(Command::RegisterExecutor { executor: executor("e2") }, 50).is_ok());
    let create = Command::CreateTasks { tasks: vec![task(3), task(3), task(3)], cause_id: 0, issues: vec![] };
    assert!(s.apply(create, 2).is_ok());
    let plan = vec![
        (0, ExecutorId::new("e1".to_string())),
        (1, ExecutorId::new("e1".to_string())),
        (2, ExecutorId::new("e2".to_string())),
    ];
    assert!(s.apply(Command::CommitAssignments { plan, cause_id: 1 }, 3).is_ok());
    let done = Command::CompleteTask { task_id: 1, outcome: TaskOutcome::Success, outputs: vec![] };
    assert!(s.apply(done, 4).is_ok());
    s
}

#[test]
fn executor_receives_its_pending_tasks() {
    let s = state();
    assert_eq!(tasks_for_executor(&s, &"e1".to_string()), vec![0]);
    assert_eq!(tasks_for_executor(&s, &"e2".to_string()), vec![2]);
    assert!(tasks_for_executor(&s, &"e3".to_string()).is_empty());
}

#[test]
fn heartbeat_ack_lists_cancelled_tasks() {
    let s = state();
    assert_eq!(cancelled_tasks(&s, &"e1".to_string(), &vec![0, 1, 2, 9]), vec![1, 2, 9]);
    assert!(cancelled_tasks(&s, &"e2".to_string(), &vec![2]).is_empty());
}

#[test]
fn outcome_reports_are_checked() {
    let s = state();
    let e1 = "e1".to_string();
    assert!(check_task_outcome(&s, &e1, 0).is_ok());
    assert!(matches!(check_task_outcome(&s, &e1, 1), Err(ProtocolViolation::DuplicateOutcome)));
    assert!(matches!(check_task_outcome(&s, &e1, 2), Err(ProtocolViolation::NotAssigned)));
    assert!(matches!(check_task_outcome(&s, &e1, 7), Err(ProtocolViolation::UnknownTask)));
}

#[test]
fn silent_executors_are_removed() {
    let s = state();
    let cfg = LivenessConfig::default_config();
    assert_eq!(executors_to_remove(&s, &cfg, 60), Vec::<String>::new());
    assert_eq!(executors_to_remove(&s, &cfg, 77), vec!["e1".to_string()]);
    assert_eq!(executors_to_remove(&s, &cfg, 200), vec!["e1".to_string(), "e2".to_string()]);
}

#[test]
fn pruning_keeps_unprocessed_unread_and_retained_changes() {
    let s = state();
    // changes: 0 ContentCreated (processed), 1 ExecutorAdded (processed),
    // 2 ExecutorAdded, 3 TasksCreated, 4 TaskCompleted
    assert_eq!(s.changes().len(), 5);
    assert_eq!(prune_point(&s, &vec![], 0), 2);
    assert_eq!(prune_point(&s, &vec![1], 0), 1);
    assert_eq!(prune_point(&s, &vec![5, 9], 4), 1);
    assert_eq!(prune_point(&s, &vec![], 10), 0);
}
