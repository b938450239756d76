use indexify_core::model::{Content, DataPayload, ExecutorId, ExecutorMetadata, TaskOutcome};
use indexify_core::state::{ChangeKind, Command, LogEntry, State, StateError};
use indexify_core::test_objects::{mock_executor, mock_graph_a, mock_graph_b, TEST_NAMESPACE};

fn content(id: u64, ns: &str) -> Content {
    Content {
        id,
        namespace: ns.to_string(),
        compute_graph_name: "graph_A".to_string(),
        parent_id: None,
        root_id: None,
        payload: DataPayload { path: "p".to_string(), size: 1, sha256_hash: "h".to_string() },
        mime: Some("text/plain".to_string()),
        source_fn: None,
        created_at: 0,
    }
}

fn log() -> Vec<LogEntry> {
    vec![
        LogEntry { command: Command::CreateNamespace { name: TEST_NAMESPACE.to_string() }, at: 1 },
        LogEntry { command: Command::CreateGraph { graph: mock_graph_a() }, at: 2 },
        LogEntry { command: Command::IngestContent { content: content(7, TEST_NAMESPACE) }, at: 3 },
        LogEntry {
            command: Command::InvokeGraph {
                namespace: TEST_NAMESPACE.to_string(),
                graph_name: "graph_A".to_string(),
                content_id: 7,
            },
            at: 4,
        },
        LogEntry { command: Command::RegisterExecutor { executor: mock_executor() }, at: 5 },
    ]
}

fn summary(s: &State) -> (usize, usize, usize, usize, usize, u64) {
    (
        s.namespaces().len(),
        s.graphs().len(),
        s.contents().len(),
        s.changes().len(),
        s.executors().len(),
        s.next_content_id(),
    )
}

#[test]
fn create_namespace_twice_equals_once() {
    let mut s = State::new();
    assert!(s.apply(Command::CreateNamespace { name: "ns".to_string() }, 1).is_ok());
    let once = summary(&s);
    assert!(s.apply(Command::CreateNamespace { name: "ns".to_string() }, 2).is_ok());
    assert_eq!(summary(&s), once);
    assert_eq!(s.namespaces(), &vec!["ns".to_string()]);
}

#[test]
fn graph_needs_its_namespace() {
    let mut s = State::new();
    let r = s.apply(Command::CreateGraph { graph: mock_graph_a() }, 1);
    assert!(matches!(r, Err(StateError::NamespaceMissing)));
    assert!(s.graphs().is_empty());
}

#[test]
fn invalid_graph_is_rejected() {
    let mut s = State::new();
    assert!(s.apply(Command::CreateNamespace { name: TEST_NAMESPACE.to_string() }, 1).is_ok());
    let mut g = mock_graph_a();
    g.edges[0].1.push("fn_a".to_string());
    let r = s.apply(Command::CreateGraph { graph: g }, 2);
    assert!(matches!(r, Err(StateError::InvalidGraph(_))));
}

#[test]
fn duplicate_graph_is_rejected() {
    let mut s = State::new();
    assert!(s.apply(Command::CreateNamespace { name: TEST_NAMESPACE.to_string() }, 1).is_ok());
    assert!(s.apply(Command::CreateGraph { graph: mock_graph_a() }, 2).is_ok());
    let r = s.apply(Command::CreateGraph { graph: mock_graph_a() }, 3);
    assert!(matches!(r, Err(StateError::GraphExists)));
    assert!(s.apply(Command::CreateGraph { graph: mock_graph_b() }, 3).is_ok());
}

#[test]
fn tombstoning_a_missing_graph_is_rejected() {
    let mut s = State::new();
    let r = s.apply(
        Command::TombstoneGraph { namespace: "ns".to_string(), name: "g".to_string() },
        1,
    );
    assert!(matches!(r, Err(StateError::GraphMissing)));
}

#[test]
fn ingest_rejects_collision_and_missing_namespace() {
    let mut s = State::new();
    let r = s.apply(Command::IngestContent { content: content(1, "ns") }, 1);
    assert!(matches!(r, Err(StateError::NamespaceMissing)));
    assert!(s.apply(Command::CreateNamespace { name: "ns".to_string() }, 1).is_ok());
    assert!(s.apply(Command::IngestContent { content: content(1, "ns") }, 2).is_ok());
    let r = s.apply(Command::IngestContent { content: content(1, "ns") }, 3);
    assert!(matches!(r, Err(StateError::ContentIdCollision)));
    assert_eq!(s.contents().len(), 1);
    assert_eq!(s.next_content_id(), 2);
    assert!(matches!(s.changes()[0].kind, ChangeKind::ContentCreated { content_id: 1 }));
    let r = s.apply(Command::IngestContent { content: content(u64::MAX, "ns") }, 3);
    assert!(matches!(r, Err(StateError::IdSpaceExhausted)));
}

#[test]
fn invoking_a_missing_graph_is_rejected() {
    let mut s = State::new();
    let r = s.apply(
        Command::InvokeGraph { namespace: "ns".to_string(), graph_name: "g".to_string(), content_id: 1 },
        1,
    );
    assert!(matches!(r, Err(StateError::GraphMissing)));
    assert!(s.changes().is_empty());
}

#[test]
fn create_tasks_checks_cause_and_inputs() {
    let mut s = State::new();
    let r = s.apply(Command::CreateTasks { tasks: vec![], cause_id: 0, issues: vec![] }, 1);
    assert!(matches!(r, Err(StateError::UnknownChange)));
    s.apply_log(log());
    let t = indexify_core::model::Task {
        id: 99,
        namespace: TEST_NAMESPACE.to_string(),
        compute_graph_name: "graph_A".to_string(),
        compute_fn_name: "fn_a".to_string(),
        input_content_id: 8,
        created_at: 0,
        outcome: TaskOutcome::Success,
        assigned_executor: None,
        attempt: 0,
    };
    let r = s.apply(Command::CreateTasks { tasks: vec![t], cause_id: 1, issues: vec![] }, 6);
    assert!(matches!(r, Err(StateError::ContentMissing)));
    let mut t = indexify_core::model::Task {
        id: 99,
        namespace: TEST_NAMESPACE.to_string(),
        compute_graph_name: "graph_A".to_string(),
        compute_fn_name: "fn_a".to_string(),
        input_content_id: 7,
        created_at: 0,
        outcome: TaskOutcome::Success,
        assigned_executor: Some(ExecutorId::new("x".to_string())),
        attempt: 0,
    };
    t.attempt = 2;
    assert!(s.apply(Command::CreateTasks { tasks: vec![t], cause_id: 1, issues: vec![] }, 6).is_ok());
    let stored = &s.tasks()[0];
    assert_eq!(stored.id, 0);
    assert_eq!(stored.created_at, 6);
    assert_eq!(stored.outcome, TaskOutcome::Unknown);
    assert!(stored.assigned_executor.is_none());
    assert_eq!(stored.attempt, 2);
    assert_eq!(s.changes()[1].processed_at, Some(6));
    assert_eq!((s.changes()[1].first_task, s.changes()[1].task_count), (0, 1));
    let r = s.apply(Command::CreateTasks { tasks: vec![], cause_id: 1, issues: vec![] }, 7);
    assert!(matches!(r, Err(StateError::ChangeAlreadyProcessed)));
}

#[test]
fn complete_task_rules() {
    let mut s = State::new();
    let r = s.apply(Command::CompleteTask { task_id: 0, outcome: TaskOutcome::Success, outputs: vec![] }, 1);
    assert!(matches!(r, Err(StateError::UnknownTask)));
    s.apply_log(log());
    let t = indexify_core::model::Task {
        id: 0,
        namespace: TEST_NAMESPACE.to_string(),
        compute_graph_name: "graph_A".to_string(),
        compute_fn_name: "fn_a".to_string(),
        input_content_id: 7,
        created_at: 0,
        outcome: TaskOutcome::Unknown,
        assigned_executor: None,
        attempt: 0,
    };
    assert!(s.apply(Command::CreateTasks { tasks: vec![t], cause_id: 1, issues: vec![] }, 6).is_ok());
    let r = s.apply(Command::CompleteTask { task_id: 0, outcome: TaskOutcome::Unknown, outputs: vec![] }, 7);
    assert!(matches!(r, Err(StateError::OutcomeNotTerminal)));
    assert!(s.apply(Command::CompleteTask { task_id: 0, outcome: TaskOutcome::Failed, outputs: vec![] }, 7).is_ok());
    let r = s.apply(Command::CompleteTask { task_id: 0, outcome: TaskOutcome::Success, outputs: vec![] }, 8);
    assert!(matches!(r, Err(StateError::TaskTerminal)));
}

#[test]
fn heartbeat_and_removal() {
    let mut s = State::new();
    let r = s.apply(Command::Heartbeat { executor_id: "test_executor_1".to_string(), ts: 4 }, 4);
    assert!(matches!(r, Err(StateError::UnknownExecutor)));
    assert!(s.apply(Command::RegisterExecutor { executor: mock_executor() }, 1).is_ok());
    assert!(s.apply(Command::RegisterExecutor { executor: mock_executor() }, 2).is_ok());
    assert_eq!(s.executors().len(), 1);
    assert_eq!(s.executors()[0].last_heartbeat_ts, 2);
    assert!(s.apply(Command::Heartbeat { executor_id: "test_executor_1".to_string(), ts: 9 }, 9).is_ok());
    assert_eq!(s.executors()[0].last_heartbeat_ts, 9);
    assert!(s.apply(Command::RemoveExecutor { executor_id: "test_executor_1".to_string() }, 10).is_ok());
    assert!(s.executors().is_empty());
    assert!(matches!(s.changes()[2].kind, ChangeKind::ExecutorRemoved { .. }));
}

#[test]
fn commit_rejects_unknown_task_or_executor() {
    let mut s = State::new();
    s.apply_log(log());
    let r = s.apply(
        Command::CommitAssignments { plan: vec![(5, ExecutorId::new("test_executor_1".to_string()))], cause_id: 0 },
        6,
    );
    assert!(matches!(r, Err(StateError::UnknownTask)));
    let t = indexify_core::model::Task {
        id: 0,
        namespace: TEST_NAMESPACE.to_string(),
        compute_graph_name: "graph_A".to_string(),
        compute_fn_name: "fn_a".to_string(),
        input_content_id: 7,
        created_at: 0,
        outcome: TaskOutcome::Unknown,
        assigned_executor: None,
        attempt: 0,
    };
    assert!(s.apply(Command::CreateTasks { tasks: vec![t], cause_id: 1, issues: vec![] }, 6).is_ok());
    let r = s.apply(
        Command::CommitAssignments { plan: vec![(0, ExecutorId::new("nobody".to_string()))], cause_id: 0 },
        6,
    );
    assert!(matches!(r, Err(StateError::UnknownExecutor)));
    assert_eq!(s.unassigned_tasks(), vec![0]);
    let exec = ExecutorMetadata {
        id: ExecutorId::new("e9".to_string()),
        runner_name: String::new(),
        addr: String::new(),
        labels: vec![],
    };
    assert!(s.apply(Command::RegisterExecutor { executor: exec }, 7).is_ok());
    assert_eq!(s.unassigned_tasks(), vec![0]);
    assert!(s
        .apply(Command::CommitAssignments { plan: vec![(0, ExecutorId::new("e9".to_string()))], cause_id: 0 }, 8)
        .is_ok());
    assert!(s.unassigned_tasks().is_empty());
}

#[test]
fn recovering_from_the_log_matches_live_application() {
    let mut live = State::new();
    for e in log() {
        let _ = live.apply(e.command, e.at);
    }
    let recovered = State::recover(log());
    assert_eq!(summary(&recovered), summary(&live));
    let mut split = State::recover(log().into_iter().take(2).collect());
    split.apply_log(log().into_iter().skip(2).collect());
    assert_eq!(summary(&split), summary(&live));
}

#[test]
fn same_commands_give_same_state() {
    let a = State::recover(log());
    let b = State::recover(log());
    assert_eq!(summary(&a), summary(&b));
    assert_eq!(a.changes().len(), 3);
}
