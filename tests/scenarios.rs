use indexify_core::allocator::TaskAllocator;
use indexify_core::model::{
    Content, ComputeGraph, DataPayload, ExecutorId, ExecutorMetadata, NodeOutput, OutputPayload,
    RouterOutput, Task, TaskOutcome,
};
use indexify_core::scheduler::Scheduler;
use indexify_core::state::{ChangeKind, Command, DerivationIssue, State};
use indexify_core::test_objects::{
    mock_graph_a, mock_graph_b, mock_node_fn_output_fn_a, mock_node_router_output_x,
    TEST_NAMESPACE,
};

fn scheduler_with(graph: ComputeGraph, max_concurrent: u64) -> Scheduler {
    let mut s = Scheduler::new(State::new(), TaskAllocator::new(max_concurrent));
    assert!(s
        .submit(Command::CreateNamespace { name: TEST_NAMESPACE.to_string() }, 1)
        .is_ok());
    assert!(s.submit(Command::CreateGraph { graph }, 1).is_ok());
    s
}

fn drain(s: &mut Scheduler, at: u64) {
    for _ in 0..10 {
        s.run_pending(at);
    }
    assert!(s.shared_state.changes().iter().all(|c| c.processed_at.is_some()));
}

fn ingest_and_invoke(s: &mut Scheduler, id: u64, graph: &str, at: u64) {
    let content = Content {
        id,
        namespace: TEST_NAMESPACE.to_string(),
        compute_graph_name: graph.to_string(),
        parent_id: None,
        root_id: None,
        payload: DataPayload { path: "blob".to_string(), size: 3, sha256_hash: "h".to_string() },
        mime: None,
        source_fn: None,
        created_at: at,
    };
    assert!(s.submit(Command::IngestContent { content }, at).is_ok());
    let invoke = Command::InvokeGraph {
        namespace: TEST_NAMESPACE.to_string(),
        graph_name: graph.to_string(),
        content_id: id,
    };
    assert!(s.submit(invoke, at).is_ok());
}

fn complete(s: &mut Scheduler, task_id: u64, outputs: Vec<NodeOutput>, at: u64) {
    let cmd = Command::CompleteTask { task_id, outcome: TaskOutcome::Success, outputs };
    assert!(s.submit(cmd, at).is_ok());
}

fn register(s: &mut Scheduler, id: &str, labels: &[&str], at: u64) {
    let executor = ExecutorMetadata {
        id: ExecutorId::new(id.to_string()),
        runner_name: "runner".to_string(),
        addr: String::new(),
        labels: labels.iter().map(|l| l.to_string()).collect(),
    };
    assert!(s.submit(Command::RegisterExecutor { executor }, at).is_ok());
}

fn tasks(s: &Scheduler) -> Vec<(String, u64)> {
    s.shared_state
        .tasks()
        .iter()
        .map(|t| (t.compute_fn_name.clone(), t.input_content_id))
        .collect()
}

fn holder(t: &Task) -> Option<String> {
    t.assigned_executor.as_ref().map(|e| e.0.clone())
}

#[test]
fn linear_graph_creates_three_tasks() {
    let mut s = scheduler_with(mock_graph_a(), 32);
    ingest_and_invoke(&mut s, 100, "graph_A", 2);
    drain(&mut s, 2);
    assert_eq!(tasks(&s), vec![("fn_a".to_string(), 100)]);
    complete(&mut s, 0, vec![mock_node_fn_output_fn_a("inv", "graph_A")], 3);
    drain(&mut s, 3);
    let c1 = s.shared_state.contents()[1].id;
    assert_eq!(s.shared_state.contents()[1].parent_id, Some(100));
    assert_eq!(s.shared_state.contents()[1].root_id, Some(100));
    assert_eq!(
        tasks(&s),
        vec![("fn_a".to_string(), 100), ("fn_b".to_string(), c1), ("fn_c".to_string(), c1)]
    );
    complete(&mut s, 1, vec![], 4);
    complete(&mut s, 2, vec![], 4);
    drain(&mut s, 4);
    assert_eq!(s.shared_state.tasks().len(), 3);
    assert!(s.shared_state.issues().is_empty());
}

#[test]
fn dynamic_routing_follows_router_output() {
    let mut s = scheduler_with(mock_graph_b(), 32);
    ingest_and_invoke(&mut s, 100, "graph_B", 2);
    drain(&mut s, 2);
    let outputs = vec![
        mock_node_fn_output_fn_a("inv", "graph_B"),
        mock_node_router_output_x("inv", "graph_B"),
    ];
    complete(&mut s, 0, outputs, 3);
    drain(&mut s, 3);
    let c1 = s.shared_state.contents()[1].id;
    assert_eq!(tasks(&s), vec![("fn_a".to_string(), 100), ("fn_c".to_string(), c1)]);
    assert_eq!(s.shared_state.tasks().len(), 2);
}

#[test]
fn undeclared_router_target_is_dropped() {
    let mut s = scheduler_with(mock_graph_b(), 32);
    ingest_and_invoke(&mut s, 100, "graph_B", 2);
    drain(&mut s, 2);
    let router = NodeOutput {
        namespace: TEST_NAMESPACE.to_string(),
        compute_graph_name: "graph_B".to_string(),
        compute_fn_name: "router_x".to_string(),
        invocation_id: "inv".to_string(),
        payload: OutputPayload::Router(RouterOutput { edges: vec!["fn_d".to_string()] }),
    };
    complete(&mut s, 0, vec![mock_node_fn_output_fn_a("inv", "graph_B"), router], 3);
    drain(&mut s, 3);
    assert_eq!(s.shared_state.tasks().len(), 1);
    let issues = s.shared_state.issues();
    assert_eq!(issues.len(), 1);
    match &issues[0].issue {
        DerivationIssue::UndeclaredRouterTarget { name } => assert_eq!(name, "fn_d"),
        _ => panic!("expected an undeclared router target"),
    }
}

#[test]
fn router_with_empty_edges_creates_no_children() {
    let mut s = scheduler_with(mock_graph_b(), 32);
    ingest_and_invoke(&mut s, 100, "graph_B", 2);
    drain(&mut s, 2);
    let router = NodeOutput {
        namespace: TEST_NAMESPACE.to_string(),
        compute_graph_name: "graph_B".to_string(),
        compute_fn_name: "router_x".to_string(),
        invocation_id: "inv".to_string(),
        payload: OutputPayload::Router(RouterOutput { edges: vec![] }),
    };
    complete(&mut s, 0, vec![mock_node_fn_output_fn_a("inv", "graph_B"), router], 3);
    drain(&mut s, 3);
    assert_eq!(s.shared_state.tasks().len(), 1);
    assert!(s.shared_state.issues().is_empty());
}

#[test]
fn start_only_graph_runs_one_task() {
    let mut g = mock_graph_a();
    g.edges.clear();
    let mut s = scheduler_with(g, 32);
    ingest_and_invoke(&mut s, 100, "graph_A", 2);
    drain(&mut s, 2);
    assert_eq!(s.shared_state.tasks().len(), 1);
    complete(&mut s, 0, vec![mock_node_fn_output_fn_a("inv", "graph_A")], 3);
    drain(&mut s, 3);
    assert_eq!(s.shared_state.tasks().len(), 1);
    assert_eq!(s.shared_state.contents().len(), 2);
}

#[test]
fn failed_task_creates_no_children() {
    let mut s = scheduler_with(mock_graph_a(), 32);
    ingest_and_invoke(&mut s, 100, "graph_A", 2);
    drain(&mut s, 2);
    let cmd = Command::CompleteTask {
        task_id: 0,
        outcome: TaskOutcome::Failed,
        outputs: vec![mock_node_fn_output_fn_a("inv", "graph_A")],
    };
    assert!(s.submit(cmd, 3).is_ok());
    drain(&mut s, 3);
    assert_eq!(s.shared_state.tasks().len(), 1);
    assert_eq!(s.shared_state.tasks()[0].outcome, TaskOutcome::Failed);
}

#[test]
fn invoking_a_tombstoned_graph_is_rejected() {
    let mut s = scheduler_with(mock_graph_a(), 32);
    let tomb = Command::TombstoneGraph {
        namespace: TEST_NAMESPACE.to_string(),
        name: "graph_A".to_string(),
    };
    assert!(s.submit(tomb, 2).is_ok());
    let invoke = Command::InvokeGraph {
        namespace: TEST_NAMESPACE.to_string(),
        graph_name: "graph_A".to_string(),
        content_id: 1,
    };
    assert!(matches!(
        s.submit(invoke, 2),
        Err(indexify_core::state::StateError::GraphTombstoned)
    ));
}

#[test]
fn tombstoned_graph_lets_tasks_finish_without_children() {
    let mut s = scheduler_with(mock_graph_a(), 32);
    ingest_and_invoke(&mut s, 100, "graph_A", 2);
    drain(&mut s, 2);
    let tomb = Command::TombstoneGraph {
        namespace: TEST_NAMESPACE.to_string(),
        name: "graph_A".to_string(),
    };
    assert!(s.submit(tomb, 3).is_ok());
    complete(&mut s, 0, vec![mock_node_fn_output_fn_a("inv", "graph_A")], 3);
    drain(&mut s, 3);
    assert_eq!(s.shared_state.tasks().len(), 1);
    assert!(matches!(s.shared_state.issues()[0].issue, DerivationIssue::GraphTombstoned));
}

#[test]
fn executor_loss_moves_task_to_the_other_executor() {
    let mut s = scheduler_with(mock_graph_a(), 1);
    register(&mut s, "e1", &[], 2);
    register(&mut s, "e2", &[], 2);
    ingest_and_invoke(&mut s, 100, "graph_A", 2);
    ingest_and_invoke(&mut s, 101, "graph_A", 2);
    drain(&mut s, 3);
    let holders: Vec<Option<String>> = s.shared_state.tasks().iter().map(holder).collect();
    assert_eq!(holders, vec![Some("e1".to_string()), Some("e2".to_string())]);
    let remove = Command::RemoveExecutor { executor_id: "e1".to_string() };
    assert!(s.submit(remove, 4).is_ok());
    assert_eq!(s.shared_state.unassigned_tasks(), vec![0]);
    let mut s2 = s;
    s2.task_allocator = TaskAllocator::new(2);
    drain(&mut s2, 4);
    let holders: Vec<Option<String>> = s2.shared_state.tasks().iter().map(holder).collect();
    assert_eq!(holders, vec![Some("e2".to_string()), Some("e2".to_string())]);
    assert_eq!(s2.shared_state.tasks().len(), 2);
}

#[test]
fn executor_loss_with_full_survivor_leaves_task_unassigned() {
    let mut s = scheduler_with(mock_graph_a(), 1);
    register(&mut s, "e1", &[], 2);
    register(&mut s, "e2", &[], 2);
    ingest_and_invoke(&mut s, 100, "graph_A", 2);
    ingest_and_invoke(&mut s, 101, "graph_A", 2);
    drain(&mut s, 3);
    let remove = Command::RemoveExecutor { executor_id: "e1".to_string() };
    assert!(s.submit(remove, 4).is_ok());
    drain(&mut s, 4);
    assert_eq!(s.shared_state.unassigned_tasks(), vec![0]);
    register(&mut s, "e3", &[], 5);
    drain(&mut s, 5);
    assert_eq!(holder(&s.shared_state.tasks()[0]), Some("e3".to_string()));
    assert!(s.shared_state.unassigned_tasks().is_empty());
}

#[test]
fn placement_constraint_selects_labelled_executor() {
    let mut g = mock_graph_a();
    if let indexify_core::model::Node::Compute(f) = &mut g.nodes[2] {
        f.placement_constraints = vec!["gpu".to_string()];
    }
    let mut s = scheduler_with(g, 32);
    register(&mut s, "e1", &[], 2);
    register(&mut s, "e2", &["gpu"], 2);
    for id in 100..104 {
        ingest_and_invoke(&mut s, id, "graph_A", 2);
    }
    drain(&mut s, 3);
    assert!(s
        .shared_state
        .tasks()
        .iter()
        .all(|t| holder(t) == Some("e2".to_string())));
    let remove = Command::RemoveExecutor { executor_id: "e2".to_string() };
    assert!(s.submit(remove, 4).is_ok());
    drain(&mut s, 4);
    assert_eq!(s.shared_state.unassigned_tasks(), vec![0, 1, 2, 3]);
    register(&mut s, "e3", &["gpu", "ssd"], 5);
    drain(&mut s, 5);
    assert!(s
        .shared_state
        .tasks()
        .iter()
        .all(|t| holder(t) == Some("e3".to_string())));
}

#[test]
fn lost_executor_gets_no_tasks() {
    let mut s = scheduler_with(mock_graph_a(), 32);
    register(&mut s, "e1", &[], 2);
    register(&mut s, "e2", &[], 100);
    ingest_and_invoke(&mut s, 100, "graph_A", 100);
    drain(&mut s, 100);
    assert_eq!(holder(&s.shared_state.tasks()[0]), Some("e2".to_string()));
}

#[test]
fn derived_content_points_to_its_tree() {
    let mut s = scheduler_with(mock_graph_a(), 32);
    ingest_and_invoke(&mut s, 100, "graph_A", 2);
    drain(&mut s, 2);
    complete(&mut s, 0, vec![mock_node_fn_output_fn_a("inv", "graph_A")], 3);
    drain(&mut s, 3);
    let c1 = s.shared_state.contents()[1].id;
    complete(&mut s, 1, vec![mock_node_fn_output_fn_a("inv", "graph_A")], 4);
    drain(&mut s, 4);
    let c2 = &s.shared_state.contents()[2];
    assert_eq!(c2.parent_id, Some(c1));
    assert_eq!(c2.root_id, Some(100));
    assert_eq!(c2.source_fn, Some("fn_b".to_string()));
    match &s.shared_state.changes()[s.shared_state.changes().len() - 1].kind {
        ChangeKind::TaskCompleted { .. } | ChangeKind::TasksCreated { .. } => {}
        _ => panic!("unexpected last change"),
    }
}

#[test]
fn task_of_unknown_function_reports_missing_node() {
    let mut s = scheduler_with(mock_graph_a(), 32);
    ingest_and_invoke(&mut s, 100, "graph_A", 2);
    drain(&mut s, 2);
    let t = Task {
        id: 0,
        namespace: TEST_NAMESPACE.to_string(),
        compute_graph_name: "graph_A".to_string(),
        compute_fn_name: "fn_z".to_string(),
        input_content_id: 100,
        created_at: 0,
        outcome: TaskOutcome::Unknown,
        assigned_executor: None,
        attempt: 0,
    };
    let created = Command::CreateTasks { tasks: vec![t], cause_id: 0, issues: vec![] };
    assert!(s.submit(created, 3).is_err());
    let invoke = Command::InvokeGraph {
        namespace: TEST_NAMESPACE.to_string(),
        graph_name: "graph_A".to_string(),
        content_id: 100,
    };
    assert!(s.submit(invoke, 3).is_ok());
    let cause = (s.shared_state.changes().len() - 1) as u64;
    let t = Task {
        id: 0,
        namespace: TEST_NAMESPACE.to_string(),
        compute_graph_name: "graph_A".to_string(),
        compute_fn_name: "fn_z".to_string(),
        input_content_id: 100,
        created_at: 0,
        outcome: TaskOutcome::Unknown,
        assigned_executor: None,
        attempt: 0,
    };
    assert!(s.submit(Command::CreateTasks { tasks: vec![t], cause_id: cause, issues: vec![] }, 3).is_ok());
    complete(&mut s, 1, vec![mock_node_fn_output_fn_a("inv", "graph_A")], 4);
    drain(&mut s, 4);
    let last = s.shared_state.issues().last().unwrap();
    match &last.issue {
        DerivationIssue::NodeMissing { name } => assert_eq!(name, "fn_z"),
        _ => panic!("expected a missing node"),
    }
}

#[test]
fn router_target_that_is_a_router_is_dropped() {
    let mut g = mock_graph_b();
    if let indexify_core::model::Node::Router(r) = &mut g.nodes[2] {
        r.target_functions.push("router_y".to_string());
    }
    g.nodes.push(indexify_core::model::Node::Router(indexify_core::model::DynamicEdgeRouter {
        name: "router_y".to_string(),
        source_fn: "router_x".to_string(),
        target_functions: vec!["fn_b".to_string()],
        description: String::new(),
    }));
    let mut s = scheduler_with(g, 32);
    ingest_and_invoke(&mut s, 100, "graph_B", 2);
    drain(&mut s, 2);
    let router = NodeOutput {
        namespace: TEST_NAMESPACE.to_string(),
        compute_graph_name: "graph_B".to_string(),
        compute_fn_name: "router_x".to_string(),
        invocation_id: "inv".to_string(),
        payload: OutputPayload::Router(RouterOutput {
            edges: vec!["router_y".to_string(), "fn_b".to_string()],
        }),
    };
    complete(&mut s, 0, vec![mock_node_fn_output_fn_a("inv", "graph_B"), router], 3);
    drain(&mut s, 3);
    let c1 = s.shared_state.contents()[1].id;
    assert_eq!(tasks(&s), vec![("fn_a".to_string(), 100), ("fn_b".to_string(), c1)]);
    match &s.shared_state.issues()[0].issue {
        DerivationIssue::NotAComputeFn { name } => assert_eq!(name, "router_y"),
        _ => panic!("expected a router target that is not a compute function"),
    }
}
