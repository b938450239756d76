//! The authoritative state machine. Every mutation is a `Command`, applied
//! in log order; a command is either applied whole or rejected with no
//! effect. `step` states what applying a command does to the model.
use vstd::prelude::*;
use crate::allocator::{ExecutorLoad, SlotView};
use crate::graph::{graph_check, opt_int, validate_graph, GraphError};
use crate::liveness::{status_at, ExecutorStatus, LivenessConfig};
use crate::model::{
    Content, ComputeGraph, ExecutorId, ExecutorMetadata, NodeOutput, OutputPayload, Task,
    TaskOutcome,
};

verus! {

pub enum ChangeKind {
    ContentCreated { content_id: u64 },
    InvokeComputeGraph { namespace: String, graph_name: String, content_id: u64 },
    /// The content a task produced has the ids `first_content ..
    /// first_content + content_count`; `routes` holds the edges of its first
    /// router output, if it had one.
    TaskCompleted {
        task_id: u64,
        first_content: u64,
        content_count: u64,
        routes: Option<Vec<String>>,
    },
    ExecutorAdded { executor_id: String },
    ExecutorRemoved { executor_id: String },
    /// Tasks `first_task .. first_task + task_count` were created and await
    /// placement.
    TasksCreated { first_task: u64, task_count: u64 },
}

/// An event of the change log. Once handled, `processed_at` is set and the
/// tasks created for it have the ids `first_task .. first_task + task_count`.
pub struct StateChange {
    pub id: u64,
    pub kind: ChangeKind,
    pub created_at: u64,
    pub processed_at: Option<u64>,
    pub first_task: u64,
    pub task_count: u64,
}

/// Why handling a change produced less than its graph describes.
pub enum DerivationIssue {
    GraphMissing,
    GraphTombstoned,
    NodeMissing { name: String },
    UndeclaredRouterTarget { name: String },
    NotAComputeFn { name: String },
}

pub struct IssueRecord {
    pub change_id: u64,
    pub issue: DerivationIssue,
}

pub struct RegisteredExecutor {
    pub metadata: ExecutorMetadata,
    pub last_heartbeat_ts: u64,
}

pub enum Command {
    CreateNamespace { name: String },
    CreateGraph { graph: ComputeGraph },
    TombstoneGraph { namespace: String, name: String },
    IngestContent { content: Content },
    InvokeGraph { namespace: String, graph_name: String, content_id: u64 },
    /// Inserts the tasks, which the state numbers, and marks `cause_id`
    /// processed.
    CreateTasks { tasks: Vec<Task>, cause_id: u64, issues: Vec<DerivationIssue> },
    CommitAssignments { plan: Vec<(u64, ExecutorId)>, cause_id: u64 },
    MarkProcessed { cause_id: u64, issues: Vec<DerivationIssue> },
    CompleteTask { task_id: u64, outcome: TaskOutcome, outputs: Vec<NodeOutput> },
    RegisterExecutor { executor: ExecutorMetadata },
    Heartbeat { executor_id: String, ts: u64 },
    RemoveExecutor { executor_id: String },
}

pub enum StateError {
    NamespaceMissing,
    InvalidGraph(GraphError),
    GraphExists,
    GraphMissing,
    GraphTombstoned,
    ContentIdCollision,
    ContentMissing,
    UnknownChange,
    ChangeAlreadyProcessed,
    UnknownTask,
    UnknownExecutor,
    TaskTerminal,
    OutcomeNotTerminal,
    IdSpaceExhausted,
}

pub ghost struct StateModel {
    pub namespaces: Seq<String>,
    pub graphs: Seq<ComputeGraph>,
    pub contents: Seq<Content>,
    pub tasks: Seq<Task>,
    pub executors: Seq<RegisteredExecutor>,
    pub changes: Seq<StateChange>,
    pub issues: Seq<IssueRecord>,
    pub next_content_id: u64,
}

/// The graph as stored when created: not tombstoned.
pub open spec fn live(g: ComputeGraph) -> ComputeGraph {
    ComputeGraph { tomb_stoned: false, ..g }
}

pub open spec fn has_namespace(s: StateModel, n: Seq<char>) -> bool {
    exists|i: int| 0 <= i < s.namespaces.len() && #[trigger] s.namespaces[i]@ == n
}

pub open spec fn graph_is(g: ComputeGraph, ns: Seq<char>, name: Seq<char>) -> bool {
    g.namespace@ == ns && g.name@ == name
}

/// `i` is the first graph stored under `ns` / `name`.
pub open spec fn first_graph(gs: Seq<ComputeGraph>, ns: Seq<char>, name: Seq<char>, i: int) -> bool {
    0 <= i < gs.len() && graph_is(gs[i], ns, name) && forall|j: int|
        0 <= j < i ==> !graph_is(#[trigger] gs[j], ns, name)
}

pub open spec fn find_graph(gs: Seq<ComputeGraph>, ns: Seq<char>, name: Seq<char>) -> Option<int> {
    if exists|i: int| first_graph(gs, ns, name, i) {
        Some(choose|i: int| first_graph(gs, ns, name, i))
    } else {
        None
    }
}

pub open spec fn executor_is(e: RegisteredExecutor, id: Seq<char>) -> bool {
    e.metadata.id.0@ == id
}

pub open spec fn first_executor(es: Seq<RegisteredExecutor>, id: Seq<char>, i: int) -> bool {
    0 <= i < es.len() && executor_is(es[i], id) && forall|j: int|
        0 <= j < i ==> !executor_is(#[trigger] es[j], id)
}

pub open spec fn find_executor(es: Seq<RegisteredExecutor>, id: Seq<char>) -> Option<int> {
    if exists|i: int| first_executor(es, id, i) {
        Some(choose|i: int| first_executor(es, id, i))
    } else {
        None
    }
}

pub open spec fn has_content(cs: Seq<Content>, id: u64) -> bool {
    exists|i: int| 0 <= i < cs.len() && #[trigger] cs[i].id == id
}

/// Content `id` exists in the namespace and graph of a task.
pub open spec fn content_for(cs: Seq<Content>, id: u64, ns: Seq<char>, graph: Seq<char>) -> bool {
    exists|i: int|
        0 <= i < cs.len() && #[trigger] cs[i].id == id && cs[i].namespace@ == ns
            && cs[i].compute_graph_name@ == graph
}

pub open spec fn inputs_exist(cs: Seq<Content>, ts: Seq<Task>) -> bool {
    forall|k: int|
        0 <= k < ts.len() ==> content_for(
            cs,
            #[trigger] ts[k].input_content_id,
            ts[k].namespace@,
            ts[k].compute_graph_name@,
        )
}

/// The ingested item whose tree content `id` belongs to: the root recorded
/// by the last content stored under `id`, or `id` itself.
pub open spec fn root_of(cs: Seq<Content>, id: u64) -> u64
    decreases cs.len(),
{
    if cs.len() == 0 {
        id
    } else if cs.last().id == id {
        match cs.last().root_id {
            Some(r) => r,
            None => id,
        }
    } else {
        root_of(cs.drop_last(), id)
    }
}

pub open spec fn fn_output_count(outs: Seq<NodeOutput>) -> nat
    decreases outs.len(),
{
    if outs.len() == 0 {
        0
    } else {
        fn_output_count(outs.drop_last()) + match outs.last().payload {
            OutputPayload::Fn(_) => 1nat,
            OutputPayload::Router(_) => 0nat,
        }
    }
}

/// The content records made from the data outputs of task `t`, numbered
/// from `base`.
pub open spec fn output_contents(t: Task, root: u64, outs: Seq<NodeOutput>, base: u64, at: u64) -> Seq<
    Content,
>
    decreases outs.len(),
{
    if outs.len() == 0 {
        Seq::empty()
    } else {
        let prev = output_contents(t, root, outs.drop_last(), base, at);
        match outs.last().payload {
            OutputPayload::Fn(d) => prev.push(
                Content {
                    id: (base + prev.len()) as u64,
                    namespace: t.namespace,
                    compute_graph_name: t.compute_graph_name,
                    parent_id: Some(t.input_content_id),
                    root_id: Some(root),
                    payload: d,
                    mime: None,
                    source_fn: Some(t.compute_fn_name),
                    created_at: at,
                },
            ),
            OutputPayload::Router(_) => prev,
        }
    }
}

/// The edges of the first router output.
pub open spec fn first_routes(outs: Seq<NodeOutput>) -> Option<Vec<String>>
    decreases outs.len(),
{
    if outs.len() == 0 {
        None
    } else {
        match first_routes(outs.drop_last()) {
            Some(r) => Some(r),
            None => match outs.last().payload {
                OutputPayload::Router(r) => Some(r.edges),
                OutputPayload::Fn(_) => None,
            },
        }
    }
}

pub open spec fn new_change(s: StateModel, kind: ChangeKind, at: u64) -> StateChange {
    StateChange {
        id: s.changes.len() as u64,
        kind,
        created_at: at,
        processed_at: None,
        first_task: 0,
        task_count: 0,
    }
}

pub open spec fn can_emit(s: StateModel) -> bool {
    s.changes.len() < u64::MAX
}

/// The tasks of a `CreateTasks`, as stored: numbered from the current count,
/// stamped, pending and unassigned.
pub open spec fn numbered_tasks(ts: Seq<Task>, base: int, at: u64) -> Seq<Task> {
    Seq::new(
        ts.len(),
        |k: int|
            Task {
                id: (base + k) as u64,
                created_at: at,
                outcome: TaskOutcome::Unknown,
                assigned_executor: None,
                ..ts[k]
            },
    )
}

pub open spec fn issue_records(cause: u64, issues: Seq<DerivationIssue>) -> Seq<IssueRecord> {
    Seq::new(issues.len(), |k: int| IssueRecord { change_id: cause, issue: issues[k] })
}

pub open spec fn mark_processed(
    changes: Seq<StateChange>,
    cause: u64,
    at: u64,
    first: u64,
    count: u64,
) -> Seq<StateChange> {
    changes.update(
        cause as int,
        StateChange {
            processed_at: Some(at),
            first_task: first,
            task_count: count,
            ..changes[cause as int]
        },
    )
}

/// Applies the plan's entries in order.
pub open spec fn assign_all(ts: Seq<Task>, plan: Seq<(u64, ExecutorId)>) -> Seq<Task>
    decreases plan.len(),
{
    if plan.len() == 0 {
        ts
    } else {
        let prev = assign_all(ts, plan.drop_last());
        let (t, e) = plan.last();
        prev.update(t as int, Task { assigned_executor: Some(e), ..prev[t as int] })
    }
}

pub open spec fn assigned_to(t: Task, id: Seq<char>) -> bool {
    t.outcome == TaskOutcome::Unknown && match t.assigned_executor {
        Some(e) => e.0@ == id,
        None => false,
    }
}

/// Pending tasks of executor `id` lose their assignment.
pub open spec fn unassign_all(ts: Seq<Task>, id: Seq<char>) -> Seq<Task> {
    Seq::new(
        ts.len(),
        |i: int|
            if assigned_to(ts[i], id) {
                Task { assigned_executor: None, ..ts[i] }
            } else {
                ts[i]
            },
    )
}

pub open spec fn cause_check(s: StateModel, cause: u64) -> Result<(), StateError> {
    if cause >= s.changes.len() {
        Err(StateError::UnknownChange)
    } else if s.changes[cause as int].processed_at is Some {
        Err(StateError::ChangeAlreadyProcessed)
    } else {
        Ok(())
    }
}

pub open spec fn plan_tasks_known(s: StateModel, plan: Seq<(u64, ExecutorId)>) -> bool {
    forall|k: int| 0 <= k < plan.len() ==> (#[trigger] plan[k]).0 < s.tasks.len()
}

pub open spec fn plan_executors_known(s: StateModel, plan: Seq<(u64, ExecutorId)>) -> bool {
    forall|k: int| 0 <= k < plan.len() ==> find_executor(s.executors, (#[trigger] plan[k]).1.0@) is Some
}

pub open spec fn create_tasks_result(s: StateModel, ts: Seq<Task>, cause: u64) -> Result<(), StateError> {
    if cause_check(s, cause) is Err {
        cause_check(s, cause)
    } else if !inputs_exist(s.contents, ts) {
        Err(StateError::ContentMissing)
    } else if s.tasks.len() + ts.len() > u64::MAX || (ts.len() > 0 && !can_emit(s)) {
        Err(StateError::IdSpaceExhausted)
    } else {
        Ok(())
    }
}

pub open spec fn create_tasks_effect(
    s: StateModel,
    ts: Seq<Task>,
    cause: u64,
    issues: Seq<DerivationIssue>,
    at: u64,
) -> StateModel {
    let marked = mark_processed(s.changes, cause, at, s.tasks.len() as u64, ts.len() as u64);
    StateModel {
        tasks: s.tasks + numbered_tasks(ts, s.tasks.len() as int, at),
        changes: if ts.len() > 0 {
            marked.push(
                new_change(
                    s,
                    ChangeKind::TasksCreated {
                        first_task: s.tasks.len() as u64,
                        task_count: ts.len() as u64,
                    },
                    at,
                ),
            )
        } else {
            marked
        },
        issues: s.issues + issue_records(cause, issues),
        ..s
    }
}

/// `CreateTasks` of `ts` and `issues` for change `cause`, applied.
pub open spec fn after_create(
    s: StateModel,
    ts: Seq<Task>,
    cause: u64,
    issues: Seq<DerivationIssue>,
    at: u64,
) -> StateModel {
    if create_tasks_result(s, ts, cause) is Ok {
        create_tasks_effect(s, ts, cause, issues, at)
    } else {
        s
    }
}

pub open spec fn commit_result(s: StateModel, plan: Seq<(u64, ExecutorId)>, cause: u64) -> Result<
    (),
    StateError,
> {
    if cause_check(s, cause) is Err {
        cause_check(s, cause)
    } else if !plan_tasks_known(s, plan) {
        Err(StateError::UnknownTask)
    } else if !plan_executors_known(s, plan) {
        Err(StateError::UnknownExecutor)
    } else {
        Ok(())
    }
}

pub open spec fn commit_effect(s: StateModel, plan: Seq<(u64, ExecutorId)>, cause: u64, at: u64) -> StateModel {
    StateModel {
        tasks: assign_all(s.tasks, plan),
        changes: mark_processed(s.changes, cause, at, s.tasks.len() as u64, 0),
        ..s
    }
}

/// `CommitAssignments` of `plan` for change `cause`, applied.
pub open spec fn after_commit(s: StateModel, plan: Seq<(u64, ExecutorId)>, cause: u64, at: u64) -> StateModel {
    if commit_result(s, plan, cause) is Ok {
        commit_effect(s, plan, cause, at)
    } else {
        s
    }
}

pub open spec fn mark_effect(s: StateModel, cause: u64, issues: Seq<DerivationIssue>, at: u64) -> StateModel {
    StateModel {
        changes: mark_processed(s.changes, cause, at, s.tasks.len() as u64, 0),
        issues: s.issues + issue_records(cause, issues),
        ..s
    }
}

/// `MarkProcessed` of change `cause` with `issues`, applied.
pub open spec fn after_mark(s: StateModel, cause: u64, issues: Seq<DerivationIssue>, at: u64) -> StateModel {
    if cause_check(s, cause) is Ok {
        mark_effect(s, cause, issues, at)
    } else {
        s
    }
}

/// Whether `c` is accepted on `s`, and if not, why.
pub open spec fn apply_result(s: StateModel, c: Command, at: u64) -> Result<(), StateError> {
    match c {
        Command::CreateNamespace { .. } => Ok(()),
        Command::CreateGraph { graph } => {
            if !has_namespace(s, graph.namespace@) {
                Err(StateError::NamespaceMissing)
            } else if graph_check(live(graph)) is Err {
                Err(StateError::InvalidGraph(graph_check(live(graph))->Err_0))
            } else if find_graph(s.graphs, graph.namespace@, graph.name@) is Some {
                Err(StateError::GraphExists)
            } else {
                Ok(())
            }
        },
        Command::TombstoneGraph { namespace, name } => {
            if find_graph(s.graphs, namespace@, name@) is None {
                Err(StateError::GraphMissing)
            } else {
                Ok(())
            }
        },
        Command::IngestContent { content } => {
            if !has_namespace(s, content.namespace@) {
                Err(StateError::NamespaceMissing)
            } else if has_content(s.contents, content.id) {
                Err(StateError::ContentIdCollision)
            } else if content.id == u64::MAX || !can_emit(s) {
                Err(StateError::IdSpaceExhausted)
            } else {
                Ok(())
            }
        },
        Command::InvokeGraph { namespace, graph_name, content_id } => {
            match find_graph(s.graphs, namespace@, graph_name@) {
                None => Err(StateError::GraphMissing),
                Some(i) => if s.graphs[i].tomb_stoned {
                    Err(StateError::GraphTombstoned)
                } else if !can_emit(s) {
                    Err(StateError::IdSpaceExhausted)
                } else {
                    Ok(())
                },
            }
        },
        Command::CreateTasks { tasks, cause_id, issues } => create_tasks_result(s, tasks@, cause_id),
        Command::CommitAssignments { plan, cause_id } => commit_result(s, plan@, cause_id),
        Command::MarkProcessed { cause_id, issues } => cause_check(s, cause_id),
        Command::CompleteTask { task_id, outcome, outputs } => {
            if task_id >= s.tasks.len() {
                Err(StateError::UnknownTask)
            } else if s.tasks[task_id as int].outcome != TaskOutcome::Unknown {
                Err(StateError::TaskTerminal)
            } else if outcome == TaskOutcome::Unknown {
                Err(StateError::OutcomeNotTerminal)
            } else if s.next_content_id + fn_output_count(outputs@) > u64::MAX || !can_emit(s) {
                Err(StateError::IdSpaceExhausted)
            } else {
                Ok(())
            }
        },
        Command::RegisterExecutor { .. } => if !can_emit(s) {
            Err(StateError::IdSpaceExhausted)
        } else {
            Ok(())
        },
        Command::Heartbeat { executor_id, ts } => {
            if find_executor(s.executors, executor_id@) is None {
                Err(StateError::UnknownExecutor)
            } else {
                Ok(())
            }
        },
        Command::RemoveExecutor { .. } => if !can_emit(s) {
            Err(StateError::IdSpaceExhausted)
        } else {
            Ok(())
        },
    }
}

/// What an accepted command does.
pub open spec fn effect(s: StateModel, c: Command, at: u64) -> StateModel {
    match c {
        Command::CreateNamespace { name } => if has_namespace(s, name@) {
            s
        } else {
            StateModel { namespaces: s.namespaces.push(name), ..s }
        },
        Command::CreateGraph { graph } => StateModel { graphs: s.graphs.push(live(graph)), ..s },
        Command::TombstoneGraph { namespace, name } => {
            let i = find_graph(s.graphs, namespace@, name@)->Some_0;
            StateModel {
                graphs: s.graphs.update(i, ComputeGraph { tomb_stoned: true, ..s.graphs[i] }),
                ..s
            }
        },
        Command::IngestContent { content } => StateModel {
            contents: s.contents.push(content),
            changes: s.changes.push(
                new_change(s, ChangeKind::ContentCreated { content_id: content.id }, at),
            ),
            next_content_id: if content.id < s.next_content_id {
                s.next_content_id
            } else {
                (content.id + 1) as u64
            },
            ..s
        },
        Command::InvokeGraph { namespace, graph_name, content_id } => StateModel {
            changes: s.changes.push(
                new_change(
                    s,
                    ChangeKind::InvokeComputeGraph { namespace, graph_name, content_id },
                    at,
                ),
            ),
            ..s
        },
        Command::CreateTasks { tasks, cause_id, issues } => create_tasks_effect(
            s,
            tasks@,
            cause_id,
            issues@,
            at,
        ),
        Command::CommitAssignments { plan, cause_id } => commit_effect(s, plan@, cause_id, at),
        Command::MarkProcessed { cause_id, issues } => mark_effect(s, cause_id, issues@, at),
        Command::CompleteTask { task_id, outcome, outputs } => {
            let t = s.tasks[task_id as int];
            let made = output_contents(
                t,
                root_of(s.contents, t.input_content_id),
                outputs@,
                s.next_content_id,
                at,
            );
            StateModel {
                tasks: s.tasks.update(task_id as int, Task { outcome, ..t }),
                contents: s.contents + made,
                changes: s.changes.push(
                    new_change(
                        s,
                        ChangeKind::TaskCompleted {
                            task_id,
                            first_content: s.next_content_id,
                            content_count: made.len() as u64,
                            routes: first_routes(outputs@),
                        },
                        at,
                    ),
                ),
                next_content_id: (s.next_content_id + made.len()) as u64,
                ..s
            }
        },
        Command::RegisterExecutor { executor } => {
            let rec = RegisteredExecutor { metadata: executor, last_heartbeat_ts: at };
            let ch = new_change(s, ChangeKind::ExecutorAdded { executor_id: executor.id.0 }, at);
            match find_executor(s.executors, executor.id.0@) {
                Some(i) => StateModel {
                    executors: s.executors.update(i, rec),
                    changes: s.changes.push(ch),
                    ..s
                },
                None => StateModel {
                    executors: s.executors.push(rec),
                    changes: s.changes.push(ch),
                    ..s
                },
            }
        },
        Command::Heartbeat { executor_id, ts } => {
            let i = find_executor(s.executors, executor_id@)->Some_0;
            StateModel {
                executors: s.executors.update(
                    i,
                    RegisteredExecutor { last_heartbeat_ts: ts, ..s.executors[i] },
                ),
                ..s
            }
        },
        Command::RemoveExecutor { executor_id } => StateModel {
            executors: match find_executor(s.executors, executor_id@) {
                Some(i) => s.executors.remove(i),
                None => s.executors,
            },
            tasks: unassign_all(s.tasks, executor_id@),
            changes: s.changes.push(
                new_change(s, ChangeKind::ExecutorRemoved { executor_id }, at),
            ),
            ..s
        },
    }
}

/// The state after applying `c` at time `at`: its effect when accepted, the
/// same state when rejected.
pub open spec fn step(s: StateModel, c: Command, at: u64) -> StateModel {
    if apply_result(s, c, at) is Ok {
        effect(s, c, at)
    } else {
        s
    }
}

pub struct State {
    namespaces: Vec<String>,
    graphs: Vec<ComputeGraph>,
    contents: Vec<Content>,
    tasks: Vec<Task>,
    executors: Vec<RegisteredExecutor>,
    changes: Vec<StateChange>,
    issues: Vec<IssueRecord>,
    next_content_id: u64,
}

impl View for State {
    type V = StateModel;

    closed spec fn view(&self) -> StateModel {
        StateModel {
            namespaces: self.namespaces@,
            graphs: self.graphs@,
            contents: self.contents@,
            tasks: self.tasks@,
            executors: self.executors@,
            changes: self.changes@,
            issues: self.issues@,
            next_content_id: self.next_content_id,
        }
    }
}

pub open spec fn empty_model() -> StateModel {
    StateModel {
        namespaces: Seq::empty(),
        graphs: Seq::empty(),
        contents: Seq::empty(),
        tasks: Seq::empty(),
        executors: Seq::empty(),
        changes: Seq::empty(),
        issues: Seq::empty(),
        next_content_id: 0,
    }
}

proof fn lemma_first_graph_unique(gs: Seq<ComputeGraph>, ns: Seq<char>, name: Seq<char>, a: int, b: int)
    requires
        first_graph(gs, ns, name, a),
        first_graph(gs, ns, name, b),
    ensures
        a == b,
{
    if a < b {
        assert(!graph_is(gs[a], ns, name));
    } else if b < a {
        assert(!graph_is(gs[b], ns, name));
    }
}

proof fn lemma_first_executor_unique(es: Seq<RegisteredExecutor>, id: Seq<char>, a: int, b: int)
    requires
        first_executor(es, id, a),
        first_executor(es, id, b),
    ensures
        a == b,
{
    if a < b {
        assert(!executor_is(es[a], id));
    } else if b < a {
        assert(!executor_is(es[b], id));
    }
}

impl State {
    pub fn new() -> (r: State)
        ensures
            r@ == empty_model(),
    {
        State {
            namespaces: Vec::new(),
            graphs: Vec::new(),
            contents: Vec::new(),
            tasks: Vec::new(),
            executors: Vec::new(),
            changes: Vec::new(),
            issues: Vec::new(),
            next_content_id: 0,
        }
    }

    pub fn namespaces(&self) -> (r: &Vec<String>)
        ensures
            r@ == self@.namespaces,
    {
        &self.namespaces
    }

    pub fn graphs(&self) -> (r: &Vec<ComputeGraph>)
        ensures
            r@ == self@.graphs,
    {
        &self.graphs
    }

    pub fn contents(&self) -> (r: &Vec<Content>)
        ensures
            r@ == self@.contents,
    {
        &self.contents
    }

    pub fn tasks(&self) -> (r: &Vec<Task>)
        ensures
            r@ == self@.tasks,
    {
        &self.tasks
    }

    pub fn executors(&self) -> (r: &Vec<RegisteredExecutor>)
        ensures
            r@ == self@.executors,
    {
        &self.executors
    }

    pub fn changes(&self) -> (r: &Vec<StateChange>)
        ensures
            r@ == self@.changes,
    {
        &self.changes
    }

    pub fn issues(&self) -> (r: &Vec<IssueRecord>)
        ensures
            r@ == self@.issues,
    {
        &self.issues
    }

    pub fn next_content_id(&self) -> (r: u64)
        ensures
            r == self@.next_content_id,
    {
        self.next_content_id
    }

    fn has_namespace(&self, n: &String) -> (r: bool)
        ensures
            r == has_namespace(self@, n@),
    {
        let mut i: usize = 0;
        while i < self.namespaces.len()
            invariant
                i <= self.namespaces@.len(),
                forall|j: int| 0 <= j < i ==> #[trigger] self.namespaces@[j]@ != n@,
            decreases self.namespaces.len() - i,
        {
            if self.namespaces[i] == *n {
                assert(self@.namespaces[i as int]@ == n@);
                return true;
            }
            i += 1;
        }
        false
    }

    pub fn find_graph(&self, ns: &String, name: &String) -> (r: Option<usize>)
        ensures
            opt_int(r) == find_graph(self@.graphs, ns@, name@),
    {
        let mut i: usize = 0;
        while i < self.graphs.len()
            invariant
                i <= self.graphs@.len(),
                forall|j: int| 0 <= j < i ==> !graph_is(#[trigger] self.graphs@[j], ns@, name@),
            decreases self.graphs.len() - i,
        {
            if self.graphs[i].namespace == *ns && self.graphs[i].name == *name {
                proof {
                    assert(first_graph(self@.graphs, ns@, name@, i as int));
                    let c = choose|c: int| first_graph(self@.graphs, ns@, name@, c);
                    lemma_first_graph_unique(self@.graphs, ns@, name@, i as int, c);
                }
                return Some(i);
            }
            i += 1;
        }
        None
    }

    pub fn find_executor(&self, id: &String) -> (r: Option<usize>)
        ensures
            opt_int(r) == find_executor(self@.executors, id@),
    {
        let mut i: usize = 0;
        while i < self.executors.len()
            invariant
                i <= self.executors@.len(),
                forall|j: int| 0 <= j < i ==> !executor_is(#[trigger] self.executors@[j], id@),
            decreases self.executors.len() - i,
        {
            if self.executors[i].metadata.id.0 == *id {
                proof {
                    assert(first_executor(self@.executors, id@, i as int));
                    let c = choose|c: int| first_executor(self@.executors, id@, c);
                    lemma_first_executor_unique(self@.executors, id@, i as int, c);
                }
                return Some(i);
            }
            i += 1;
        }
        None
    }

    pub fn has_content_id(&self, id: u64) -> (r: bool)
        ensures
            r == has_content(self@.contents, id),
    {
        self.has_content(id)
    }

    fn has_content(&self, id: u64) -> (r: bool)
        ensures
            r == has_content(self@.contents, id),
    {
        let mut i: usize = 0;
        while i < self.contents.len()
            invariant
                i <= self.contents@.len(),
                forall|j: int| 0 <= j < i ==> #[trigger] self.contents@[j].id != id,
            decreases self.contents.len() - i,
        {
            if self.contents[i].id == id {
                return true;
            }
            i += 1;
        }
        false
    }

    pub fn has_content_for(&self, id: u64, ns: &String, graph: &String) -> (r: bool)
        ensures
            r == content_for(self@.contents, id, ns@, graph@),
    {
        self.content_for(id, ns, graph)
    }

    fn content_for(&self, id: u64, ns: &String, graph: &String) -> (r: bool)
        ensures
            r == content_for(self@.contents, id, ns@, graph@),
    {
        let mut i: usize = 0;
        while i < self.contents.len()
            invariant
                i <= self.contents@.len(),
                forall|j: int|
                    0 <= j < i ==> !(#[trigger] self.contents@[j].id == id && self.contents@[j].namespace@
                        == ns@ && self.contents@[j].compute_graph_name@ == graph@),
            decreases self.contents.len() - i,
        {
            let c = &self.contents[i];
            if c.id == id && c.namespace == *ns && c.compute_graph_name == *graph {
                return true;
            }
            i += 1;
        }
        false
    }

    fn root_of(&self, id: u64) -> (r: u64)
        ensures
            r == root_of(self@.contents, id),
    {
        let mut i: usize = self.contents.len();
        assert(self@.contents.take(i as int) =~= self@.contents);
        while i > 0
            invariant
                i <= self.contents@.len(),
                root_of(self@.contents, id) == root_of(self@.contents.take(i as int), id),
            decreases i,
        {
            let ghost pre = self@.contents.take(i as int);
            assert(pre.drop_last() =~= self@.contents.take(i - 1));
            if self.contents[i - 1].id == id {
                return match self.contents[i - 1].root_id {
                    Some(r) => r,
                    None => id,
                };
            }
            i -= 1;
        }
        id
    }

    fn can_emit(&self) -> (r: bool)
        ensures
            r == can_emit(self@),
    {
        (self.changes.len() as u64) < u64::MAX
    }

    fn emit(&mut self, kind: ChangeKind, at: u64)
        requires
            can_emit(old(self)@),
        ensures
            final(self)@ == (StateModel {
                changes: old(self)@.changes.push(new_change(old(self)@, kind, at)),
                ..old(self)@
            }),
    {
        let id = self.changes.len() as u64;
        self.changes.push(
            StateChange {
                id,
                kind,
                created_at: at,
                processed_at: None,
                first_task: 0,
                task_count: 0,
            },
        );
    }

    fn cause_check(&self, cause: u64) -> (r: Result<(), StateError>)
        ensures
            r == cause_check(self@, cause),
    {
        if cause >= self.changes.len() as u64 {
            Err(StateError::UnknownChange)
        } else if self.changes[cause as usize].processed_at.is_some() {
            Err(StateError::ChangeAlreadyProcessed)
        } else {
            Ok(())
        }
    }

    fn mark_processed(&mut self, cause: u64, at: u64, first: u64, count: u64)
        requires
            cause < old(self)@.changes.len(),
        ensures
            final(self)@ == (StateModel {
                changes: mark_processed(old(self)@.changes, cause, at, first, count),
                ..old(self)@
            }),
    {
        let n = self.changes.len();
        assert(cause < n);
        let c = cause as usize;
        self.changes[c].processed_at = Some(at);
        self.changes[c].first_task = first;
        self.changes[c].task_count = count;
        assert(self.changes@ =~= mark_processed(old(self)@.changes, cause, at, first, count));
    }

    fn record_issues(&mut self, cause: u64, issues: Vec<DerivationIssue>)
        ensures
            final(self)@ == (StateModel {
                issues: old(self)@.issues + issue_records(cause, issues@),
                ..old(self)@
            }),
    {
        let ghost all = issues@;
        let n = issues.len();
        let mut rest = issues;
        let mut k: usize = 0;
        while rest.len() > 0
            invariant
                k <= all.len(),
                all.len() == n,
                all.len() == k + rest@.len(),
                rest@ == all.skip(k as int),
                self@ == (StateModel {
                    issues: old(self)@.issues + issue_records(cause, all.take(k as int)),
                    ..old(self)@
                }),
            decreases rest.len(),
        {
            let issue = rest.remove(0);
            self.issues.push(IssueRecord { change_id: cause, issue });
            proof {
                assert(issue == all[k as int]);
                assert(issue_records(cause, all.take(k + 1)) =~= issue_records(cause, all.take(k as int)).push(IssueRecord { change_id: cause, issue }));
                assert(rest@ =~= all.skip(k + 1));
            }
            k += 1;
        }
        assert(all.take(k as int) =~= all);
    }
}

proof fn lemma_fn_count_prefix(outs: Seq<NodeOutput>, k: int)
    requires
        0 <= k <= outs.len(),
    ensures
        fn_output_count(outs.take(k)) <= fn_output_count(outs),
    decreases outs.len(),
{
    if k < outs.len() {
        assert(outs.take(k) =~= outs.drop_last().take(k));
        lemma_fn_count_prefix(outs.drop_last(), k);
    } else {
        assert(outs.take(k) =~= outs);
    }
}

fn count_fn_outputs(outs: &Vec<NodeOutput>) -> (r: usize)
    ensures
        r == fn_output_count(outs@),
{
    let mut c: usize = 0;
    let mut k: usize = 0;
    while k < outs.len()
        invariant
            k <= outs@.len(),
            c <= k,
            c == fn_output_count(outs@.take(k as int)),
        decreases outs.len() - k,
    {
        assert(outs@.take(k + 1).drop_last() =~= outs@.take(k as int));
        match &outs[k].payload {
            OutputPayload::Fn(_) => {
                c += 1;
            },
            OutputPayload::Router(_) => {},
        }
        k += 1;
    }
    assert(outs@.take(k as int) =~= outs@);
    c
}

impl State {
    fn create_graph(&mut self, graph: ComputeGraph) -> (r: Result<(), StateError>)
        ensures
            r == apply_result(old(self)@, Command::CreateGraph { graph }, 0),
            final(self)@ == step(old(self)@, Command::CreateGraph { graph }, 0),
    {
        if !self.has_namespace(&graph.namespace) {
            return Err(StateError::NamespaceMissing);
        }
        let mut graph = graph;
        graph.tomb_stoned = false;
        match validate_graph(&graph) {
            Err(e) => {
                return Err(StateError::InvalidGraph(e));
            },
            Ok(()) => {},
        }
        if self.find_graph(&graph.namespace, &graph.name).is_some() {
            return Err(StateError::GraphExists);
        }
        self.graphs.push(graph);
        Ok(())
    }

    fn tombstone_graph(&mut self, namespace: String, name: String) -> (r: Result<(), StateError>)
        ensures
            r == apply_result(old(self)@, Command::TombstoneGraph { namespace, name }, 0),
            final(self)@ == step(old(self)@, Command::TombstoneGraph { namespace, name }, 0),
    {
        match self.find_graph(&namespace, &name) {
            None => Err(StateError::GraphMissing),
            Some(i) => {
                self.graphs[i].tomb_stoned = true;
                assert(self.graphs@ =~= old(self)@.graphs.update(
                    i as int,
                    ComputeGraph { tomb_stoned: true, ..old(self)@.graphs[i as int] },
                ));
                Ok(())
            },
        }
    }

    fn ingest_content(&mut self, content: Content, at: u64) -> (r: Result<(), StateError>)
        ensures
            r == apply_result(old(self)@, Command::IngestContent { content }, at),
            final(self)@ == step(old(self)@, Command::IngestContent { content }, at),
    {
        if !self.has_namespace(&content.namespace) {
            return Err(StateError::NamespaceMissing);
        }
        if self.has_content(content.id) {
            return Err(StateError::ContentIdCollision);
        }
        if content.id == u64::MAX || !self.can_emit() {
            return Err(StateError::IdSpaceExhausted);
        }
        let id = content.id;
        if id >= self.next_content_id {
            self.next_content_id = id + 1;
        }
        self.contents.push(content);
        self.emit(ChangeKind::ContentCreated { content_id: id }, at);
        Ok(())
    }

    fn invoke_graph(&mut self, namespace: String, graph_name: String, content_id: u64, at: u64) -> (r:
        Result<(), StateError>)
        ensures
            r == apply_result(old(self)@, Command::InvokeGraph { namespace, graph_name, content_id }, at),
            final(self)@ == step(
                old(self)@,
                Command::InvokeGraph { namespace, graph_name, content_id },
                at,
            ),
    {
        match self.find_graph(&namespace, &graph_name) {
            None => Err(StateError::GraphMissing),
            Some(i) => {
                if self.graphs[i].tomb_stoned {
                    return Err(StateError::GraphTombstoned);
                }
                if !self.can_emit() {
                    return Err(StateError::IdSpaceExhausted);
                }
                self.emit(ChangeKind::InvokeComputeGraph { namespace, graph_name, content_id }, at);
                Ok(())
            },
        }
    }

    fn create_tasks(
        &mut self,
        tasks: Vec<Task>,
        cause_id: u64,
        issues: Vec<DerivationIssue>,
        at: u64,
    ) -> (r: Result<(), StateError>)
        ensures
            r == apply_result(old(self)@, Command::CreateTasks { tasks, cause_id, issues }, at),
            final(self)@ == step(old(self)@, Command::CreateTasks { tasks, cause_id, issues }, at),
    {
        let c = self.cause_check(cause_id);
        if c.is_err() {
            return c;
        }
        let mut k: usize = 0;
        while k < tasks.len()
            invariant
                k <= tasks@.len(),
                self@ == old(self)@,
                cause_check(old(self)@, cause_id) is Ok,
                forall|j: int|
                    0 <= j < k ==> content_for(
                        self@.contents,
                        #[trigger] tasks@[j].input_content_id,
                        tasks@[j].namespace@,
                        tasks@[j].compute_graph_name@,
                    ),
            decreases tasks.len() - k,
        {
            let t = &tasks[k];
            if !self.content_for(t.input_content_id, &t.namespace, &t.compute_graph_name) {
                assert(!inputs_exist(self@.contents, tasks@)) by {
                    assert(!content_for(
                        self@.contents,
                        tasks@[k as int].input_content_id,
                        tasks@[k as int].namespace@,
                        tasks@[k as int].compute_graph_name@,
                    ));
                }
                return Err(StateError::ContentMissing);
            }
            k += 1;
        }
        let have = self.tasks.len() as u64;
        if tasks.len() as u64 > u64::MAX - have || (tasks.len() > 0 && !self.can_emit()) {
            return Err(StateError::IdSpaceExhausted);
        }
        let ghost ts0 = tasks@;
        let mut tasks = tasks;
        let count = tasks.len();
        let mut j: usize = 0;
        while j < count
            invariant
                count == tasks@.len(),
                ts0.len() == count,
                j <= count,
                have + count <= u64::MAX,
                forall|i: int| 0 <= i < j ==> #[trigger] tasks@[i] == numbered_tasks(ts0, have as int, at)[i],
                forall|i: int| j <= i < count ==> #[trigger] tasks@[i] == ts0[i],
            decreases count - j,
        {
            tasks[j].id = have + j as u64;
            tasks[j].created_at = at;
            tasks[j].outcome = TaskOutcome::Unknown;
            tasks[j].assigned_executor = None;
            j += 1;
        }
        assert(tasks@ =~= numbered_tasks(ts0, have as int, at));
        self.tasks.append(&mut tasks);
        self.mark_processed(cause_id, at, have, count as u64);
        if count > 0 {
            self.emit(ChangeKind::TasksCreated { first_task: have, task_count: count as u64 }, at);
        }
        self.record_issues(cause_id, issues);
        Ok(())
    }

    fn commit_assignments(&mut self, plan: Vec<(u64, ExecutorId)>, cause_id: u64, at: u64) -> (r:
        Result<(), StateError>)
        ensures
            r == apply_result(old(self)@, Command::CommitAssignments { plan, cause_id }, at),
            final(self)@ == step(old(self)@, Command::CommitAssignments { plan, cause_id }, at),
    {
        let c = self.cause_check(cause_id);
        if c.is_err() {
            return c;
        }
        let n = self.tasks.len();
        let mut k: usize = 0;
        while k < plan.len()
            invariant
                k <= plan@.len(),
                n == self@.tasks.len(),
                self@ == old(self)@,
                cause_check(old(self)@, cause_id) is Ok,
                forall|j: int| 0 <= j < k ==> (#[trigger] plan@[j]).0 < n,
            decreases plan.len() - k,
        {
            if plan[k].0 >= n as u64 {
                assert(!((plan@[k as int]).0 < n));
                return Err(StateError::UnknownTask);
            }
            k += 1;
        }
        let mut k: usize = 0;
        while k < plan.len()
            invariant
                k <= plan@.len(),
                self@ == old(self)@,
                cause_check(old(self)@, cause_id) is Ok,
                plan_tasks_known(self@, plan@),
                forall|j: int|
                    0 <= j < k ==> find_executor(self@.executors, (#[trigger] plan@[j]).1.0@) is Some,
            decreases plan.len() - k,
        {
            if self.find_executor(&plan[k].1.0).is_none() {
                assert(find_executor(self@.executors, (plan@[k as int]).1.0@) is None);
                return Err(StateError::UnknownExecutor);
            }
            k += 1;
        }
        let ghost p0 = plan@;
        let ghost t0 = self@.tasks;
        let total = plan.len();
        let mut rest = plan;
        let mut k: usize = 0;
        while rest.len() > 0
            invariant
                k <= total,
                total == p0.len(),
                total == k + rest@.len(),
                rest@ == p0.skip(k as int),
                n == t0.len(),
                forall|j: int| 0 <= j < p0.len() ==> (#[trigger] p0[j]).0 < n,
                self@ == (StateModel { tasks: assign_all(t0, p0.take(k as int)), ..old(self)@ }),
                assign_all(t0, p0.take(k as int)).len() == n,
            decreases rest.len(),
        {
            let (t, e) = rest.remove(0);
            proof {
                assert(p0.take(k + 1).drop_last() =~= p0.take(k as int));
                assert((t, e) == p0[k as int]);
                assert(rest@ =~= p0.skip(k + 1));
            }
            let ti = t as usize;
            self.tasks[ti].assigned_executor = Some(e);
            proof {
                let prev = assign_all(t0, p0.take(k as int));
                assert(self.tasks@ =~= prev.update(t as int, Task { assigned_executor: Some(e), ..prev[t as int] }));
            }
            k += 1;
        }
        assert(p0.take(k as int) =~= p0);
        self.mark_processed(cause_id, at, n as u64, 0);
        Ok(())
    }

    fn mark_change_processed(&mut self, cause_id: u64, issues: Vec<DerivationIssue>, at: u64) -> (r:
        Result<(), StateError>)
        ensures
            r == apply_result(old(self)@, Command::MarkProcessed { cause_id, issues }, at),
            final(self)@ == step(old(self)@, Command::MarkProcessed { cause_id, issues }, at),
    {
        let c = self.cause_check(cause_id);
        if c.is_err() {
            return c;
        }
        let n = self.tasks.len() as u64;
        self.mark_processed(cause_id, at, n, 0);
        self.record_issues(cause_id, issues);
        Ok(())
    }
}

impl State {
    fn complete_task(
        &mut self,
        task_id: u64,
        outcome: TaskOutcome,
        outputs: Vec<NodeOutput>,
        at: u64,
    ) -> (r: Result<(), StateError>)
        ensures
            r == apply_result(old(self)@, Command::CompleteTask { task_id, outcome, outputs }, at),
            final(self)@ == step(old(self)@, Command::CompleteTask { task_id, outcome, outputs }, at),
    {
        let n = self.tasks.len();
        if task_id >= n as u64 {
            return Err(StateError::UnknownTask);
        }
        let ti = task_id as usize;
        if self.tasks[ti].outcome != TaskOutcome::Unknown {
            return Err(StateError::TaskTerminal);
        }
        if outcome == TaskOutcome::Unknown {
            return Err(StateError::OutcomeNotTerminal);
        }
        let count = count_fn_outputs(&outputs);
        let base = self.next_content_id;
        if count as u64 > u64::MAX - base || !self.can_emit() {
            return Err(StateError::IdSpaceExhausted);
        }
        let root = self.root_of(self.tasks[ti].input_content_id);
        let ghost s0 = self@;
        let ghost t = s0.tasks[ti as int];
        let ghost outs0 = outputs@;
        let total = outputs.len();
        let mut rest = outputs;
        let mut routes: Option<Vec<String>> = None;
        let mut made: u64 = 0;
        let mut k: usize = 0;
        assert(outs0.take(0) =~= Seq::<NodeOutput>::empty());
        while rest.len() > 0
            invariant
                k <= total,
                total == outs0.len(),
                total == k + rest@.len(),
                rest@ == outs0.skip(k as int),
                ti < s0.tasks.len(),
                t == s0.tasks[ti as int],
                base == s0.next_content_id,
                base + fn_output_count(outs0) <= u64::MAX,
                made == fn_output_count(outs0.take(k as int)),
                made == output_contents(t, root, outs0.take(k as int), base, at).len(),
                routes == first_routes(outs0.take(k as int)),
                self@ == (StateModel {
                    contents: s0.contents + output_contents(t, root, outs0.take(k as int), base, at),
                    ..s0
                }),
            decreases rest.len(),
        {
            let out = rest.remove(0);
            proof {
                assert(outs0.take(k + 1).drop_last() =~= outs0.take(k as int));
                assert(out == outs0[k as int]);
                assert(rest@ =~= outs0.skip(k + 1));
                lemma_fn_count_prefix(outs0, k + 1);
            }
            match out.payload {
                OutputPayload::Fn(d) => {
                    let c = Content {
                        id: base + made,
                        namespace: self.tasks[ti].namespace.clone(),
                        compute_graph_name: self.tasks[ti].compute_graph_name.clone(),
                        parent_id: Some(self.tasks[ti].input_content_id),
                        root_id: Some(root),
                        payload: d,
                        mime: None,
                        source_fn: Some(self.tasks[ti].compute_fn_name.clone()),
                        created_at: at,
                    };
                    self.contents.push(c);
                    made = made + 1;
                },
                OutputPayload::Router(ro) => {
                    if routes.is_none() {
                        routes = Some(ro.edges);
                    }
                },
            }
            proof {
                assert(self.contents@ =~= s0.contents + output_contents(
                    t,
                    root,
                    outs0.take(k + 1),
                    base,
                    at,
                ));
            }
            k += 1;
        }
        assert(outs0.take(k as int) =~= outs0);
        self.tasks[ti].outcome = outcome;
        assert(self.tasks@ =~= s0.tasks.update(ti as int, Task { outcome, ..t }));
        self.next_content_id = base + made;
        self.emit(
            ChangeKind::TaskCompleted { task_id, first_content: base, content_count: made, routes },
            at,
        );
        Ok(())
    }

    fn register_executor(&mut self, executor: ExecutorMetadata, at: u64) -> (r: Result<(), StateError>)
        ensures
            r == apply_result(old(self)@, Command::RegisterExecutor { executor }, at),
            final(self)@ == step(old(self)@, Command::RegisterExecutor { executor }, at),
    {
        if !self.can_emit() {
            return Err(StateError::IdSpaceExhausted);
        }
        let id = executor.id.0.clone();
        let rec = RegisteredExecutor { metadata: executor, last_heartbeat_ts: at };
        match self.find_executor(&id) {
            Some(i) => {
                self.executors.set(i, rec);
            },
            None => {
                self.executors.push(rec);
            },
        }
        self.emit(ChangeKind::ExecutorAdded { executor_id: id }, at);
        Ok(())
    }

    fn heartbeat(&mut self, executor_id: String, ts: u64) -> (r: Result<(), StateError>)
        ensures
            r == apply_result(old(self)@, Command::Heartbeat { executor_id, ts }, 0),
            final(self)@ == step(old(self)@, Command::Heartbeat { executor_id, ts }, 0),
    {
        match self.find_executor(&executor_id) {
            None => Err(StateError::UnknownExecutor),
            Some(i) => {
                self.executors[i].last_heartbeat_ts = ts;
                assert(self.executors@ =~= old(self)@.executors.update(
                    i as int,
                    RegisteredExecutor { last_heartbeat_ts: ts, ..old(self)@.executors[i as int] },
                ));
                Ok(())
            },
        }
    }

    fn remove_executor(&mut self, executor_id: String, at: u64) -> (r: Result<(), StateError>)
        ensures
            r == apply_result(old(self)@, Command::RemoveExecutor { executor_id }, at),
            final(self)@ == step(old(self)@, Command::RemoveExecutor { executor_id }, at),
    {
        if !self.can_emit() {
            return Err(StateError::IdSpaceExhausted);
        }
        match self.find_executor(&executor_id) {
            Some(i) => {
                self.executors.remove(i);
            },
            None => {},
        }
        let ghost t0 = self@.tasks;
        let n = self.tasks.len();
        let mut i: usize = 0;
        while i < n
            invariant
                n == t0.len(),
                i <= n,
                self.tasks@.len() == n,
                forall|j: int| 0 <= j < i ==> #[trigger] self.tasks@[j] == unassign_all(t0, executor_id@)[j],
                forall|j: int| i <= j < n ==> #[trigger] self.tasks@[j] == t0[j],
                self@ == (StateModel { tasks: self.tasks@, ..self@ }),
                self@.executors == (match find_executor(old(self)@.executors, executor_id@) {
                    Some(x) => old(self)@.executors.remove(x),
                    None => old(self)@.executors,
                }),
                self@.namespaces == old(self)@.namespaces,
                self@.graphs == old(self)@.graphs,
                self@.contents == old(self)@.contents,
                self@.changes == old(self)@.changes,
                self@.issues == old(self)@.issues,
                self@.next_content_id == old(self)@.next_content_id,
            decreases n - i,
        {
            let hit = self.tasks[i].outcome == TaskOutcome::Unknown && match &self.tasks[i].assigned_executor {
                Some(e) => e.0 == executor_id,
                None => false,
            };
            if hit {
                self.tasks[i].assigned_executor = None;
            }
            i += 1;
        }
        assert(self.tasks@ =~= unassign_all(t0, executor_id@));
        self.emit(ChangeKind::ExecutorRemoved { executor_id }, at);
        Ok(())
    }

    /// Applies one command at time `at`.
    pub fn apply(&mut self, cmd: Command, at: u64) -> (r: Result<(), StateError>)
        ensures
            r == apply_result(old(self)@, cmd, at),
            final(self)@ == step(old(self)@, cmd, at),
    {
        match cmd {
            Command::CreateNamespace { name } => {
                if !self.has_namespace(&name) {
                    self.namespaces.push(name);
                }
                Ok(())
            },
            Command::CreateGraph { graph } => self.create_graph(graph),
            Command::TombstoneGraph { namespace, name } => self.tombstone_graph(namespace, name),
            Command::IngestContent { content } => self.ingest_content(content, at),
            Command::InvokeGraph { namespace, graph_name, content_id } => self.invoke_graph(
                namespace,
                graph_name,
                content_id,
                at,
            ),
            Command::CreateTasks { tasks, cause_id, issues } => self.create_tasks(
                tasks,
                cause_id,
                issues,
                at,
            ),
            Command::CommitAssignments { plan, cause_id } => self.commit_assignments(
                plan,
                cause_id,
                at,
            ),
            Command::MarkProcessed { cause_id, issues } => self.mark_change_processed(
                cause_id,
                issues,
                at,
            ),
            Command::CompleteTask { task_id, outcome, outputs } => self.complete_task(
                task_id,
                outcome,
                outputs,
                at,
            ),
            Command::RegisterExecutor { executor } => self.register_executor(executor, at),
            Command::Heartbeat { executor_id, ts } => self.heartbeat(executor_id, ts),
            Command::RemoveExecutor { executor_id } => self.remove_executor(executor_id, at),
        }
    }
}

pub open spec fn is_unassigned(t: Task) -> bool {
    t.outcome == TaskOutcome::Unknown && t.assigned_executor is None
}

/// Ids of the pending tasks that no executor holds, in task order.
pub open spec fn unassigned_ids(ts: Seq<Task>) -> Seq<u64>
    decreases ts.len(),
{
    if ts.len() == 0 {
        Seq::empty()
    } else {
        let prev = unassigned_ids(ts.drop_last());
        if is_unassigned(ts.last()) {
            prev.push(ts.last().id)
        } else {
            prev
        }
    }
}

/// Number of pending tasks held by executor `id`.
pub open spec fn load_of(ts: Seq<Task>, id: Seq<char>) -> nat
    decreases ts.len(),
{
    if ts.len() == 0 {
        0
    } else {
        load_of(ts.drop_last(), id) + if assigned_to(ts.last(), id) {
            1nat
        } else {
            0nat
        }
    }
}

pub open spec fn state_slots(s: StateModel, c: LivenessConfig, now: u64) -> Seq<SlotView> {
    Seq::new(
        s.executors.len(),
        |j: int|
            SlotView {
                labels: s.executors[j].metadata.labels@,
                lost: status_at(c, s.executors[j].last_heartbeat_ts, now) != ExecutorStatus::Active,
            },
    )
}

pub open spec fn state_loads(s: StateModel) -> Seq<int> {
    Seq::new(s.executors.len(), |j: int| load_of(s.tasks, s.executors[j].metadata.id.0@) as int)
}

pub fn copy_strings(v: &Vec<String>) -> (r: Vec<String>)
    ensures
        r@ == v@,
{
    let mut r: Vec<String> = Vec::new();
    let mut i: usize = 0;
    while i < v.len()
        invariant
            i <= v@.len(),
            r@ == v@.take(i as int),
        decreases v.len() - i,
    {
        r.push(v[i].clone());
        i += 1;
        assert(r@ =~= v@.take(i as int));
    }
    assert(v@.take(i as int) =~= v@);
    r
}

impl State {
    /// Pending tasks that no executor holds.
    pub fn unassigned_tasks(&self) -> (r: Vec<u64>)
        ensures
            r@ == unassigned_ids(self@.tasks),
    {
        let mut r: Vec<u64> = Vec::new();
        let mut i: usize = 0;
        while i < self.tasks.len()
            invariant
                i <= self@.tasks.len(),
                r@ == unassigned_ids(self@.tasks.take(i as int)),
            decreases self.tasks.len() - i,
        {
            assert(self@.tasks.take(i + 1).drop_last() =~= self@.tasks.take(i as int));
            let t = &self.tasks[i];
            if t.outcome == TaskOutcome::Unknown && t.assigned_executor.is_none() {
                r.push(t.id);
            }
            i += 1;
        }
        assert(self@.tasks.take(i as int) =~= self@.tasks);
        r
    }

    fn load_of(&self, id: &String) -> (r: u64)
        ensures
            r == load_of(self@.tasks, id@),
    {
        let mut c: u64 = 0;
        let mut i: usize = 0;
        while i < self.tasks.len()
            invariant
                i <= self@.tasks.len(),
                c <= i,
                c == load_of(self@.tasks.take(i as int), id@),
            decreases self.tasks.len() - i,
        {
            assert(self@.tasks.take(i + 1).drop_last() =~= self@.tasks.take(i as int));
            let t = &self.tasks[i];
            let hit = t.outcome == TaskOutcome::Unknown && match &t.assigned_executor {
                Some(e) => e.0 == *id,
                None => false,
            };
            if hit {
                c += 1;
            }
            i += 1;
        }
        assert(self@.tasks.take(i as int) =~= self@.tasks);
        c
    }

    /// What the allocator sees of each registered executor at time `now`.
    pub fn executor_loads(&self, cfg: &LivenessConfig, now: u64) -> (r: Vec<ExecutorLoad>)
        ensures
            r@.len() == self@.executors.len(),
            forall|j: int|
                0 <= j < r@.len() ==> (#[trigger] r@[j]).labels@ == state_slots(self@, *cfg, now)[j].labels
                    && r@[j].lost == state_slots(self@, *cfg, now)[j].lost && r@[j].load as int
                    == state_loads(self@)[j],
    {
        let mut r: Vec<ExecutorLoad> = Vec::new();
        let mut j: usize = 0;
        while j < self.executors.len()
            invariant
                j <= self@.executors.len(),
                r@.len() == j,
                forall|k: int|
                    0 <= k < j ==> (#[trigger] r@[k]).labels@ == state_slots(self@, *cfg, now)[k].labels
                        && r@[k].lost == state_slots(self@, *cfg, now)[k].lost && r@[k].load as int
                        == state_loads(self@)[k],
            decreases self.executors.len() - j,
        {
            let e = &self.executors[j];
            let labels = copy_strings(&e.metadata.labels);
            let lost = cfg.status(e.last_heartbeat_ts, now) != ExecutorStatus::Active;
            let load = self.load_of(&e.metadata.id.0);
            r.push(ExecutorLoad { labels, load, lost });
            j += 1;
        }
        r
    }
}

/// One entry of the replicated log: a command and the time it was applied.
pub struct LogEntry {
    pub command: Command,
    pub at: u64,
}

/// The state reached from `s` by applying the entries of `log` in order.
pub open spec fn replay(s: StateModel, log: Seq<LogEntry>) -> StateModel
    decreases log.len(),
{
    if log.len() == 0 {
        s
    } else {
        step(replay(s, log.drop_last()), log.last().command, log.last().at)
    }
}

impl State {
    /// Applies every entry of `log`, in order; rejected commands leave no trace.
    pub fn apply_log(&mut self, log: Vec<LogEntry>)
        ensures
            final(self)@ == replay(old(self)@, log@),
    {
        let ghost l0 = log@;
        let total = log.len();
        let mut rest = log;
        let mut k: usize = 0;
        assert(l0.take(0) =~= Seq::<LogEntry>::empty());
        while rest.len() > 0
            invariant
                k <= total,
                total == l0.len(),
                total == k + rest@.len(),
                rest@ == l0.skip(k as int),
                self@ == replay(old(self)@, l0.take(k as int)),
            decreases rest.len(),
        {
            let e = rest.remove(0);
            proof {
                assert(l0.take(k + 1).drop_last() =~= l0.take(k as int));
                assert(e == l0[k as int]);
                assert(rest@ =~= l0.skip(k + 1));
            }
            let _ = self.apply(e.command, e.at);
            k += 1;
        }
        assert(l0.take(k as int) =~= l0);
    }

    /// Rebuilds the state of a restarted replica from its persisted log.
    pub fn recover(log: Vec<LogEntry>) -> (r: State)
        ensures
            r@ == replay(empty_model(), log@),
    {
        let mut s = State::new();
        s.apply_log(log);
        s
    }
}

} // verus!
