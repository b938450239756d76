//! The scheduler: consumes state changes in log order, expands graphs into
//! new tasks, and places pending tasks on executors.
use vstd::prelude::*;
use crate::allocator::{
    initial_loads, needs_of, slots_of, strategy_placement, AllocationRequest, TaskAllocationPlan,
    TaskAllocator,
};
use crate::graph::{
    edge_targets, find_edges, find_node, node_index, node_name, router_edge, static_edge,
};
use crate::liveness::LivenessConfig;
use crate::model::{
    seq_has, vec_has, ComputeGraph, DynamicEdgeRouter, ExecutorId, Node, Task, TaskOutcome,
};
use crate::laws::wf;
use crate::state::{
    after_commit, after_create, after_mark, apply_result, assign_all, can_emit, cause_check,
    commit_result, copy_strings, create_tasks_result, find_executor, find_graph, is_unassigned,
    load_of, state_loads, state_slots, step, ChangeKind, Command, DerivationIssue, State,
    StateError, StateModel,
};

verus! {

/// A task for function `fname` over content `c`, in the namespace and graph
/// of task `t`. The state numbers and stamps it when it is stored.
pub open spec fn child_task(t: Task, fname: String, c: u64) -> Task {
    Task {
        id: 0,
        namespace: t.namespace,
        compute_graph_name: t.compute_graph_name,
        compute_fn_name: fname,
        input_content_id: c,
        created_at: 0,
        outcome: TaskOutcome::Unknown,
        assigned_executor: None,
        attempt: 0,
    }
}

/// One task of `fname` per input content, in input order.
pub open spec fn fan_out(t: Task, fname: String, inputs: Seq<u64>) -> Seq<Task> {
    Seq::new(inputs.len(), |k: int| child_task(t, fname, inputs[k]))
}

/// Tasks and issues from resolving router `r` against the edges `routes`
/// it emitted: each emitted name that the router declares and that names a
/// compute function fans out; any other name is dropped with an issue.
pub open spec fn route(
    g: ComputeGraph,
    r: DynamicEdgeRouter,
    routes: Seq<String>,
    t: Task,
    inputs: Seq<u64>,
) -> (Seq<Task>, Seq<DerivationIssue>)
    decreases routes.len(),
{
    if routes.len() == 0 {
        (Seq::empty(), Seq::empty())
    } else {
        let (ts, is) = route(g, r, routes.drop_last(), t, inputs);
        let x = routes.last();
        if !seq_has(r.target_functions@, x@) {
            (ts, is.push(DerivationIssue::UndeclaredRouterTarget { name: x }))
        } else {
            match node_index(g, x@) {
                Some(i) => match g.nodes@[i] {
                    Node::Compute(f) => (ts + fan_out(t, f.name, inputs), is),
                    Node::Router(_) => (ts, is.push(DerivationIssue::NotAComputeFn { name: x })),
                },
                None => (ts, is.push(DerivationIssue::NodeMissing { name: x })),
            }
        }
    }
}

/// Tasks and issues from following the static edges `targets` in order: a
/// compute function fans out over the inputs, a router is resolved.
pub open spec fn expand(
    g: ComputeGraph,
    targets: Seq<String>,
    routes: Seq<String>,
    t: Task,
    inputs: Seq<u64>,
) -> (Seq<Task>, Seq<DerivationIssue>)
    decreases targets.len(),
{
    if targets.len() == 0 {
        (Seq::empty(), Seq::empty())
    } else {
        let (ts, is) = expand(g, targets.drop_last(), routes, t, inputs);
        let e = targets.last();
        match node_index(g, e@) {
            None => (ts, is.push(DerivationIssue::NodeMissing { name: e })),
            Some(i) => match g.nodes@[i] {
                Node::Compute(f) => (ts + fan_out(t, f.name, inputs), is),
                Node::Router(r) => {
                    let (rt, ri) = route(g, r, routes, t, inputs);
                    (ts + rt, is + ri)
                },
            },
        }
    }
}

pub open spec fn routes_seq(routes: Option<Vec<String>>) -> Seq<String> {
    match routes {
        Some(v) => v@,
        None => Seq::empty(),
    }
}

pub open spec fn id_range(first: u64, count: u64) -> Seq<u64> {
    Seq::new(count as nat, |k: int| (first + k) as u64)
}

/// The children of completed task `t`, which produced the content
/// `first .. first + count` and the router edges `routes`, and the issues
/// met on the way. A failed task, a missing or tombstoned graph and a
/// missing node give no children.
pub open spec fn derive_children(
    s: StateModel,
    t: Task,
    first: u64,
    count: u64,
    routes: Option<Vec<String>>,
) -> (Seq<Task>, Seq<DerivationIssue>) {
    if t.outcome != TaskOutcome::Success {
        (Seq::empty(), Seq::empty())
    } else {
        match find_graph(s.graphs, t.namespace@, t.compute_graph_name@) {
            None => (Seq::empty(), seq![DerivationIssue::GraphMissing]),
            Some(gi) => {
                let g = s.graphs[gi];
                if g.tomb_stoned {
                    (Seq::empty(), seq![DerivationIssue::GraphTombstoned])
                } else {
                    match node_index(g, t.compute_fn_name@) {
                        None => (
                            Seq::empty(),
                            seq![DerivationIssue::NodeMissing { name: t.compute_fn_name }],
                        ),
                        Some(i) => match g.nodes@[i] {
                            Node::Compute(_) => expand(
                                g,
                                edge_targets(g, t.compute_fn_name@),
                                routes_seq(routes),
                                t,
                                id_range(first, count),
                            ),
                            Node::Router(r) => route(
                                g,
                                r,
                                routes_seq(routes),
                                t,
                                seq![t.input_content_id],
                            ),
                        },
                    }
                }
            },
        }
    }
}

fn push_fan_out(t: &Task, fname: &String, inputs: &Vec<u64>, out: &mut Vec<Task>)
    ensures
        final(out)@ == old(out)@ + fan_out(*t, *fname, inputs@),
{
    let ghost o0 = out@;
    let mut k: usize = 0;
    while k < inputs.len()
        invariant
            k <= inputs@.len(),
            out@ == o0 + fan_out(*t, *fname, inputs@.take(k as int)),
        decreases inputs.len() - k,
    {
        out.push(
            Task {
                id: 0,
                namespace: t.namespace.clone(),
                compute_graph_name: t.compute_graph_name.clone(),
                compute_fn_name: fname.clone(),
                input_content_id: inputs[k],
                created_at: 0,
                outcome: TaskOutcome::Unknown,
                assigned_executor: None,
                attempt: 0,
            },
        );
        k += 1;
        assert(out@ =~= o0 + fan_out(*t, *fname, inputs@.take(k as int)));
    }
    assert(inputs@.take(k as int) =~= inputs@);
}

fn push_route(
    g: &ComputeGraph,
    r: &DynamicEdgeRouter,
    routes: &Vec<String>,
    t: &Task,
    inputs: &Vec<u64>,
    tasks: &mut Vec<Task>,
    issues: &mut Vec<DerivationIssue>,
)
    ensures
        final(tasks)@ == old(tasks)@ + route(*g, *r, routes@, *t, inputs@).0,
        final(issues)@ == old(issues)@ + route(*g, *r, routes@, *t, inputs@).1,
{
    let ghost t0 = tasks@;
    let ghost i0 = issues@;
    let mut k: usize = 0;
    assert(routes@.take(0) =~= Seq::<String>::empty());
    assert(t0 + Seq::<Task>::empty() =~= t0);
    assert(i0 + Seq::<DerivationIssue>::empty() =~= i0);
    while k < routes.len()
        invariant
            k <= routes@.len(),
            tasks@ == t0 + route(*g, *r, routes@.take(k as int), *t, inputs@).0,
            issues@ == i0 + route(*g, *r, routes@.take(k as int), *t, inputs@).1,
        decreases routes.len() - k,
    {
        let ghost pre = routes@.take(k + 1);
        assert(pre.drop_last() =~= routes@.take(k as int));
        let x = &routes[k];
        if !vec_has(&r.target_functions, x) {
            issues.push(DerivationIssue::UndeclaredRouterTarget { name: x.clone() });
            assert(issues@ =~= i0 + route(*g, *r, pre, *t, inputs@).1);
        } else {
            match find_node(g, x) {
                Some(i) => match &g.nodes[i] {
                    Node::Compute(f) => {
                        push_fan_out(t, &f.name, inputs, tasks);
                        assert(tasks@ =~= t0 + route(*g, *r, pre, *t, inputs@).0);
                    },
                    Node::Router(_) => {
                        issues.push(DerivationIssue::NotAComputeFn { name: x.clone() });
                        assert(issues@ =~= i0 + route(*g, *r, pre, *t, inputs@).1);
                    },
                },
                None => {
                    issues.push(DerivationIssue::NodeMissing { name: x.clone() });
                    assert(issues@ =~= i0 + route(*g, *r, pre, *t, inputs@).1);
                },
            }
        }
        k += 1;
    }
    assert(routes@.take(k as int) =~= routes@);
}

fn push_expand(
    g: &ComputeGraph,
    targets: &Vec<String>,
    routes: &Vec<String>,
    t: &Task,
    inputs: &Vec<u64>,
    tasks: &mut Vec<Task>,
    issues: &mut Vec<DerivationIssue>,
)
    ensures
        final(tasks)@ == old(tasks)@ + expand(*g, targets@, routes@, *t, inputs@).0,
        final(issues)@ == old(issues)@ + expand(*g, targets@, routes@, *t, inputs@).1,
{
    let ghost t0 = tasks@;
    let ghost i0 = issues@;
    let mut k: usize = 0;
    assert(targets@.take(0) =~= Seq::<String>::empty());
    assert(t0 + Seq::<Task>::empty() =~= t0);
    assert(i0 + Seq::<DerivationIssue>::empty() =~= i0);
    while k < targets.len()
        invariant
            k <= targets@.len(),
            tasks@ == t0 + expand(*g, targets@.take(k as int), routes@, *t, inputs@).0,
            issues@ == i0 + expand(*g, targets@.take(k as int), routes@, *t, inputs@).1,
        decreases targets.len() - k,
    {
        let ghost pre = targets@.take(k + 1);
        assert(pre.drop_last() =~= targets@.take(k as int));
        let e = &targets[k];
        match find_node(g, e) {
            None => {
                issues.push(DerivationIssue::NodeMissing { name: e.clone() });
                assert(issues@ =~= i0 + expand(*g, pre, routes@, *t, inputs@).1);
            },
            Some(i) => match &g.nodes[i] {
                Node::Compute(f) => {
                    push_fan_out(t, &f.name, inputs, tasks);
                    assert(tasks@ =~= t0 + expand(*g, pre, routes@, *t, inputs@).0);
                },
                Node::Router(r) => {
                    push_route(g, r, routes, t, inputs, tasks, issues);
                    assert(tasks@ =~= t0 + expand(*g, pre, routes@, *t, inputs@).0);
                    assert(issues@ =~= i0 + expand(*g, pre, routes@, *t, inputs@).1);
                },
            },
        }
        k += 1;
    }
    assert(targets@.take(k as int) =~= targets@);
}

fn id_range_vec(first: u64, count: u64) -> (r: Vec<u64>)
    requires
        first + count <= u64::MAX,
    ensures
        r@ == id_range(first, count),
{
    let mut r: Vec<u64> = Vec::new();
    let mut k: u64 = 0;
    while k < count
        invariant
            k <= count,
            first + count <= u64::MAX,
            r@ == id_range(first, k),
        decreases count - k,
    {
        r.push(first + k);
        k += 1;
        assert(r@ =~= id_range(first, k));
    }
    r
}

/// Children of a completed task and the issues met, as `derive_children`
/// states them.
pub fn derive_task_children(
    state: &State,
    t: &Task,
    first: u64,
    count: u64,
    routes: &Option<Vec<String>>,
) -> (r: (Vec<Task>, Vec<DerivationIssue>))
    requires
        first + count <= u64::MAX,
    ensures
        (r.0@, r.1@) == derive_children(state@, *t, first, count, *routes),
{
    let mut tasks: Vec<Task> = Vec::new();
    let mut issues: Vec<DerivationIssue> = Vec::new();
    if t.outcome != TaskOutcome::Success {
        return (tasks, issues);
    }
    let gi = match state.find_graph(&t.namespace, &t.compute_graph_name) {
        None => {
            issues.push(DerivationIssue::GraphMissing);
            return (tasks, issues);
        },
        Some(gi) => gi,
    };
    let g = &state.graphs()[gi];
    if g.tomb_stoned {
        issues.push(DerivationIssue::GraphTombstoned);
        return (tasks, issues);
    }
    let empty: Vec<String> = Vec::new();
    let rs = match routes {
        Some(v) => v,
        None => &empty,
    };
    assert(rs@ == routes_seq(*routes));
    match find_node(g, &t.compute_fn_name) {
        None => {
            issues.push(DerivationIssue::NodeMissing { name: t.compute_fn_name.clone() });
        },
        Some(i) => match &g.nodes[i] {
            Node::Compute(_) => {
                let inputs = id_range_vec(first, count);
                match find_edges(g, &t.compute_fn_name) {
                    Some(targets) => {
                        push_expand(g, targets, rs, t, &inputs, &mut tasks, &mut issues);
                    },
                    None => {
                        push_expand(g, &empty, rs, t, &inputs, &mut tasks, &mut issues);
                    },
                }
            },
            Node::Router(r) => {
                let mut inputs: Vec<u64> = Vec::new();
                inputs.push(t.input_content_id);
                push_route(g, r, rs, t, &inputs, &mut tasks, &mut issues);
            },
        },
    }
    assert(tasks@ =~= derive_children(state@, *t, first, count, *routes).0);
    assert(issues@ =~= derive_children(state@, *t, first, count, *routes).1);
    (tasks, issues)
}

/// What an invocation names: a graph and the ingested content to run it on.
pub struct InvokeComputeGraphPayload {
    pub namespace: String,
    pub graph_name: String,
    pub data_object_id: u64,
}

/// The single task of an invocation: the graph's start function over the
/// ingested content.
pub open spec fn start_task(p: InvokeComputeGraphPayload, start: Node) -> Task {
    Task {
        id: 0,
        namespace: p.namespace,
        compute_graph_name: p.graph_name,
        compute_fn_name: start.name_string(),
        input_content_id: p.data_object_id,
        created_at: 0,
        outcome: TaskOutcome::Unknown,
        assigned_executor: None,
        attempt: 0,
    }
}

/// The state after handling an invocation: one start task, or, for a
/// missing or tombstoned graph, the change marked processed with an issue.
pub open spec fn invoked(s: StateModel, p: InvokeComputeGraphPayload, cause: u64, at: u64) -> StateModel {
    match find_graph(s.graphs, p.namespace@, p.graph_name@) {
        None => after_mark(s, cause, seq![DerivationIssue::GraphMissing], at),
        Some(i) => if s.graphs[i].tomb_stoned {
            after_mark(s, cause, seq![DerivationIssue::GraphTombstoned], at)
        } else {
            after_create(s, seq![start_task(p, s.graphs[i].start_fn)], cause, Seq::empty(), at)
        },
    }
}

pub open spec fn invoke_result(s: StateModel, p: InvokeComputeGraphPayload, cause: u64) -> Result<(), StateError> {
    match find_graph(s.graphs, p.namespace@, p.graph_name@) {
        None => cause_check(s, cause),
        Some(i) => if s.graphs[i].tomb_stoned {
            cause_check(s, cause)
        } else {
            create_tasks_result(s, seq![start_task(p, s.graphs[i].start_fn)], cause)
        },
    }
}

/// The change a completed-task notice refers to, if `cause` is one.
pub open spec fn completion_of(s: StateModel, cause: u64) -> Option<(u64, u64, u64, Option<Vec<String>>)> {
    if cause < s.changes.len() {
        match s.changes[cause as int].kind {
            ChangeKind::TaskCompleted { task_id, first_content, content_count, routes } => Some(
                (task_id, first_content, content_count, routes),
            ),
            _ => None,
        }
    } else {
        None
    }
}

pub open spec fn completion_result(s: StateModel, cause: u64) -> Result<(), StateError> {
    match completion_of(s, cause) {
        None => Err(StateError::UnknownChange),
        Some((task_id, first, count, routes)) => if task_id >= s.tasks.len() {
            Err(StateError::UnknownTask)
        } else if first + count > u64::MAX {
            Err(StateError::IdSpaceExhausted)
        } else {
            let (ts, is) = derive_children(s, s.tasks[task_id as int], first, count, routes);
            create_tasks_result(s, ts, cause)
        },
    }
}

/// The state after handling a completed task: its children created and the
/// change marked processed, with the issues met.
pub open spec fn completed(s: StateModel, cause: u64, at: u64) -> StateModel {
    match completion_of(s, cause) {
        None => s,
        Some((task_id, first, count, routes)) => if task_id >= s.tasks.len() || first + count
            > u64::MAX {
            s
        } else {
            let (ts, is) = derive_children(s, s.tasks[task_id as int], first, count, routes);
            after_create(s, ts, cause, is, at)
        },
    }
}

/// Pending tasks that no executor holds, in task order.
pub open spec fn pending_tasks(ts: Seq<Task>) -> Seq<Task>
    decreases ts.len(),
{
    if ts.len() == 0 {
        Seq::empty()
    } else {
        let p = pending_tasks(ts.drop_last());
        if is_unassigned(ts.last()) {
            p.push(ts.last())
        } else {
            p
        }
    }
}

/// The labels task `t`'s function asks for; none when the function cannot
/// be found as a compute node of its graph.
pub open spec fn constraints_of(s: StateModel, t: Task) -> Seq<String> {
    match find_graph(s.graphs, t.namespace@, t.compute_graph_name@) {
        Some(gi) => match node_index(s.graphs[gi], t.compute_fn_name@) {
            Some(i) => match s.graphs[gi].nodes@[i] {
                Node::Compute(f) => f.placement_constraints@,
                Node::Router(_) => Seq::empty(),
            },
            None => Seq::empty(),
        },
        None => Seq::empty(),
    }
}

pub open spec fn pending_needs(s: StateModel) -> Seq<Seq<String>> {
    Seq::new(pending_tasks(s.tasks).len(), |k: int| constraints_of(s, pending_tasks(s.tasks)[k]))
}

/// The placements, as (task, executor) pairs, of the first `k` pending tasks.
pub open spec fn plan_upto(s: StateModel, c: LivenessConfig, alloc: TaskAllocator, now: u64, k: nat) -> Seq<
    (u64, ExecutorId),
>
    decreases k,
{
    if k == 0 {
        Seq::empty()
    } else {
        let prev = plan_upto(s, c, alloc, now, (k - 1) as nat);
        match strategy_placement(
            alloc.strategy,
            state_slots(s, c, now),
            state_loads(s),
            alloc.max_concurrent_tasks as int,
            pending_needs(s),
            k - 1,
        ) {
            Some(j) => prev.push((pending_tasks(s.tasks)[k - 1].id, s.executors[j].metadata.id)),
            None => prev,
        }
    }
}

pub open spec fn allocation_plan(s: StateModel, c: LivenessConfig, alloc: TaskAllocator, now: u64) -> Seq<
    (u64, ExecutorId),
> {
    plan_upto(s, c, alloc, now, pending_tasks(s.tasks).len())
}

/// The state after an allocation pass for change `cause`: the plan
/// committed, or the change marked processed when nothing could be placed.
pub open spec fn allocated(s: StateModel, c: LivenessConfig, alloc: TaskAllocator, cause: u64, at: u64) -> StateModel {
    let plan = allocation_plan(s, c, alloc, at);
    if plan.len() == 0 {
        after_mark(s, cause, Seq::empty(), at)
    } else {
        after_commit(s, plan, cause, at)
    }
}

pub open spec fn allocation_result(s: StateModel, c: LivenessConfig, alloc: TaskAllocator, cause: u64, at: u64) -> Result<
    (),
    StateError,
> {
    let plan = allocation_plan(s, c, alloc, at);
    if plan.len() == 0 {
        cause_check(s, cause)
    } else {
        commit_result(s, plan, cause)
    }
}

pub struct Scheduler {
    pub shared_state: State,
    pub task_allocator: TaskAllocator,
    pub liveness: LivenessConfig,
}

impl Scheduler {
    pub fn new(shared_state: State, task_allocator: TaskAllocator) -> (r: Scheduler)
        ensures
            r.shared_state@ == shared_state@,
            r.task_allocator == task_allocator,
            r.liveness == LivenessConfig::spec_default(),
    {
        Scheduler { shared_state, task_allocator, liveness: LivenessConfig::default_config() }
    }

    /// Applies a command to the state the scheduler drives.
    pub fn submit(&mut self, cmd: Command, at: u64) -> (r: Result<(), StateError>)
        ensures
            r == apply_result(old(self).shared_state@, cmd, at),
            final(self).shared_state@ == step(old(self).shared_state@, cmd, at),
            final(self).task_allocator == old(self).task_allocator,
            final(self).liveness == old(self).liveness,
    {
        self.shared_state.apply(cmd, at)
    }

    /// Handles an invocation notice: creates the start task, or marks the
    /// change processed with an issue when the graph is missing or
    /// tombstoned.
    pub fn invoke_compute_graph(
        &mut self,
        payload: &InvokeComputeGraphPayload,
        state_change_id: u64,
        at: u64,
    ) -> (r: Result<(), StateError>)
        ensures
            r == invoke_result(old(self).shared_state@, *payload, state_change_id),
            final(self).shared_state@ == invoked(old(self).shared_state@, *payload, state_change_id, at),
            final(self).task_allocator == old(self).task_allocator,
            final(self).liveness == old(self).liveness,
    {
        match self.shared_state.find_graph(&payload.namespace, &payload.graph_name) {
            None => {
                let mut issues: Vec<DerivationIssue> = Vec::new();
                issues.push(DerivationIssue::GraphMissing);
                let r = self.shared_state.apply(
                    Command::MarkProcessed { cause_id: state_change_id, issues },
                    at,
                );
                r
            },
            Some(i) => {
                if self.shared_state.graphs()[i].tomb_stoned {
                    let mut issues: Vec<DerivationIssue> = Vec::new();
                    issues.push(DerivationIssue::GraphTombstoned);
                    return self.shared_state.apply(
                        Command::MarkProcessed { cause_id: state_change_id, issues },
                        at,
                    );
                }
                let start = self.shared_state.graphs()[i].start_fn.name().clone();
                let task = Task {
                    id: 0,
                    namespace: payload.namespace.clone(),
                    compute_graph_name: payload.graph_name.clone(),
                    compute_fn_name: start,
                    input_content_id: payload.data_object_id,
                    created_at: 0,
                    outcome: TaskOutcome::Unknown,
                    assigned_executor: None,
                    attempt: 0,
                };
                let mut tasks: Vec<Task> = Vec::new();
                tasks.push(task);
                let issues: Vec<DerivationIssue> = Vec::new();
                assert(issues@ =~= Seq::<DerivationIssue>::empty());
                assert(tasks@ =~= seq![start_task(*payload, old(self).shared_state@.graphs[i as int].start_fn)]);
                self.shared_state.apply(
                    Command::CreateTasks { tasks, cause_id: state_change_id, issues },
                    at,
                )
            },
        }
    }

    /// Handles a completed-task notice: creates the children that the graph
    /// and the task's outputs call for.
    pub fn handle_task_completed(&mut self, state_change_id: u64, at: u64) -> (r: Result<(), StateError>)
        ensures
            r == completion_result(old(self).shared_state@, state_change_id),
            final(self).shared_state@ == completed(old(self).shared_state@, state_change_id, at),
            final(self).task_allocator == old(self).task_allocator,
            final(self).liveness == old(self).liveness,
    {
        let n = self.shared_state.changes().len();
        if state_change_id >= n as u64 {
            return Err(StateError::UnknownChange);
        }
        let (tasks, issues) = match &self.shared_state.changes()[state_change_id as usize].kind {
            ChangeKind::TaskCompleted { task_id, first_content, content_count, routes } => {
                let tn = self.shared_state.tasks().len();
                if *task_id >= tn as u64 {
                    return Err(StateError::UnknownTask);
                }
                if *content_count > u64::MAX - *first_content {
                    return Err(StateError::IdSpaceExhausted);
                }
                let t = &self.shared_state.tasks()[*task_id as usize];
                derive_task_children(&self.shared_state, t, *first_content, *content_count, routes)
            },
            _ => {
                return Err(StateError::UnknownChange);
            },
        };
        self.shared_state.apply(Command::CreateTasks { tasks, cause_id: state_change_id, issues }, at)
    }
}

impl Scheduler {
    /// The function constraints of task `t`, as `constraints_of` states them.
    fn constraints(&self, t: &Task) -> (r: Vec<String>)
        ensures
            r@ == constraints_of(self.shared_state@, *t),
    {
        match self.shared_state.find_graph(&t.namespace, &t.compute_graph_name) {
            Some(gi) => {
                let g = &self.shared_state.graphs()[gi];
                match find_node(g, &t.compute_fn_name) {
                    Some(i) => match &g.nodes[i] {
                        Node::Compute(f) => copy_strings(&f.placement_constraints),
                        Node::Router(_) => Vec::new(),
                    },
                    None => Vec::new(),
                }
            },
            None => Vec::new(),
        }
    }

    /// One request per pending unassigned task, in task order.
    fn pending_requests(&self) -> (r: Vec<AllocationRequest>)
        ensures
            r@.len() == pending_tasks(self.shared_state@.tasks).len(),
            needs_of(r@) == pending_needs(self.shared_state@),
            forall|k: int|
                0 <= k < r@.len() ==> (#[trigger] r@[k]).task_id == pending_tasks(
                    self.shared_state@.tasks,
                )[k].id,
    {
        let ghost s = self.shared_state@;
        let tasks = self.shared_state.tasks();
        let mut r: Vec<AllocationRequest> = Vec::new();
        let mut i: usize = 0;
        while i < tasks.len()
            invariant
                s == self.shared_state@,
                tasks@ == s.tasks,
                i <= tasks@.len(),
                r@.len() == pending_tasks(s.tasks.take(i as int)).len(),
                forall|k: int|
                    0 <= k < r@.len() ==> (#[trigger] r@[k]).task_id == pending_tasks(
                        s.tasks.take(i as int),
                    )[k].id && r@[k].constraints@ == constraints_of(
                        s,
                        pending_tasks(s.tasks.take(i as int))[k],
                    ),
            decreases tasks.len() - i,
        {
            assert(s.tasks.take(i + 1).drop_last() =~= s.tasks.take(i as int));
            let t = &tasks[i];
            if t.outcome == TaskOutcome::Unknown && t.assigned_executor.is_none() {
                let constraints = self.constraints(t);
                r.push(AllocationRequest { task_id: t.id, constraints });
            }
            i += 1;
        }
        assert(s.tasks.take(i as int) =~= s.tasks);
        assert(needs_of(r@) =~= pending_needs(s));
        r
    }

    /// Places the given requests on the executors as they stand at `now`.
    pub fn allocate_tasks(&self, reqs: &Vec<AllocationRequest>, now: u64) -> (r: TaskAllocationPlan)
        ensures
            r.placements@.len() == reqs@.len(),
            forall|i: int|
                0 <= i < reqs@.len() ==> crate::allocator::opt_index(#[trigger] r.placements@[i])
                    == strategy_placement(
                    self.task_allocator.strategy,
                    state_slots(self.shared_state@, self.liveness, now),
                    state_loads(self.shared_state@),
                    self.task_allocator.max_concurrent_tasks as int,
                    needs_of(reqs@),
                    i,
                ),
    {
        let execs = self.shared_state.executor_loads(&self.liveness, now);
        assert(slots_of(execs@) =~= state_slots(self.shared_state@, self.liveness, now));
        assert(initial_loads(execs@) =~= state_loads(self.shared_state@));
        self.task_allocator.allocate_tasks(&execs, reqs)
    }

    /// Places every pending unassigned task and commits the plan for change
    /// `cause`; with nothing placed, marks the change processed.
    fn allocate_pending(&mut self, cause: u64, at: u64) -> (r: Result<(), StateError>)
        ensures
            r == allocation_result(
                old(self).shared_state@,
                old(self).liveness,
                old(self).task_allocator,
                cause,
                at,
            ),
            final(self).shared_state@ == allocated(
                old(self).shared_state@,
                old(self).liveness,
                old(self).task_allocator,
                cause,
                at,
            ),
            final(self).task_allocator == old(self).task_allocator,
            final(self).liveness == old(self).liveness,
    {
        let ghost s = self.shared_state@;
        let max = self.task_allocator.max_concurrent_tasks;
        let reqs = self.pending_requests();
        let plan = self.allocate_tasks(&reqs, at);
        let mut entries: Vec<(u64, ExecutorId)> = Vec::new();
        let mut k: usize = 0;
        while k < reqs.len()
            invariant
                s == self.shared_state@,
                max == self.task_allocator.max_concurrent_tasks,
                k <= reqs@.len(),
                reqs@.len() == pending_tasks(s.tasks).len(),
                needs_of(reqs@) == pending_needs(s),
                forall|j: int|
                    0 <= j < reqs@.len() ==> (#[trigger] reqs@[j]).task_id == pending_tasks(
                        s.tasks,
                    )[j].id,
                plan.placements@.len() == reqs@.len(),
                forall|i: int|
                    0 <= i < reqs@.len() ==> crate::allocator::opt_index(#[trigger] plan.placements@[i])
                        == strategy_placement(
                        self.task_allocator.strategy,
                        state_slots(s, self.liveness, at),
                        state_loads(s),
                        max as int,
                        needs_of(reqs@),
                        i,
                    ),
                entries@ == plan_upto(s, self.liveness, self.task_allocator, at, k as nat),
            decreases reqs.len() - k,
        {
            match plan.placements[k] {
                Some(j) => {
                    proof {
                        crate::allocator::lemma_placement_in_range(
                            self.task_allocator.strategy,
                            state_slots(s, self.liveness, at),
                            state_loads(s),
                            max as int,
                            needs_of(reqs@),
                            k as int,
                        );
                    }
                    let id = self.shared_state.executors()[j].metadata.id.0.clone();
                    entries.push((reqs[k].task_id, ExecutorId(id)));
                },
                None => {},
            }
            k += 1;
        }
        if entries.len() == 0 {
            let issues: Vec<DerivationIssue> = Vec::new();
            assert(issues@ =~= Seq::<DerivationIssue>::empty());
            self.shared_state.apply(Command::MarkProcessed { cause_id: cause, issues }, at)
        } else {
            self.shared_state.apply(Command::CommitAssignments { plan: entries, cause_id: cause }, at)
        }
    }

    /// Handles the removal of an executor. Its tasks were unassigned when
    /// the removal was applied, so placing every unassigned task reallocates
    /// them.
    pub fn handle_executor_removed(&mut self, state_change_id: u64, at: u64) -> (r: Result<(), StateError>)
        ensures
            r == allocation_result(
                old(self).shared_state@,
                old(self).liveness,
                old(self).task_allocator,
                state_change_id,
                at,
            ),
            final(self).shared_state@ == allocated(
                old(self).shared_state@,
                old(self).liveness,
                old(self).task_allocator,
                state_change_id,
                at,
            ),
            final(self).task_allocator == old(self).task_allocator,
            final(self).liveness == old(self).liveness,
    {
        self.allocate_pending(state_change_id, at)
    }

    /// Handles the arrival of an executor: tasks left unplaced so far may
    /// now find room.
    pub fn redistribute_tasks(&mut self, state_change_id: u64, at: u64) -> (r: Result<(), StateError>)
        ensures
            r == allocation_result(
                old(self).shared_state@,
                old(self).liveness,
                old(self).task_allocator,
                state_change_id,
                at,
            ),
            final(self).shared_state@ == allocated(
                old(self).shared_state@,
                old(self).liveness,
                old(self).task_allocator,
                state_change_id,
                at,
            ),
            final(self).task_allocator == old(self).task_allocator,
            final(self).liveness == old(self).liveness,
    {
        self.allocate_pending(state_change_id, at)
    }
}

/// The state after the scheduler handles change `cause`.
pub open spec fn handled(s: StateModel, c: LivenessConfig, alloc: TaskAllocator, cause: u64, at: u64) -> StateModel {
    if cause >= s.changes.len() {
        s
    } else {
        match s.changes[cause as int].kind {
            ChangeKind::ContentCreated { .. } => after_mark(s, cause, Seq::empty(), at),
            ChangeKind::InvokeComputeGraph { namespace, graph_name, content_id } => invoked(
                s,
                InvokeComputeGraphPayload { namespace, graph_name, data_object_id: content_id },
                cause,
                at,
            ),
            ChangeKind::TaskCompleted { .. } => completed(s, cause, at),
            ChangeKind::ExecutorAdded { .. } => allocated(s, c, alloc, cause, at),
            ChangeKind::ExecutorRemoved { .. } => allocated(s, c, alloc, cause, at),
            ChangeKind::TasksCreated { .. } => allocated(s, c, alloc, cause, at),
        }
    }
}

/// Whether handling change `cause` succeeds, and if not, why.
pub open spec fn handled_result(s: StateModel, c: LivenessConfig, alloc: TaskAllocator, cause: u64, at: u64) -> Result<
    (),
    StateError,
> {
    if cause >= s.changes.len() {
        Err(StateError::UnknownChange)
    } else {
        match s.changes[cause as int].kind {
            ChangeKind::ContentCreated { .. } => cause_check(s, cause),
            ChangeKind::InvokeComputeGraph { namespace, graph_name, content_id } => invoke_result(
                s,
                InvokeComputeGraphPayload { namespace, graph_name, data_object_id: content_id },
                cause,
            ),
            ChangeKind::TaskCompleted { .. } => completion_result(s, cause),
            _ => allocation_result(s, c, alloc, cause, at),
        }
    }
}

/// The state after handling, in order, each of the first `k` changes that
/// is still unprocessed when its turn comes.
pub open spec fn run_upto(s: StateModel, c: LivenessConfig, alloc: TaskAllocator, at: u64, k: nat) -> StateModel
    decreases k,
{
    if k == 0 {
        s
    } else {
        let p = run_upto(s, c, alloc, at, (k - 1) as nat);
        if k - 1 < p.changes.len() && p.changes[k - 1].processed_at is None {
            handled(p, c, alloc, (k - 1) as u64, at)
        } else {
            p
        }
    }
}

/// How many of the changes handled by `run_upto(s, c, alloc, at, k)` were
/// handled without error.
pub open spec fn run_count(s: StateModel, c: LivenessConfig, alloc: TaskAllocator, at: u64, k: nat) -> nat
    decreases k,
{
    if k == 0 {
        0
    } else {
        let p = run_upto(s, c, alloc, at, (k - 1) as nat);
        run_count(s, c, alloc, at, (k - 1) as nat) + if k - 1 < p.changes.len()
            && p.changes[k - 1].processed_at is None && handled_result(
            p,
            c,
            alloc,
            (k - 1) as u64,
            at,
        ) is Ok {
            1nat
        } else {
            0nat
        }
    }
}

/// Handling a change touches no other earlier change than itself; it may
/// append one.
pub proof fn lemma_handled_keeps_changes(s: StateModel, c: LivenessConfig, alloc: TaskAllocator, cause: u64, at: u64)
    ensures
        handled(s, c, alloc, cause, at).changes.len() >= s.changes.len(),
        forall|i: int|
            0 <= i < s.changes.len() && i != cause ==> #[trigger] handled(s, c, alloc, cause, at).changes[i]
                == s.changes[i],
{
}

impl Scheduler {
    /// Handles change `state_change_id` according to its kind.
    pub fn process_change(&mut self, state_change_id: u64, at: u64) -> (r: Result<(), StateError>)
        ensures
            final(self).shared_state@ == handled(
                old(self).shared_state@,
                old(self).liveness,
                old(self).task_allocator,
                state_change_id,
                at,
            ),
            r == handled_result(
                old(self).shared_state@,
                old(self).liveness,
                old(self).task_allocator,
                state_change_id,
                at,
            ),
            final(self).task_allocator == old(self).task_allocator,
            final(self).liveness == old(self).liveness,
    {
        let n = self.shared_state.changes().len();
        if state_change_id >= n as u64 {
            return Err(StateError::UnknownChange);
        }
        let i = state_change_id as usize;
        let payload = match &self.shared_state.changes()[i].kind {
            ChangeKind::ContentCreated { .. } => None,
            ChangeKind::InvokeComputeGraph { namespace, graph_name, content_id } => Some(
                InvokeComputeGraphPayload {
                    namespace: namespace.clone(),
                    graph_name: graph_name.clone(),
                    data_object_id: *content_id,
                },
            ),
            ChangeKind::TaskCompleted { .. } => {
                return self.handle_task_completed(state_change_id, at);
            },
            ChangeKind::ExecutorAdded { .. } => {
                return self.redistribute_tasks(state_change_id, at);
            },
            ChangeKind::ExecutorRemoved { .. } => {
                return self.handle_executor_removed(state_change_id, at);
            },
            ChangeKind::TasksCreated { .. } => {
                return self.allocate_pending(state_change_id, at);
            },
        };
        match payload {
            Some(p) => self.invoke_compute_graph(&p, state_change_id, at),
            None => {
                let issues: Vec<DerivationIssue> = Vec::new();
                assert(issues@ =~= Seq::<DerivationIssue>::empty());
                self.shared_state.apply(
                    Command::MarkProcessed { cause_id: state_change_id, issues },
                    at,
                )
            },
        }
    }

    /// Handles, in log order, every change logged so far and not yet
    /// processed; returns how many were handled without error. Changes that
    /// handling appends wait for the next run.
    pub fn run_pending(&mut self, at: u64) -> (r: u64)
        ensures
            final(self).shared_state@ == run_upto(
                old(self).shared_state@,
                old(self).liveness,
                old(self).task_allocator,
                at,
                old(self).shared_state@.changes.len(),
            ),
            final(self).shared_state@.changes.len() >= old(self).shared_state@.changes.len(),
            r == run_count(
                old(self).shared_state@,
                old(self).liveness,
                old(self).task_allocator,
                at,
                old(self).shared_state@.changes.len(),
            ),
    {
        let ghost s0 = self.shared_state@;
        let n = self.shared_state.changes().len();
        let mut handled_ok: u64 = 0;
        let mut i: usize = 0;
        while i < n
            invariant
                i <= n,
                n == s0.changes.len(),
                self.shared_state@ == run_upto(
                    s0,
                    self.liveness,
                    self.task_allocator,
                    at,
                    i as nat,
                ),
                self.liveness == old(self).liveness,
                self.task_allocator == old(self).task_allocator,
                self.shared_state@.changes.len() >= n,
                handled_ok <= i,
                handled_ok == run_count(s0, self.liveness, self.task_allocator, at, i as nat),
            decreases n - i,
        {
            proof {
                lemma_handled_keeps_changes(
                    self.shared_state@,
                    self.liveness,
                    self.task_allocator,
                    i as u64,
                    at,
                );
            }
            if self.shared_state.changes()[i].processed_at.is_none() {
                if self.process_change(i as u64, at).is_ok() {
                    handled_ok += 1;
                }
            }
            i += 1;
        }
        handled_ok
    }
}

/// Function `b` may run on what function `a` produced: `b` follows `a` by a
/// static edge, or is declared by a router that follows `a`, or by `a`
/// itself when `a` is a router.
pub open spec fn feeds(g: ComputeGraph, a: Seq<char>, b: Seq<char>) -> bool {
    static_edge(g, a, b) || (exists|i: int|
        0 <= i < g.nodes@.len() && static_edge(g, a, #[trigger] node_name(g, i)) && router_edge(
            g.nodes@[i],
            b,
        )) || (exists|i: int|
        0 <= i < g.nodes@.len() && #[trigger] node_name(g, i) == a && router_edge(g.nodes@[i], b))
}

/// `c` is a pending task in the namespace and graph of `t`, over one of
/// `inputs`.
pub open spec fn child_of(t: Task, c: Task, inputs: Seq<u64>) -> bool {
    c.namespace == t.namespace && c.compute_graph_name == t.compute_graph_name && c.outcome
        == TaskOutcome::Unknown && c.assigned_executor is None && exists|j: int|
        0 <= j < inputs.len() && #[trigger] inputs[j] == c.input_content_id
}

proof fn lemma_fan_out_children(t: Task, fname: String, inputs: Seq<u64>)
    ensures
        forall|k: int|
            0 <= k < fan_out(t, fname, inputs).len() ==> child_of(
                t,
                #[trigger] fan_out(t, fname, inputs)[k],
                inputs,
            ) && fan_out(t, fname, inputs)[k].compute_fn_name == fname,
{
    assert forall|k: int| 0 <= k < fan_out(t, fname, inputs).len() implies child_of(
        t,
        #[trigger] fan_out(t, fname, inputs)[k],
        inputs,
    ) && fan_out(t, fname, inputs)[k].compute_fn_name == fname by {
        assert(inputs[k] == fan_out(t, fname, inputs)[k].input_content_id);
    }
}

proof fn lemma_node_index_name(g: ComputeGraph, a: Seq<char>)
    ensures
        node_index(g, a) matches Some(i) ==> 0 <= i < g.nodes@.len() && node_name(g, i) == a,
{
    if exists|i: int| crate::graph::first_node(g, a, i) {
        let i = choose|i: int| crate::graph::first_node(g, a, i);
        assert(crate::graph::first_node(g, a, i));
    }
}

proof fn lemma_route_children(
    g: ComputeGraph,
    r: DynamicEdgeRouter,
    routes: Seq<String>,
    t: Task,
    inputs: Seq<u64>,
)
    ensures
        forall|k: int|
            0 <= k < route(g, r, routes, t, inputs).0.len() ==> child_of(
                t,
                #[trigger] route(g, r, routes, t, inputs).0[k],
                inputs,
            ) && seq_has(
                r.target_functions@,
                route(g, r, routes, t, inputs).0[k].compute_fn_name@,
            ),
    decreases routes.len(),
{
    if routes.len() > 0 {
        let p = routes.drop_last();
        lemma_route_children(g, r, p, t, inputs);
        let x = routes.last();
        let prev = route(g, r, p, t, inputs).0;
        let cur = route(g, r, routes, t, inputs).0;
        if seq_has(r.target_functions@, x@) {
            lemma_node_index_name(g, x@);
            match node_index(g, x@) {
                Some(i) => match g.nodes@[i] {
                    Node::Compute(f) => {
                        lemma_fan_out_children(t, f.name, inputs);
                        assert forall|k: int| 0 <= k < cur.len() implies child_of(t, #[trigger] cur[k], inputs)
                            && seq_has(r.target_functions@, cur[k].compute_fn_name@) by {
                            if k < prev.len() {
                                assert(cur[k] == prev[k]);
                            } else {
                                assert(cur[k] == fan_out(t, f.name, inputs)[k - prev.len()]);
                                assert(f.name@ == x@);
                            }
                        }
                    },
                    Node::Router(_) => {},
                },
                None => {},
            }
        }
    }
}

/// A child of the static edges: its function is one of the targets, or a
/// name declared by a router that is one of the targets.
pub open spec fn reached_through(g: ComputeGraph, targets: Seq<String>, b: Seq<char>) -> bool {
    (exists|m: int| 0 <= m < targets.len() && #[trigger] targets[m]@ == b) || (exists|m: int, i: int|
        #![trigger targets[m], node_name(g, i)]
        0 <= m < targets.len() && node_index(g, targets[m]@) == Some(i) && 0 <= i < g.nodes@.len()
            && node_name(g, i) == targets[m]@ && router_edge(g.nodes@[i], b))
}

proof fn lemma_expand_children(
    g: ComputeGraph,
    targets: Seq<String>,
    routes: Seq<String>,
    t: Task,
    inputs: Seq<u64>,
)
    ensures
        forall|k: int|
            0 <= k < expand(g, targets, routes, t, inputs).0.len() ==> child_of(
                t,
                #[trigger] expand(g, targets, routes, t, inputs).0[k],
                inputs,
            ) && reached_through(g, targets, expand(g, targets, routes, t, inputs).0[k].compute_fn_name@),
    decreases targets.len(),
{
    if targets.len() > 0 {
        let p = targets.drop_last();
        lemma_expand_children(g, p, routes, t, inputs);
        let e = targets.last();
        let prev = expand(g, p, routes, t, inputs).0;
        let cur = expand(g, targets, routes, t, inputs).0;
        assert forall|b: Seq<char>| reached_through(g, p, b) implies reached_through(g, targets, b) by {
            if exists|m: int| 0 <= m < p.len() && #[trigger] p[m]@ == b {
                let m = choose|m: int| 0 <= m < p.len() && #[trigger] p[m]@ == b;
                assert(targets[m] == p[m]);
            } else {
                let (m, i) = choose|m: int, i: int|
                    #![trigger p[m], node_name(g, i)]
                    0 <= m < p.len() && node_index(g, p[m]@) == Some(i) && 0 <= i < g.nodes@.len()
                        && node_name(g, i) == p[m]@ && router_edge(g.nodes@[i], b);
                assert(targets[m] == p[m]);
            }
        }
        lemma_node_index_name(g, e@);
        match node_index(g, e@) {
            None => {},
            Some(i) => match g.nodes@[i] {
                Node::Compute(f) => {
                    lemma_fan_out_children(t, f.name, inputs);
                    assert forall|k: int| 0 <= k < cur.len() implies child_of(t, #[trigger] cur[k], inputs)
                        && reached_through(g, targets, cur[k].compute_fn_name@) by {
                        if k < prev.len() {
                            assert(cur[k] == prev[k]);
                        } else {
                            assert(cur[k] == fan_out(t, f.name, inputs)[k - prev.len()]);
                            assert(targets[targets.len() - 1]@ == cur[k].compute_fn_name@);
                        }
                    }
                },
                Node::Router(r) => {
                    lemma_route_children(g, r, routes, t, inputs);
                    let rt = route(g, r, routes, t, inputs).0;
                    assert forall|k: int| 0 <= k < cur.len() implies child_of(t, #[trigger] cur[k], inputs)
                        && reached_through(g, targets, cur[k].compute_fn_name@) by {
                        if k < prev.len() {
                            assert(cur[k] == prev[k]);
                        } else {
                            assert(cur[k] == rt[k - prev.len()]);
                            let m = targets.len() - 1;
                            assert(node_index(g, targets[m]@) == Some(i));
                            assert(router_edge(g.nodes@[i], cur[k].compute_fn_name@));
                        }
                    }
                },
            },
        }
    }
}

/// Every child that a completion creates stays in the completed task's
/// namespace and graph, runs a function that the completed one feeds, and
/// takes as input a content item that the completed task produced (or, for
/// a router, the content it was given).
pub proof fn lemma_children_follow_graph(
    s: StateModel,
    t: Task,
    first: u64,
    count: u64,
    routes: Option<Vec<String>>,
)
    requires
        first + count <= u64::MAX,
    ensures
        forall|k: int|
            0 <= k < derive_children(s, t, first, count, routes).0.len() ==> {
                let c = #[trigger] derive_children(s, t, first, count, routes).0[k];
                &&& c.namespace == t.namespace
                &&& c.compute_graph_name == t.compute_graph_name
                &&& c.outcome == TaskOutcome::Unknown
                &&& find_graph(s.graphs, t.namespace@, t.compute_graph_name@) matches Some(gi)
                    && feeds(s.graphs[gi], t.compute_fn_name@, c.compute_fn_name@)
                &&& (first <= c.input_content_id < first + count || c.input_content_id
                    == t.input_content_id)
            },
{
    if t.outcome == TaskOutcome::Success {
        match find_graph(s.graphs, t.namespace@, t.compute_graph_name@) {
            None => {},
            Some(gi) => {
                let g = s.graphs[gi];
                if !g.tomb_stoned {
                    lemma_node_index_name(g, t.compute_fn_name@);
                    match node_index(g, t.compute_fn_name@) {
                        None => {},
                        Some(i) => match g.nodes@[i] {
                            Node::Compute(_) => {
                                let targets = edge_targets(g, t.compute_fn_name@);
                                let inputs = id_range(first, count);
                                lemma_expand_children(g, targets, routes_seq(routes), t, inputs);
                                let ch = expand(g, targets, routes_seq(routes), t, inputs).0;
                                assert forall|k: int| 0 <= k < ch.len() implies feeds(
                                    g,
                                    t.compute_fn_name@,
                                    (#[trigger] ch[k]).compute_fn_name@,
                                ) && first <= ch[k].input_content_id < first + count by {
                                    let b = ch[k].compute_fn_name@;
                                    assert(child_of(t, ch[k], inputs));
                                    let j = choose|j: int| 0 <= j < inputs.len() && #[trigger] inputs[j] == ch[k].input_content_id;
                                    assert(inputs[j] == first + j);
                                    assert(reached_through(g, targets, b));
                                    if !exists|ke: int| crate::graph::first_edge(g, t.compute_fn_name@, ke) {
                                        assert(targets.len() == 0);
                                        assert(false);
                                    }
                                    let ke = choose|ke: int| crate::graph::first_edge(g, t.compute_fn_name@, ke);
                                    assert(targets == g.edges@[ke].1@);
                                    if exists|m: int| 0 <= m < targets.len() && #[trigger] targets[m]@ == b {
                                        let m = choose|m: int| 0 <= m < targets.len() && #[trigger] targets[m]@ == b;
                                        assert(g.edges@[ke].1@[m]@ == b);
                                        assert(static_edge(g, t.compute_fn_name@, b));
                                    } else {
                                        let (m, ni) = choose|m: int, ni: int|
                                            #![trigger targets[m], node_name(g, ni)]
                                            0 <= m < targets.len() && node_index(g, targets[m]@) == Some(ni)
                                                && 0 <= ni < g.nodes@.len() && node_name(g, ni) == targets[m]@
                                                && router_edge(g.nodes@[ni], b);
                                        assert(g.edges@[ke].1@[m]@ == node_name(g, ni));
                                        assert(static_edge(g, t.compute_fn_name@, node_name(g, ni)));
                                    }
                                }
                            },
                            Node::Router(r) => {
                                let inputs = seq![t.input_content_id];
                                lemma_route_children(g, r, routes_seq(routes), t, inputs);
                                let ch = route(g, r, routes_seq(routes), t, inputs).0;
                                assert forall|k: int| 0 <= k < ch.len() implies feeds(
                                    g,
                                    t.compute_fn_name@,
                                    (#[trigger] ch[k]).compute_fn_name@,
                                ) && ch[k].input_content_id == t.input_content_id by {
                                    assert(child_of(t, ch[k], inputs));
                                    assert(node_name(g, i) == t.compute_fn_name@);
                                    assert(router_edge(g.nodes@[i], ch[k].compute_fn_name@));
                                }
                            },
                        },
                    }
                }
            },
        }
    }
}

/// The list an allocation pass places holds exactly the pending tasks that
/// no executor holds, in task order; when task ids are positions, their ids
/// grow strictly, so none is listed twice.
pub proof fn lemma_pending_tasks_exact(ts: Seq<Task>)
    ensures
        forall|k: int| 0 <= k < pending_tasks(ts).len() ==> is_unassigned(#[trigger] pending_tasks(ts)[k]),
        forall|i: int|
            0 <= i < ts.len() && is_unassigned(#[trigger] ts[i]) ==> exists|k: int|
                0 <= k < pending_tasks(ts).len() && #[trigger] pending_tasks(ts)[k] == ts[i],
        (forall|i: int| 0 <= i < ts.len() ==> (#[trigger] ts[i]).id == i) ==> (forall|j: int, k: int|
            0 <= j < k < pending_tasks(ts).len() ==> (#[trigger] pending_tasks(ts)[j]).id < (
            #[trigger] pending_tasks(ts)[k]).id) && (forall|k: int|
            0 <= k < pending_tasks(ts).len() ==> (#[trigger] pending_tasks(ts)[k]).id < ts.len()),
    decreases ts.len(),
{
    if ts.len() > 0 {
        let p = ts.drop_last();
        lemma_pending_tasks_exact(p);
        let q = pending_tasks(p);
        let r = pending_tasks(ts);
        assert forall|k: int| 0 <= k < r.len() implies is_unassigned(#[trigger] r[k]) by {
            if k < q.len() {
                assert(r[k] == q[k]);
            }
        }
        assert forall|i: int| 0 <= i < ts.len() && is_unassigned(#[trigger] ts[i]) implies exists|k: int|
            0 <= k < r.len() && #[trigger] r[k] == ts[i] by {
            if i < p.len() {
                assert(p[i] == ts[i]);
                let k = choose|k: int| 0 <= k < q.len() && #[trigger] q[k] == p[i];
                assert(r[k] == q[k]);
            } else {
                assert(r[r.len() - 1] == ts[i]);
            }
        }
        if forall|i: int| 0 <= i < ts.len() ==> (#[trigger] ts[i]).id == i {
            assert forall|i: int| 0 <= i < p.len() implies (#[trigger] p[i]).id == i by {
                assert(p[i] == ts[i]);
            }
            assert forall|k: int| 0 <= k < r.len() implies (#[trigger] r[k]).id < ts.len() by {
                if k < q.len() {
                    assert(r[k] == q[k]);
                } else {
                    assert(ts[ts.len() - 1].id == ts.len() - 1);
                }
            }
            assert forall|j: int, k: int| 0 <= j < k < r.len() implies (#[trigger] r[j]).id < (
            #[trigger] r[k]).id by {
                assert(r[j] == q[j]);
                if k < q.len() {
                    assert(r[k] == q[k]);
                } else {
                    assert(ts[ts.len() - 1].id == ts.len() - 1);
                }
            }
        }
    }
}

proof fn lemma_plan_ids_grow(s: StateModel, c: LivenessConfig, alloc: TaskAllocator, now: u64, k: nat)
    requires
        k <= pending_tasks(s.tasks).len(),
        forall|j: int, m: int|
            0 <= j < m < pending_tasks(s.tasks).len() ==> (#[trigger] pending_tasks(s.tasks)[j]).id < (
            #[trigger] pending_tasks(s.tasks)[m]).id,
    ensures
        forall|a: int| 0 <= a < plan_upto(s, c, alloc, now, k).len() ==> exists|j: int|
            0 <= j < k && (#[trigger] plan_upto(s, c, alloc, now, k)[a]).0 == pending_tasks(s.tasks)[j].id,
        forall|a: int, b: int|
            0 <= a < b < plan_upto(s, c, alloc, now, k).len() ==> (#[trigger] plan_upto(
                s,
                c,
                alloc,
                now,
                k,
            )[a]).0 < (#[trigger] plan_upto(s, c, alloc, now, k)[b]).0,
    decreases k,
{
    if k > 0 {
        let k1 = (k - 1) as nat;
        lemma_plan_ids_grow(s, c, alloc, now, k1);
        let prev = plan_upto(s, c, alloc, now, k1);
        let cur = plan_upto(s, c, alloc, now, k);
        let pt = pending_tasks(s.tasks);
        assert forall|a: int| 0 <= a < cur.len() implies exists|j: int|
            0 <= j < k && (#[trigger] cur[a]).0 == pt[j].id by {
            if a < prev.len() {
                assert(cur[a] == prev[a]);
                let j = choose|j: int| 0 <= j < k1 && (#[trigger] prev[a]).0 == pt[j].id;
                assert(cur[a].0 == pt[j].id);
            } else {
                assert(cur[a].0 == pt[k - 1].id);
            }
        }
        assert forall|a: int, b: int| 0 <= a < b < cur.len() implies (#[trigger] cur[a]).0 < (
        #[trigger] cur[b]).0 by {
            assert(cur[a] == prev[a]);
            if b < prev.len() {
                assert(cur[b] == prev[b]);
            } else {
                let j = choose|j: int| 0 <= j < k1 && (#[trigger] prev[a]).0 == pt[j].id;
                assert(pt[j].id < pt[k - 1].id);
            }
        }
    }
}

proof fn lemma_assign_all_sets(ts: Seq<Task>, plan: Seq<(u64, ExecutorId)>)
    requires
        forall|k: int| 0 <= k < plan.len() ==> (#[trigger] plan[k]).0 < ts.len(),
        forall|a: int, b: int| 0 <= a < b < plan.len() ==> (#[trigger] plan[a]).0 < (#[trigger] plan[b]).0,
    ensures
        assign_all(ts, plan).len() == ts.len(),
        forall|k: int|
            0 <= k < plan.len() ==> assign_all(ts, plan)[(#[trigger] plan[k]).0 as int].assigned_executor
                == Some(plan[k].1),
    decreases plan.len(),
{
    if plan.len() > 0 {
        let p = plan.drop_last();
        assert forall|k: int| 0 <= k < p.len() implies (#[trigger] p[k]).0 < ts.len() by {
            assert(p[k] == plan[k]);
        }
        assert forall|a: int, b: int| 0 <= a < b < p.len() implies (#[trigger] p[a]).0 < (#[trigger] p[b]).0 by {
            assert(p[a] == plan[a]);
            assert(p[b] == plan[b]);
        }
        lemma_assign_all_sets(ts, p);
        let last = plan.len() - 1;
        assert forall|k: int| 0 <= k < plan.len() implies assign_all(ts, plan)[(#[trigger] plan[k]).0 as int].assigned_executor
            == Some(plan[k].1) by {
            if k < last {
                assert(p[k] == plan[k]);
                assert(plan[k].0 < plan[last].0);
            }
        }
    }
}

/// After an accepted allocation pass for change `cause`, that change is
/// processed, and every entry of the plan names a registered executor that
/// now holds the entry's task.
pub proof fn lemma_allocation_assigns_its_plan(
    s: StateModel,
    c: LivenessConfig,
    alloc: TaskAllocator,
    cause: u64,
    at: u64,
)
    requires
        wf(s),
        allocation_result(s, c, alloc, cause, at) is Ok,
    ensures
        ({
            let plan = allocation_plan(s, c, alloc, at);
            let s2 = allocated(s, c, alloc, cause, at);
            &&& s2.changes[cause as int].processed_at is Some
            &&& forall|k: int|
                0 <= k < plan.len() ==> (#[trigger] plan[k]).0 < s2.tasks.len()
                    && s2.tasks[plan[k].0 as int].assigned_executor == Some(plan[k].1)
                    && find_executor(s.executors, plan[k].1.0@) is Some
        }),
{
    let plan = allocation_plan(s, c, alloc, at);
    if plan.len() > 0 {
        lemma_pending_tasks_exact(s.tasks);
        lemma_plan_ids_grow(s, c, alloc, at, pending_tasks(s.tasks).len());
        lemma_assign_all_sets(s.tasks, plan);
    }
}

/// Registering an executor not yet known never makes the next least-loaded
/// allocation pass leave unplaced a pending task that it would have placed
/// before the registration.
pub proof fn lemma_registering_never_unplaces(
    s: StateModel,
    executor: crate::model::ExecutorMetadata,
    at: u64,
    c: LivenessConfig,
    max: int,
    now: u64,
    i: int,
)
    requires
        find_executor(s.executors, executor.id.0@) is None,
        can_emit(s),
        0 <= i < pending_tasks(s.tasks).len(),
    ensures
        ({
            let s2 = step(s, Command::RegisterExecutor { executor }, at);
            crate::allocator::placement(state_slots(s, c, now), state_loads(s), max, pending_needs(s), i)
                is Some ==> crate::allocator::placement(
                state_slots(s2, c, now),
                state_loads(s2),
                max,
                pending_needs(s2),
                i,
            ) is Some
        }),
{
    let s2 = step(s, Command::RegisterExecutor { executor }, at);
    let extra = crate::allocator::SlotView {
        labels: executor.labels@,
        lost: crate::liveness::status_at(c, at, now) != crate::liveness::ExecutorStatus::Active,
    };
    assert(state_slots(s2, c, now) =~= state_slots(s, c, now).push(extra));
    assert(state_loads(s2) =~= state_loads(s).push(load_of(s.tasks, executor.id.0@) as int));
    assert(pending_needs(s2) =~= pending_needs(s));
    crate::allocator::lemma_added_executor_never_unplaces(
        state_slots(s, c, now),
        state_loads(s),
        extra,
        load_of(s.tasks, executor.id.0@) as int,
        max,
        pending_needs(s),
        i,
    );
}

} // verus!
