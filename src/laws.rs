//! Properties of the state machine that hold across commands: the
//! well-formedness invariant and its preservation, and the laws relating
//! several applications of `step`.
use vstd::prelude::*;
use crate::graph::{graph_check, is_walk, lemma_valid_graph_has_no_cycle, node_name, reachable};
use crate::model::{Content, ExecutorId, ExecutorMetadata, NodeOutput, Task, TaskOutcome};
use crate::state::{
    apply_result, assign_all, content_for, empty_model, fn_output_count, has_content,
    has_namespace, is_unassigned, live, numbered_tasks, output_contents, replay, step,
    unassigned_ids, ChangeKind, Command, LogEntry,
    StateModel,
};

verus! {

/// Every derived record a processed change speaks of is stored.
pub open spec fn derived_exist(s: StateModel) -> bool {
    (forall|i: int|
        0 <= i < s.changes.len() && (#[trigger] s.changes[i]).processed_at is Some ==> s.changes[i].first_task
            + s.changes[i].task_count <= s.tasks.len()) && (forall|i: int, c: u64|
        0 <= i < s.changes.len() && (#[trigger] s.changes[i]).kind is TaskCompleted
            && s.changes[i].kind->TaskCompleted_first_content <= c
            < s.changes[i].kind->TaskCompleted_first_content
            + s.changes[i].kind->TaskCompleted_content_count ==> #[trigger] has_content(s.contents, c))
}

pub open spec fn wf(s: StateModel) -> bool {
    &&& forall|i: int| 0 <= i < s.tasks.len() ==> (#[trigger] s.tasks[i]).id == i
    &&& forall|i: int| 0 <= i < s.changes.len() ==> (#[trigger] s.changes[i]).id == i
    &&& forall|i: int| 0 <= i < s.contents.len() ==> (#[trigger] s.contents[i]).id < s.next_content_id
    &&& forall|i: int| 0 <= i < s.graphs.len() ==> graph_check(live(#[trigger] s.graphs[i])) is Ok
    &&& forall|i: int|
        0 <= i < s.tasks.len() ==> content_for(
            s.contents,
            (#[trigger] s.tasks[i]).input_content_id,
            s.tasks[i].namespace@,
            s.tasks[i].compute_graph_name@,
        )
    &&& derived_exist(s)
}

proof fn lemma_content_for_grow(cs: Seq<Content>, more: Seq<Content>)
    ensures
        forall|id: u64, ns: Seq<char>, g: Seq<char>|
            #[trigger] content_for(cs, id, ns, g) ==> content_for(cs + more, id, ns, g),
        forall|id: u64| #[trigger] has_content(cs, id) ==> has_content(cs + more, id),
{
    assert forall|id: u64, ns: Seq<char>, g: Seq<char>|
        #[trigger] content_for(cs, id, ns, g) implies content_for(cs + more, id, ns, g) by {
        let i = choose|i: int|
            0 <= i < cs.len() && #[trigger] cs[i].id == id && cs[i].namespace@ == ns
                && cs[i].compute_graph_name@ == g;
        assert((cs + more)[i] == cs[i]);
    }
    assert forall|id: u64| #[trigger] has_content(cs, id) implies has_content(cs + more, id) by {
        let i = choose|i: int| 0 <= i < cs.len() && #[trigger] cs[i].id == id;
        assert((cs + more)[i] == cs[i]);
    }
}

proof fn lemma_assign_all_keeps(ts: Seq<Task>, plan: Seq<(u64, ExecutorId)>)
    requires
        forall|k: int| 0 <= k < plan.len() ==> (#[trigger] plan[k]).0 < ts.len(),
    ensures
        assign_all(ts, plan).len() == ts.len(),
        forall|i: int|
            0 <= i < ts.len() ==> (#[trigger] assign_all(ts, plan)[i]).id == ts[i].id
                && assign_all(ts, plan)[i].input_content_id == ts[i].input_content_id
                && assign_all(ts, plan)[i].namespace == ts[i].namespace
                && assign_all(ts, plan)[i].compute_graph_name == ts[i].compute_graph_name,
    decreases plan.len(),
{
    if plan.len() > 0 {
        let p = plan.drop_last();
        assert forall|k: int| 0 <= k < p.len() implies (#[trigger] p[k]).0 < ts.len() by {
            assert(p[k] == plan[k]);
        }
        lemma_assign_all_keeps(ts, p);
        let _ = plan[plan.len() - 1];
    }
}

proof fn lemma_output_ids(t: Task, root: u64, outs: Seq<NodeOutput>, base: u64, at: u64)
    requires
        base + fn_output_count(outs) <= u64::MAX,
    ensures
        output_contents(t, root, outs, base, at).len() == fn_output_count(outs),
        forall|k: int|
            0 <= k < output_contents(t, root, outs, base, at).len() ==> (#[trigger] output_contents(
                t,
                root,
                outs,
                base,
                at,
            )[k]).id == base + k,
    decreases outs.len(),
{
    if outs.len() > 0 {
        lemma_output_ids(t, root, outs.drop_last(), base, at);
        let prev = output_contents(t, root, outs.drop_last(), base, at);
        assert forall|k: int|
            0 <= k < output_contents(t, root, outs, base, at).len() implies (#[trigger] output_contents(
                t,
                root,
                outs,
                base,
                at,
            )[k]).id == base + k by {
            if k < prev.len() {
                assert(output_contents(t, root, outs, base, at)[k] == prev[k]);
            }
        }
    }
}

/// The empty state is well formed.
pub proof fn lemma_empty_wf()
    ensures
        wf(empty_model()),
{
}

/// Every command keeps the state well formed, accepted or not.
pub proof fn lemma_step_keeps_wf(s: StateModel, c: Command, at: u64)
    requires
        wf(s),
    ensures
        wf(step(s, c, at)),
{
    let s2 = step(s, c, at);
    if s2 == s {
        return;
    }
    match c {
        Command::CreateTasks { tasks, cause_id, issues } => {
            let nt = numbered_tasks(tasks@, s.tasks.len() as int, at);
            assert forall|i: int| 0 <= i < s2.tasks.len() implies content_for(
                s2.contents,
                (#[trigger] s2.tasks[i]).input_content_id,
                s2.tasks[i].namespace@,
                s2.tasks[i].compute_graph_name@,
            ) by {
                if i >= s.tasks.len() {
                    assert(s2.tasks[i] == nt[i - s.tasks.len()]);
                    assert(content_for(
                        s.contents,
                        tasks@[i - s.tasks.len()].input_content_id,
                        tasks@[i - s.tasks.len()].namespace@,
                        tasks@[i - s.tasks.len()].compute_graph_name@,
                    ));
                }
            }
            assert forall|i: int| 0 <= i < s2.tasks.len() implies (#[trigger] s2.tasks[i]).id == i by {
                if i >= s.tasks.len() {
                    assert(s2.tasks[i] == nt[i - s.tasks.len()]);
                }
            }
        },
        Command::CommitAssignments { plan, cause_id } => {
            lemma_assign_all_keeps(s.tasks, plan@);
            assert forall|i: int| 0 <= i < s2.tasks.len() implies content_for(
                s2.contents,
                (#[trigger] s2.tasks[i]).input_content_id,
                s2.tasks[i].namespace@,
                s2.tasks[i].compute_graph_name@,
            ) by {
                assert(content_for(
                    s.contents,
                    s.tasks[i].input_content_id,
                    s.tasks[i].namespace@,
                    s.tasks[i].compute_graph_name@,
                ));
            }
        },
        Command::CompleteTask { task_id, outcome, outputs } => {
            let t = s.tasks[task_id as int];
            let made = s2.contents.subrange(s.contents.len() as int, s2.contents.len() as int);
            assert(s2.contents == s.contents + made);
            lemma_content_for_grow(s.contents, made);
            let root = crate::state::root_of(s.contents, t.input_content_id);
            lemma_output_ids(t, root, outputs@, s.next_content_id, at);
            assert(made == output_contents(t, root, outputs@, s.next_content_id, at));
            assert forall|i: int| 0 <= i < s2.contents.len() implies (#[trigger] s2.contents[i]).id
                < s2.next_content_id by {
                if i >= s.contents.len() {
                    assert(s2.contents[i] == made[i - s.contents.len()]);
                }
            }
            assert forall|i: int, c: u64|
                0 <= i < s2.changes.len() && (#[trigger] s2.changes[i]).kind is TaskCompleted
                    && s2.changes[i].kind->TaskCompleted_first_content <= c
                    < s2.changes[i].kind->TaskCompleted_first_content
                    + s2.changes[i].kind->TaskCompleted_content_count implies #[trigger] has_content(
                s2.contents,
                c,
            ) by {
                if i == s.changes.len() {
                    let k = c - s.next_content_id;
                    assert(s2.contents[s.contents.len() + k] == made[k]);
                } else {
                    assert(s2.changes[i] == s.changes[i]);
                    assert(has_content(s.contents, c));
                }
            }
            assert forall|i: int| 0 <= i < s2.tasks.len() implies content_for(
                s2.contents,
                (#[trigger] s2.tasks[i]).input_content_id,
                s2.tasks[i].namespace@,
                s2.tasks[i].compute_graph_name@,
            ) by {
                assert(content_for(
                    s.contents,
                    s.tasks[i].input_content_id,
                    s.tasks[i].namespace@,
                    s.tasks[i].compute_graph_name@,
                ));
            }
        },
        Command::IngestContent { content } => {
            lemma_content_for_grow(s.contents, seq![content]);
            assert(s2.contents == s.contents + seq![content]);
            assert forall|i: int| 0 <= i < s2.tasks.len() implies content_for(
                s2.contents,
                (#[trigger] s2.tasks[i]).input_content_id,
                s2.tasks[i].namespace@,
                s2.tasks[i].compute_graph_name@,
            ) by {
                assert(content_for(
                    s.contents,
                    s.tasks[i].input_content_id,
                    s.tasks[i].namespace@,
                    s.tasks[i].compute_graph_name@,
                ));
            }
            assert forall|i: int, c: u64|
                0 <= i < s2.changes.len() && (#[trigger] s2.changes[i]).kind is TaskCompleted
                    && s2.changes[i].kind->TaskCompleted_first_content <= c
                    < s2.changes[i].kind->TaskCompleted_first_content
                    + s2.changes[i].kind->TaskCompleted_content_count implies #[trigger] has_content(
                s2.contents,
                c,
            ) by {
                assert(s2.changes[i] == s.changes[i]);
                assert(has_content(s.contents, c));
            }
        },
        Command::RemoveExecutor { executor_id } => {
            assert forall|i: int| 0 <= i < s2.tasks.len() implies content_for(
                s2.contents,
                (#[trigger] s2.tasks[i]).input_content_id,
                s2.tasks[i].namespace@,
                s2.tasks[i].compute_graph_name@,
            ) by {
                assert(content_for(
                    s.contents,
                    s.tasks[i].input_content_id,
                    s.tasks[i].namespace@,
                    s.tasks[i].compute_graph_name@,
                ));
            }
        },
        _ => {},
    }
}

/// Every state reached from the empty state by a log is well formed.
pub proof fn lemma_replay_wf(log: Seq<LogEntry>)
    ensures
        wf(replay(empty_model(), log)),
    decreases log.len(),
{
    if log.len() > 0 {
        lemma_replay_wf(log.drop_last());
        lemma_step_keeps_wf(replay(empty_model(), log.drop_last()), log.last().command, log.last().at);
    }
}

proof fn lemma_unassigned_ids_pending(ts: Seq<Task>)
    requires
        forall|i: int| 0 <= i < ts.len() ==> (#[trigger] ts[i]).id == i,
    ensures
        forall|k: int|
            0 <= k < unassigned_ids(ts).len() ==> #[trigger] unassigned_ids(ts)[k] < ts.len()
                && is_unassigned(ts[unassigned_ids(ts)[k] as int]),
    decreases ts.len(),
{
    if ts.len() > 0 {
        let p = ts.drop_last();
        assert forall|i: int| 0 <= i < p.len() implies (#[trigger] p[i]).id == i by {
            assert(p[i] == ts[i]);
        }
        lemma_unassigned_ids_pending(p);
        assert(ts.last().id == ts.len() - 1);
        let q = unassigned_ids(p);
        assert forall|k: int|
            0 <= k < unassigned_ids(ts).len() implies #[trigger] unassigned_ids(ts)[k] < ts.len()
                && is_unassigned(ts[unassigned_ids(ts)[k] as int]) by {
            if k < q.len() {
                assert(unassigned_ids(ts)[k] == q[k]);
                assert(q[k] < p.len());
                assert(ts[q[k] as int] == p[q[k] as int]);
            }
        }
    }
}

/// Each id listed as unassigned names a task that is pending and held by
/// no executor.
pub proof fn lemma_unassigned_tasks_are_pending(s: StateModel)
    requires
        wf(s),
    ensures
        forall|k: int|
            0 <= k < unassigned_ids(s.tasks).len() ==> #[trigger] unassigned_ids(s.tasks)[k]
                < s.tasks.len() && s.tasks[unassigned_ids(s.tasks)[k] as int].assigned_executor is None
                && s.tasks[unassigned_ids(s.tasks)[k] as int].outcome == TaskOutcome::Unknown,
{
    lemma_unassigned_ids_pending(s.tasks);
}

/// In every state reached by a log, a processed change's derived tasks are
/// stored under their ids, and the content a completed task produced is
/// stored.
pub proof fn lemma_processed_changes_have_their_records(log: Seq<LogEntry>)
    ensures
        ({
            let s = replay(empty_model(), log);
            &&& forall|i: int, t: int|
                0 <= i < s.changes.len() && (#[trigger] s.changes[i]).processed_at is Some
                    && s.changes[i].first_task <= t < s.changes[i].first_task
                    + s.changes[i].task_count ==> t < s.tasks.len() && #[trigger] s.tasks[t].id == t
            &&& forall|i: int, c: u64|
                0 <= i < s.changes.len() && (#[trigger] s.changes[i]).kind is TaskCompleted
                    && s.changes[i].kind->TaskCompleted_first_content <= c
                    < s.changes[i].kind->TaskCompleted_first_content
                    + s.changes[i].kind->TaskCompleted_content_count ==> #[trigger] has_content(
                    s.contents,
                    c,
                )
        }),
{
    lemma_replay_wf(log);
}

/// In every state reached by a log, no walk that starts in the part of a
/// stored graph reached from its start function returns to its first node.
pub proof fn lemma_stored_graphs_acyclic(log: Seq<LogEntry>, gi: int, st: int, p: Seq<int>)
    requires
        0 <= gi < replay(empty_model(), log).graphs.len(),
        0 <= st < live(replay(empty_model(), log).graphs[gi]).nodes@.len(),
        node_name(live(replay(empty_model(), log).graphs[gi]), st) == live(
            replay(empty_model(), log).graphs[gi],
        ).start_fn.spec_name(),
        is_walk(live(replay(empty_model(), log).graphs[gi]), p),
        p.len() >= 2,
        reachable(live(replay(empty_model(), log).graphs[gi]), st, p[0]),
    ensures
        p[0] != p.last(),
{
    lemma_replay_wf(log);
    let s = replay(empty_model(), log);
    assert(graph_check(live(s.graphs[gi])) is Ok);
    lemma_valid_graph_has_no_cycle(live(s.graphs[gi]), st, p);
}

/// Creating a namespace twice leaves the state as creating it once.
pub proof fn lemma_create_namespace_idempotent(s: StateModel, name: String, at1: u64, at2: u64)
    ensures
        step(step(s, Command::CreateNamespace { name }, at1), Command::CreateNamespace { name }, at2)
            == step(s, Command::CreateNamespace { name }, at1),
{
    let s1 = step(s, Command::CreateNamespace { name }, at1);
    if !has_namespace(s, name@) {
        assert(s1.namespaces[s1.namespaces.len() - 1]@ == name@);
    }
    assert(has_namespace(s1, name@));
}

/// Registering an executor leaves every task as it was, so the set of
/// unassigned tasks does not grow.
pub proof fn lemma_register_executor_keeps_unassigned(s: StateModel, executor: ExecutorMetadata, at: u64)
    ensures
        step(s, Command::RegisterExecutor { executor }, at).tasks == s.tasks,
        unassigned_ids(step(s, Command::RegisterExecutor { executor }, at).tasks) == unassigned_ids(
            s.tasks,
        ),
{
}

proof fn lemma_assign_all_only_assigns(ts: Seq<Task>, plan: Seq<(u64, ExecutorId)>)
    requires
        forall|k: int| 0 <= k < plan.len() ==> (#[trigger] plan[k]).0 < ts.len(),
    ensures
        assign_all(ts, plan).len() == ts.len(),
        forall|i: int|
            0 <= i < ts.len() && is_unassigned(#[trigger] assign_all(ts, plan)[i]) ==> is_unassigned(
                ts[i],
            ),
    decreases plan.len(),
{
    if plan.len() > 0 {
        let p = plan.drop_last();
        assert forall|k: int| 0 <= k < p.len() implies (#[trigger] p[k]).0 < ts.len() by {
            assert(p[k] == plan[k]);
        }
        lemma_assign_all_only_assigns(ts, p);
        let _ = plan[plan.len() - 1];
    }
}

/// Committing a placement plan only takes tasks out of the unassigned set.
pub proof fn lemma_commit_never_unassigns(
    s: StateModel,
    plan: Vec<(u64, ExecutorId)>,
    cause_id: u64,
    at: u64,
)
    ensures
        step(s, Command::CommitAssignments { plan, cause_id }, at).tasks.len() == s.tasks.len(),
        forall|i: int|
            0 <= i < s.tasks.len() && is_unassigned(
                #[trigger] step(s, Command::CommitAssignments { plan, cause_id }, at).tasks[i],
            ) ==> is_unassigned(s.tasks[i]),
{
    if apply_result(s, Command::CommitAssignments { plan, cause_id }, at) is Ok {
        lemma_assign_all_only_assigns(s.tasks, plan@);
    }
}

/// A replica that applied the first `k` entries, stopped, and then applied
/// the rest from where it stood, holds what one that applied the whole log
/// holds.
pub proof fn lemma_replay_split(s: StateModel, log: Seq<LogEntry>, k: int)
    requires
        0 <= k <= log.len(),
    ensures
        replay(replay(s, log.take(k)), log.skip(k)) == replay(s, log),
    decreases log.len(),
{
    if k == log.len() {
        assert(log.take(k) =~= log);
        assert(log.skip(k) =~= Seq::<LogEntry>::empty());
    } else {
        let p = log.drop_last();
        lemma_replay_split(s, p, k);
        assert(log.take(k) =~= p.take(k));
        assert(log.skip(k).drop_last() =~= p.skip(k));
        assert(log.skip(k).last() == log.last());
    }
}

proof fn lemma_outputs_hang_under_input(t: Task, root: u64, outs: Seq<NodeOutput>, base: u64, at: u64)
    ensures
        forall|k: int|
            0 <= k < output_contents(t, root, outs, base, at).len() ==> {
                let c = #[trigger] output_contents(t, root, outs, base, at)[k];
                &&& c.parent_id == Some(t.input_content_id)
                &&& c.root_id == Some(root)
                &&& c.source_fn == Some(t.compute_fn_name)
                &&& c.namespace == t.namespace
                &&& c.compute_graph_name == t.compute_graph_name
            },
    decreases outs.len(),
{
    if outs.len() > 0 {
        lemma_outputs_hang_under_input(t, root, outs.drop_last(), base, at);
        let prev = output_contents(t, root, outs.drop_last(), base, at);
        let cur = output_contents(t, root, outs, base, at);
        assert forall|k: int| 0 <= k < cur.len() && k < prev.len() implies cur[k] == prev[k] by {}
    }
}

/// Completing a task stores its data outputs as content numbered from the
/// content counter, each a child of the task's input in the same tree,
/// produced by the task's function; the completion change records that
/// range.
pub proof fn lemma_completion_extends_content_tree(
    s: StateModel,
    task_id: u64,
    outcome: TaskOutcome,
    outputs: Vec<NodeOutput>,
    at: u64,
)
    requires
        apply_result(s, Command::CompleteTask { task_id, outcome, outputs }, at) is Ok,
    ensures
        ({
            let s2 = step(s, Command::CompleteTask { task_id, outcome, outputs }, at);
            let t = s.tasks[task_id as int];
            let n = (s2.next_content_id - s.next_content_id) as int;
            &&& s2.contents.len() == s.contents.len() + n
            &&& s2.changes.last().kind == (ChangeKind::TaskCompleted {
                task_id,
                first_content: s.next_content_id,
                content_count: n as u64,
                routes: crate::state::first_routes(outputs@),
            })
            &&& forall|k: int|
                0 <= k < n ==> {
                    let c = #[trigger] s2.contents[s.contents.len() + k];
                    &&& c.id == s.next_content_id + k
                    &&& c.parent_id == Some(t.input_content_id)
                    &&& c.root_id == Some(crate::state::root_of(s.contents, t.input_content_id))
                    &&& c.source_fn == Some(t.compute_fn_name)
                    &&& c.namespace == t.namespace
                    &&& c.compute_graph_name == t.compute_graph_name
                }
        }),
{
    let t = s.tasks[task_id as int];
    let root = crate::state::root_of(s.contents, t.input_content_id);
    lemma_output_ids(t, root, outputs@, s.next_content_id, at);
    lemma_outputs_hang_under_input(t, root, outputs@, s.next_content_id, at);
    let made = output_contents(t, root, outputs@, s.next_content_id, at);
    let s2 = step(s, Command::CompleteTask { task_id, outcome, outputs }, at);
    assert forall|k: int| 0 <= k < made.len() implies #[trigger] s2.contents[s.contents.len() + k]
        == made[k] by {}
}

} // verus!
