//! Decisions of the executor gateway: what to deliver to an executor, what
//! to tell it was cancelled, which reports break the protocol, and which
//! executors have been silent long enough to be removed.
use vstd::prelude::*;
use crate::liveness::{status_at, ExecutorStatus, LivenessConfig};
use crate::model::{Task, TaskOutcome};
use crate::state::{assigned_to, State, StateModel};

verus! {

pub enum ProtocolViolation {
    UnknownTask,
    DuplicateOutcome,
    NotAssigned,
}

/// Ids of the pending tasks held by executor `id`, in task order.
pub open spec fn held_by(ts: Seq<Task>, id: Seq<char>) -> Seq<u64>
    decreases ts.len(),
{
    if ts.len() == 0 {
        Seq::empty()
    } else {
        let prev = held_by(ts.drop_last(), id);
        if assigned_to(ts.last(), id) {
            prev.push(ts.last().id)
        } else {
            prev
        }
    }
}

/// Task `t` (by position) is pending and held by executor `id`.
pub open spec fn holds(s: StateModel, id: Seq<char>, t: u64) -> bool {
    t < s.tasks.len() && assigned_to(s.tasks[t as int], id)
}

/// The reported running tasks that the executor no longer holds.
pub open spec fn cancelled(s: StateModel, id: Seq<char>, running: Seq<u64>) -> Seq<u64>
    decreases running.len(),
{
    if running.len() == 0 {
        Seq::empty()
    } else {
        let prev = cancelled(s, id, running.drop_last());
        if holds(s, id, running.last()) {
            prev
        } else {
            prev.push(running.last())
        }
    }
}

pub open spec fn outcome_check(s: StateModel, id: Seq<char>, t: u64) -> Result<(), ProtocolViolation> {
    if t >= s.tasks.len() {
        Err(ProtocolViolation::UnknownTask)
    } else if s.tasks[t as int].outcome != TaskOutcome::Unknown {
        Err(ProtocolViolation::DuplicateOutcome)
    } else if !assigned_to(s.tasks[t as int], id) {
        Err(ProtocolViolation::NotAssigned)
    } else {
        Ok(())
    }
}

/// Ids of registered executors silent past the death timeout at `now`.
pub open spec fn silent_executors(s: StateModel, c: LivenessConfig, now: u64) -> Seq<Seq<char>>
    decreases s.executors.len(),
{
    if s.executors.len() == 0 {
        Seq::empty()
    } else {
        let prev = silent_executors(StateModel { executors: s.executors.drop_last(), ..s }, c, now);
        let e = s.executors.last();
        if status_at(c, e.last_heartbeat_ts, now) == ExecutorStatus::Dead {
            prev.push(e.metadata.id.0@)
        } else {
            prev
        }
    }
}

fn is_held(state: &State, id: &String, t: u64) -> (r: bool)
    ensures
        r == holds(state@, id@, t),
{
    let tasks = state.tasks();
    if t >= tasks.len() as u64 {
        return false;
    }
    let task = &tasks[t as usize];
    task.outcome == TaskOutcome::Unknown && match &task.assigned_executor {
        Some(e) => e.0 == *id,
        None => false,
    }
}

/// The tasks to deliver to executor `id`.
pub fn tasks_for_executor(state: &State, id: &String) -> (r: Vec<u64>)
    ensures
        r@ == held_by(state@.tasks, id@),
{
    let tasks = state.tasks();
    let mut r: Vec<u64> = Vec::new();
    let mut i: usize = 0;
    while i < tasks.len()
        invariant
            tasks@ == state@.tasks,
            i <= tasks@.len(),
            r@ == held_by(tasks@.take(i as int), id@),
        decreases tasks.len() - i,
    {
        assert(tasks@.take(i + 1).drop_last() =~= tasks@.take(i as int));
        let t = &tasks[i];
        let hit = t.outcome == TaskOutcome::Unknown && match &t.assigned_executor {
            Some(e) => e.0 == *id,
            None => false,
        };
        if hit {
            r.push(t.id);
        }
        i += 1;
    }
    assert(tasks@.take(i as int) =~= tasks@);
    r
}

/// The answer to a heartbeat: of the tasks the executor reports running,
/// those it no longer holds.
pub fn cancelled_tasks(state: &State, id: &String, running: &Vec<u64>) -> (r: Vec<u64>)
    ensures
        r@ == cancelled(state@, id@, running@),
{
    let mut r: Vec<u64> = Vec::new();
    let mut i: usize = 0;
    while i < running.len()
        invariant
            i <= running@.len(),
            r@ == cancelled(state@, id@, running@.take(i as int)),
        decreases running.len() - i,
    {
        assert(running@.take(i + 1).drop_last() =~= running@.take(i as int));
        if !is_held(state, id, running[i]) {
            r.push(running[i]);
        }
        i += 1;
    }
    assert(running@.take(i as int) =~= running@);
    r
}

/// Whether executor `id` may report an outcome for task `t`: the task must
/// exist, still be pending, and be held by that executor.
pub fn check_task_outcome(state: &State, id: &String, t: u64) -> (r: Result<(), ProtocolViolation>)
    ensures
        r == outcome_check(state@, id@, t),
{
    let tasks = state.tasks();
    if t >= tasks.len() as u64 {
        return Err(ProtocolViolation::UnknownTask);
    }
    let task = &tasks[t as usize];
    if task.outcome != TaskOutcome::Unknown {
        return Err(ProtocolViolation::DuplicateOutcome);
    }
    if !is_held(state, id, t) {
        return Err(ProtocolViolation::NotAssigned);
    }
    Ok(())
}

/// Executors to remove at `now`: silent past the death timeout.
pub fn executors_to_remove(state: &State, cfg: &LivenessConfig, now: u64) -> (r: Vec<String>)
    ensures
        r@.len() == silent_executors(state@, *cfg, now).len(),
        forall|k: int| 0 <= k < r@.len() ==> #[trigger] r@[k]@ == silent_executors(state@, *cfg, now)[k],
{
    let es = state.executors();
    let ghost s = state@;
    let mut r: Vec<String> = Vec::new();
    let mut i: usize = 0;
    while i < es.len()
        invariant
            es@ == s.executors,
            s == state@,
            i <= es@.len(),
            r@.len() == silent_executors(StateModel { executors: es@.take(i as int), ..s }, *cfg, now).len(),
            forall|k: int|
                0 <= k < r@.len() ==> #[trigger] r@[k]@ == silent_executors(
                    StateModel { executors: es@.take(i as int), ..s },
                    *cfg,
                    now,
                )[k],
        decreases es.len() - i,
    {
        let ghost pre = StateModel { executors: es@.take(i + 1), ..s };
        assert(pre.executors.drop_last() =~= es@.take(i as int));
        let e = &es[i];
        if cfg.status(e.last_heartbeat_ts, now) == ExecutorStatus::Dead {
            r.push(e.metadata.id.0.clone());
        }
        i += 1;
    }
    assert(es@.take(i as int) =~= es@);
    assert(StateModel { executors: es@, ..s } == s);
    r
}

} // verus!
