use indexify_core::allocator::{AllocationRequest, AllocatorStrategy, ExecutorLoad, TaskAllocator};

fn exec(labels: &[&str], load: u64, lost: bool) -> ExecutorLoad {
    ExecutorLoad { labels: labels.iter().map(|l| l.to_string()).collect(), load, lost }
}

fn req(task_id: u64, constraints: &[&str]) -> AllocationRequest {
    AllocationRequest { task_id, constraints: constraints.iter().map(|c| c.to_string()).collect() }
}

#[test]
fn least_loaded_executor_is_chosen() {
    let a = TaskAllocator::new(10);
    let execs = vec![exec(&[], 3, false), exec(&[], 1, false), exec(&[], 2, false)];
    let plan = a.allocate_tasks(&execs, &vec![req(0, &[])]);
    assert_eq!(plan.placements, vec![Some(1)]);
}

#[test]
fn ties_go_to_the_first_listed_executor() {
    let a = TaskAllocator::new(10);
    let execs = vec![exec(&[], 0, false), exec(&[], 0, false)];
    let plan = a.allocate_tasks(&execs, &vec![req(0, &[]), req(1, &[]), req(2, &[])]);
    assert_eq!(plan.placements, vec![Some(0), Some(1), Some(0)]);
}

#[test]
fn lost_and_full_executors_are_skipped() {
    let a = TaskAllocator::new(2);
    let execs = vec![exec(&[], 0, true), exec(&[], 2, false), exec(&[], 1, false)];
    let plan = a.allocate_tasks(&execs, &vec![req(0, &[]), req(1, &[])]);
    assert_eq!(plan.placements, vec![Some(2), None]);
    assert!(!plan.is_empty());
}

#[test]
fn constraints_need_every_label() {
    let a = TaskAllocator::new(5);
    let execs = vec![exec(&["gpu"], 0, false), exec(&["gpu", "ssd"], 3, false)];
    let plan = a.allocate_tasks(&execs, &vec![req(0, &["gpu", "ssd"]), req(1, &["tpu"])]);
    assert_eq!(plan.placements, vec![Some(1), None]);
}

#[test]
fn nothing_placed_gives_an_empty_plan() {
    let a = TaskAllocator::new(5);
    let plan = a.allocate_tasks(&vec![], &vec![req(0, &[])]);
    assert!(plan.is_empty());
    let plan = a.allocate_tasks(&vec![exec(&[], 0, false)], &vec![]);
    assert!(plan.is_empty());
}

#[test]
fn an_added_executor_only_places_more() {
    let a = TaskAllocator::new(1);
    let reqs = vec![req(0, &[]), req(1, &["gpu"]), req(2, &[])];
    let before = a.allocate_tasks(&vec![exec(&["gpu"], 0, false)], &reqs);
    let after = a.allocate_tasks(&vec![exec(&["gpu"], 0, false), exec(&[], 0, false)], &reqs);
    let unplaced = |p: &Vec<Option<usize>>| p.iter().filter(|x| x.is_none()).count();
    assert_eq!(unplaced(&before.placements), 2);
    assert!(unplaced(&after.placements) <= unplaced(&before.placements));
}

#[test]
fn same_input_gives_same_plan() {
    let a = TaskAllocator::new(3);
    let execs = vec![exec(&["x"], 1, false), exec(&[], 0, false)];
    let reqs = vec![req(0, &[]), req(1, &["x"]), req(2, &[])];
    assert_eq!(a.allocate_tasks(&execs, &reqs).placements, a.allocate_tasks(&execs, &reqs).placements);
}

#[test]
fn round_robin_cycles_through_eligible_executors() {
    let a = TaskAllocator::with_strategy(10, AllocatorStrategy::RoundRobin);
    let execs = vec![exec(&[], 5, false), exec(&[], 0, true), exec(&[], 9, false), exec(&["gpu"], 0, false)];
    let reqs = vec![req(0, &[]), req(1, &[]), req(2, &[]), req(3, &["gpu"]), req(4, &[])];
    let plan = a.allocate_tasks(&execs, &reqs);
    assert_eq!(plan.placements, vec![Some(0), Some(2), Some(3), Some(3), Some(0)]);
}

#[test]
fn round_robin_respects_capacity() {
    let a = TaskAllocator::with_strategy(1, AllocatorStrategy::RoundRobin);
    let execs = vec![exec(&[], 0, false), exec(&[], 0, false)];
    let plan = a.allocate_tasks(&execs, &vec![req(0, &[]), req(1, &[]), req(2, &[])]);
    assert_eq!(plan.placements, vec![Some(0), Some(1), None]);
}
