//! Placement of tasks on executors: each task in turn goes to the least
//! loaded executor that is not lost, has room, and carries every label that
//! the task's function asks for; ties go to the executor listed first.
use vstd::prelude::*;
use crate::model::{covers_labels, labels_cover};

verus! {

/// What the allocator sees of one executor.
pub struct ExecutorLoad {
    pub labels: Vec<String>,
    pub load: u64,
    pub lost: bool,
}

/// A task waiting for an executor, with its function's placement constraints.
pub struct AllocationRequest {
    pub task_id: u64,
    pub constraints: Vec<String>,
}

/// For each request, in order, the index of the executor chosen for it.
pub struct TaskAllocationPlan {
    pub placements: Vec<Option<usize>>,
}

#[derive(Clone, Copy, PartialEq, Eq, Structural, Debug)]
pub enum AllocatorStrategy {
    /// Each task to the least loaded eligible executor.
    LeastLoaded,
    /// Each task to the next eligible executor after the one that took the
    /// previous task, wrapping around.
    RoundRobin,
}

pub struct TaskAllocator {
    pub max_concurrent_tasks: u64,
    pub strategy: AllocatorStrategy,
}

/// What placement reads of an executor.
pub ghost struct SlotView {
    pub labels: Seq<String>,
    pub lost: bool,
}

pub open spec fn slots_of(execs: Seq<ExecutorLoad>) -> Seq<SlotView> {
    Seq::new(execs.len(), |j: int| SlotView { labels: execs[j].labels@, lost: execs[j].lost })
}

pub open spec fn needs_of(reqs: Seq<AllocationRequest>) -> Seq<Seq<String>> {
    Seq::new(reqs.len(), |i: int| reqs[i].constraints@)
}

pub open spec fn eligible(slots: Seq<SlotView>, loads: Seq<int>, max: int, need: Seq<String>, j: int) -> bool {
    0 <= j < slots.len() && !slots[j].lost && loads[j] < max && labels_cover(slots[j].labels, need)
}

/// `j` is eligible, no eligible executor is less loaded, and every eligible
/// executor listed before it is more loaded.
pub open spec fn is_pick(slots: Seq<SlotView>, loads: Seq<int>, max: int, need: Seq<String>, j: int) -> bool {
    eligible(slots, loads, max, need, j) && (forall|k: int|
        #[trigger] eligible(slots, loads, max, need, k) ==> loads[j] <= loads[k]) && (forall|k: int|
        0 <= k < j && #[trigger] eligible(slots, loads, max, need, k) ==> loads[k] > loads[j])
}

pub open spec fn pick(slots: Seq<SlotView>, loads: Seq<int>, max: int, need: Seq<String>) -> Option<int> {
    if exists|j: int| is_pick(slots, loads, max, need, j) {
        Some(choose|j: int| is_pick(slots, loads, max, need, j))
    } else {
        None
    }
}

/// Loads after placing every request of `needs` in turn.
pub open spec fn loads_after(slots: Seq<SlotView>, loads: Seq<int>, max: int, needs: Seq<Seq<String>>) -> Seq<
    int,
>
    decreases needs.len(),
{
    if needs.len() == 0 {
        loads
    } else {
        let l = loads_after(slots, loads, max, needs.drop_last());
        match pick(slots, l, max, needs.last()) {
            Some(j) => l.update(j, l[j] + 1),
            None => l,
        }
    }
}

/// The executor chosen for request `i`.
pub open spec fn placement(
    slots: Seq<SlotView>,
    loads: Seq<int>,
    max: int,
    needs: Seq<Seq<String>>,
    i: int,
) -> Option<int> {
    pick(slots, loads_after(slots, loads, max, needs.take(i)), max, needs[i])
}

pub open spec fn initial_loads(execs: Seq<ExecutorLoad>) -> Seq<int> {
    Seq::new(execs.len(), |j: int| execs[j].load as int)
}

pub open spec fn opt_index(o: Option<usize>) -> Option<int> {
    match o {
        Some(j) => Some(j as int),
        None => None,
    }
}

proof fn lemma_pick_unique(
    execs: Seq<SlotView>,
    loads: Seq<int>,
    max: int,
    need: Seq<String>,
    a: int,
    b: int,
)
    requires
        is_pick(execs, loads, max, need, a),
        is_pick(execs, loads, max, need, b),
    ensures
        a == b,
{
    if a < b {
        assert(eligible(execs, loads, max, need, a));
    } else if b < a {
        assert(eligible(execs, loads, max, need, b));
    }
}

fn choose_executor(
    execs: &Vec<ExecutorLoad>,
    loads: &Vec<u64>,
    max: u64,
    need: &Vec<String>,
) -> (r: Option<usize>)
    requires
        loads@.len() == execs@.len(),
    ensures
        opt_index(r) == pick(
            slots_of(execs@),
            Seq::new(loads@.len(), |j: int| loads@[j] as int),
            max as int,
            need@,
        ),
{
    let ghost l = Seq::new(loads@.len(), |j: int| loads@[j] as int);
    let ghost sl = slots_of(execs@);
    let mut best: Option<usize> = None;
    let mut j: usize = 0;
    while j < execs.len()
        invariant
            j <= execs@.len(),
            loads@.len() == execs@.len(),
            l == Seq::new(loads@.len(), |j: int| loads@[j] as int),
            sl == slots_of(execs@),
            match best {
                Some(b) => b < j && eligible(sl, l, max as int, need@, b as int) && (forall|k: int|
                    0 <= k < j && #[trigger] eligible(sl, l, max as int, need@, k) ==> l[b as int]
                        <= l[k]) && (forall|k: int|
                    0 <= k < b && #[trigger] eligible(sl, l, max as int, need@, k) ==> l[k]
                        > l[b as int]),
                None => forall|k: int| 0 <= k < j ==> !#[trigger] eligible(sl, l, max as int, need@, k),
            },
        decreases execs.len() - j,
    {
        let e = &execs[j];
        if !e.lost && loads[j] < max && covers_labels(&e.labels, need) {
            match best {
                Some(b) => {
                    if loads[j] < loads[b] {
                        best = Some(j);
                    }
                },
                None => {
                    best = Some(j);
                },
            }
        }
        j += 1;
    }
    match best {
        Some(b) => {
            assert(is_pick(sl, l, max as int, need@, b as int));
            proof {
                let c = choose|c: int| is_pick(sl, l, max as int, need@, c);
                lemma_pick_unique(sl, l, max as int, need@, b as int, c);
            }
        },
        None => {
            assert forall|c: int| !is_pick(sl, l, max as int, need@, c) by {
                if is_pick(sl, l, max as int, need@, c) {
                    assert(eligible(sl, l, max as int, need@, c));
                }
            }
        },
    }
    best
}

/// `j` is the first eligible executor at or after `from`.
pub open spec fn first_from(slots: Seq<SlotView>, loads: Seq<int>, max: int, need: Seq<String>, from: int, j: int) -> bool {
    eligible(slots, loads, max, need, j) && from <= j && forall|k: int|
        from <= k < j ==> !#[trigger] eligible(slots, loads, max, need, k)
}

/// The first eligible executor at or after `cursor`, or else the first
/// eligible one.
pub open spec fn rr_pick(slots: Seq<SlotView>, loads: Seq<int>, max: int, need: Seq<String>, cursor: int) -> Option<
    int,
> {
    if exists|j: int| first_from(slots, loads, max, need, cursor, j) {
        Some(choose|j: int| first_from(slots, loads, max, need, cursor, j))
    } else if exists|j: int| first_from(slots, loads, max, need, 0, j) {
        Some(choose|j: int| first_from(slots, loads, max, need, 0, j))
    } else {
        None
    }
}

/// Loads and cursor after placing every request of `needs` in turn, round
/// robin; the cursor starts at the first executor.
pub open spec fn rr_after(slots: Seq<SlotView>, loads: Seq<int>, max: int, needs: Seq<Seq<String>>) -> (
    Seq<int>,
    int,
)
    decreases needs.len(),
{
    if needs.len() == 0 {
        (loads, 0)
    } else {
        let (l, c) = rr_after(slots, loads, max, needs.drop_last());
        match rr_pick(slots, l, max, needs.last(), c) {
            Some(j) => (l.update(j, l[j] + 1), j + 1),
            None => (l, c),
        }
    }
}

pub open spec fn rr_placement(
    slots: Seq<SlotView>,
    loads: Seq<int>,
    max: int,
    needs: Seq<Seq<String>>,
    i: int,
) -> Option<int> {
    let (l, c) = rr_after(slots, loads, max, needs.take(i));
    rr_pick(slots, l, max, needs[i], c)
}

/// The executor chosen for request `i` under `strategy`.
pub open spec fn strategy_placement(
    strategy: AllocatorStrategy,
    slots: Seq<SlotView>,
    loads: Seq<int>,
    max: int,
    needs: Seq<Seq<String>>,
    i: int,
) -> Option<int> {
    match strategy {
        AllocatorStrategy::LeastLoaded => placement(slots, loads, max, needs, i),
        AllocatorStrategy::RoundRobin => rr_placement(slots, loads, max, needs, i),
    }
}

/// A placement names one of the executors.
pub proof fn lemma_placement_in_range(
    strategy: AllocatorStrategy,
    slots: Seq<SlotView>,
    loads: Seq<int>,
    max: int,
    needs: Seq<Seq<String>>,
    i: int,
)
    ensures
        strategy_placement(strategy, slots, loads, max, needs, i) matches Some(j) ==> 0 <= j
            < slots.len(),
{
    match strategy {
        AllocatorStrategy::LeastLoaded => {
            let l = loads_after(slots, loads, max, needs.take(i));
            if exists|j: int| is_pick(slots, l, max, needs[i], j) {
                let j = choose|j: int| is_pick(slots, l, max, needs[i], j);
                assert(is_pick(slots, l, max, needs[i], j));
            }
        },
        AllocatorStrategy::RoundRobin => {
            let (l, c) = rr_after(slots, loads, max, needs.take(i));
            if exists|j: int| first_from(slots, l, max, needs[i], c, j) {
                let j = choose|j: int| first_from(slots, l, max, needs[i], c, j);
                assert(first_from(slots, l, max, needs[i], c, j));
            } else if exists|j: int| first_from(slots, l, max, needs[i], 0, j) {
                let j = choose|j: int| first_from(slots, l, max, needs[i], 0, j);
                assert(first_from(slots, l, max, needs[i], 0, j));
            }
        },
    }
}

proof fn lemma_first_from_unique(
    slots: Seq<SlotView>,
    loads: Seq<int>,
    max: int,
    need: Seq<String>,
    from: int,
    a: int,
    b: int,
)
    requires
        first_from(slots, loads, max, need, from, a),
        first_from(slots, loads, max, need, from, b),
    ensures
        a == b,
{
    if a < b {
        assert(eligible(slots, loads, max, need, a));
    } else if b < a {
        assert(eligible(slots, loads, max, need, b));
    }
}

pub open spec fn int_loads(loads: Seq<u64>) -> Seq<int> {
    Seq::new(loads.len(), |j: int| loads[j] as int)
}

/// The first eligible executor in `from .. upto`, if any.
fn first_eligible(
    execs: &Vec<ExecutorLoad>,
    loads: &Vec<u64>,
    max: u64,
    need: &Vec<String>,
    from: usize,
    upto: usize,
) -> (r: Option<usize>)
    requires
        loads@.len() == execs@.len(),
        from <= upto <= execs@.len(),
    ensures
        match r {
            Some(j) => first_from(
                slots_of(execs@),
                int_loads(loads@),
                max as int,
                need@,
                from as int,
                j as int,
            ) && j < upto,
            None => forall|k: int|
                from <= k < upto ==> !#[trigger] eligible(
                    slots_of(execs@),
                    int_loads(loads@),
                    max as int,
                    need@,
                    k,
                ),
        },
{
    let ghost l = int_loads(loads@);
    let ghost sl = slots_of(execs@);
    let mut j = from;
    while j < upto
        invariant
            from <= j <= upto <= execs@.len(),
            loads@.len() == execs@.len(),
            l == int_loads(loads@),
            sl == slots_of(execs@),
            forall|k: int| from <= k < j ==> !#[trigger] eligible(sl, l, max as int, need@, k),
        decreases upto - j,
    {
        let e = &execs[j];
        if !e.lost && loads[j] < max && covers_labels(&e.labels, need) {
            return Some(j);
        }
        j += 1;
    }
    None
}

fn choose_round_robin(
    execs: &Vec<ExecutorLoad>,
    loads: &Vec<u64>,
    max: u64,
    need: &Vec<String>,
    cursor: usize,
) -> (r: Option<usize>)
    requires
        loads@.len() == execs@.len(),
        cursor <= execs@.len(),
    ensures
        opt_index(r) == rr_pick(
            slots_of(execs@),
            int_loads(loads@),
            max as int,
            need@,
            cursor as int,
        ),
{
    let ghost l = int_loads(loads@);
    let ghost sl = slots_of(execs@);
    let n = execs.len();
    match first_eligible(execs, loads, max, need, cursor, n) {
        Some(j) => {
            proof {
                let c = choose|c: int| first_from(sl, l, max as int, need@, cursor as int, c);
                lemma_first_from_unique(sl, l, max as int, need@, cursor as int, j as int, c);
            }
            Some(j)
        },
        None => {
            assert(!exists|j: int| first_from(sl, l, max as int, need@, cursor as int, j));
            let r = first_eligible(execs, loads, max, need, 0, cursor);
            match r {
                Some(j) => {
                    proof {
                        let c = choose|c: int| first_from(sl, l, max as int, need@, 0, c);
                        lemma_first_from_unique(sl, l, max as int, need@, 0, j as int, c);
                    }
                },
                None => {
                    assert(!exists|j: int| first_from(sl, l, max as int, need@, 0, j));
                },
            }
            r
        },
    }
}

impl TaskAllocator {
    /// A least-loaded allocator.
    pub fn new(max_concurrent_tasks: u64) -> (r: TaskAllocator)
        ensures
            r.max_concurrent_tasks == max_concurrent_tasks,
            r.strategy == AllocatorStrategy::LeastLoaded,
    {
        TaskAllocator { max_concurrent_tasks, strategy: AllocatorStrategy::LeastLoaded }
    }

    pub fn with_strategy(max_concurrent_tasks: u64, strategy: AllocatorStrategy) -> (r: TaskAllocator)
        ensures
            r.max_concurrent_tasks == max_concurrent_tasks,
            r.strategy == strategy,
    {
        TaskAllocator { max_concurrent_tasks, strategy }
    }

    /// Places each request in turn under the allocator's strategy; the plan
    /// records, per request, the executor chosen or `None` when none could
    /// take it.
    pub fn allocate_tasks(&self, execs: &Vec<ExecutorLoad>, reqs: &Vec<AllocationRequest>) -> (r:
        TaskAllocationPlan)
        ensures
            r.placements@.len() == reqs@.len(),
            forall|i: int|
                0 <= i < reqs@.len() ==> opt_index(#[trigger] r.placements@[i]) == strategy_placement(
                    self.strategy,
                    slots_of(execs@),
                    initial_loads(execs@),
                    self.max_concurrent_tasks as int,
                    needs_of(reqs@),
                    i,
                ),
    {
        match self.strategy {
            AllocatorStrategy::LeastLoaded => self.allocate_least_loaded(execs, reqs),
            AllocatorStrategy::RoundRobin => self.allocate_round_robin(execs, reqs),
        }
    }

    fn allocate_round_robin(&self, execs: &Vec<ExecutorLoad>, reqs: &Vec<AllocationRequest>) -> (r:
        TaskAllocationPlan)
        ensures
            r.placements@.len() == reqs@.len(),
            forall|i: int|
                0 <= i < reqs@.len() ==> opt_index(#[trigger] r.placements@[i]) == rr_placement(
                    slots_of(execs@),
                    initial_loads(execs@),
                    self.max_concurrent_tasks as int,
                    needs_of(reqs@),
                    i,
                ),
    {
        let max = self.max_concurrent_tasks;
        let ghost l0 = initial_loads(execs@);
        let ghost sl = slots_of(execs@);
        let ghost nd = needs_of(reqs@);
        let mut loads: Vec<u64> = Vec::new();
        let mut j: usize = 0;
        while j < execs.len()
            invariant
                j <= execs@.len(),
                loads@.len() == j,
                forall|k: int| 0 <= k < j ==> loads@[k] == execs@[k].load,
            decreases execs.len() - j,
        {
            loads.push(execs[j].load);
            j += 1;
        }
        assert(Seq::new(loads@.len(), |j: int| loads@[j] as int) =~= l0);
        assert(nd.take(0) =~= Seq::<Seq<String>>::empty());
        let n = execs.len();
        let mut cursor: usize = 0;
        let mut placements: Vec<Option<usize>> = Vec::new();
        let mut i: usize = 0;
        while i < reqs.len()
            invariant
                n == execs@.len(),
                i <= reqs@.len(),
                loads@.len() == execs@.len(),
                cursor <= execs@.len(),
                l0 == initial_loads(execs@),
                max == self.max_concurrent_tasks,
                sl == slots_of(execs@),
                nd == needs_of(reqs@),
                (Seq::new(loads@.len(), |j: int| loads@[j] as int), cursor as int) == rr_after(
                    sl,
                    l0,
                    max as int,
                    nd.take(i as int),
                ),
                placements@.len() == i,
                forall|k: int|
                    0 <= k < i ==> opt_index(#[trigger] placements@[k]) == rr_placement(
                        sl,
                        l0,
                        max as int,
                        nd,
                        k,
                    ),
            decreases reqs.len() - i,
        {
            let ghost before = Seq::new(loads@.len(), |j: int| loads@[j] as int);
            let c = choose_round_robin(execs, &loads, max, &reqs[i].constraints, cursor);
            assert(nd.take(i + 1).drop_last() =~= nd.take(i as int));
            assert(nd[i as int] == reqs@[i as int].constraints@);
            match c {
                Some(b) => {
                    assert(eligible(sl, before, max as int, reqs@[i as int].constraints@, b as int));
                    let v = loads[b] + 1;
                    loads.set(b, v);
                    cursor = b + 1;
                    assert(Seq::new(loads@.len(), |j: int| loads@[j] as int) =~= before.update(
                        b as int,
                        before[b as int] + 1,
                    ));
                },
                None => {},
            }
            placements.push(c);
            i += 1;
        }
        TaskAllocationPlan { placements }
    }

    fn allocate_least_loaded(&self, execs: &Vec<ExecutorLoad>, reqs: &Vec<AllocationRequest>) -> (r:
        TaskAllocationPlan)
        ensures
            r.placements@.len() == reqs@.len(),
            forall|i: int|
                0 <= i < reqs@.len() ==> opt_index(#[trigger] r.placements@[i]) == placement(
                    slots_of(execs@),
                    initial_loads(execs@),
                    self.max_concurrent_tasks as int,
                    needs_of(reqs@),
                    i,
                ),
    {
        let max = self.max_concurrent_tasks;
        let ghost l0 = initial_loads(execs@);
        let ghost sl = slots_of(execs@);
        let ghost nd = needs_of(reqs@);
        let mut loads: Vec<u64> = Vec::new();
        let mut j: usize = 0;
        while j < execs.len()
            invariant
                j <= execs@.len(),
                loads@.len() == j,
                forall|k: int| 0 <= k < j ==> loads@[k] == execs@[k].load,
            decreases execs.len() - j,
        {
            loads.push(execs[j].load);
            j += 1;
        }
        assert(Seq::new(loads@.len(), |j: int| loads@[j] as int) =~= l0);
        assert(nd.take(0) =~= Seq::<Seq<String>>::empty());
        let mut placements: Vec<Option<usize>> = Vec::new();
        let mut i: usize = 0;
        while i < reqs.len()
            invariant
                i <= reqs@.len(),
                loads@.len() == execs@.len(),
                l0 == initial_loads(execs@),
                max == self.max_concurrent_tasks,
                sl == slots_of(execs@),
                nd == needs_of(reqs@),
                Seq::new(loads@.len(), |j: int| loads@[j] as int) == loads_after(
                    sl,
                    l0,
                    max as int,
                    nd.take(i as int),
                ),
                forall|k: int| 0 <= k < loads@.len() ==> loads@[k] <= u64::MAX,
                placements@.len() == i,
                forall|k: int|
                    0 <= k < i ==> opt_index(#[trigger] placements@[k]) == placement(
                        sl,
                        l0,
                        max as int,
                        nd,
                        k,
                    ),
            decreases reqs.len() - i,
        {
            let ghost before = Seq::new(loads@.len(), |j: int| loads@[j] as int);
            let c = choose_executor(execs, &loads, max, &reqs[i].constraints);
            assert(nd.take(i + 1).drop_last() =~= nd.take(i as int));
            assert(nd[i as int] == reqs@[i as int].constraints@);
            match c {
                Some(b) => {
                    assert(eligible(sl, before, max as int, reqs@[i as int].constraints@, b as int));
                    let v = loads[b] + 1;
                    loads.set(b, v);
                    assert(Seq::new(loads@.len(), |j: int| loads@[j] as int) =~= before.update(
                        b as int,
                        before[b as int] + 1,
                    ));
                },
                None => {},
            }
            placements.push(c);
            i += 1;
        }
        TaskAllocationPlan { placements }
    }
}

impl TaskAllocationPlan {
    pub open spec fn spec_is_empty(&self) -> bool {
        forall|i: int| 0 <= i < self.placements@.len() ==> #[trigger] self.placements@[i] is None
    }

    /// No request was placed.
    pub fn is_empty(&self) -> (r: bool)
        ensures
            r == self.spec_is_empty(),
    {
        let mut i: usize = 0;
        while i < self.placements.len()
            invariant
                i <= self.placements@.len(),
                forall|k: int| 0 <= k < i ==> #[trigger] self.placements@[k] is None,
            decreases self.placements.len() - i,
        {
            if self.placements[i].is_some() {
                return false;
            }
            i += 1;
        }
        true
    }
}

proof fn lemma_best_below(slots: Seq<SlotView>, loads: Seq<int>, max: int, need: Seq<String>, k: int) -> (b: int)
    requires
        0 <= k <= slots.len(),
        exists|j: int| 0 <= j < k && eligible(slots, loads, max, need, j),
    ensures
        0 <= b < k,
        eligible(slots, loads, max, need, b),
        forall|j: int| 0 <= j < k && eligible(slots, loads, max, need, j) ==> loads[b] <= loads[j],
        forall|j: int| 0 <= j < b && eligible(slots, loads, max, need, j) ==> loads[j] > loads[b],
    decreases k,
{
    if exists|j: int| 0 <= j < k - 1 && eligible(slots, loads, max, need, j) {
        let b1 = lemma_best_below(slots, loads, max, need, k - 1);
        if eligible(slots, loads, max, need, k - 1) && loads[k - 1] < loads[b1] {
            k - 1
        } else {
            b1
        }
    } else {
        k - 1
    }
}

/// Some executor is picked exactly when one is eligible.
proof fn lemma_pick_some(slots: Seq<SlotView>, loads: Seq<int>, max: int, need: Seq<String>)
    ensures
        pick(slots, loads, max, need) is Some <==> exists|j: int| eligible(slots, loads, max, need, j),
        pick(slots, loads, max, need) matches Some(c) ==> is_pick(slots, loads, max, need, c),
{
    if exists|j: int| eligible(slots, loads, max, need, j) {
        let j0 = choose|j: int| eligible(slots, loads, max, need, j);
        let b = lemma_best_below(slots, loads, max, need, slots.len() as int);
        assert(is_pick(slots, loads, max, need, b));
    } else {
        if exists|j: int| is_pick(slots, loads, max, need, j) {
            let j = choose|j: int| is_pick(slots, loads, max, need, j);
            assert(eligible(slots, loads, max, need, j));
        }
    }
}

proof fn lemma_extra_executor_loads(
    slots: Seq<SlotView>,
    loads: Seq<int>,
    extra: SlotView,
    extra_load: int,
    max: int,
    needs: Seq<Seq<String>>,
)
    requires
        loads.len() == slots.len(),
    ensures
        loads_after(slots, loads, max, needs).len() == slots.len(),
        loads_after(slots.push(extra), loads.push(extra_load), max, needs).len() == slots.len() + 1,
        forall|x: int|
            0 <= x < slots.len() ==> #[trigger] loads_after(
                slots.push(extra),
                loads.push(extra_load),
                max,
                needs,
            )[x] <= loads_after(slots, loads, max, needs)[x],
    decreases needs.len(),
{
    let s2 = slots.push(extra);
    let l2 = loads.push(extra_load);
    if needs.len() > 0 {
        let p = needs.drop_last();
        let need = needs.last();
        lemma_extra_executor_loads(slots, loads, extra, extra_load, max, p);
        let la = loads_after(slots, loads, max, p);
        let lb = loads_after(s2, l2, max, p);
        lemma_pick_some(slots, la, max, need);
        lemma_pick_some(s2, lb, max, need);
        let na = loads_after(slots, loads, max, needs);
        let nb = loads_after(s2, l2, max, needs);
        assert forall|j: int| 0 <= j < slots.len() implies s2[j] == slots[j] by {}
        assert forall|x: int| 0 <= x < slots.len() implies #[trigger] nb[x] <= na[x] by {
            assert(lb[x] <= la[x]);
            match pick(s2, lb, max, need) {
                None => {},
                Some(c2) => {
                    if c2 < slots.len() as int && c2 == x {
                        match pick(slots, la, max, need) {
                            Some(c) => {
                                if c != c2 && lb[c2] == la[c2] {
                                    assert(eligible(slots, la, max, need, c2));
                                    assert(eligible(slots, la, max, need, c));
                                    assert(eligible(s2, lb, max, need, c));
                                    assert(la[c] <= la[c2]);
                                    assert(lb[c2] <= lb[c]);
                                    if c < c2 {
                                        assert(lb[c] > lb[c2]);
                                    } else {
                                        assert(la[c2] > la[c]);
                                    }
                                }
                            },
                            None => {
                                if lb[c2] == la[c2] {
                                    assert(eligible(s2, lb, max, need, c2));
                                    assert(eligible(slots, la, max, need, c2));
                                }
                            },
                        }
                    }
                },
            }
        }
    }
}

/// Adding an executor at the end of the list never leaves unplaced a
/// request that was placed without it, under least-loaded placement.
pub proof fn lemma_added_executor_never_unplaces(
    slots: Seq<SlotView>,
    loads: Seq<int>,
    extra: SlotView,
    extra_load: int,
    max: int,
    needs: Seq<Seq<String>>,
    i: int,
)
    requires
        loads.len() == slots.len(),
        0 <= i < needs.len(),
    ensures
        placement(slots, loads, max, needs, i) is Some ==> placement(
            slots.push(extra),
            loads.push(extra_load),
            max,
            needs,
            i,
        ) is Some,
{
    let s2 = slots.push(extra);
    let l2 = loads.push(extra_load);
    lemma_extra_executor_loads(slots, loads, extra, extra_load, max, needs.take(i));
    let la = loads_after(slots, loads, max, needs.take(i));
    let lb = loads_after(s2, l2, max, needs.take(i));
    lemma_pick_some(slots, la, max, needs[i]);
    lemma_pick_some(s2, lb, max, needs[i]);
    if pick(slots, la, max, needs[i]) is Some {
        let c = pick(slots, la, max, needs[i])->Some_0;
        assert(eligible(slots, la, max, needs[i], c));
        assert(s2[c] == slots[c]);
        assert(lb[c] <= la[c]);
        assert(eligible(s2, lb, max, needs[i], c));
    }
}

} // verus!
