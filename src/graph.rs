//! Compute graph structure: node lookup, the successor relation, reachability
//! from the start function, and validation of a graph before it is stored.
use vstd::prelude::*;
use crate::model::{seq_has, vec_has, ComputeGraph, Node};

verus! {

pub enum GraphError {
    DuplicateNodeName,
    UnknownEdgeSource,
    DuplicateEdgeSource,
    UnknownEdgeTarget,
    UnknownRouterTarget,
    StartFnIsRouter,
    StartFnMissing,
    Cycle,
}

pub open spec fn node_name(g: ComputeGraph, i: int) -> Seq<char> {
    g.nodes@[i].spec_name()
}

pub open spec fn has_node(g: ComputeGraph, a: Seq<char>) -> bool {
    exists|i: int| 0 <= i < g.nodes@.len() && #[trigger] node_name(g, i) == a
}

/// `b` is listed under `a` in the static edges.
pub open spec fn static_edge(g: ComputeGraph, a: Seq<char>, b: Seq<char>) -> bool {
    exists|k: int, m: int|
        0 <= k < g.edges@.len() && 0 <= m < g.edges@[k].1@.len() && #[trigger] g.edges@[k].0@
            == a && #[trigger] g.edges@[k].1@[m]@ == b
}

/// `n` is a router that declares `b` among its targets.
pub open spec fn router_edge(n: Node, b: Seq<char>) -> bool {
    match n {
        Node::Router(r) => seq_has(r.target_functions@, b),
        Node::Compute(_) => false,
    }
}

/// Node `j` may follow node `i`: by a static edge, or as a router's target.
pub open spec fn succ(g: ComputeGraph, i: int, j: int) -> bool {
    static_edge(g, node_name(g, i), node_name(g, j)) || router_edge(g.nodes@[i], node_name(g, j))
}

/// `p` is a walk: a sequence of node indices, each followed by a successor.
pub open spec fn is_walk(g: ComputeGraph, p: Seq<int>) -> bool {
    p.len() >= 1 && (forall|i: int| 0 <= i < p.len() ==> 0 <= #[trigger] p[i] < g.nodes@.len())
        && forall|i: int| 0 <= i < p.len() - 1 ==> #[trigger] succ(g, p[i], p[i + 1])
}

/// Node `v` is reached from node `s` by some walk.
pub open spec fn reachable(g: ComputeGraph, s: int, v: int) -> bool {
    exists|p: Seq<int>| #[trigger] is_walk(g, p) && p[0] == s && p.last() == v
}

/// `r` ranks the nodes reached from `s` so that it grows along every edge
/// between them.
pub open spec fn rank_ok(g: ComputeGraph, s: int, r: Seq<int>) -> bool {
    r.len() == g.nodes@.len() && forall|u: int, v: int|
        #![trigger succ(g, u, v), r[u], r[v]]
        reachable(g, s, u) && reachable(g, s, v) && succ(g, u, v) ==> r[u] < r[v]
}

pub open spec fn acyclic_from(g: ComputeGraph, s: int) -> bool {
    exists|r: Seq<int>| #[trigger] rank_ok(g, s, r)
}

pub open spec fn names_unique(g: ComputeGraph) -> bool {
    forall|i: int, j: int|
        0 <= i < j < g.nodes@.len() ==> #[trigger] node_name(g, i) != #[trigger] node_name(g, j)
}

pub open spec fn edge_sources_known(g: ComputeGraph) -> bool {
    forall|k: int| 0 <= k < g.edges@.len() ==> has_node(g, #[trigger] g.edges@[k].0@)
}

pub open spec fn edge_sources_unique(g: ComputeGraph) -> bool {
    forall|k: int, l: int|
        0 <= k < l < g.edges@.len() ==> #[trigger] g.edges@[k].0@ != #[trigger] g.edges@[l].0@
}

pub open spec fn edge_targets_known(g: ComputeGraph) -> bool {
    forall|k: int, m: int|
        0 <= k < g.edges@.len() && 0 <= m < g.edges@[k].1@.len() ==> has_node(
            g,
            #[trigger] g.edges@[k].1@[m]@,
        )
}

pub open spec fn router_targets_known(g: ComputeGraph) -> bool {
    forall|i: int, m: int|
        0 <= i < g.nodes@.len() && (#[trigger] g.nodes@[i]) is Router && 0 <= m
            < g.nodes@[i]->Router_0.target_functions@.len() ==> has_node(
            g,
            #[trigger] g.nodes@[i]->Router_0.target_functions@[m]@,
        )
}

/// The subgraph reached from the node that carries the start function's
/// name has no cycle.
pub open spec fn start_acyclic(g: ComputeGraph) -> bool {
    forall|s: int|
        0 <= s < g.nodes@.len() && #[trigger] node_name(g, s) == g.start_fn.spec_name()
            ==> acyclic_from(g, s)
}

/// The outcome of validation: the first rule that the graph breaks.
pub open spec fn graph_check(g: ComputeGraph) -> Result<(), GraphError> {
    if !names_unique(g) {
        Err(GraphError::DuplicateNodeName)
    } else if !edge_sources_known(g) {
        Err(GraphError::UnknownEdgeSource)
    } else if !edge_sources_unique(g) {
        Err(GraphError::DuplicateEdgeSource)
    } else if !edge_targets_known(g) {
        Err(GraphError::UnknownEdgeTarget)
    } else if !router_targets_known(g) {
        Err(GraphError::UnknownRouterTarget)
    } else if g.start_fn is Router {
        Err(GraphError::StartFnIsRouter)
    } else if !has_node(g, g.start_fn.spec_name()) {
        Err(GraphError::StartFnMissing)
    } else if !start_acyclic(g) {
        Err(GraphError::Cycle)
    } else {
        Ok(())
    }
}

pub open spec fn graph_valid(g: ComputeGraph) -> bool {
    graph_check(g) is Ok
}

pub open spec fn first_node(g: ComputeGraph, a: Seq<char>, i: int) -> bool {
    0 <= i < g.nodes@.len() && node_name(g, i) == a && forall|j: int| 0 <= j < i ==> #[trigger] node_name(g, j) != a
}

/// The first node named `a`.
pub open spec fn node_index(g: ComputeGraph, a: Seq<char>) -> Option<int> {
    if exists|i: int| first_node(g, a, i) {
        Some(choose|i: int| first_node(g, a, i))
    } else {
        None
    }
}

pub open spec fn first_edge(g: ComputeGraph, a: Seq<char>, k: int) -> bool {
    0 <= k < g.edges@.len() && g.edges@[k].0@ == a && forall|j: int| 0 <= j < k ==> #[trigger] g.edges@[j].0@ != a
}

/// The static successors of `a`: those of its first entry, or none.
pub open spec fn edge_targets(g: ComputeGraph, a: Seq<char>) -> Seq<String> {
    if exists|k: int| first_edge(g, a, k) {
        g.edges@[choose|k: int| first_edge(g, a, k)].1@
    } else {
        Seq::empty()
    }
}

pub open spec fn opt_int(o: Option<usize>) -> Option<int> {
    match o {
        Some(i) => Some(i as int),
        None => None,
    }
}

/// Index of the first node named `a`.
pub fn find_node(g: &ComputeGraph, a: &String) -> (r: Option<usize>)
    ensures
        match r {
            Some(i) => i < g.nodes@.len() && node_name(*g, i as int) == a@ && forall|j: int|
                0 <= j < i ==> node_name(*g, j) != a@,
            None => !has_node(*g, a@),
        },
        opt_int(r) == node_index(*g, a@),
{
    let mut i: usize = 0;
    while i < g.nodes.len()
        invariant
            i <= g.nodes@.len(),
            forall|j: int| 0 <= j < i ==> node_name(*g, j) != a@,
        decreases g.nodes.len() - i,
    {
        if *g.nodes[i].name() == *a {
            proof {
                assert(first_node(*g, a@, i as int));
                let c = choose|c: int| first_node(*g, a@, c);
                if c < i {
                    assert(node_name(*g, c) != a@);
                } else if c > i {
                    assert(node_name(*g, i as int) != a@);
                }
            }
            return Some(i);
        }
        i += 1;
    }
    None
}

/// The static successors listed for `a`, if `a` has an entry.
pub fn find_edges<'a>(g: &'a ComputeGraph, a: &String) -> (r: Option<&'a Vec<String>>)
    ensures
        match r {
            Some(v) => v@ == edge_targets(*g, a@),
            None => edge_targets(*g, a@) == Seq::<String>::empty(),
        },
{
    let mut k: usize = 0;
    while k < g.edges.len()
        invariant
            k <= g.edges@.len(),
            forall|j: int| 0 <= j < k ==> #[trigger] g.edges@[j].0@ != a@,
        decreases g.edges.len() - k,
    {
        if g.edges[k].0 == *a {
            proof {
                assert(first_edge(*g, a@, k as int));
                let c = choose|c: int| first_edge(*g, a@, c);
                if c < k {
                    assert(g.edges@[c].0@ != a@);
                } else if c > k {
                    assert(g.edges@[k as int].0@ != a@);
                }
            }
            return Some(&g.edges[k].1);
        }
        k += 1;
    }
    None
}

pub fn has_static_edge(g: &ComputeGraph, a: &String, b: &String) -> (r: bool)
    ensures
        r == static_edge(*g, a@, b@),
{
    let mut k: usize = 0;
    while k < g.edges.len()
        invariant
            k <= g.edges@.len(),
            forall|j: int, m: int|
                0 <= j < k && 0 <= m < g.edges@[j].1@.len() ==> !(#[trigger] g.edges@[j].0@ == a@
                    && #[trigger] g.edges@[j].1@[m]@ == b@),
        decreases g.edges.len() - k,
    {
        if g.edges[k].0 == *a && vec_has(&g.edges[k].1, b) {
            return true;
        }
        k += 1;
    }
    false
}

pub fn has_edge(g: &ComputeGraph, i: usize, j: usize) -> (r: bool)
    requires
        i < g.nodes@.len(),
        j < g.nodes@.len(),
    ensures
        r == succ(*g, i as int, j as int),
{
    let b = g.nodes[j].name();
    if has_static_edge(g, g.nodes[i].name(), b) {
        return true;
    }
    match &g.nodes[i] {
        Node::Router(rt) => vec_has(&rt.target_functions, b),
        Node::Compute(_) => false,
    }
}

/// Number of `false` entries.
pub open spec fn count_false(s: Seq<bool>) -> nat
    decreases s.len(),
{
    if s.len() == 0 {
        0
    } else {
        count_false(s.drop_last()) + if s.last() {
            0nat
        } else {
            1nat
        }
    }
}

proof fn lemma_count_false_mark(s: Seq<bool>, i: int)
    requires
        0 <= i < s.len(),
        !s[i],
    ensures
        count_false(s.update(i, true)) + 1 == count_false(s),
    decreases s.len(),
{
    let t = s.update(i, true);
    if i == s.len() - 1 {
        assert(t.drop_last() =~= s.drop_last());
    } else {
        lemma_count_false_mark(s.drop_last(), i);
        assert(t.drop_last() =~= s.drop_last().update(i, true));
    }
}

proof fn lemma_count_false_bound(s: Seq<bool>)
    ensures
        count_false(s) <= s.len(),
    decreases s.len(),
{
    if s.len() > 0 {
        lemma_count_false_bound(s.drop_last());
    }
}

proof fn lemma_count_false_zero(s: Seq<bool>, i: int)
    requires
        count_false(s) == 0,
        0 <= i < s.len(),
    ensures
        s[i],
    decreases s.len(),
{
    if i < s.len() - 1 {
        lemma_count_false_zero(s.drop_last(), i);
    }
}

proof fn lemma_reachable_start(g: ComputeGraph, s: int)
    requires
        0 <= s < g.nodes@.len(),
    ensures
        reachable(g, s, s),
{
    let p = seq![s];
    assert(is_walk(g, p));
}

proof fn lemma_reachable_step(g: ComputeGraph, s: int, u: int, v: int)
    requires
        reachable(g, s, u),
        0 <= v < g.nodes@.len(),
        succ(g, u, v),
    ensures
        reachable(g, s, v),
{
    let p = choose|p: Seq<int>| #[trigger] is_walk(g, p) && p[0] == s && p.last() == u;
    let q = p.push(v);
    assert forall|i: int| 0 <= i < q.len() - 1 implies #[trigger] succ(g, q[i], q[i + 1]) by {
        if i < p.len() - 1 {
            assert(succ(g, p[i], p[i + 1]));
        }
    }
    assert(is_walk(g, q));
}

proof fn lemma_closed_complete(g: ComputeGraph, s: int, marks: Seq<bool>, p: Seq<int>, k: int)
    requires
        marks.len() == g.nodes@.len(),
        0 <= s < marks.len(),
        marks[s],
        forall|a: int, b: int|
            0 <= a < marks.len() && 0 <= b < marks.len() && marks[a] && #[trigger] succ(g, a, b)
                ==> marks[b],
        is_walk(g, p),
        p[0] == s,
        0 <= k < p.len(),
    ensures
        marks[p[k]],
    decreases k,
{
    if k > 0 {
        lemma_closed_complete(g, s, marks, p, k - 1);
        assert(succ(g, p[k - 1], p[(k - 1) + 1]));
    }
}

/// Marks exactly the nodes reached from `s`.
pub fn reachable_set(g: &ComputeGraph, s: usize) -> (marks: Vec<bool>)
    requires
        s < g.nodes@.len(),
    ensures
        marks@.len() == g.nodes@.len(),
        forall|v: int| 0 <= v < g.nodes@.len() ==> marks@[v] == reachable(*g, s as int, v),
{
    let n = g.nodes.len();
    let mut marks: Vec<bool> = Vec::new();
    let mut i: usize = 0;
    while i < n
        invariant
            i <= n,
            n == g.nodes@.len(),
            marks@.len() == i,
            forall|j: int| 0 <= j < i ==> marks@[j] == (j == s),
        decreases n - i,
    {
        marks.push(i == s);
        i += 1;
    }
    proof {
        lemma_reachable_start(*g, s as int);
    }
    loop
        invariant
            n == g.nodes@.len(),
            s < n,
            marks@.len() == n,
            marks@[s as int],
            forall|v: int| 0 <= v < n && #[trigger] marks@[v] ==> reachable(*g, s as int, v),
        decreases count_false(marks@),
    {
        let ghost start = count_false(marks@);
        let mut changed = false;
        let mut u: usize = 0;
        while u < n
            invariant
                n == g.nodes@.len(),
                s < n,
                u <= n,
                marks@.len() == n,
                marks@[s as int],
                forall|v: int| 0 <= v < n && #[trigger] marks@[v] ==> reachable(*g, s as int, v),
                count_false(marks@) <= start,
                changed ==> count_false(marks@) < start,
                !changed ==> forall|a: int, b: int|
                    0 <= a < u && 0 <= b < n && marks@[a] && #[trigger] succ(*g, a, b) ==> marks@[b],
            decreases n - u,
        {
            if marks[u] {
                let mut v: usize = 0;
                while v < n
                    invariant
                        n == g.nodes@.len(),
                        s < n,
                        u < n,
                        v <= n,
                        marks@.len() == n,
                        marks@[s as int],
                        marks@[u as int],
                        forall|w: int|
                            0 <= w < n && #[trigger] marks@[w] ==> reachable(*g, s as int, w),
                        count_false(marks@) <= start,
                        changed ==> count_false(marks@) < start,
                        !changed ==> forall|a: int, b: int|
                            0 <= a < u && 0 <= b < n && marks@[a] && #[trigger] succ(*g, a, b)
                                ==> marks@[b],
                        !changed ==> forall|b: int|
                            0 <= b < v && #[trigger] succ(*g, u as int, b) ==> marks@[b],
                    decreases n - v,
                {
                    if !marks[v] && has_edge(g, u, v) {
                        proof {
                            lemma_count_false_mark(marks@, v as int);
                            lemma_reachable_step(*g, s as int, u as int, v as int);
                        }
                        marks.set(v, true);
                        changed = true;
                    }
                    v += 1;
                }
            }
            u += 1;
        }
        if !changed {
            proof {
                assert forall|v: int| 0 <= v < n && reachable(*g, s as int, v) implies marks@[v] by {
                    let p = choose|p: Seq<int>|
                        #[trigger] is_walk(*g, p) && p[0] == s as int && p.last() == v;
                    lemma_closed_complete(*g, s as int, marks@, p, p.len() - 1);
                }
            }
            return marks;
        }
    }
}

/// Some entering edge of `u` comes from a node of `inset` not yet removed.
pub open spec fn blocked(g: ComputeGraph, inset: Seq<bool>, removed: Seq<bool>, u: int) -> bool {
    exists|w: int|
        0 <= w < g.nodes@.len() && inset[w] && !removed[w] && #[trigger] succ(g, w, u)
}

fn is_blocked(g: &ComputeGraph, inset: &Vec<bool>, removed: &Vec<bool>, u: usize) -> (r: bool)
    requires
        inset@.len() == g.nodes@.len(),
        removed@.len() == g.nodes@.len(),
        u < g.nodes@.len(),
    ensures
        r == blocked(*g, inset@, removed@, u as int),
{
    let mut w: usize = 0;
    while w < g.nodes.len()
        invariant
            w <= g.nodes@.len(),
            inset@.len() == g.nodes@.len(),
            removed@.len() == g.nodes@.len(),
            u < g.nodes@.len(),
            forall|b: int|
                0 <= b < w && inset@[b] && !removed@[b] ==> !#[trigger] succ(*g, b, u as int),
        decreases g.nodes.len() - w,
    {
        if inset[w] && !removed[w] && has_edge(g, w, u) {
            return true;
        }
        w += 1;
    }
    false
}

fn find_free(g: &ComputeGraph, inset: &Vec<bool>, removed: &Vec<bool>) -> (r: Option<usize>)
    requires
        inset@.len() == g.nodes@.len(),
        removed@.len() == g.nodes@.len(),
    ensures
        match r {
            Some(u) => u < g.nodes@.len() && !removed@[u as int] && !blocked(
                *g,
                inset@,
                removed@,
                u as int,
            ),
            None => forall|a: int|
                0 <= a < g.nodes@.len() ==> removed@[a] || #[trigger] blocked(*g, inset@, removed@, a),
        },
{
    let mut u: usize = 0;
    while u < g.nodes.len()
        invariant
            u <= g.nodes@.len(),
            inset@.len() == g.nodes@.len(),
            removed@.len() == g.nodes@.len(),
            forall|a: int| 0 <= a < u ==> removed@[a] || #[trigger] blocked(*g, inset@, removed@, a),
        decreases g.nodes.len() - u,
    {
        if !removed[u] && !is_blocked(g, inset, removed, u) {
            return Some(u);
        }
        u += 1;
    }
    None
}

proof fn lemma_min_index(r: Seq<int>, removed: Seq<bool>, k: int) -> (m: int)
    requires
        0 < k <= removed.len(),
        removed.len() <= r.len(),
        exists|i: int| 0 <= i < k && !removed[i],
    ensures
        0 <= m < k,
        !removed[m],
        forall|i: int| 0 <= i < k && !removed[i] ==> r[m] <= r[i],
    decreases k,
{
    if exists|i: int| 0 <= i < k - 1 && !removed[i] {
        let m1 = lemma_min_index(r, removed, k - 1);
        if !removed[k - 1] && r[k - 1] < r[m1] {
            k - 1
        } else {
            m1
        }
    } else {
        k - 1
    }
}

/// Removes, one at a time, nodes of `inset` with no entering edge from the
/// rest of `inset`; the subgraph is acyclic exactly when all go.
fn acyclic_check(g: &ComputeGraph, s: usize, inset: &Vec<bool>) -> (r: bool)
    requires
        s < g.nodes@.len(),
        inset@.len() == g.nodes@.len(),
        forall|v: int| 0 <= v < g.nodes@.len() ==> inset@[v] == reachable(*g, s as int, v),
    ensures
        r == acyclic_from(*g, s as int),
{
    let n = g.nodes.len();
    let mut removed: Vec<bool> = Vec::new();
    let mut rank: Vec<usize> = Vec::new();
    let mut i: usize = 0;
    while i < n
        invariant
            i <= n,
            n == inset@.len(),
            removed@.len() == i,
            rank@.len() == i,
            forall|j: int| 0 <= j < i ==> removed@[j] == !inset@[j],
        decreases n - i,
    {
        removed.push(!inset[i]);
        rank.push(0);
        i += 1;
    }
    proof {
        lemma_count_false_bound(removed@);
    }
    let mut counter: usize = 0;
    loop
        invariant
            n == g.nodes@.len(),
            s < n,
            inset@.len() == n,
            forall|v: int| 0 <= v < n ==> inset@[v] == reachable(*g, s as int, v),
            removed@.len() == n,
            rank@.len() == n,
            forall|v: int| 0 <= v < n && !inset@[v] ==> removed@[v],
            forall|u: int, v: int|
                0 <= u < n && 0 <= v < n && inset@[u] && inset@[v] && #[trigger] succ(*g, u, v)
                    && removed@[v] ==> removed@[u] && rank@[u] < rank@[v],
            forall|u: int| 0 <= u < n && inset@[u] && removed@[u] ==> rank@[u] < counter,
            counter + count_false(removed@) <= n,
        decreases count_false(removed@),
    {
        match find_free(g, inset, &removed) {
            Some(u) => {
                proof {
                    lemma_count_false_mark(removed@, u as int);
                }
                removed.set(u, true);
                rank.set(u, counter);
                counter += 1;
            },
            None => {
                let mut j: usize = 0;
                while j < n
                    invariant
                        j <= n,
                        n == g.nodes@.len(),
                        inset@.len() == n,
                        forall|v: int| 0 <= v < n ==> inset@[v] == reachable(*g, s as int, v),
                        removed@.len() == n,
                        rank@.len() == n,
                        forall|v: int| 0 <= v < n && !inset@[v] ==> removed@[v],
                        forall|u: int, v: int|
                            0 <= u < n && 0 <= v < n && inset@[u] && inset@[v] && #[trigger] succ(
                                *g,
                                u,
                                v,
                            ) && removed@[v] ==> removed@[u] && rank@[u] < rank@[v],
                        forall|a: int|
                            0 <= a < n ==> removed@[a] || #[trigger] blocked(*g, inset@, removed@, a),
                        forall|a: int| 0 <= a < j ==> removed@[a],
                    decreases n - j,
                {
                    if !removed[j] {
                        proof {
                            assert forall|r: Seq<int>| !rank_ok(*g, s as int, r) by {
                                if rank_ok(*g, s as int, r) {
                                    let m = lemma_min_index(r, removed@, n as int);
                                    assert(blocked(*g, inset@, removed@, m));
                                    let w = choose|w: int|
                                        0 <= w < n && inset@[w] && !removed@[w] && #[trigger] succ(
                                            *g,
                                            w,
                                            m,
                                        );
                                    assert(r[w] < r[m]);
                                }
                            }
                        }
                        return false;
                    }
                    j += 1;
                }
                let ghost rk = Seq::new(n as nat, |i: int| rank@[i] as int);
                assert(rank_ok(*g, s as int, rk));
                return true;
            },
        }
    }
}

fn check_names_unique(g: &ComputeGraph) -> (r: bool)
    ensures
        r == names_unique(*g),
{
    let n = g.nodes.len();
    let mut j: usize = 0;
    while j < n
        invariant
            n == g.nodes@.len(),
            j <= n,
            forall|a: int, b: int| 0 <= a < b < j ==> #[trigger] node_name(*g, a) != #[trigger] node_name(*g, b),
        decreases n - j,
    {
        let mut i: usize = 0;
        while i < j
            invariant
                n == g.nodes@.len(),
                i <= j < n,
                forall|a: int, b: int| 0 <= a < b < j ==> #[trigger] node_name(*g, a) != #[trigger] node_name(*g, b),
                forall|a: int| 0 <= a < i ==> #[trigger] node_name(*g, a) != node_name(*g, j as int),
            decreases j - i,
        {
            if *g.nodes[i].name() == *g.nodes[j].name() {
                assert(node_name(*g, i as int) == node_name(*g, j as int));
                return false;
            }
            i += 1;
        }
        j += 1;
    }
    true
}

fn check_edge_sources(g: &ComputeGraph) -> (r: Option<GraphError>)
    ensures
        r == (if !edge_sources_known(*g) {
            Some(GraphError::UnknownEdgeSource)
        } else if !edge_sources_unique(*g) {
            Some(GraphError::DuplicateEdgeSource)
        } else {
            None::<GraphError>
        }),
{
    let m = g.edges.len();
    let mut k: usize = 0;
    while k < m
        invariant
            m == g.edges@.len(),
            k <= m,
            forall|j: int| 0 <= j < k ==> has_node(*g, #[trigger] g.edges@[j].0@),
        decreases m - k,
    {
        if find_node(g, &g.edges[k].0).is_none() {
            return Some(GraphError::UnknownEdgeSource);
        }
        k += 1;
    }
    let mut l: usize = 0;
    while l < m
        invariant
            m == g.edges@.len(),
            l <= m,
            edge_sources_known(*g),
            forall|a: int, b: int|
                0 <= a < b < l ==> #[trigger] g.edges@[a].0@ != #[trigger] g.edges@[b].0@,
        decreases m - l,
    {
        let mut i: usize = 0;
        while i < l
            invariant
                m == g.edges@.len(),
                i <= l < m,
                edge_sources_known(*g),
                forall|a: int, b: int|
                    0 <= a < b < l ==> #[trigger] g.edges@[a].0@ != #[trigger] g.edges@[b].0@,
                forall|a: int| 0 <= a < i ==> #[trigger] g.edges@[a].0@ != g.edges@[l as int].0@,
            decreases l - i,
        {
            if g.edges[i].0 == g.edges[l].0 {
                assert(g.edges@[i as int].0@ == g.edges@[l as int].0@);
                return Some(GraphError::DuplicateEdgeSource);
            }
            i += 1;
        }
        l += 1;
    }
    None
}

/// Every name of `names` is a node of `g`.
fn all_known(g: &ComputeGraph, names: &Vec<String>) -> (r: bool)
    ensures
        r == forall|m: int| 0 <= m < names@.len() ==> has_node(*g, #[trigger] names@[m]@),
{
    let mut m: usize = 0;
    while m < names.len()
        invariant
            m <= names@.len(),
            forall|j: int| 0 <= j < m ==> has_node(*g, #[trigger] names@[j]@),
        decreases names.len() - m,
    {
        if find_node(g, &names[m]).is_none() {
            return false;
        }
        m += 1;
    }
    true
}

fn check_edge_targets(g: &ComputeGraph) -> (r: bool)
    ensures
        r == edge_targets_known(*g),
{
    let mut k: usize = 0;
    while k < g.edges.len()
        invariant
            k <= g.edges@.len(),
            forall|j: int, m: int|
                0 <= j < k && 0 <= m < g.edges@[j].1@.len() ==> has_node(
                    *g,
                    #[trigger] g.edges@[j].1@[m]@,
                ),
        decreases g.edges.len() - k,
    {
        if !all_known(g, &g.edges[k].1) {
            assert(!edge_targets_known(*g)) by {
                let m = choose|m: int|
                    0 <= m < g.edges@[k as int].1@.len() && !has_node(*g, #[trigger] g.edges@[k as int].1@[m]@);
                assert(!has_node(*g, g.edges@[k as int].1@[m]@));
            }
            return false;
        }
        k += 1;
    }
    true
}

fn check_router_targets(g: &ComputeGraph) -> (r: bool)
    ensures
        r == router_targets_known(*g),
{
    let mut i: usize = 0;
    while i < g.nodes.len()
        invariant
            i <= g.nodes@.len(),
            forall|j: int, m: int|
                0 <= j < i && (#[trigger] g.nodes@[j]) is Router && 0 <= m
                    < g.nodes@[j]->Router_0.target_functions@.len() ==> has_node(
                    *g,
                    #[trigger] g.nodes@[j]->Router_0.target_functions@[m]@,
                ),
        decreases g.nodes.len() - i,
    {
        match &g.nodes[i] {
            Node::Router(rt) => {
                if !all_known(g, &rt.target_functions) {
                    assert(!router_targets_known(*g)) by {
                        let m = choose|m: int|
                            0 <= m < rt.target_functions@.len() && !has_node(
                                *g,
                                #[trigger] rt.target_functions@[m]@,
                            );
                        assert(g.nodes@[i as int] is Router);
                        assert(!has_node(*g, g.nodes@[i as int]->Router_0.target_functions@[m]@));
                    }
                    return false;
                }
            },
            Node::Compute(_) => {},
        }
        i += 1;
    }
    true
}

/// Checks the structural rules of a graph, in the order of `graph_check`.
pub fn validate_graph(g: &ComputeGraph) -> (r: Result<(), GraphError>)
    ensures
        r == graph_check(*g),
{
    if !check_names_unique(g) {
        return Err(GraphError::DuplicateNodeName);
    }
    match check_edge_sources(g) {
        Some(e) => {
            return Err(e);
        },
        None => {},
    }
    if !check_edge_targets(g) {
        return Err(GraphError::UnknownEdgeTarget);
    }
    if !check_router_targets(g) {
        return Err(GraphError::UnknownRouterTarget);
    }
    if g.start_fn.is_router() {
        return Err(GraphError::StartFnIsRouter);
    }
    match find_node(g, g.start_fn.name()) {
        None => Err(GraphError::StartFnMissing),
        Some(s) => {
            let inset = reachable_set(g, s);
            if acyclic_check(g, s, &inset) {
                assert(start_acyclic(*g)) by {
                    assert forall|t: int|
                        0 <= t < g.nodes@.len() && #[trigger] node_name(*g, t)
                            == g.start_fn.spec_name() implies acyclic_from(*g, t) by {
                        if t < s {
                            assert(node_name(*g, t) != node_name(*g, s as int));
                        } else if t > s {
                            assert(node_name(*g, s as int) != node_name(*g, t));
                        }
                    }
                }
                Ok(())
            } else {
                Err(GraphError::Cycle)
            }
        },
    }
}

proof fn lemma_walk_ranks(g: ComputeGraph, s: int, r: Seq<int>, p: Seq<int>, i: int)
    requires
        rank_ok(g, s, r),
        is_walk(g, p),
        reachable(g, s, p[0]),
        0 < i < p.len(),
    ensures
        reachable(g, s, p[i]),
        r[p[0]] < r[p[i]],
    decreases i,
{
    if i > 1 {
        lemma_walk_ranks(g, s, r, p, i - 1);
    }
    assert(succ(g, p[i - 1], p[(i - 1) + 1]));
    lemma_reachable_step(g, s, p[i - 1], p[i]);
}

/// In a valid graph, no walk of one step or more that starts in the part
/// reached from the start function comes back to where it started.
pub proof fn lemma_valid_graph_has_no_cycle(g: ComputeGraph, s: int, p: Seq<int>)
    requires
        graph_valid(g),
        0 <= s < g.nodes@.len(),
        node_name(g, s) == g.start_fn.spec_name(),
        is_walk(g, p),
        p.len() >= 2,
        reachable(g, s, p[0]),
    ensures
        p[0] != p.last(),
{
    assert(acyclic_from(g, s));
    let r = choose|r: Seq<int>| #[trigger] rank_ok(g, s, r);
    lemma_walk_ranks(g, s, r, p, p.len() - 1);
}

} // verus!
