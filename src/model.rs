//! Records of the coordinator: compute graphs and their nodes, content,
//! tasks, executors and the outputs that executors hand back.
use vstd::prelude::*;

verus! {

/// A unit of work run by an executor.
pub struct ComputeFn {
    pub name: String,
    pub fn_name: String,
    pub description: String,
    /// Labels an executor must carry to run this function.
    pub placement_constraints: Vec<String>,
}

/// A node that, given an upstream output, activates a subset of its declared
/// target functions.
pub struct DynamicEdgeRouter {
    pub name: String,
    pub source_fn: String,
    pub target_functions: Vec<String>,
    pub description: String,
}

pub enum Node {
    Compute(ComputeFn),
    Router(DynamicEdgeRouter),
}

impl Node {
    pub open spec fn spec_name(&self) -> Seq<char> {
        match self {
            Node::Compute(f) => f.name@,
            Node::Router(r) => r.name@,
        }
    }

    pub open spec fn name_string(&self) -> String {
        match self {
            Node::Compute(f) => f.name,
            Node::Router(r) => r.name,
        }
    }

    pub fn name(&self) -> (r: &String)
        ensures
            r@ == self.spec_name(),
            *r == self.name_string(),
    {
        match self {
            Node::Compute(f) => &f.name,
            Node::Router(r) => &r.name,
        }
    }

    pub fn is_router(&self) -> (r: bool)
        ensures
            r == self is Router,
    {
        match self {
            Node::Compute(_) => false,
            Node::Router(_) => true,
        }
    }
}

pub struct ComputeGraphCode {
    pub path: String,
    pub size: u64,
    pub sha256_hash: String,
}

/// A directed graph of compute functions and routers. `edges` holds, for a
/// node name, the names of its static successors.
pub struct ComputeGraph {
    pub namespace: String,
    pub name: String,
    pub description: String,
    pub nodes: Vec<Node>,
    pub edges: Vec<(String, Vec<String>)>,
    pub start_fn: Node,
    pub code: ComputeGraphCode,
    pub create_at: u64,
    pub tomb_stoned: bool,
}

pub struct DataPayload {
    pub path: String,
    pub size: u64,
    pub sha256_hash: String,
}

pub struct RouterOutput {
    pub edges: Vec<String>,
}

pub enum OutputPayload {
    Fn(DataPayload),
    Router(RouterOutput),
}

/// What one finished task produced.
pub struct NodeOutput {
    pub namespace: String,
    pub compute_graph_name: String,
    pub compute_fn_name: String,
    pub invocation_id: String,
    pub payload: OutputPayload,
}

/// Content handed to a graph at ingestion.
pub struct InvocationPayload {
    pub id: u64,
    pub namespace: String,
    pub compute_graph_name: String,
    pub payload: DataPayload,
}

pub struct ExecutorId(pub String);

impl ExecutorId {
    pub fn new(id: String) -> (r: ExecutorId)
        ensures
            r.0 == id,
    {
        ExecutorId(id)
    }

    pub fn get(&self) -> (r: &String)
        ensures
            r == &self.0,
    {
        &self.0
    }
}

pub struct ExecutorMetadata {
    pub id: ExecutorId,
    pub runner_name: String,
    pub addr: String,
    pub labels: Vec<String>,
}

#[derive(Clone, Copy, PartialEq, Eq, Structural, Debug)]
pub enum TaskOutcome {
    Unknown,
    Success,
    Failed,
}

/// One run of one compute function over one content item.
pub struct Task {
    pub id: u64,
    pub namespace: String,
    pub compute_graph_name: String,
    pub compute_fn_name: String,
    pub input_content_id: u64,
    pub created_at: u64,
    pub outcome: TaskOutcome,
    pub assigned_executor: Option<ExecutorId>,
    pub attempt: u32,
}

/// A content item. Ingested items have no parent and no root; derived items
/// point at the input of the task that produced them and at the ingested
/// item their tree grows from.
pub struct Content {
    pub id: u64,
    pub namespace: String,
    pub compute_graph_name: String,
    pub parent_id: Option<u64>,
    pub root_id: Option<u64>,
    pub payload: DataPayload,
    /// The media type given at ingestion; derived content has none.
    pub mime: Option<String>,
    /// The producing function, or `None` for ingested content.
    pub source_fn: Option<String>,
    pub created_at: u64,
}

/// True when some string of `v` has the characters `s`.
pub open spec fn seq_has(v: Seq<String>, s: Seq<char>) -> bool {
    exists|i: int| 0 <= i < v.len() && #[trigger] v[i]@ == s
}

pub fn vec_has(v: &Vec<String>, s: &String) -> (r: bool)
    ensures
        r == seq_has(v@, s@),
{
    let mut i: usize = 0;
    while i < v.len()
        invariant
            i <= v.len(),
            forall|j: int| 0 <= j < i ==> v@[j]@ != s@,
        decreases v.len() - i,
    {
        if v[i] == *s {
            return true;
        }
        i += 1;
    }
    false
}

/// True when every label of `need` is among `have`.
pub open spec fn labels_cover(have: Seq<String>, need: Seq<String>) -> bool {
    forall|i: int| 0 <= i < need.len() ==> seq_has(have, #[trigger] need[i]@)
}

pub fn covers_labels(have: &Vec<String>, need: &Vec<String>) -> (r: bool)
    ensures
        r == labels_cover(have@, need@),
{
    let mut i: usize = 0;
    while i < need.len()
        invariant
            i <= need.len(),
            forall|j: int| 0 <= j < i ==> seq_has(have@, #[trigger] need@[j]@),
        decreases need.len() - i,
    {
        if !vec_has(have, &need[i]) {
            return false;
        }
        i += 1;
    }
    true
}

} // verus!
