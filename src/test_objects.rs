//! Fixed graphs, payloads and executors for exercising the coordinator.
use vstd::prelude::*;
use vstd::string::StringExecFns;
use crate::model::{
    ComputeFn, ComputeGraph, ComputeGraphCode, DataPayload, DynamicEdgeRouter, ExecutorId,
    ExecutorMetadata, InvocationPayload, Node, NodeOutput, OutputPayload, RouterOutput,
};

verus! {

pub const TEST_NAMESPACE: &'static str = "test_ns";

pub const TEST_EXECUTOR_ID: &'static str = "test_executor_1";

/// `n` is the compute function that `mock_compute_fn(name)` builds.
pub open spec fn is_mock_fn(n: Node, name: Seq<char>) -> bool {
    n matches Node::Compute(f) && f.name@ == name && f.fn_name@ == name && f.description@
        == "description "@ + name && f.placement_constraints@.len() == 0
}

/// `c` is the code record of the fixture graphs.
pub open spec fn is_mock_code(c: ComputeGraphCode) -> bool {
    c.path@ == "cg_path"@ && c.size == 23 && c.sha256_hash@ == "hash123"@
}

/// A compute function with no placement constraints.
pub fn mock_compute_fn(name: &str) -> (r: ComputeFn)
    ensures
        r.name@ == name@,
        r.fn_name@ == name@,
        r.description@ == "description "@ + name@,
        r.placement_constraints@.len() == 0,
{
    ComputeFn {
        name: String::from_str(name),
        description: String::from_str("description ").concat(name),
        fn_name: String::from_str(name),
        placement_constraints: Vec::new(),
    }
}

pub fn mock_node_fn_output_fn_a(invocation_id: &str, graph: &str) -> (r: NodeOutput)
    ensures
        r.namespace@ == TEST_NAMESPACE@,
        r.compute_fn_name@ == "fn_a"@,
        r.compute_graph_name@ == graph@,
        r.invocation_id@ == invocation_id@,
        r.payload matches OutputPayload::Fn(d) && d.sha256_hash@ == "3433"@ && d.path@ == "eere"@
            && d.size == 12,
{
    NodeOutput {
        namespace: String::from_str(TEST_NAMESPACE),
        compute_fn_name: String::from_str("fn_a"),
        compute_graph_name: String::from_str(graph),
        invocation_id: String::from_str(invocation_id),
        payload: OutputPayload::Fn(
            DataPayload {
                sha256_hash: String::from_str("3433"),
                path: String::from_str("eere"),
                size: 12,
            },
        ),
    }
}

pub fn mock_node_router_output_x(invocation_id: &str, graph: &str) -> (r: NodeOutput)
    ensures
        r.namespace@ == TEST_NAMESPACE@,
        r.compute_fn_name@ == "router_x"@,
        r.compute_graph_name@ == graph@,
        r.invocation_id@ == invocation_id@,
        r.payload matches OutputPayload::Router(o) && o.edges@.len() == 1 && o.edges@[0]@ == "fn_c"@,
{
    let mut edges: Vec<String> = Vec::new();
    edges.push(String::from_str("fn_c"));
    NodeOutput {
        namespace: String::from_str(TEST_NAMESPACE),
        compute_fn_name: String::from_str("router_x"),
        compute_graph_name: String::from_str(graph),
        invocation_id: String::from_str(invocation_id),
        payload: OutputPayload::Router(RouterOutput { edges }),
    }
}

fn mock_payload(id: u64, graph: &str) -> (r: InvocationPayload)
    ensures
        r.id == id,
        r.namespace@ == TEST_NAMESPACE@,
        r.compute_graph_name@ == graph@,
        r.payload.path@ == "test"@,
        r.payload.size == 23,
        r.payload.sha256_hash@ == "hash1232"@,
{
    InvocationPayload {
        id,
        namespace: String::from_str(TEST_NAMESPACE),
        compute_graph_name: String::from_str(graph),
        payload: DataPayload {
            path: String::from_str("test"),
            size: 23,
            sha256_hash: String::from_str("hash1232"),
        },
    }
}

pub fn mock_invocation_payload() -> (r: InvocationPayload)
    ensures
        r.id == 1,
        r.namespace@ == TEST_NAMESPACE@,
        r.compute_graph_name@ == "graph_A"@,
        r.payload.path@ == "test"@,
        r.payload.size == 23,
        r.payload.sha256_hash@ == "hash1232"@,
{
    mock_payload(1, "graph_A")
}

pub fn mock_invocation_payload_graph_b() -> (r: InvocationPayload)
    ensures
        r.id == 2,
        r.namespace@ == TEST_NAMESPACE@,
        r.compute_graph_name@ == "graph_B"@,
        r.payload.path@ == "test"@,
        r.payload.size == 23,
        r.payload.sha256_hash@ == "hash1232"@,
{
    mock_payload(2, "graph_B")
}

fn mock_code() -> (r: ComputeGraphCode)
    ensures
        is_mock_code(r),
{
    ComputeGraphCode {
        path: String::from_str("cg_path"),
        size: 23,
        sha256_hash: String::from_str("hash123"),
    }
}

/// `fn_a` followed by `fn_b` and `fn_c`.
pub fn mock_graph_a() -> (r: ComputeGraph)
    ensures
        r.namespace@ == TEST_NAMESPACE@,
        r.name@ == "graph_A"@,
        r.description@ == "description graph_A"@,
        r.nodes@.len() == 3,
        is_mock_fn(r.nodes@[0], "fn_b"@),
        is_mock_fn(r.nodes@[1], "fn_c"@),
        is_mock_fn(r.nodes@[2], "fn_a"@),
        r.edges@.len() == 1,
        r.edges@[0].0@ == "fn_a"@,
        r.edges@[0].1@.len() == 2,
        r.edges@[0].1@[0]@ == "fn_b"@,
        r.edges@[0].1@[1]@ == "fn_c"@,
        is_mock_fn(r.start_fn, "fn_a"@),
        is_mock_code(r.code),
        r.create_at == 5,
        !r.tomb_stoned,
{
    let mut nodes: Vec<Node> = Vec::new();
    nodes.push(Node::Compute(mock_compute_fn("fn_b")));
    nodes.push(Node::Compute(mock_compute_fn("fn_c")));
    nodes.push(Node::Compute(mock_compute_fn("fn_a")));
    let mut targets: Vec<String> = Vec::new();
    targets.push(String::from_str("fn_b"));
    targets.push(String::from_str("fn_c"));
    let mut edges: Vec<(String, Vec<String>)> = Vec::new();
    edges.push((String::from_str("fn_a"), targets));
    ComputeGraph {
        namespace: String::from_str(TEST_NAMESPACE),
        name: String::from_str("graph_A"),
        nodes,
        edges,
        description: String::from_str("description graph_A"),
        code: mock_code(),
        create_at: 5,
        tomb_stoned: false,
        start_fn: Node::Compute(mock_compute_fn("fn_a")),
    }
}

/// `fn_a` followed by `router_x`, which may route to `fn_b` and `fn_c`.
pub fn mock_graph_b() -> (r: ComputeGraph)
    ensures
        r.namespace@ == TEST_NAMESPACE@,
        r.name@ == "graph_B"@,
        r.description@ == "description graph_B"@,
        r.nodes@.len() == 4,
        is_mock_fn(r.nodes@[0], "fn_b"@),
        is_mock_fn(r.nodes@[1], "fn_c"@),
        r.nodes@[2] matches Node::Router(x) && x.name@ == "router_x"@ && x.source_fn@ == "fn_a"@
            && x.description@ == "description router_x"@ && x.target_functions@.len() == 2
            && x.target_functions@[0]@ == "fn_b"@ && x.target_functions@[1]@ == "fn_c"@,
        is_mock_fn(r.nodes@[3], "fn_a"@),
        r.edges@.len() == 1,
        r.edges@[0].0@ == "fn_a"@,
        r.edges@[0].1@.len() == 1,
        r.edges@[0].1@[0]@ == "router_x"@,
        is_mock_fn(r.start_fn, "fn_a"@),
        is_mock_code(r.code),
        r.create_at == 5,
        !r.tomb_stoned,
{
    let mut routes: Vec<String> = Vec::new();
    routes.push(String::from_str("fn_b"));
    routes.push(String::from_str("fn_c"));
    let router_x = DynamicEdgeRouter {
        name: String::from_str("router_x"),
        description: String::from_str("description router_x"),
        source_fn: String::from_str("fn_a"),
        target_functions: routes,
    };
    let mut nodes: Vec<Node> = Vec::new();
    nodes.push(Node::Compute(mock_compute_fn("fn_b")));
    nodes.push(Node::Compute(mock_compute_fn("fn_c")));
    nodes.push(Node::Router(router_x));
    nodes.push(Node::Compute(mock_compute_fn("fn_a")));
    let mut targets: Vec<String> = Vec::new();
    targets.push(String::from_str("router_x"));
    let mut edges: Vec<(String, Vec<String>)> = Vec::new();
    edges.push((String::from_str("fn_a"), targets));
    ComputeGraph {
        namespace: String::from_str(TEST_NAMESPACE),
        name: String::from_str("graph_B"),
        nodes,
        edges,
        description: String::from_str("description graph_B"),
        code: mock_code(),
        create_at: 5,
        tomb_stoned: false,
        start_fn: Node::Compute(mock_compute_fn("fn_a")),
    }
}

pub fn mock_executor_id() -> (r: ExecutorId)
    ensures
        r.0@ == TEST_EXECUTOR_ID@,
{
    ExecutorId::new(String::from_str(TEST_EXECUTOR_ID))
}

pub fn mock_executor() -> (r: ExecutorMetadata)
    ensures
        r.id.0@ == TEST_EXECUTOR_ID@,
        r.runner_name@ == "test_runner"@,
        r.addr@.len() == 0,
        r.labels@.len() == 0,
{
    ExecutorMetadata {
        id: mock_executor_id(),
        runner_name: String::from_str("test_runner"),
        addr: String::new(),
        labels: Vec::new(),
    }
}

} // verus!
