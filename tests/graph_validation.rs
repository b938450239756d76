use indexify_core::graph::{find_node, validate_graph, GraphError};
use indexify_core::model::{ComputeFn, ComputeGraph, DynamicEdgeRouter, Node};
use indexify_core::test_objects::{mock_compute_fn, mock_graph_a, mock_graph_b};

fn compute(name: &str) -> Node {
    Node::Compute(mock_compute_fn(name))
}

fn router(name: &str, targets: &[&str]) -> Node {
    Node::Router(DynamicEdgeRouter {
        name: name.to_string(),
        source_fn: String::new(),
        target_functions: targets.iter().map(|t| t.to_string()).collect(),
        description: String::new(),
    })
}

fn graph(nodes: Vec<Node>, edges: &[(&str, &[&str])], start: &str) -> ComputeGraph {
    let mut g = mock_graph_a();
    g.nodes = nodes;
    g.edges = edges
        .iter()
        .map(|(a, bs)| (a.to_string(), bs.iter().map(|b| b.to_string()).collect()))
        .collect();
    g.start_fn = compute(start);
    g
}

#[test]
fn mock_graphs_are_valid() {
    assert!(validate_graph(&mock_graph_a()).is_ok());
    assert!(validate_graph(&mock_graph_b()).is_ok());
}

#[test]
fn start_only_graph_is_valid() {
    let g = graph(vec![compute("fn_a")], &[], "fn_a");
    assert!(validate_graph(&g).is_ok());
}

#[test]
fn duplicate_node_names_are_rejected() {
    let g = graph(vec![compute("fn_a"), compute("fn_a")], &[], "fn_a");
    assert!(matches!(validate_graph(&g), Err(GraphError::DuplicateNodeName)));
}

#[test]
fn unknown_edge_source_is_rejected() {
    let g = graph(vec![compute("fn_a")], &[("fn_x", &["fn_a"])], "fn_a");
    assert!(matches!(validate_graph(&g), Err(GraphError::UnknownEdgeSource)));
}

#[test]
fn duplicate_edge_source_is_rejected() {
    let g = graph(
        vec![compute("fn_a"), compute("fn_b")],
        &[("fn_a", &["fn_b"]), ("fn_a", &["fn_b"])],
        "fn_a",
    );
    assert!(matches!(validate_graph(&g), Err(GraphError::DuplicateEdgeSource)));
}

#[test]
fn unknown_edge_target_is_rejected() {
    let g = graph(vec![compute("fn_a")], &[("fn_a", &["fn_z"])], "fn_a");
    assert!(matches!(validate_graph(&g), Err(GraphError::UnknownEdgeTarget)));
}

#[test]
fn unknown_router_target_is_rejected() {
    let g = graph(
        vec![compute("fn_a"), router("router_x", &["fn_b"])],
        &[("fn_a", &["router_x"])],
        "fn_a",
    );
    assert!(matches!(validate_graph(&g), Err(GraphError::UnknownRouterTarget)));
}

#[test]
fn router_start_is_rejected() {
    let mut g = graph(vec![compute("fn_a"), router("router_x", &["fn_a"])], &[], "fn_a");
    g.start_fn = router("router_x", &["fn_a"]);
    assert!(matches!(validate_graph(&g), Err(GraphError::StartFnIsRouter)));
}

#[test]
fn missing_start_is_rejected() {
    let g = graph(vec![compute("fn_b")], &[], "fn_a");
    assert!(matches!(validate_graph(&g), Err(GraphError::StartFnMissing)));
}

#[test]
fn reachable_cycle_is_rejected() {
    let g = graph(
        vec![compute("fn_a"), compute("fn_b"), compute("fn_c")],
        &[("fn_a", &["fn_b"]), ("fn_b", &["fn_c"]), ("fn_c", &["fn_b"])],
        "fn_a",
    );
    assert!(matches!(validate_graph(&g), Err(GraphError::Cycle)));
}

#[test]
fn self_loop_is_rejected() {
    let g = graph(vec![compute("fn_a")], &[("fn_a", &["fn_a"])], "fn_a");
    assert!(matches!(validate_graph(&g), Err(GraphError::Cycle)));
}

#[test]
fn cycle_through_router_is_rejected() {
    let g = graph(
        vec![compute("fn_a"), router("router_x", &["fn_a"])],
        &[("fn_a", &["router_x"])],
        "fn_a",
    );
    assert!(matches!(validate_graph(&g), Err(GraphError::Cycle)));
}

#[test]
fn unreachable_cycle_is_accepted() {
    let g = graph(
        vec![compute("fn_a"), compute("fn_b"), compute("fn_c")],
        &[("fn_b", &["fn_c"]), ("fn_c", &["fn_b"])],
        "fn_a",
    );
    assert!(validate_graph(&g).is_ok());
}

#[test]
fn diamond_is_accepted() {
    let g = graph(
        vec![compute("fn_a"), compute("fn_b"), compute("fn_c"), compute("fn_d")],
        &[("fn_a", &["fn_b", "fn_c"]), ("fn_b", &["fn_d"]), ("fn_c", &["fn_d"])],
        "fn_a",
    );
    assert!(validate_graph(&g).is_ok());
}

#[test]
fn find_node_returns_first_match() {
    let g = mock_graph_b();
    assert_eq!(find_node(&g, &"router_x".to_string()), Some(2));
    assert_eq!(find_node(&g, &"fn_a".to_string()), Some(3));
    assert_eq!(find_node(&g, &"fn_d".to_string()), None);
}

#[test]
fn mock_compute_fn_has_description() {
    let f: ComputeFn = mock_compute_fn("fn_q");
    assert_eq!(f.description, "description fn_q");
    assert_eq!(f.fn_name, "fn_q");
    assert!(f.placement_constraints.is_empty());
}

#[test]
fn fixture_graphs_carry_full_records() {
    for g in [mock_graph_a(), mock_graph_b()] {
        assert_eq!(g.code.path, "cg_path");
        assert_eq!(g.code.size, 23);
        assert_eq!(g.code.sha256_hash, "hash123");
        match &g.start_fn {
            Node::Compute(f) => {
                assert_eq!(f.name, "fn_a");
                assert_eq!(f.fn_name, "fn_a");
                assert_eq!(f.description, "description fn_a");
                assert!(f.placement_constraints.is_empty());
            }
            Node::Router(_) => panic!("start is a compute function"),
        }
        let start = find_node(&g, &"fn_a".to_string()).unwrap();
        match (&g.nodes[start], &g.start_fn) {
            (Node::Compute(a), Node::Compute(b)) => {
                assert_eq!((&a.name, &a.fn_name, &a.description), (&b.name, &b.fn_name, &b.description));
                assert_eq!(a.placement_constraints, b.placement_constraints);
            }
            _ => panic!("start node is a compute function"),
        }
    }
}
