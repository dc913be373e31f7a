use tow_dispatch::graph::{Edge, Graph, Node, UNREACHABLE};

fn node(id: i32) -> Node {
    Node { id, x: id * 10, y: 0 }
}

fn edge(a: i32, b: i32, w: i32) -> Edge {
    Edge { node_a_id: a, node_b_id: b, weight: w }
}

fn graph_of(nodes: &[i32], edges: &[(i32, i32, i32)]) -> Graph {
    let mut g = Graph::new();
    for &n in nodes {
        g.add_node(node(n));
    }
    for &(a, b, w) in edges {
        g.add_edge(edge(a, b, w));
    }
    g
}

#[test]
fn path_through_middle_then_shortcut() {
    let mut g = graph_of(&[1, 2, 3], &[(1, 2, 5), (2, 3, 3)]);
    assert_eq!(g.shortest_path(1, 3), 8);
    g.add_edge(edge(1, 3, 4));
    assert_eq!(g.shortest_path(1, 3), 4);
}

#[test]
fn distance_is_symmetric() {
    let g = graph_of(
        &[1, 2, 3, 4, 5],
        &[(1, 2, 7), (2, 3, 1), (3, 4, 2), (1, 4, 15), (4, 5, 6), (2, 5, 20)],
    );
    for a in 1..=5 {
        for b in 1..=5 {
            assert_eq!(g.shortest_path(a, b), g.shortest_path(b, a), "{} {}", a, b);
        }
    }
    assert_eq!(g.shortest_path(1, 5), 16);
    assert_eq!(g.shortest_path(5, 1), 16);
}

#[test]
fn distance_to_self_is_zero() {
    let g = graph_of(&[1, 2], &[(1, 2, 9)]);
    assert_eq!(g.shortest_path(1, 1), 0);
    assert_eq!(g.shortest_path(2, 2), 0);
    let empty = Graph::new();
    assert_eq!(empty.shortest_path(7, 7), 0);
}

#[test]
fn no_route_is_unreachable() {
    let g = graph_of(&[1, 2, 3, 4], &[(1, 2, 1), (3, 4, 1)]);
    assert_eq!(g.shortest_path(1, 3), UNREACHABLE);
    assert_eq!(g.shortest_path(4, 2), UNREACHABLE);
    assert_eq!(UNREACHABLE, i32::MAX);
}

#[test]
fn absent_node_is_unreachable() {
    let g = graph_of(&[1, 2], &[(1, 2, 3)]);
    assert_eq!(g.shortest_path(1, 99), UNREACHABLE);
    assert_eq!(g.shortest_path(99, 1), UNREACHABLE);
}

#[test]
fn zero_weights_self_loops_and_duplicates() {
    let g = graph_of(
        &[1, 2, 3],
        &[(1, 1, 4), (1, 2, 6), (1, 2, 2), (2, 3, 0), (2, 3, 5)],
    );
    assert_eq!(g.shortest_path(1, 2), 2);
    assert_eq!(g.shortest_path(1, 3), 2);
    assert_eq!(g.shortest_path(3, 1), 2);
}

#[test]
fn longer_route_with_fewer_hops_loses() {
    let g = graph_of(
        &[1, 2, 3, 4, 5],
        &[(1, 5, 100), (1, 2, 10), (2, 3, 10), (3, 4, 10), (4, 5, 10)],
    );
    assert_eq!(g.shortest_path(1, 5), 40);
}

#[test]
fn very_long_route_is_capped() {
    let g = graph_of(&[1, 2, 3], &[(1, 2, i32::MAX), (2, 3, i32::MAX)]);
    assert_eq!(g.shortest_path(1, 3), UNREACHABLE);
    assert_eq!(g.shortest_path(1, 2), UNREACHABLE);
    let h = graph_of(&[1, 2], &[(1, 2, i32::MAX - 1)]);
    assert_eq!(h.shortest_path(2, 1), i32::MAX - 1);
}

#[test]
fn build_adds_nodes_and_roads() {
    let nodes = vec![node(1), node(2), node(3)];
    let edges = vec![edge(1, 2, 5), edge(2, 3, 3), edge(1, 3, 4)];
    let g = Graph::build(&nodes, &edges);
    assert_eq!(g.shortest_path(1, 3), 4);
    assert_eq!(g.shortest_path(3, 2), 3);
}

#[test]
fn roads_without_nodes_are_unreachable() {
    let mut g = Graph::new();
    g.add_edge(edge(1, 2, 5));
    assert_eq!(g.shortest_path(1, 2), UNREACHABLE);
    assert_eq!(g.shortest_path(2, 1), UNREACHABLE);
    assert_eq!(g.shortest_path(1, 1), 0);
    g.add_node(node(1));
    assert_eq!(g.shortest_path(1, 2), UNREACHABLE);
    g.add_node(node(2));
    assert_eq!(g.shortest_path(1, 2), 5);
}

#[test]
fn route_through_a_missing_node_still_counts() {
    // only the two ends must be nodes of the graph
    let g = graph_of(&[1, 3], &[(1, 2, 4), (2, 3, 6)]);
    assert_eq!(g.shortest_path(1, 3), 10);
}
