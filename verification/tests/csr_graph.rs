use optimizer::csr_graph::{check_edges, CSRGraph, InputEdge, UpdateError};
use optimizer::rate::{Rate, MAX_ABS_WEIGHT, WEIGHT_SCALE};

fn graph_rate(value: f64) -> Rate {
    Rate::new(value.to_bits(), (-value.ln() * WEIGHT_SCALE as f64).round() as i64)
}

fn graph_edges(items: &[(usize, usize, f64)]) -> Vec<InputEdge> {
    items.iter().map(|&(u, v, r)| (u, v, graph_rate(r))).collect()
}

fn graph_weight(units: i64) -> f64 {
    units as f64 / WEIGHT_SCALE as f64
}

#[test]
fn neighbors_preserve_insertion_order() {
    let edges = graph_edges(&[(0, 1, 1.2), (0, 2, 0.9), (1, 0, 1.1), (2, 1, 1.05)]);
    let graph = CSRGraph::from_edges(3, edges);

    let neigh: Vec<_> = graph.neighbors(0);
    assert_eq!(neigh.len(), 2);
    assert_eq!(neigh[0].0, 0);
    assert_eq!(neigh[0].1, 1);
    assert!((graph_weight(neigh[0].2) - (-1.2_f64.ln())).abs() < 1e-12);
    assert_eq!(neigh[1].0, 1);
    assert_eq!(neigh[1].1, 2);
}

#[test]
fn nodes_with_no_outgoing_edges_have_empty_neighbors() {
    let edges = graph_edges(&[(0, 1, 1.0)]);
    let graph = CSRGraph::from_edges(3, edges);
    assert_eq!(graph.neighbors(0).len(), 1);
    assert_eq!(graph.neighbors(1).len(), 0);
    assert_eq!(graph.neighbors(2).len(), 0);
}

#[test]
fn update_rate_mutates_rate_and_weight() {
    let edges = graph_edges(&[(0, 1, 1.0), (1, 0, 2.0)]);
    let mut graph = CSRGraph::from_edges(2, edges);
    let old_weight = graph.weights_in_neglog()[1];
    graph.update_rate(1, graph_rate(1.25)).unwrap();
    assert!((f64::from_bits(graph.edge_rate(1).bits) - 1.25).abs() < 1e-12);
    assert!((graph_weight(graph.weights_in_neglog()[1]) - (-1.25f64.ln())).abs() < 1e-12);
    assert_ne!(graph.weights_in_neglog()[1], old_weight);
}

#[test]
fn update_rate_rejects_invalid_inputs() {
    let edges = graph_edges(&[(0, 1, 1.0)]);
    let mut graph = CSRGraph::from_edges(2, edges);
    assert!(matches!(
        graph.update_rate(1, graph_rate(1.0)),
        Err(UpdateError::IndexOutOfBounds(_))
    ));
    assert!(matches!(
        graph.update_rate(0, graph_rate(0.0)),
        Err(UpdateError::InvalidRate(_))
    ));
    assert!(matches!(
        graph.update_rate(0, graph_rate(f64::NAN)),
        Err(UpdateError::InvalidRate(_))
    ));
}

#[test]
fn update_rate_reports_what_it_refused() {
    let edges = graph_edges(&[(0, 1, 1.0)]);
    let mut graph = CSRGraph::from_edges(2, edges);
    match graph.update_rate(7, graph_rate(1.0)) {
        Err(UpdateError::IndexOutOfBounds(index)) => assert_eq!(index, 7),
        _ => panic!("an index past the last edge is refused"),
    }
    let infinite = graph_rate(f64::INFINITY);
    match graph.update_rate(0, infinite) {
        Err(UpdateError::InvalidRate(rate)) => assert_eq!(rate, infinite),
        _ => panic!("an infinite rate is refused"),
    }
    let negative = graph_rate(-1.5);
    assert!(matches!(graph.update_rate(0, negative), Err(UpdateError::InvalidRate(_))));
    let heavy = Rate::new(1.0f64.to_bits(), MAX_ABS_WEIGHT + 1);
    assert!(matches!(graph.update_rate(0, heavy), Err(UpdateError::InvalidRate(_))));
    // Nothing was changed by the refused updates.
    assert_eq!(graph.edge_rate(0), graph_rate(1.0));
    assert_eq!(graph.edge_weight(0), 0);
}

#[test]
fn update_then_read_reports_new_rate_and_weight() {
    let edges = graph_edges(&[(0, 1, 1.5), (1, 2, 0.5), (2, 0, 1.0)]);
    let mut graph = CSRGraph::from_edges(3, edges);
    let new_rate = graph_rate(0.75);
    graph.update_rate(1, new_rate).unwrap();
    assert_eq!(graph.edge_rate(1), new_rate);
    assert_eq!(graph.edge_weight(1), new_rate.neg_log);
    assert_eq!(graph.edge_weight(1), 287_682_072_451_781);
    assert_eq!(graph.edge_src(1), 1);
    assert_eq!(graph.edge_dst(1), 2);
    assert_eq!(graph.edge_rate(0), graph_rate(1.5));
    assert_eq!(graph.edge_rate(2), graph_rate(1.0));
    assert_eq!(graph.neighbors(1), vec![(1, 2, new_rate.neg_log)]);
}

#[test]
fn neighbors_follow_input_order_per_source() {
    let edges = graph_edges(&[
        (2, 0, 1.1),
        (0, 1, 1.2),
        (2, 1, 1.3),
        (1, 2, 1.4),
        (0, 2, 1.5),
        (2, 2, 1.6),
        (0, 0, 1.7),
    ]);
    let graph = CSRGraph::from_edges(4, edges.clone());
    assert_eq!(graph.node_count(), 4);
    assert_eq!(graph.edge_count(), 7);
    let ids = |node: usize| -> Vec<usize> {
        graph.neighbors(node).iter().map(|item| item.0).collect()
    };
    assert_eq!(ids(0), vec![1, 4, 6]);
    assert_eq!(ids(1), vec![3]);
    assert_eq!(ids(2), vec![0, 2, 5]);
    assert_eq!(ids(3), Vec::<usize>::new());
    for node in 0..4 {
        assert_eq!(graph.out_degree(node), ids(node).len());
        for (position, item) in graph.neighbors(node).iter().enumerate() {
            assert_eq!(graph.out_edge(node, position), item.0);
            assert_eq!(item.1, edges[item.0].1);
            assert_eq!(item.2, edges[item.0].2.neg_log);
            assert_eq!(graph.edge_src(item.0), node);
        }
    }
}

#[test]
fn check_edges_tells_valid_from_invalid() {
    assert!(check_edges(3, &graph_edges(&[(0, 1, 1.0), (2, 0, 0.5)])));
    assert!(check_edges(0, &graph_edges(&[])));
    assert!(!check_edges(3, &graph_edges(&[(3, 1, 1.0)])));
    assert!(!check_edges(3, &graph_edges(&[(0, 3, 1.0)])));
    assert!(!check_edges(3, &graph_edges(&[(0, 1, 0.0)])));
    assert!(!check_edges(3, &graph_edges(&[(0, 1, -2.0)])));
    assert!(!check_edges(3, &graph_edges(&[(0, 1, f64::INFINITY)])));
    assert!(!check_edges(3, &graph_edges(&[(0, 1, f64::NAN)])));
    assert!(check_edges(3, &graph_edges(&[(0, 1, f64::MIN_POSITIVE), (1, 2, f64::MAX)])));
    assert!(check_edges(3, &graph_edges(&[(0, 1, 5e-324)])));
}
