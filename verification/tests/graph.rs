use graph_centrality::fighter::{enter_fighters, Fighter};
use graph_centrality::graph::{GraphError, WeightedGraph};

fn sorted(mut pairs: Vec<(usize, u32)>) -> Vec<(usize, u32)> {
    pairs.sort();
    pairs
}

fn sorted_paths(mut paths: Vec<Vec<usize>>) -> Vec<Vec<usize>> {
    paths.sort();
    paths
}

#[test]
fn nodes_are_numbered_in_order() {
    let mut graph = WeightedGraph::new();
    assert_eq!(graph.node_count(), 0);
    assert_eq!(graph.add_node("A"), 0);
    assert_eq!(graph.add_node("B"), 1);
    assert_eq!(graph.add_node("A"), 2);
    assert_eq!(graph.node_count(), 3);
    assert_eq!(graph.edge_count(), 0);
    assert_eq!(graph.label(0), Some("A".to_string()));
    assert_eq!(graph.label(1), Some("B".to_string()));
    assert_eq!(graph.label(2), Some("A".to_string()));
    assert_eq!(graph.label(3), None);
}

#[test]
fn a_link_to_an_unknown_node_is_refused() {
    let mut graph = WeightedGraph::new();
    graph.add_node("A");
    graph.add_node("B");
    assert_eq!(graph.add_edge(0, 2, 1), Err(GraphError::InvalidNodeReference));
    assert_eq!(graph.add_edge(2, 0, 1), Err(GraphError::InvalidNodeReference));
    assert_eq!(graph.add_edge(7, 7, 1), Err(GraphError::InvalidNodeReference));
    assert_eq!(graph.edge_count(), 0);
}

#[test]
fn a_self_loop_is_refused() {
    let mut graph = WeightedGraph::new();
    graph.add_node("A");
    graph.add_node("B");
    assert_eq!(graph.add_edge(1, 1, 1), Err(GraphError::SelfLoop));
    assert_eq!(graph.edge_count(), 0);
    assert_eq!(graph.weight(1, 1), None);
}

#[test]
fn a_link_is_seen_from_both_ends() {
    let mut graph = WeightedGraph::new();
    for label in ["A", "B", "C"] {
        graph.add_node(label);
    }
    assert_eq!(graph.add_edge(0, 1, 4), Ok(()));
    assert_eq!(graph.add_edge(2, 1, 9), Ok(()));
    assert_eq!(graph.edge_count(), 2);
    assert_eq!(graph.weight(0, 1), Some(4));
    assert_eq!(graph.weight(1, 0), Some(4));
    assert_eq!(graph.weight(1, 2), Some(9));
    assert_eq!(graph.weight(0, 2), None);
    assert_eq!(graph.weight(0, 5), None);
    assert_eq!(sorted(graph.neighbors(1)), vec![(0, 4), (2, 9)]);
    assert_eq!(sorted(graph.neighbors(0)), vec![(1, 4)]);
    assert_eq!(graph.neighbors(5), vec![]);
    assert_eq!(graph.degree(1), 2);
    assert_eq!(graph.degree(2), 1);
    assert_eq!(graph.degree(5), 0);
}

#[test]
fn a_second_link_between_two_nodes_replaces_the_weight() {
    let mut graph = WeightedGraph::new();
    graph.add_node("A");
    graph.add_node("B");
    assert_eq!(graph.add_edge(0, 1, 4), Ok(()));
    assert_eq!(graph.add_edge(1, 0, 6), Ok(()));
    assert_eq!(graph.edge_count(), 1);
    assert_eq!(graph.weight(0, 1), Some(6));
    assert_eq!(graph.degree(0), 1);
    assert_eq!(graph.neighbors(1), vec![(0, 6)]);
}

#[test]
fn distance_is_the_least_sum_of_weights() {
    let mut graph = WeightedGraph::new();
    for label in ["A", "B", "C", "D", "E"] {
        graph.add_node(label);
    }
    graph.add_edge(0, 1, 7).unwrap();
    graph.add_edge(1, 2, 1).unwrap();
    graph.add_edge(0, 3, 2).unwrap();
    graph.add_edge(3, 2, 3).unwrap();
    assert_eq!(graph.distance(0, 2), Some(5));
    assert_eq!(graph.distance(2, 0), Some(5));
    assert_eq!(graph.distance(0, 1), Some(6));
    assert_eq!(graph.distance(0, 0), Some(0));
    assert_eq!(graph.distance(0, 4), None);
    assert_eq!(graph.distance(0, 9), None);
    assert_eq!(graph.distance(9, 0), None);
}

#[test]
fn distance_holds_the_largest_weights() {
    let mut graph = WeightedGraph::new();
    for label in ["A", "B", "C"] {
        graph.add_node(label);
    }
    graph.add_edge(0, 1, u32::MAX).unwrap();
    graph.add_edge(1, 2, u32::MAX).unwrap();
    assert_eq!(graph.distance(0, 2), Some(2 * (u32::MAX as u64)));
}

#[test]
fn simple_paths_are_all_listed_once() {
    let mut graph = WeightedGraph::new();
    for label in ["A", "B", "C", "D"] {
        graph.add_node(label);
    }
    graph.add_edge(0, 1, 1).unwrap();
    graph.add_edge(1, 2, 1).unwrap();
    graph.add_edge(2, 3, 1).unwrap();
    graph.add_edge(3, 0, 1).unwrap();
    graph.add_edge(0, 2, 1).unwrap();
    assert_eq!(
        sorted_paths(graph.simple_paths(0, 2)),
        vec![vec![0, 1, 2], vec![0, 2], vec![0, 3, 2]]
    );
    assert_eq!(
        sorted_paths(graph.simple_paths(1, 3)),
        vec![vec![1, 0, 2, 3], vec![1, 0, 3], vec![1, 2, 0, 3], vec![1, 2, 3]]
    );
    assert_eq!(graph.simple_paths(1, 1), vec![vec![1]]);
    assert_eq!(graph.simple_paths(1, 8), Vec::<Vec<usize>>::new());
}

#[test]
fn simple_paths_between_unconnected_nodes_are_none() {
    let mut graph = WeightedGraph::new();
    for label in ["A", "B", "C"] {
        graph.add_node(label);
    }
    graph.add_edge(0, 1, 1).unwrap();
    assert_eq!(graph.simple_paths(0, 2), Vec::<Vec<usize>>::new());
}

#[test]
fn fighters_become_nodes() {
    let fighters = vec![Fighter::new("Dustin Poirier"), Fighter::new("Jose Aldo")];
    assert_eq!(fighters[0].name, "Dustin Poirier");
    let mut graph = WeightedGraph::new();
    graph.add_node("Referee");
    let nodes = enter_fighters(&mut graph, &fighters);
    assert_eq!(nodes, vec![1, 2]);
    assert_eq!(graph.node_count(), 3);
    assert_eq!(graph.label(2), Some("Jose Aldo".to_string()));
}
