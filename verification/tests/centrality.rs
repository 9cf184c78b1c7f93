use graph_centrality::centrality::{
    betweenness_centrality, betweenness_counts, closeness_centrality, degree_centrality,
    distance_sum, Score,
};
use graph_centrality::graph::{GraphError, WeightedGraph};

fn graph_of(labels: &[&str], links: &[(usize, usize)]) -> WeightedGraph {
    let mut graph = WeightedGraph::new();
    for label in labels {
        graph.add_node(label);
    }
    for (a, b) in links {
        assert_eq!(graph.add_edge(*a, *b, 1), Ok(()));
    }
    graph
}

fn path_graph() -> WeightedGraph {
    graph_of(&["A", "B", "C"], &[(0, 1), (1, 2)])
}

fn triangle() -> WeightedGraph {
    graph_of(&["A", "B", "C"], &[(0, 1), (1, 2), (0, 2)])
}

fn bouts() -> WeightedGraph {
    graph_of(
        &["Dustin Poirier", "Khabib Nurmagomedov", "Jose Aldo", "Conor McGregor", "Nate Diaz"],
        &[(0, 1), (1, 3), (3, 0), (3, 2), (3, 4), (0, 4), (2, 4)],
    )
}

fn value(score: &Score) -> f64 {
    match score {
        Score::Ratio { num, den } => *num as f64 / *den as f64,
        Score::Undefined => panic!("the score is undefined"),
    }
}

#[test]
fn degree_of_path_graph() {
    let scores = degree_centrality(&path_graph()).unwrap();
    assert_eq!(scores.len(), 3);
    assert_eq!(value(&scores[0]), 0.5);
    assert_eq!(value(&scores[1]), 1.0);
    assert_eq!(value(&scores[2]), 0.5);
    assert_eq!(scores[1], Score::Ratio { num: 2, den: 2 });
    assert_eq!(scores[0], Score::Ratio { num: 1, den: 2 });
}

#[test]
fn betweenness_of_path_graph() {
    let scores = betweenness_centrality(&path_graph()).unwrap();
    assert_eq!(scores.len(), 3);
    assert_eq!(value(&scores[0]), 0.0);
    assert_eq!(value(&scores[1]), 1.0);
    assert_eq!(value(&scores[2]), 0.0);
    assert_eq!(scores[1], Score::Ratio { num: 1, den: 1 });
}

#[test]
fn betweenness_of_triangle_is_zero() {
    let scores = betweenness_centrality(&triangle()).unwrap();
    assert_eq!(scores, vec![Score::Ratio { num: 0, den: 1 }; 3]);
    for score in &scores {
        assert_eq!(value(score), 0.0);
    }
}

#[test]
fn closeness_of_isolated_node_is_undefined() {
    let graph = graph_of(&["A", "B", "C"], &[(0, 1)]);
    let scores = closeness_centrality(&graph).unwrap();
    assert_eq!(scores.len(), 3);
    assert_eq!(scores[2], Score::Undefined);
    assert_eq!(scores[0], Score::Ratio { num: 2, den: 1 });
    assert_eq!(scores[1], Score::Ratio { num: 2, den: 1 });
}

#[test]
fn closeness_without_links_is_undefined_everywhere() {
    let graph = graph_of(&["A", "B"], &[]);
    assert_eq!(closeness_centrality(&graph), Ok(vec![Score::Undefined, Score::Undefined]));
}

#[test]
fn closeness_of_path_graph() {
    let scores = closeness_centrality(&path_graph()).unwrap();
    assert_eq!(
        scores,
        vec![
            Score::Ratio { num: 2, den: 3 },
            Score::Ratio { num: 2, den: 2 },
            Score::Ratio { num: 2, den: 3 },
        ]
    );
}

#[test]
fn closeness_follows_the_cheapest_way() {
    let mut graph = WeightedGraph::new();
    for label in ["A", "B", "C"] {
        graph.add_node(label);
    }
    graph.add_edge(0, 1, 10).unwrap();
    graph.add_edge(1, 2, 1).unwrap();
    graph.add_edge(0, 2, 2).unwrap();
    assert_eq!(graph.distance(0, 1), Some(3));
    assert_eq!(distance_sum(&graph, 0), 5);
    assert_eq!(distance_sum(&graph, 1), 4);
    assert_eq!(distance_sum(&graph, 2), 3);
    assert_eq!(
        closeness_centrality(&graph),
        Ok(vec![
            Score::Ratio { num: 2, den: 5 },
            Score::Ratio { num: 2, den: 4 },
            Score::Ratio { num: 2, den: 3 },
        ])
    );
}

#[test]
fn closeness_with_weightless_links_is_undefined() {
    let mut graph = WeightedGraph::new();
    graph.add_node("A");
    graph.add_node("B");
    graph.add_edge(0, 1, 0).unwrap();
    assert_eq!(graph.distance(0, 1), Some(0));
    assert_eq!(closeness_centrality(&graph), Ok(vec![Score::Undefined, Score::Undefined]));
}

#[test]
fn one_score_per_node() {
    let graph = bouts();
    assert_eq!(degree_centrality(&graph).unwrap().len(), graph.node_count());
    assert_eq!(closeness_centrality(&graph).unwrap().len(), graph.node_count());
    assert_eq!(betweenness_centrality(&graph).unwrap().len(), graph.node_count());
}

#[test]
fn a_second_run_gives_the_same_scores() {
    let graph = bouts();
    assert_eq!(degree_centrality(&graph), degree_centrality(&graph));
    assert_eq!(closeness_centrality(&graph), closeness_centrality(&graph));
    assert_eq!(betweenness_centrality(&graph), betweenness_centrality(&graph));
}

#[test]
fn scores_do_not_depend_on_the_order_of_links() {
    let forward = graph_of(&["A", "B", "C", "D"], &[(0, 1), (1, 2), (2, 3), (0, 3)]);
    let backward = graph_of(&["A", "B", "C", "D"], &[(3, 0), (3, 2), (2, 1), (1, 0)]);
    assert_eq!(degree_centrality(&forward), degree_centrality(&backward));
    assert_eq!(closeness_centrality(&forward), closeness_centrality(&backward));
    assert_eq!(betweenness_centrality(&forward), betweenness_centrality(&backward));
}

#[test]
fn degree_of_the_bouts() {
    let scores = degree_centrality(&bouts()).unwrap();
    let values: Vec<f64> = scores.iter().map(value).collect();
    assert_eq!(values, vec![0.75, 0.5, 0.5, 1.0, 0.75]);
}

#[test]
fn closeness_of_the_bouts() {
    let scores = closeness_centrality(&bouts()).unwrap();
    assert_eq!(
        scores,
        vec![
            Score::Ratio { num: 4, den: 5 },
            Score::Ratio { num: 4, den: 6 },
            Score::Ratio { num: 4, den: 6 },
            Score::Ratio { num: 4, den: 4 },
            Score::Ratio { num: 4, den: 5 },
        ]
    );
}

#[test]
fn betweenness_of_the_bouts() {
    let graph = bouts();
    assert_eq!(betweenness_counts(&graph), vec![1, 0, 0, 3, 1]);
    let scores = betweenness_centrality(&graph).unwrap();
    assert_eq!(
        scores,
        vec![
            Score::Ratio { num: 1, den: 6 },
            Score::Ratio { num: 0, den: 6 },
            Score::Ratio { num: 0, den: 6 },
            Score::Ratio { num: 3, den: 6 },
            Score::Ratio { num: 1, den: 6 },
        ]
    );
    assert_eq!(format!("{:.2}", value(&scores[0])), "0.17");
    assert_eq!(format!("{:.2}", value(&scores[3])), "0.50");
}

#[test]
fn betweenness_counts_every_tied_path() {
    // A square: two shortest paths join each pair of opposite corners.
    let square = graph_of(&["A", "B", "C", "D"], &[(0, 1), (1, 2), (2, 3), (3, 0)]);
    assert_eq!(betweenness_counts(&square), vec![1, 1, 1, 1]);
    assert_eq!(
        betweenness_centrality(&square),
        Ok(vec![Score::Ratio { num: 1, den: 3 }; 4])
    );
}

#[test]
fn betweenness_goes_by_links_not_by_weight() {
    let mut graph = WeightedGraph::new();
    for label in ["A", "B", "C"] {
        graph.add_node(label);
    }
    graph.add_edge(0, 1, 1).unwrap();
    graph.add_edge(1, 2, 1).unwrap();
    graph.add_edge(0, 2, 100).unwrap();
    assert_eq!(betweenness_counts(&graph), vec![0, 0, 0]);
}

#[test]
fn betweenness_skips_pairs_that_nothing_connects() {
    let graph = graph_of(&["A", "B", "C", "D"], &[(0, 1), (1, 2)]);
    assert_eq!(betweenness_counts(&graph), vec![0, 1, 0, 0]);
    assert_eq!(
        betweenness_centrality(&graph),
        Ok(vec![
            Score::Ratio { num: 0, den: 3 },
            Score::Ratio { num: 1, den: 3 },
            Score::Ratio { num: 0, den: 3 },
            Score::Ratio { num: 0, den: 3 },
        ])
    );
}

#[test]
fn betweenness_of_two_nodes_is_undefined() {
    let graph = graph_of(&["A", "B"], &[(0, 1)]);
    assert_eq!(betweenness_centrality(&graph), Ok(vec![Score::Undefined, Score::Undefined]));
    assert_eq!(
        degree_centrality(&graph),
        Ok(vec![Score::Ratio { num: 1, den: 1 }, Score::Ratio { num: 1, den: 1 }])
    );
}

#[test]
fn fewer_than_two_nodes_are_refused() {
    let empty = WeightedGraph::new();
    assert_eq!(degree_centrality(&empty), Err(GraphError::DegenerateGraph));
    assert_eq!(closeness_centrality(&empty), Err(GraphError::DegenerateGraph));
    assert_eq!(betweenness_centrality(&empty), Err(GraphError::DegenerateGraph));
    let single = graph_of(&["A"], &[]);
    assert_eq!(degree_centrality(&single), Err(GraphError::DegenerateGraph));
    assert_eq!(closeness_centrality(&single), Err(GraphError::DegenerateGraph));
    assert_eq!(betweenness_centrality(&single), Err(GraphError::DegenerateGraph));
}
