//! Centrality depends on which nodes are joined, and at what weight, and on nothing else:
//! not on the labels, and not on the order in which the links came in.

use vstd::prelude::*;
use crate::centrality::{
    betweenness_scores, closeness_scores, degree_scores, pair_count, reach_cost, row_count,
    through_count, total_distance,
};
use crate::model::{lemma_degree_counts_neighbors, neighbors_of, GraphModel, NodeId};
use crate::paths::{
    connected, distance, is_distance, is_shortest_path, is_simple_path, is_walk, lemma_distance_unique,
    linked_at, paths_through, step_weight, walk_cost,
};

verus! {

/// Two graphs have as many nodes, and join the same pairs of them at the same weights.
pub open spec fn same_shape(a: GraphModel, b: GraphModel) -> bool {
    &&& a.node_count() == b.node_count()
    &&& forall|x: NodeId, y: NodeId| #[trigger] a.weight(x, y) == b.weight(x, y)
}

/// Graphs of the same shape join the same nodes.
pub proof fn lemma_same_adjacency(a: GraphModel, b: GraphModel, x: NodeId, y: NodeId)
    requires
        same_shape(a, b),
    ensures
        a.adjacent(x, y) == b.adjacent(x, y),
        step_weight(a, x, y) == step_weight(b, x, y),
{
    assert(a.weight(x, y) == b.weight(x, y));
}

/// Graphs of the same shape have the same walks, at the same cost.
pub proof fn lemma_same_walks(a: GraphModel, b: GraphModel, p: Seq<NodeId>, x: NodeId, y: NodeId)
    requires
        same_shape(a, b),
    ensures
        is_walk(a, p, x, y) == is_walk(b, p, x, y),
        is_simple_path(a, p, x, y) == is_simple_path(b, p, x, y),
        walk_cost(a, p) == walk_cost(b, p),
    decreases p.len(),
{
    assert forall|i: int| 0 <= i < p.len() - 1 implies linked_at(a, p, i) == linked_at(b, p, i) by {
        lemma_same_adjacency(a, b, p[i], p[i + 1]);
    }
    if is_walk(a, p, x, y) {
        assert forall|i: int| 0 <= i < p.len() - 1 implies #[trigger] linked_at(b, p, i) by {
            assert(linked_at(a, p, i));
        }
    }
    if is_walk(b, p, x, y) {
        assert forall|i: int| 0 <= i < p.len() - 1 implies #[trigger] linked_at(a, p, i) by {
            assert(linked_at(b, p, i));
        }
    }
    if p.len() > 1 {
        lemma_same_walks(a, b, p.drop_last(), x, y);
        lemma_same_adjacency(a, b, p[p.len() - 2], p[p.len() - 1]);
    }
}

/// Among the walks between two connected nodes, one is cheapest: where a walk of cost
/// `bound` or less leads from `x` to `y`, the two have a distance.
pub proof fn lemma_distance_exists(m: GraphModel, x: NodeId, y: NodeId, bound: nat)
    requires
        exists|p: Seq<NodeId>| is_walk(m, p, x, y) && walk_cost(m, p) <= bound,
    ensures
        exists|d: nat| is_distance(m, x, y, d),
    decreases bound,
{
    if exists|p: Seq<NodeId>| is_walk(m, p, x, y) && walk_cost(m, p) < bound {
        lemma_distance_exists(m, x, y, (bound - 1) as nat);
    } else {
        let p = choose|p: Seq<NodeId>| is_walk(m, p, x, y) && walk_cost(m, p) <= bound;
        assert(walk_cost(m, p) == bound);
        assert(is_distance(m, x, y, bound));
    }
}

/// Graphs of the same shape have the same distances.
pub proof fn lemma_same_distance(a: GraphModel, b: GraphModel, x: NodeId, y: NodeId)
    requires
        same_shape(a, b),
    ensures
        distance(a, x, y) == distance(b, x, y),
        reach_cost(a, x, y) == reach_cost(b, x, y),
{
    if connected(a, x, y) {
        let p = choose|p: Seq<NodeId>| is_walk(a, p, x, y);
        lemma_same_walks(a, b, p, x, y);
        lemma_distance_exists(a, x, y, walk_cost(a, p));
        let d = choose|d: nat| is_distance(a, x, y, d);
        let cheapest = choose|q: Seq<NodeId>| is_walk(a, q, x, y) && walk_cost(a, q) == d;
        lemma_same_walks(a, b, cheapest, x, y);
        assert forall|q: Seq<NodeId>| is_walk(b, q, x, y) implies walk_cost(b, q) >= d by {
            lemma_same_walks(a, b, q, x, y);
        }
        assert(is_distance(b, x, y, d));
        lemma_distance_unique(a, x, y, d);
        lemma_distance_unique(b, x, y, d);
    } else if connected(b, x, y) {
        let p = choose|p: Seq<NodeId>| is_walk(b, p, x, y);
        lemma_same_walks(a, b, p, x, y);
    }
}

/// Graphs of the same shape have the same sums of distances.
pub proof fn lemma_same_total(a: GraphModel, b: GraphModel, x: NodeId, upto: nat)
    requires
        same_shape(a, b),
    ensures
        total_distance(a, x, upto) == total_distance(b, x, upto),
    decreases upto,
{
    if upto > 0 {
        lemma_same_total(a, b, x, (upto - 1) as nat);
        lemma_same_distance(a, b, x, (upto - 1) as usize);
    }
}

/// Graphs of the same shape have the same shortest paths through any node.
pub proof fn lemma_same_through(a: GraphModel, b: GraphModel, x: NodeId, y: NodeId, k: NodeId)
    requires
        same_shape(a, b),
    ensures
        through_count(a, x, y, k) == through_count(b, x, y, k),
{
    assert forall|p: Seq<NodeId>| is_simple_path(a, p, x, y) == is_simple_path(b, p, x, y) by {
        lemma_same_walks(a, b, p, x, y);
    }
    assert forall|p: Seq<NodeId>| is_shortest_path(a, p, x, y) == is_shortest_path(b, p, x, y) by {
        if is_shortest_path(a, p, x, y) {
            assert forall|q: Seq<NodeId>| is_simple_path(b, q, x, y) implies q.len() >= p.len() by {
                assert(is_simple_path(a, q, x, y));
            }
        }
        if is_shortest_path(b, p, x, y) {
            assert forall|q: Seq<NodeId>| is_simple_path(a, q, x, y) implies q.len() >= p.len() by {
                assert(is_simple_path(b, q, x, y));
            }
        }
    }
    assert(paths_through(a, x, y, k) =~= paths_through(b, x, y, k));
}

/// Graphs of the same shape have the same counts of shortest paths, row by row.
pub proof fn lemma_same_row(a: GraphModel, b: GraphModel, x: NodeId, upto: nat, k: NodeId)
    requires
        same_shape(a, b),
    ensures
        row_count(a, x, upto, k) == row_count(b, x, upto, k),
    decreases upto,
{
    if upto > x + 1 {
        lemma_same_row(a, b, x, (upto - 1) as nat, k);
        lemma_same_through(a, b, x, (upto - 1) as usize, k);
    }
}

/// Graphs of the same shape have the same counts of shortest paths over all pairs.
pub proof fn lemma_same_pairs(a: GraphModel, b: GraphModel, rows: nat, k: NodeId)
    requires
        same_shape(a, b),
    ensures
        pair_count(a, rows, k) == pair_count(b, rows, k),
    decreases rows,
{
    if rows > 0 {
        lemma_same_pairs(a, b, (rows - 1) as nat, k);
        lemma_same_row(a, b, (rows - 1) as usize, a.node_count(), k);
    }
}

/// Graphs of the same shape give every node the same number of links.
pub proof fn lemma_same_degree(a: GraphModel, b: GraphModel, n: NodeId)
    requires
        a.wf(),
        b.wf(),
        same_shape(a, b),
    ensures
        a.degree(n) == b.degree(n),
{
    lemma_degree_counts_neighbors(a, n);
    lemma_degree_counts_neighbors(b, n);
    assert forall|y: int| neighbors_of(a, n).contains(y) == neighbors_of(b, n).contains(y) by {
        if 0 <= y <= usize::MAX {
            lemma_same_adjacency(a, b, n, y as usize);
        }
    }
    assert(neighbors_of(a, n) =~= neighbors_of(b, n));
}

/// The scores of every kind depend on the shape of the graph alone: two well-formed
/// graphs with as many nodes, which join the same pairs of them at the same weights, give
/// each node the same degree, closeness and betweenness, whatever the labels are and in
/// whatever order the links were added.
pub proof fn lemma_scores_depend_on_shape(a: GraphModel, b: GraphModel)
    requires
        a.wf(),
        b.wf(),
        same_shape(a, b),
    ensures
        degree_scores(a) == degree_scores(b),
        closeness_scores(a) == closeness_scores(b),
        betweenness_scores(a) == betweenness_scores(b),
{
    assert forall|n: int| 0 <= n < a.node_count() implies #[trigger] degree_scores(a)[n]
        == degree_scores(b)[n] by {
        lemma_same_degree(a, b, n as usize);
    }
    assert forall|n: int| 0 <= n < a.node_count() implies #[trigger] closeness_scores(a)[n]
        == closeness_scores(b)[n] by {
        lemma_same_total(a, b, n as usize, a.node_count());
    }
    assert forall|n: int| 0 <= n < a.node_count() implies #[trigger] betweenness_scores(a)[n]
        == betweenness_scores(b)[n] by {
        lemma_same_pairs(a, b, a.node_count(), n as usize);
    }
    assert(degree_scores(a) =~= degree_scores(b));
    assert(closeness_scores(a) =~= closeness_scores(b));
    assert(betweenness_scores(a) =~= betweenness_scores(b));
}

} // verus!
