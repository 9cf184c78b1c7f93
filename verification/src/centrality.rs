//! Degree, closeness and betweenness centrality of the nodes of a graph.
//!
//! Scores are exact fractions. A graph with fewer than two nodes has no centrality of any
//! kind, and is refused with `GraphError::DegenerateGraph`.

use vstd::prelude::*;
use crate::graph::{GraphError, WeightedGraph};
use crate::model::{lemma_degree_bound, GraphModel, NodeId};
use crate::paths::{distance, is_simple_path, lemma_isolated_unconnected, paths_through};
use crate::tally::{
    least_length, lemma_count_bound, lemma_count_short, lemma_counted_are_shortest,
    lemma_no_paths_none_through, tally_paths,
};

verus! {

/// The centrality of one node.
#[derive(Clone, Copy, Debug, PartialEq, Eq, Structural)]
pub enum Score {
    /// The fraction `num / den`, with `den` above zero.
    Ratio { num: u128, den: u128 },
    /// The formula divides by zero for this node.
    Undefined,
}

/// The degree centrality of `n`: the number of links at `n`, over the number of other nodes.
pub open spec fn degree_score(m: GraphModel, n: NodeId) -> Score {
    Score::Ratio { num: m.degree(n) as u128, den: (m.node_count() - 1) as u128 }
}

/// The degree centrality of every node, by node id.
pub open spec fn degree_scores(m: GraphModel) -> Seq<Score> {
    Seq::new(m.node_count(), |n: int| degree_score(m, n as usize))
}

/// What a centrality function answers on `m`, where `scores` are the scores of its nodes.
pub open spec fn centrality_outcome(m: GraphModel, scores: Seq<Score>) -> Result<
    Seq<Score>,
    GraphError,
> {
    if m.node_count() < 2 {
        Err(GraphError::DegenerateGraph)
    } else {
        Ok(scores)
    }
}

/// The view of what a centrality function returned.
pub open spec fn outcome_view(r: Result<Vec<Score>, GraphError>) -> Result<Seq<Score>, GraphError> {
    match r {
        Ok(scores) => Ok(scores@),
        Err(e) => Err(e),
    }
}

/// A score that lies between 0 and 1.
pub open spec fn is_fraction_of_one(s: Score) -> bool {
    match s {
        Score::Ratio { num, den } => num <= den && den > 0,
        Score::Undefined => false,
    }
}

/// The degree centrality of every node: the share of the other nodes that it is joined to.
pub fn degree_centrality(graph: &WeightedGraph) -> (r: Result<Vec<Score>, GraphError>)
    requires
        graph.wf(),
    ensures
        outcome_view(r) == centrality_outcome(graph@, degree_scores(graph@)),
        r matches Ok(scores) ==> scores.len() == graph@.node_count(),
        r matches Ok(scores) ==> forall|n: int|
            0 <= n < scores.len() ==> is_fraction_of_one(#[trigger] scores[n]),
{
    let count = graph.node_count();
    if count < 2 {
        return Err(GraphError::DegenerateGraph);
    }
    let mut scores: Vec<Score> = Vec::new();
    let mut n: usize = 0;
    while n < count
        invariant
            graph.wf(),
            count == graph@.node_count(),
            count >= 2,
            n <= count,
            scores.len() == n,
            forall|i: int| 0 <= i < n ==> #[trigger] scores[i] == degree_score(graph@, i as usize),
            forall|i: int| 0 <= i < n ==> is_fraction_of_one(#[trigger] scores[i]),
        decreases count - n,
    {
        let degree = graph.degree(n);
        proof {
            lemma_degree_bound(graph@, n);
        }
        scores.push(Score::Ratio { num: degree as u128, den: (count - 1) as u128 });
        n += 1;
    }
    assert(scores@ =~= degree_scores(graph@));
    Ok(scores)
}

/// The cost of a cheapest walk from `a` to `b`, and 0 where no walk leads there.
pub open spec fn reach_cost(m: GraphModel, a: NodeId, b: NodeId) -> nat {
    match distance(m, a, b) {
        Some(d) => d,
        None => 0,
    }
}

/// The sum of the distances from `a` to the nodes below `upto` other than `a` itself.
/// A node that cannot be reached adds nothing.
pub open spec fn total_distance(m: GraphModel, a: NodeId, upto: nat) -> nat
    decreases upto,
{
    if upto == 0 {
        0
    } else if upto - 1 == a {
        total_distance(m, a, (upto - 1) as nat)
    } else {
        total_distance(m, a, (upto - 1) as nat) + reach_cost(m, a, (upto - 1) as usize)
    }
}

/// The closeness centrality of `a`: the number of other nodes, over the sum of the
/// distances to those of them that can be reached. Where that sum is zero, the score is
/// undefined.
pub open spec fn closeness_score(m: GraphModel, a: NodeId) -> Score {
    let total = total_distance(m, a, m.node_count());
    if total == 0 {
        Score::Undefined
    } else {
        Score::Ratio { num: (m.node_count() - 1) as u128, den: total as u128 }
    }
}

/// The closeness centrality of every node, by node id.
pub open spec fn closeness_scores(m: GraphModel) -> Seq<Score> {
    Seq::new(m.node_count(), |n: int| closeness_score(m, n as usize))
}

/// The closeness score for a node whose distances to the others sum to `total`.
pub fn closeness_of(others: usize, total: u128) -> (s: Score)
    ensures
        s == if total == 0 {
            Score::Undefined
        } else {
            Score::Ratio { num: others as u128, den: total }
        },
{
    if total == 0 {
        Score::Undefined
    } else {
        Score::Ratio { num: others as u128, den: total }
    }
}

/// The sum of the distances from `a` to every other node that can be reached from it.
pub fn distance_sum(graph: &WeightedGraph, a: NodeId) -> (total: u128)
    requires
        graph.wf(),
        graph@.has_node(a),
    ensures
        total == total_distance(graph@, a, graph@.node_count()),
{
    let count = graph.node_count();
    let mut total: u128 = 0;
    let mut b: usize = 0;
    while b < count
        invariant
            graph.wf(),
            count == graph@.node_count(),
            a < count,
            b <= count,
            total == total_distance(graph@, a, b as nat),
            total <= b * 0xffff_ffff_ffff_ffff,
        decreases count - b,
    {
        if b != a {
            match graph.distance(a, b) {
                Some(d) => {
                    proof {
                        assert(b * 0xffff_ffff_ffff_ffff + 0xffff_ffff_ffff_ffff <= u128::MAX)
                            by (nonlinear_arith)
                            requires
                                b <= 0xffff_ffff,
                        ;
                    }
                    total = total + d as u128;
                },
                None => {},
            }
        }
        assert((b + 1) * 0xffff_ffff_ffff_ffff == b * 0xffff_ffff_ffff_ffff + 0xffff_ffff_ffff_ffff)
            by (nonlinear_arith);
        b += 1;
    }
    total
}

/// The closeness centrality of every node: the number of other nodes over the sum of the
/// distances to them. A node that cannot be reached adds nothing to the sum, so a score in
/// a graph of several parts stands for the reachable part alone.
pub fn closeness_centrality(graph: &WeightedGraph) -> (r: Result<Vec<Score>, GraphError>)
    requires
        graph.wf(),
    ensures
        outcome_view(r) == centrality_outcome(graph@, closeness_scores(graph@)),
        r matches Ok(scores) ==> scores.len() == graph@.node_count(),
{
    let count = graph.node_count();
    if count < 2 {
        return Err(GraphError::DegenerateGraph);
    }
    let mut scores: Vec<Score> = Vec::new();
    let mut a: usize = 0;
    while a < count
        invariant
            graph.wf(),
            count == graph@.node_count(),
            a <= count,
            scores.len() == a,
            forall|i: int| 0 <= i < a ==> #[trigger] scores[i] == closeness_score(graph@, i as usize),
        decreases count - a,
    {
        let total = distance_sum(graph, a);
        scores.push(closeness_of(count - 1, total));
        a += 1;
    }
    assert(scores@ =~= closeness_scores(graph@));
    Ok(scores)
}

/// The sum of the distances from a node without links is zero.
pub proof fn lemma_isolated_total(m: GraphModel, a: NodeId, upto: nat)
    requires
        forall|c: NodeId| !m.adjacent(a, c),
        upto <= usize::MAX + 1,
    ensures
        total_distance(m, a, upto) == 0,
    decreases upto,
{
    if upto > 0 {
        lemma_isolated_total(m, a, (upto - 1) as nat);
        if upto - 1 != a {
            lemma_isolated_unconnected(m, a, (upto - 1) as usize);
        }
    }
}

/// A node without links has no closeness centrality: its score is `Undefined`, whatever
/// the rest of the graph looks like.
pub proof fn lemma_isolated_closeness(m: GraphModel, a: NodeId)
    requires
        m.wf(),
        forall|c: NodeId| !m.adjacent(a, c),
    ensures
        closeness_score(m, a) == Score::Undefined,
{
    lemma_isolated_total(m, a, m.node_count());
}

/// The number of shortest paths between `a` and `b` that pass through `k`. A path is
/// shortest when no simple path between the two has fewer links; nodes that are joined
/// directly, or not connected at all, have none through any node.
pub open spec fn through_count(m: GraphModel, a: NodeId, b: NodeId, k: NodeId) -> nat {
    paths_through(m, a, b, k).len()
}

/// The shortest paths through `k` that lead from `a` to a node between `a` and `upto`.
pub open spec fn row_count(m: GraphModel, a: NodeId, upto: nat, k: NodeId) -> nat
    decreases upto,
{
    if upto <= a + 1 {
        0
    } else {
        row_count(m, a, (upto - 1) as nat, k) + through_count(m, a, (upto - 1) as usize, k)
    }
}

/// The shortest paths through `k` between the pairs of nodes whose lower node is below
/// `rows`.
pub open spec fn pair_count(m: GraphModel, rows: nat, k: NodeId) -> nat
    decreases rows,
{
    if rows == 0 {
        0
    } else {
        pair_count(m, (rows - 1) as nat, k) + row_count(m, (rows - 1) as usize, m.node_count(), k)
    }
}

/// The number of shortest paths through `k`, over all unordered pairs of nodes, where
/// every shortest path of a pair counts, ties included.
pub open spec fn betweenness_count(m: GraphModel, k: NodeId) -> nat {
    pair_count(m, m.node_count(), k)
}

/// The number of pairs that can be formed from the nodes other than one.
pub open spec fn other_pairs(m: GraphModel) -> nat {
    ((m.node_count() - 1) * (m.node_count() - 2) / 2) as nat
}

/// The betweenness centrality of `k`: the shortest paths through `k`, over the number of
/// pairs of other nodes. With two nodes there is no such pair, and the score is undefined.
pub open spec fn betweenness_score(m: GraphModel, k: NodeId) -> Score {
    if other_pairs(m) == 0 {
        Score::Undefined
    } else {
        Score::Ratio { num: betweenness_count(m, k) as u128, den: other_pairs(m) as u128 }
    }
}

/// The betweenness centrality of every node, by node id.
pub open spec fn betweenness_scores(m: GraphModel) -> Seq<Score> {
    Seq::new(m.node_count(), |n: int| betweenness_score(m, n as usize))
}

/// The counts stay within 128 bits: each pair of nodes adds at most as many paths as a
/// list can hold.
proof fn lemma_tally_room(i: nat, j: nat, n: nat)
    requires
        i < n,
        j < n,
        n <= 0xffff_ffff,
    ensures
        (i * n + j) * usize::MAX + usize::MAX == (i * n + j + 1) * usize::MAX,
        (i * n + j + 1) * usize::MAX <= u128::MAX,
        (i * n + j + 1) <= (i + 1) * n,
{
    let top: int = usize::MAX as int;
    assert(i * n <= (n - 1) * n) by (nonlinear_arith)
        requires
            i <= n - 1,
    ;
    assert((n - 1) * n + n == n * n) by (nonlinear_arith);
    assert((i + 1) * n == i * n + n) by (nonlinear_arith);
    assert(n * n <= 0xffff_ffff * 0xffff_ffff) by (nonlinear_arith)
        requires
            n <= 0xffff_ffff,
    ;
    let done: int = (i * n + j + 1) as int;
    assert(done * top <= (0xffff_ffff * 0xffff_ffff) * 0xffff_ffff_ffff_ffff) by (nonlinear_arith)
        requires
            0 <= done <= 0xffff_ffff * 0xffff_ffff,
            0 <= top <= 0xffff_ffff_ffff_ffff,
    ;
    assert((done - 1) * top + top == done * top) by (nonlinear_arith);
}

/// Adds to the count of each node the number of shortest paths between `a` and `b` that
/// pass through it. Every simple path between the two is looked at, which takes time
/// exponential in the size of the graph.
pub fn tally_pair(graph: &WeightedGraph, a: NodeId, b: NodeId, counts: &mut Vec<u128>)
    requires
        graph.wf(),
        a != b,
        old(counts).len() == graph@.node_count(),
        forall|k: int|
            0 <= k < old(counts).len() ==> (#[trigger] old(counts)[k]) + usize::MAX <= u128::MAX,
    ensures
        final(counts).len() == old(counts).len(),
        forall|k: int|
            0 <= k < old(counts).len() ==> (#[trigger] final(counts)[k]) == old(counts)[k]
                + through_count(graph@, a, b, k as usize),
        forall|k: int|
            0 <= k < old(counts).len() ==> (#[trigger] final(counts)[k]) <= old(counts)[k]
                + usize::MAX,
{
    let ghost before = counts@;
    let paths = graph.simple_paths(a, b);
    match least_length(&paths) {
        None => {
            proof {
                assert forall|k: int| 0 <= k < counts.len() implies (#[trigger] counts[k])
                    == before[k] + through_count(graph@, a, b, k as usize) by {
                    lemma_no_paths_none_through(graph@, a, b, k as usize);
                }
            }
        },
        Some(len) => {
            if len < 3 {
                proof {
                    assert forall|k: int| 0 <= k < counts.len() implies (#[trigger] counts[k])
                        == before[k] + through_count(graph@, a, b, k as usize) by {
                        lemma_counted_are_shortest(graph@, a, b, paths@, len as nat, k as usize);
                        lemma_count_short(paths@, len as nat, k as usize, paths.len() as nat);
                    }
                }
            } else {
                proof {
                    assert forall|i: int, j: int|
                        0 <= i < paths.len() && 0 <= j < paths[i].len() implies (
                    #[trigger] paths[i][j]) < counts.len() by {
                        assert(is_simple_path(graph@, paths[i]@, a, b));
                        assert(graph@.has_node(paths[i]@[j]));
                    }
                    assert forall|i: int| 0 <= i < paths.len() implies (
                    #[trigger] paths[i])@.no_duplicates() by {
                        assert(is_simple_path(graph@, paths[i]@, a, b));
                    }
                }
                tally_paths(&paths, len, counts);
                proof {
                    assert forall|k: int| 0 <= k < counts.len() implies (#[trigger] counts[k])
                        == before[k] + through_count(graph@, a, b, k as usize) && counts[k]
                        <= before[k] + usize::MAX by {
                        lemma_counted_are_shortest(graph@, a, b, paths@, len as nat, k as usize);
                        lemma_count_bound(paths@, len as nat, k as usize, paths.len() as nat);
                    }
                }
            }
        },
    }
}

/// For each node, the number of shortest paths between two other nodes that pass through
/// it.
pub fn betweenness_counts(graph: &WeightedGraph) -> (counts: Vec<u128>)
    requires
        graph.wf(),
    ensures
        counts.len() == graph@.node_count(),
        forall|k: int|
            0 <= k < counts.len() ==> (#[trigger] counts[k]) == betweenness_count(
                graph@,
                k as usize,
            ),
{
    let n = graph.node_count();
    let mut counts: Vec<u128> = Vec::new();
    let mut k: usize = 0;
    while k < n
        invariant
            k <= n,
            counts.len() == k,
            forall|x: int| 0 <= x < k ==> (#[trigger] counts[x]) == 0,
        decreases n - k,
    {
        counts.push(0);
        k += 1;
    }
    let mut i: usize = 0;
    while i < n
        invariant
            graph.wf(),
            n == graph@.node_count(),
            i <= n,
            counts.len() == n,
            forall|x: int|
                0 <= x < n ==> (#[trigger] counts[x]) == pair_count(graph@, i as nat, x as usize),
            forall|x: int| 0 <= x < n ==> (#[trigger] counts[x]) <= (i * n) * usize::MAX,
        decreases n - i,
    {
        let mut j: usize = i + 1;
        proof {
            assert((i * n) * usize::MAX <= (i * n + j) * usize::MAX) by (nonlinear_arith)
                requires
                    0 <= i,
                    0 <= n,
                    0 <= j,
            ;
        }
        while j < n
            invariant
                graph.wf(),
                n == graph@.node_count(),
                i < n,
                i + 1 <= j <= n || j == i + 1,
                counts.len() == n,
                forall|x: int|
                    0 <= x < n ==> (#[trigger] counts[x]) == pair_count(
                        graph@,
                        i as nat,
                        x as usize,
                    ) + row_count(graph@, i, j as nat, x as usize),
                forall|x: int| 0 <= x < n ==> (#[trigger] counts[x]) <= (i * n + j) * usize::MAX,
            decreases n - j,
        {
            proof {
                lemma_tally_room(i as nat, j as nat, n as nat);
            }
            tally_pair(graph, i, j, &mut counts);
            j += 1;
        }
        proof {
            if j == n {
                assert((i * n + j) == (i + 1) * n) by (nonlinear_arith)
                    requires
                        j == n,
                ;
            } else {
                assert(i + 1 == n);
                assert((i * n + j) == (i + 1) * n) by (nonlinear_arith)
                    requires
                        j == n,
                        i + 1 == n,
                ;
            }
        }
        i += 1;
    }
    counts
}

/// The betweenness score for a node with `count` shortest paths through it, in a graph
/// of `nodes` nodes.
pub fn betweenness_of(count: u128, nodes: usize) -> (s: Score)
    requires
        nodes >= 2,
    ensures
        s == if (nodes - 1) * (nodes - 2) / 2 == 0 {
            Score::Undefined
        } else {
            Score::Ratio { num: count, den: ((nodes - 1) * (nodes - 2) / 2) as u128 }
        },
{
    let first: u128 = (nodes - 1) as u128;
    let second: u128 = (nodes - 2) as u128;
    assert(first * second <= 0xffff_ffff_ffff_ffff * 0xffff_ffff_ffff_ffff) by (nonlinear_arith)
        requires
            first <= 0xffff_ffff_ffff_ffff,
            second <= 0xffff_ffff_ffff_ffff,
    ;
    let pairs: u128 = first * second / 2;
    if pairs == 0 {
        Score::Undefined
    } else {
        Score::Ratio { num: count, den: pairs }
    }
}

/// The betweenness centrality of every node: the number of shortest paths between two
/// other nodes that pass through it, over the number of pairs of other nodes. Paths are
/// measured by their number of links, not by weight, and every shortest path of a pair
/// counts. All simple paths of every pair are enumerated, so this is for small graphs.
pub fn betweenness_centrality(graph: &WeightedGraph) -> (r: Result<Vec<Score>, GraphError>)
    requires
        graph.wf(),
    ensures
        outcome_view(r) == centrality_outcome(graph@, betweenness_scores(graph@)),
        r matches Ok(scores) ==> scores.len() == graph@.node_count(),
{
    let n = graph.node_count();
    if n < 2 {
        return Err(GraphError::DegenerateGraph);
    }
    let counts = betweenness_counts(graph);
    let mut scores: Vec<Score> = Vec::new();
    let mut k: usize = 0;
    while k < n
        invariant
            n == graph@.node_count(),
            n >= 2,
            k <= n,
            counts.len() == n,
            scores.len() == k,
            forall|x: int|
                0 <= x < n ==> (#[trigger] counts[x]) == betweenness_count(graph@, x as usize),
            forall|x: int|
                0 <= x < k ==> #[trigger] scores[x] == betweenness_score(graph@, x as usize),
        decreases n - k,
    {
        scores.push(betweenness_of(counts[k], n));
        k += 1;
    }
    assert(scores@ =~= betweenness_scores(graph@));
    Ok(scores)
}

/// Each kind of centrality gives every node of the graph exactly one score, which stands
/// at the place of the node's id.
pub proof fn lemma_one_score_per_node(m: GraphModel, n: NodeId)
    requires
        m.has_node(n),
    ensures
        degree_scores(m).len() == m.node_count(),
        closeness_scores(m).len() == m.node_count(),
        betweenness_scores(m).len() == m.node_count(),
        degree_scores(m)[n as int] == degree_score(m, n),
        closeness_scores(m)[n as int] == closeness_score(m, n),
        betweenness_scores(m)[n as int] == betweenness_score(m, n),
{
}

/// The scores depend on the graph alone: whatever the three functions answer on one
/// graph, they answer again on any graph that holds the same nodes and links, and so on
/// the same graph at any later time.
pub proof fn lemma_same_graph_same_scores(
    first: GraphModel,
    second: GraphModel,
    degree: (Result<Seq<Score>, GraphError>, Result<Seq<Score>, GraphError>),
    closeness: (Result<Seq<Score>, GraphError>, Result<Seq<Score>, GraphError>),
    betweenness: (Result<Seq<Score>, GraphError>, Result<Seq<Score>, GraphError>),
)
    requires
        first == second,
        degree.0 == centrality_outcome(first, degree_scores(first)),
        degree.1 == centrality_outcome(second, degree_scores(second)),
        closeness.0 == centrality_outcome(first, closeness_scores(first)),
        closeness.1 == centrality_outcome(second, closeness_scores(second)),
        betweenness.0 == centrality_outcome(first, betweenness_scores(first)),
        betweenness.1 == centrality_outcome(second, betweenness_scores(second)),
    ensures
        degree.0 == degree.1,
        closeness.0 == closeness.1,
        betweenness.0 == betweenness.1,
{
}

} // verus!
