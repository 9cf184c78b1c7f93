//! The `petgraph` graph that holds the nodes and links, and what is taken on trust about it.
//!
//! Nothing in this file is proved: each function states what the `petgraph` routine it
//! calls is relied upon to do.

use vstd::prelude::*;
use crate::model::{far_end, GraphModel};
use crate::paths::{connected, is_distance, is_simple_path};

verus! {

#[verifier::external_type_specification]
#[verifier::external_body]
#[verifier::reject_recursive_types(N)]
#[verifier::reject_recursive_types(E)]
#[verifier::reject_recursive_types(Ty)]
#[verifier::reject_recursive_types(Ix)]
pub struct ExPetGraph<N, E, Ty, Ix>(petgraph::graph::Graph<N, E, Ty, Ix>);

#[verifier::external_type_specification]
#[verifier::external_body]
pub struct ExUndirected(petgraph::Undirected);

/// The labels of the nodes that a stored graph holds, by node index.
pub uninterp spec fn stored_labels(g: petgraph::graph::UnGraph<String, u32>) -> Seq<Seq<char>>;

/// The edges that a stored graph holds, by edge index: source, target and weight.
pub uninterp spec fn stored_links(g: petgraph::graph::UnGraph<String, u32>) -> Seq<
    (usize, usize, u32),
>;

/// The model of a stored graph.
pub open spec fn model_of(g: petgraph::graph::UnGraph<String, u32>) -> GraphModel {
    GraphModel { labels: stored_labels(g), links: stored_links(g) }
}

/// `r` lists the links at `n`, each once and in the order `order`, as the node at the far
/// end and the weight.
pub open spec fn lists_incident(m: GraphModel, n: usize, order: Seq<int>, r: Seq<(usize, u32)>) -> bool {
    &&& order.no_duplicates()
    &&& forall|e: int| order.contains(e) <==> m.incident(n).contains(e)
    &&& r.len() == order.len()
    &&& forall|i: int|
        0 <= i < r.len() ==> #[trigger] r[i] == (
            far_end(m.links[order[i]], n),
            m.links[order[i]].2,
        )
}

/// `Graph::new_undirected`: a graph without nodes or edges.
#[verifier::external_body]
pub(crate) fn store_new() -> (g: petgraph::graph::UnGraph<String, u32>)
    ensures
        stored_labels(g) == Seq::<Seq<char>>::empty(),
        stored_links(g) == Seq::<(usize, usize, u32)>::empty(),
{
    petgraph::graph::UnGraph::new_undirected()
}

/// `Graph::node_count`: the number of nodes.
#[verifier::external_body]
pub(crate) fn store_node_count(g: &petgraph::graph::UnGraph<String, u32>) -> (n: usize)
    ensures
        n == stored_labels(*g).len(),
{
    g.node_count()
}

/// `Graph::edge_count`: the number of edges.
#[verifier::external_body]
pub(crate) fn store_edge_count(g: &petgraph::graph::UnGraph<String, u32>) -> (n: usize)
    ensures
        n == stored_links(*g).len(),
{
    g.edge_count()
}

/// `Graph::add_node`: appends a node, which gets the next index, and leaves the edges as
/// they are. It panics on a graph that holds as many nodes as a 32-bit index can name,
/// which `requires` leaves out.
#[verifier::external_body]
pub(crate) fn store_add_node(g: &mut petgraph::graph::UnGraph<String, u32>, label: String) -> (id:
    usize)
    requires
        stored_labels(*old(g)).len() < u32::MAX,
    ensures
        id == stored_labels(*old(g)).len(),
        stored_labels(*final(g)) == stored_labels(*old(g)).push(label@),
        stored_links(*final(g)) == stored_links(*old(g)),
{
    g.add_node(label).index()
}

/// `Graph::update_edge`: where an edge joins `a` and `b` already, in either direction, one
/// such edge takes the new weight; otherwise an edge from `a` to `b` is appended. It
/// panics on a node that does not exist, and when appending to a graph that holds as many
/// edges as a 32-bit index can name, which `requires` leaves out.
#[verifier::external_body]
pub(crate) fn store_update_edge(
    g: &mut petgraph::graph::UnGraph<String, u32>,
    a: usize,
    b: usize,
    weight: u32,
)
    requires
        a < stored_labels(*old(g)).len(),
        b < stored_labels(*old(g)).len(),
        stored_links(*old(g)).len() < u32::MAX,
    ensures
        stored_labels(*final(g)) == stored_labels(*old(g)),
        model_of(*old(g)).adjacent(a, b) ==> exists|e: int|
            model_of(*old(g)).joins(e, a, b) && stored_links(*final(g)) == stored_links(
                *old(g),
            ).update(e, (stored_links(*old(g))[e].0, stored_links(*old(g))[e].1, weight)),
        !model_of(*old(g)).adjacent(a, b) ==> stored_links(*final(g)) == stored_links(
            *old(g),
        ).push((a, b, weight)),
{
    g.update_edge(petgraph::graph::NodeIndex::new(a), petgraph::graph::NodeIndex::new(b), weight);
}

/// Indexing a `Graph` by a node index: the weight of that node, here its label. It panics
/// on a node that does not exist, which `requires` leaves out.
#[verifier::external_body]
pub(crate) fn store_label(g: &petgraph::graph::UnGraph<String, u32>, n: usize) -> (label: String)
    requires
        n < stored_labels(*g).len(),
    ensures
        label@ == stored_labels(*g)[n as int],
{
    g[petgraph::graph::NodeIndex::new(n)].clone()
}

/// `Graph::edges_directed` with `Outgoing`, which on an undirected graph yields every edge
/// connected to the node once, with the node as its source. The order is left open.
#[verifier::external_body]
pub(crate) fn store_incident(g: &petgraph::graph::UnGraph<String, u32>, n: usize) -> (r: Vec<
    (usize, u32),
>)
    requires
        n < stored_labels(*g).len(),
    ensures
        exists|order: Seq<int>| lists_incident(model_of(*g), n, order, r@),
{
    g.edges_directed(petgraph::graph::NodeIndex::new(n), petgraph::Direction::Outgoing).map(
        |e| (petgraph::visit::EdgeRef::target(&e).index(), *e.weight()),
    ).collect()
}

/// `petgraph::algo::astar` with the edge weights as costs and an estimate of zero, which
/// makes it a search for a cheapest walk: the cost of one from `from` to `to`, or `None`
/// where no walk leads there. The walk it found is dropped. Costs are summed in 64 bits,
/// which the 32-bit weights and node indices cannot overflow.
#[verifier::external_body]
pub(crate) fn store_shortest(g: &petgraph::graph::UnGraph<String, u32>, from: usize, to: usize) -> (r:
    Option<u64>)
    requires
        model_of(*g).wf(),
        from < stored_labels(*g).len(),
        to < stored_labels(*g).len(),
    ensures
        match r {
            Some(d) => is_distance(model_of(*g), from, to, d as nat),
            None => !connected(model_of(*g), from, to),
        },
{
    petgraph::algo::astar(
        g,
        petgraph::graph::NodeIndex::new(from),
        |x| x == petgraph::graph::NodeIndex::new(to),
        |e| u64::from(*e.weight()),
        |_| 0u64,
    ).map(|found| found.0)
}

/// `petgraph::algo::all_simple_paths` without bounds on the number of nodes between the
/// ends: every path from `from` to `to` that visits no node twice, as the node indices
/// along it. On a graph where no two edges join the same pair it yields each such path
/// once. The order is left open.
#[verifier::external_body]
pub(crate) fn store_simple_paths(g: &petgraph::graph::UnGraph<String, u32>, from: usize, to: usize) -> (r:
    Vec<Vec<usize>>)
    requires
        model_of(*g).wf(),
        from < stored_labels(*g).len(),
        to < stored_labels(*g).len(),
        from != to,
    ensures
        forall|i: int| 0 <= i < r.len() ==> is_simple_path(model_of(*g), (#[trigger] r[i])@, from, to),
        forall|p: Seq<usize>|
            is_simple_path(model_of(*g), p, from, to) ==> exists|i: int|
                0 <= i < r.len() && (#[trigger] r[i])@ == p,
        forall|i: int, j: int| 0 <= i < j < r.len() ==> (#[trigger] r[i])@ != (#[trigger] r[j])@,
{
    petgraph::algo::all_simple_paths::<Vec<petgraph::graph::NodeIndex>, _>(
        g,
        petgraph::graph::NodeIndex::new(from),
        petgraph::graph::NodeIndex::new(to),
        0,
        None,
    ).map(|p| p.into_iter().map(|x| x.index()).collect()).collect()
}

} // verus!
