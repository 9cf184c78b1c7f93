//! Walks, simple paths and distances in a graph model.

use vstd::prelude::*;
use crate::model::GraphModel;

verus! {

/// The nodes at positions `i` and `i + 1` of `p` are joined by a link.
pub open spec fn linked_at(m: GraphModel, p: Seq<usize>, i: int) -> bool {
    m.adjacent(p[i], p[i + 1])
}

/// `p` leads from `a` to `b`, each node joined to the next by a link.
pub open spec fn is_walk(m: GraphModel, p: Seq<usize>, a: usize, b: usize) -> bool {
    &&& p.len() >= 1
    &&& p[0] == a
    &&& p[p.len() - 1] == b
    &&& forall|i: int| 0 <= i < p.len() ==> m.has_node(#[trigger] p[i])
    &&& forall|i: int| 0 <= i < p.len() - 1 ==> #[trigger] linked_at(m, p, i)
}

/// The weight of the link between `a` and `b`, and 0 where there is none.
pub open spec fn step_weight(m: GraphModel, a: usize, b: usize) -> nat {
    match m.weight(a, b) {
        Some(w) => w as nat,
        None => 0,
    }
}

/// The sum of the weights of the links that `p` runs along.
pub open spec fn walk_cost(m: GraphModel, p: Seq<usize>) -> nat
    decreases p.len(),
{
    if p.len() <= 1 {
        0
    } else {
        walk_cost(m, p.drop_last()) + step_weight(m, p[p.len() - 2], p[p.len() - 1])
    }
}

/// Some walk leads from `a` to `b`.
pub open spec fn connected(m: GraphModel, a: usize, b: usize) -> bool {
    exists|p: Seq<usize>| is_walk(m, p, a, b)
}

/// `d` is the cost of a cheapest walk from `a` to `b`.
pub open spec fn is_distance(m: GraphModel, a: usize, b: usize, d: nat) -> bool {
    &&& exists|p: Seq<usize>| is_walk(m, p, a, b) && walk_cost(m, p) == d
    &&& forall|q: Seq<usize>| is_walk(m, q, a, b) ==> walk_cost(m, q) >= d
}

/// The cost of a cheapest walk from `a` to `b`, if any walk leads there.
pub open spec fn distance(m: GraphModel, a: usize, b: usize) -> Option<nat> {
    if connected(m, a, b) {
        Some(choose|d: nat| is_distance(m, a, b, d))
    } else {
        None
    }
}

/// A walk from `a` to `b` that visits no node twice.
pub open spec fn is_simple_path(m: GraphModel, p: Seq<usize>, a: usize, b: usize) -> bool {
    is_walk(m, p, a, b) && p.no_duplicates()
}

/// A simple path from `a` to `b` with as few links as any.
pub open spec fn is_shortest_path(m: GraphModel, p: Seq<usize>, a: usize, b: usize) -> bool {
    &&& is_simple_path(m, p, a, b)
    &&& forall|q: Seq<usize>| is_simple_path(m, q, a, b) ==> q.len() >= p.len()
}

/// `k` lies on `p` strictly between its two ends.
pub open spec fn passes_through(p: Seq<usize>, k: usize) -> bool {
    exists|i: int| 0 < i < p.len() - 1 && p[i] == k
}

/// The shortest paths from `a` to `b` that pass through `k`.
pub open spec fn paths_through(m: GraphModel, a: usize, b: usize, k: usize) -> Set<Seq<usize>> {
    Set::new(|p: Seq<usize>| is_shortest_path(m, p, a, b) && passes_through(p, k))
}

/// A distance is unique: two cheapest costs are equal.
pub proof fn lemma_distance_unique(m: GraphModel, a: usize, b: usize, d: nat)
    requires
        is_distance(m, a, b, d),
    ensures
        connected(m, a, b),
        distance(m, a, b) == Some(d),
{
    let p = choose|p: Seq<usize>| is_walk(m, p, a, b) && walk_cost(m, p) == d;
    assert(is_walk(m, p, a, b));
    let c = choose|c: nat| is_distance(m, a, b, c);
    assert(is_distance(m, a, b, c));
    let q = choose|q: Seq<usize>| is_walk(m, q, a, b) && walk_cost(m, q) == c;
    assert(walk_cost(m, q) >= d);
    assert(walk_cost(m, p) >= c);
}

/// From a node without links no walk leads to any other node.
pub proof fn lemma_isolated_unconnected(m: GraphModel, a: usize, b: usize)
    requires
        a != b,
        forall|c: usize| !m.adjacent(a, c),
    ensures
        !connected(m, a, b),
        distance(m, a, b) is None,
{
    if connected(m, a, b) {
        let p = choose|p: Seq<usize>| is_walk(m, p, a, b);
        assert(p.len() >= 2);
        assert(linked_at(m, p, 0));
    }
}

} // verus!
