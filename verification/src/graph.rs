//! An undirected, weighted graph of labelled nodes.
//!
//! Nodes are never removed, so a node id stays valid for the life of the graph. At most
//! one link joins any two nodes, and no link joins a node to itself.

use vstd::prelude::*;
use crate::model::{far_end, lemma_incident_finite, lemma_link_unique, same_ends, touches, GraphModel, NodeId};
use crate::paths::{distance, is_simple_path, lemma_distance_unique};
use crate::store::{
    lists_incident, model_of, store_add_node, store_edge_count, store_incident, store_label,
    store_new, store_node_count, store_shortest, store_simple_paths, store_update_edge,
};

verus! {

/// Why a graph operation was refused.
#[derive(Clone, Copy, Debug, PartialEq, Eq, Structural)]
pub enum GraphError {
    /// A link names a node that the graph does not hold.
    InvalidNodeReference,
    /// A link would join a node to itself.
    SelfLoop,
    /// The graph has fewer than two nodes, so that no centrality is defined.
    DegenerateGraph,
}

/// The largest number of nodes, and of links, that a graph can hold.
pub const CAPACITY: usize = 0xffff_ffff;

/// An undirected graph of labelled nodes, joined by weighted links.
pub struct WeightedGraph {
    pub(crate) store: petgraph::graph::UnGraph<String, u32>,
}

impl View for WeightedGraph {
    type V = GraphModel;

    closed spec fn view(&self) -> GraphModel {
        model_of(self.store)
    }
}

/// What `add_edge` answers for the ends `a` and `b`: an unknown node is reported before a
/// self-loop.
pub open spec fn add_edge_outcome(m: GraphModel, a: NodeId, b: NodeId) -> Result<(), GraphError> {
    if !m.has_node(a) || !m.has_node(b) {
        Err(GraphError::InvalidNodeReference)
    } else if a == b {
        Err(GraphError::SelfLoop)
    } else {
        Ok(())
    }
}

/// `r` lists the neighbours of `n` with the weights of the links to them: each neighbour
/// once, and nothing else.
pub open spec fn lists_neighbors(m: GraphModel, n: NodeId, r: Seq<(NodeId, u32)>) -> bool {
    &&& r.len() == m.degree(n)
    &&& forall|i: int| 0 <= i < r.len() ==> m.weight(n, (#[trigger] r[i]).0) == Some(r[i].1)
    &&& forall|i: int, j: int| 0 <= i < j < r.len() ==> (#[trigger] r[i]).0 != (#[trigger] r[j]).0
    &&& forall|b: NodeId| m.adjacent(n, b) ==> exists|i: int| 0 <= i < r.len() && (#[trigger] r[i]).0 == b
}

/// `r` lists the simple paths from `a` to `b`: each of them once, and nothing else.
pub open spec fn lists_simple_paths(m: GraphModel, a: NodeId, b: NodeId, r: Seq<Vec<NodeId>>) -> bool {
    &&& forall|i: int| 0 <= i < r.len() ==> is_simple_path(m, (#[trigger] r[i])@, a, b)
    &&& forall|p: Seq<NodeId>|
        is_simple_path(m, p, a, b) ==> exists|i: int| 0 <= i < r.len() && (#[trigger] r[i])@ == p
    &&& forall|i: int, j: int| 0 <= i < j < r.len() ==> (#[trigger] r[i])@ != (#[trigger] r[j])@
}

/// Joining two distinct existing nodes keeps a graph well formed, and makes the weight of
/// the link between them the given one while every other pair keeps what it had.
pub proof fn lemma_with_link(m: GraphModel, a: NodeId, b: NodeId, weight: u32)
    requires
        m.wf(),
        m.has_node(a),
        m.has_node(b),
        a != b,
        m.adjacent(a, b) || m.links.len() < u32::MAX,
    ensures
        m.with_link(a, b, weight).wf(),
        m.with_link(a, b, weight).weight(a, b) == Some(weight),
        forall|c: NodeId, d: NodeId|
            !same_ends((c, d, 0u32), (a, b, 0u32)) ==> #[trigger] m.with_link(a, b, weight).weight(
                c,
                d,
            ) == m.weight(c, d),
{
    let w = m.with_link(a, b, weight);
    if m.adjacent(a, b) {
        let e = m.link_between(a, b);
        assert(m.joins(e, a, b));
        assert forall|x: int, y: int|
            0 <= x < w.links.len() && 0 <= y < w.links.len() && x != y implies !same_ends(
            #[trigger] w.links[x],
            #[trigger] w.links[y],
        ) by {
            assert(!same_ends(m.links[x], m.links[y]));
        }
        assert forall|x: int| 0 <= x < w.links.len() implies w.has_node(#[trigger] w.links[x].0)
            && w.has_node(w.links[x].1) && w.links[x].0 != w.links[x].1 by {
            assert(m.has_node(m.links[x].0));
        }
        assert(w.joins(e, a, b));
        lemma_link_unique(w, e, a, b);
        assert forall|c: NodeId, d: NodeId| !same_ends((c, d, 0u32), (a, b, 0u32)) implies w.weight(
            c,
            d,
        ) == m.weight(c, d) by {
            if m.adjacent(c, d) {
                let f = m.link_between(c, d);
                assert(m.joins(f, c, d));
                assert(w.joins(f, c, d));
                lemma_link_unique(w, f, c, d);
            } else if w.adjacent(c, d) {
                let f = w.link_between(c, d);
                assert(w.joins(f, c, d));
                assert(m.joins(f, c, d));
            }
        }
    } else {
        let e = m.links.len() as int;
        assert forall|x: int, y: int|
            0 <= x < w.links.len() && 0 <= y < w.links.len() && x != y implies !same_ends(
            #[trigger] w.links[x],
            #[trigger] w.links[y],
        ) by {
            if x == e {
                assert(!m.joins(y, a, b));
            } else if y == e {
                assert(!m.joins(x, a, b));
            } else {
                assert(!same_ends(m.links[x], m.links[y]));
            }
        }
        assert forall|x: int| 0 <= x < w.links.len() implies w.has_node(#[trigger] w.links[x].0)
            && w.has_node(w.links[x].1) && w.links[x].0 != w.links[x].1 by {
            if x < e {
                assert(m.has_node(m.links[x].0));
            }
        }
        assert(w.joins(e, a, b));
        lemma_link_unique(w, e, a, b);
        assert forall|c: NodeId, d: NodeId| !same_ends((c, d, 0u32), (a, b, 0u32)) implies w.weight(
            c,
            d,
        ) == m.weight(c, d) by {
            if m.adjacent(c, d) {
                let f = m.link_between(c, d);
                assert(m.joins(f, c, d));
                assert(w.joins(f, c, d));
                lemma_link_unique(w, f, c, d);
            } else if w.adjacent(c, d) {
                let f = w.link_between(c, d);
                assert(w.joins(f, c, d));
                assert(m.joins(f, c, d));
            }
        }
    }
}

impl WeightedGraph {
    /// Whether the graph is well formed. Every graph that this crate hands out is.
    pub open spec fn wf(&self) -> bool {
        self@.wf()
    }

    /// A graph without nodes.
    pub fn new() -> (g: WeightedGraph)
        ensures
            g.wf(),
            g@.labels.len() == 0,
            g@.links.len() == 0,
    {
        WeightedGraph { store: store_new() }
    }

    pub fn node_count(&self) -> (n: usize)
        ensures
            n == self@.node_count(),
    {
        store_node_count(&self.store)
    }

    pub fn edge_count(&self) -> (n: usize)
        ensures
            n == self@.links.len(),
    {
        store_edge_count(&self.store)
    }

    /// Appends a node and returns its id, which is the number of nodes before the call.
    pub fn add_node(&mut self, label: &str) -> (id: NodeId)
        requires
            old(self).wf(),
            old(self)@.node_count() < CAPACITY,
        ensures
            final(self).wf(),
            id == old(self)@.node_count(),
            final(self)@ == old(self)@.with_node(label@),
    {
        let ghost before = self@;
        let id = store_add_node(&mut self.store, label.to_owned());
        proof {
            assert forall|e: int| 0 <= e < self@.links.len() implies self@.has_node(
                #[trigger] self@.links[e].0,
            ) && self@.has_node(self@.links[e].1) by {
                assert(before.has_node(before.links[e].0));
            }
            assert(self@.simple());
        }
        id
    }

    /// Joins `a` and `b` by a link of the given weight. Where a link joins them already, it
    /// takes the new weight. A node that the graph does not hold, and a link from a node
    /// to itself, are refused, and the graph stays as it was.
    pub fn add_edge(&mut self, a: NodeId, b: NodeId, weight: u32) -> (r: Result<(), GraphError>)
        requires
            old(self).wf(),
            old(self)@.links.len() < CAPACITY,
        ensures
            final(self).wf(),
            r == add_edge_outcome(old(self)@, a, b),
            r is Err ==> final(self)@ == old(self)@,
            r is Ok ==> final(self)@ == old(self)@.with_link(a, b, weight),
    {
        let n = self.node_count();
        if a >= n || b >= n {
            return Err(GraphError::InvalidNodeReference);
        }
        if a == b {
            return Err(GraphError::SelfLoop);
        }
        let ghost before = self@;
        store_update_edge(&mut self.store, a, b, weight);
        proof {
            if before.adjacent(a, b) {
                let e = choose|e: int|
                    before.joins(e, a, b) && self@.links == before.links.update(
                        e,
                        (before.links[e].0, before.links[e].1, weight),
                    );
                lemma_link_unique(before, e, a, b);
            }
            lemma_with_link(before, a, b, weight);
        }
        Ok(())
    }

    /// The label of node `n`, or `None` where the graph holds no such node.
    pub fn label(&self, n: NodeId) -> (r: Option<String>)
        ensures
            match r {
                Some(s) => self@.has_node(n) && s@ == self@.labels[n as int],
                None => !self@.has_node(n),
            },
    {
        if n < self.node_count() {
            Some(store_label(&self.store, n))
        } else {
            None
        }
    }

    /// The neighbours of `n`, each with the weight of the link to it, in no particular
    /// order. A node that the graph does not hold has none.
    pub fn neighbors(&self, n: NodeId) -> (r: Vec<(NodeId, u32)>)
        requires
            self.wf(),
        ensures
            lists_neighbors(self@, n, r@),
            !self@.has_node(n) ==> r.len() == 0,
    {
        if n >= self.node_count() {
            proof {
                lemma_incident_finite(self@, n);
                assert forall|e: int| !self@.incident(n).contains(e) by {
                    if 0 <= e < self@.links.len() {
                        assert(self@.has_node(self@.links[e].0));
                    }
                }
                assert(self@.incident(n) =~= Set::empty());
                assert forall|b: NodeId| !self@.adjacent(n, b) by {
                    if self@.adjacent(n, b) {
                        let e = self@.link_between(n, b);
                        assert(self@.joins(e, n, b));
                        assert(self@.has_node(self@.links[e].0));
                    }
                }
            }
            return Vec::new();
        }
        let r = store_incident(&self.store, n);
        proof {
            let order = choose|order: Seq<int>| lists_incident(self@, n, order, r@);
            lemma_lists_neighbors(self@, n, order, r@);
        }
        r
    }

    /// The number of links at `n`.
    pub fn degree(&self, n: NodeId) -> (d: usize)
        requires
            self.wf(),
        ensures
            d == self@.degree(n),
    {
        self.neighbors(n).len()
    }

    /// The weight of the link between `a` and `b`, or `None` where no link joins them.
    pub fn weight(&self, a: NodeId, b: NodeId) -> (r: Option<u32>)
        requires
            self.wf(),
        ensures
            r == self@.weight(a, b),
    {
        let near = self.neighbors(a);
        let mut i: usize = 0;
        while i < near.len()
            invariant
                i <= near.len(),
                lists_neighbors(self@, a, near@),
                forall|j: int| 0 <= j < i ==> (#[trigger] near[j]).0 != b,
            decreases near.len() - i,
        {
            if near[i].0 == b {
                return Some(near[i].1);
            }
            i += 1;
        }
        None
    }

    /// The cost of a cheapest walk from `a` to `b`: the least sum of link weights along
    /// any way from the one to the other. `None` where no walk leads from `a` to `b`, or
    /// the graph does not hold them.
    pub fn distance(&self, a: NodeId, b: NodeId) -> (r: Option<u64>)
        requires
            self.wf(),
        ensures
            match r {
                Some(d) => distance(self@, a, b) == Some(d as nat),
                None => distance(self@, a, b) is None,
            },
    {
        let n = self.node_count();
        if a >= n || b >= n {
            proof {
                if crate::paths::connected(self@, a, b) {
                    let p = choose|p: Seq<NodeId>| crate::paths::is_walk(self@, p, a, b);
                    assert(self@.has_node(p[0]));
                    assert(self@.has_node(p[p.len() - 1]));
                }
            }
            return None;
        }
        let r = store_shortest(&self.store, a, b);
        proof {
            if let Some(d) = r {
                lemma_distance_unique(self@, a, b, d as nat);
            }
        }
        r
    }

    /// Every simple path from `a` to `b`, as the nodes along it, in no particular order.
    /// The number of such paths can grow exponentially with the size of the graph.
    pub fn simple_paths(&self, a: NodeId, b: NodeId) -> (r: Vec<Vec<NodeId>>)
        requires
            self.wf(),
        ensures
            lists_simple_paths(self@, a, b, r@),
    {
        let n = self.node_count();
        if a >= n || b >= n {
            proof {
                assert forall|p: Seq<NodeId>| !is_simple_path(self@, p, a, b) by {
                    if is_simple_path(self@, p, a, b) {
                        assert(self@.has_node(p[0]));
                        assert(self@.has_node(p[p.len() - 1]));
                    }
                }
            }
            return Vec::new();
        }
        if a == b {
            let mut only: Vec<NodeId> = Vec::new();
            only.push(a);
            let mut r: Vec<Vec<NodeId>> = Vec::new();
            r.push(only);
            proof {
                assert(r[0]@ =~= seq![a]);
                assert(is_simple_path(self@, r[0]@, a, b));
                assert forall|p: Seq<NodeId>| is_simple_path(self@, p, a, b) implies exists|i: int|
                    0 <= i < r.len() && (#[trigger] r[i])@ == p by {
                    if p.len() > 1 {
                        assert(p[0] == p[p.len() - 1]);
                    }
                    assert(p =~= r[0]@);
                }
            }
            return r;
        }
        store_simple_paths(&self.store, a, b)
    }
}

/// The links at a node, listed each once with the node at the far end, name each neighbour
/// once.
pub proof fn lemma_lists_neighbors(m: GraphModel, n: NodeId, order: Seq<int>, r: Seq<(NodeId, u32)>)
    requires
        m.wf(),
        lists_incident(m, n, order, r),
    ensures
        lists_neighbors(m, n, r),
{
    lemma_incident_finite(m, n);
    order.unique_seq_to_set();
    assert(order.to_set() =~= m.incident(n));
    assert forall|i: int| 0 <= i < r.len() implies m.weight(n, (#[trigger] r[i]).0) == Some(
        r[i].1,
    ) by {
        assert(order.contains(order[i]));
        assert(m.incident(n).contains(order[i]));
        assert(m.joins(order[i], n, far_end(m.links[order[i]], n)));
        lemma_link_unique(m, order[i], n, r[i].0);
    }
    assert forall|i: int, j: int| 0 <= i < j < r.len() implies (#[trigger] r[i]).0 != (
    #[trigger] r[j]).0 by {
        assert(order.contains(order[i]));
        assert(order.contains(order[j]));
        assert(m.incident(n).contains(order[i]));
        assert(m.incident(n).contains(order[j]));
        if r[i].0 == r[j].0 {
            assert(same_ends(m.links[order[i]], m.links[order[j]]));
        }
    }
    assert forall|b: NodeId| m.adjacent(n, b) implies exists|i: int|
        0 <= i < r.len() && (#[trigger] r[i]).0 == b by {
        let e = m.link_between(n, b);
        assert(m.joins(e, n, b));
        assert(touches(m.links[e], n));
        assert(m.incident(n).contains(e));
        assert(order.contains(e));
        let i = choose|i: int| 0 <= i < order.len() && order[i] == e;
        assert(m.links[e].0 != m.links[e].1);
        assert(r[i].0 == b);
    }
}

} // verus!
