//! The mathematical model of a graph: node labels by node id, and links by insertion order.

use vstd::prelude::*;

verus! {

/// A node is named by its position in the order of insertion.
pub type NodeId = usize;

/// What a graph is, as far as any contract of this crate is concerned.
pub ghost struct GraphModel {
    /// The label of each node, by node id.
    pub labels: Seq<Seq<char>>,
    /// Each link as its two end nodes and its weight, in the order of insertion.
    pub links: Seq<(usize, usize, u32)>,
}

/// Whether a link has `n` as one of its ends.
pub open spec fn touches(link: (usize, usize, u32), n: usize) -> bool {
    link.0 == n || link.1 == n
}

/// The end of a link that lies opposite `n`.
pub open spec fn far_end(link: (usize, usize, u32), n: usize) -> usize {
    if link.0 == n {
        link.1
    } else {
        link.0
    }
}

/// Whether two links join the same pair of nodes, in either direction.
pub open spec fn same_ends(x: (usize, usize, u32), y: (usize, usize, u32)) -> bool {
    (x.0 == y.0 && x.1 == y.1) || (x.0 == y.1 && x.1 == y.0)
}

impl GraphModel {
    pub open spec fn node_count(self) -> nat {
        self.labels.len()
    }

    pub open spec fn has_node(self, n: usize) -> bool {
        n < self.labels.len()
    }

    /// Link number `e` exists and joins `a` and `b`, in either direction.
    pub open spec fn joins(self, e: int, a: usize, b: usize) -> bool {
        &&& 0 <= e < self.links.len()
        &&& (self.links[e].0 == a && self.links[e].1 == b) || (self.links[e].0 == b
            && self.links[e].1 == a)
    }

    pub open spec fn adjacent(self, a: usize, b: usize) -> bool {
        exists|e: int| self.joins(e, a, b)
    }

    /// The number of the link that joins `a` and `b`, where there is one.
    pub open spec fn link_between(self, a: usize, b: usize) -> int {
        choose|e: int| self.joins(e, a, b)
    }

    /// The weight of the link between `a` and `b`, if they are joined.
    pub open spec fn weight(self, a: usize, b: usize) -> Option<u32> {
        if self.adjacent(a, b) {
            Some(self.links[self.link_between(a, b)].2)
        } else {
            None
        }
    }

    /// No two links join the same pair of nodes.
    pub open spec fn simple(self) -> bool {
        forall|e: int, f: int|
            0 <= e < self.links.len() && 0 <= f < self.links.len() && e != f ==> !same_ends(
                #[trigger] self.links[e],
                #[trigger] self.links[f],
            )
    }

    /// Every link joins two distinct existing nodes, no pair of nodes is joined twice, and
    /// the counts of nodes and links fit the 32-bit indices of the underlying store.
    pub open spec fn wf(self) -> bool {
        &&& self.labels.len() <= u32::MAX
        &&& self.links.len() <= u32::MAX
        &&& forall|e: int|
            0 <= e < self.links.len() ==> {
                &&& self.has_node(#[trigger] self.links[e].0)
                &&& self.has_node(self.links[e].1)
                &&& self.links[e].0 != self.links[e].1
            }
        &&& self.simple()
    }

    /// The numbers of the links that have `n` as an end.
    pub open spec fn incident(self, n: usize) -> Set<int> {
        Set::new(|e: int| 0 <= e < self.links.len() && touches(self.links[e], n))
    }

    /// The number of links that have `n` as an end.
    pub open spec fn degree(self, n: usize) -> nat {
        self.incident(n).len()
    }

    /// The graph after `a` and `b` have been joined with `weight`: a link that already joins
    /// them takes the new weight, otherwise a new link is appended.
    pub open spec fn with_link(self, a: usize, b: usize, weight: u32) -> GraphModel {
        if self.adjacent(a, b) {
            let e = self.link_between(a, b);
            GraphModel {
                labels: self.labels,
                links: self.links.update(e, (self.links[e].0, self.links[e].1, weight)),
            }
        } else {
            GraphModel { labels: self.labels, links: self.links.push((a, b, weight)) }
        }
    }

    /// The graph after a node with `label` has been appended.
    pub open spec fn with_node(self, label: Seq<char>) -> GraphModel {
        GraphModel { labels: self.labels.push(label), links: self.links }
    }
}

/// In a simple graph, the link between two joined nodes is the only one.
pub proof fn lemma_link_unique(m: GraphModel, e: int, a: usize, b: usize)
    requires
        m.simple(),
        m.joins(e, a, b),
    ensures
        m.adjacent(a, b),
        m.link_between(a, b) == e,
        m.weight(a, b) == Some(m.links[e].2),
{
    let f = m.link_between(a, b);
    assert(m.joins(f, a, b));
    if f != e {
        assert(same_ends(m.links[e], m.links[f]));
    }
}

/// The links at a node are finitely many, and no more than the graph has.
pub proof fn lemma_incident_finite(m: GraphModel, n: usize)
    ensures
        m.incident(n).finite(),
        m.degree(n) <= m.links.len(),
{
    let all = vstd::set_lib::set_int_range(0, m.links.len() as int);
    vstd::set_lib::lemma_int_range(0, m.links.len() as int);
    assert(m.incident(n).subset_of(all));
    vstd::set_lib::lemma_len_subset(m.incident(n), all);
}

/// The nodes that a link joins `n` to.
pub open spec fn neighbors_of(m: GraphModel, n: NodeId) -> Set<int> {
    Set::new(|y: int| 0 <= y <= usize::MAX && m.adjacent(n, y as usize))
}

/// In a well-formed graph a node has as many links as it has neighbours.
pub proof fn lemma_degree_counts_neighbors(m: GraphModel, n: NodeId)
    requires
        m.wf(),
    ensures
        neighbors_of(m, n).finite(),
        m.degree(n) == neighbors_of(m, n).len(),
{
    let far = |e: int| far_end(m.links[e], n) as int;
    let at = m.incident(n);
    lemma_incident_finite(m, n);
    assert forall|e: int, f: int| at.contains(e) && at.contains(f) && #[trigger] far(e)
        == #[trigger] far(f) implies e == f by {
        if e != f {
            assert(same_ends(m.links[e], m.links[f]));
        }
    }
    assert(vstd::relations::injective_on(far, at));
    vstd::set_lib::lemma_map_size(at, at.map(far), far);
    assert forall|y: int| at.map(far).contains(y) implies neighbors_of(m, n).contains(y) by {
        let e = choose|e: int| at.contains(e) && far(e) == y;
        assert(m.joins(e, n, far_end(m.links[e], n)));
    }
    assert forall|y: int| neighbors_of(m, n).contains(y) implies at.map(far).contains(y) by {
        let e = m.link_between(n, y as usize);
        assert(m.joins(e, n, y as usize));
        assert(touches(m.links[e], n));
        assert(m.links[e].0 != m.links[e].1);
        assert(at.contains(e) && far(e) == y);
    }
    assert(at.map(far) =~= neighbors_of(m, n));
}

/// A node has at most as many links as there are other nodes.
pub proof fn lemma_degree_bound(m: GraphModel, n: NodeId)
    requires
        m.wf(),
        m.has_node(n),
    ensures
        m.degree(n) <= m.node_count() - 1,
{
    let others = vstd::set_lib::set_int_range(0, m.node_count() as int).remove(n as int);
    vstd::set_lib::lemma_int_range(0, m.node_count() as int);
    lemma_degree_counts_neighbors(m, n);
    assert forall|y: int| neighbors_of(m, n).contains(y) implies others.contains(y) by {
        let e = m.link_between(n, y as usize);
        assert(m.joins(e, n, y as usize));
        assert(m.has_node(m.links[e].0) && m.has_node(m.links[e].1));
    }
    vstd::set_lib::lemma_len_subset(neighbors_of(m, n), others);
}

} // verus!
