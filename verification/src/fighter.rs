//! The fighters who stand for the nodes of a graph of bouts.

use vstd::prelude::*;
use crate::graph::{WeightedGraph, CAPACITY};
use crate::model::{GraphModel, NodeId};

verus! {

/// A fighter, known by name.
#[derive(Debug)]
pub struct Fighter {
    pub name: String,
}

impl Fighter {
    pub fn new(name: &str) -> (fighter: Fighter)
        ensures
            fighter.name@ == name@,
    {
        Fighter { name: name.to_owned() }
    }
}

/// The graph that holds a node for each of the first `upto` fighters, labelled by name
/// and in their order, after the nodes of `m`.
pub open spec fn with_fighters(m: GraphModel, fighters: Seq<Fighter>, upto: nat) -> GraphModel
    decreases upto,
{
    if upto == 0 {
        m
    } else {
        with_fighters(m, fighters, (upto - 1) as nat).with_node(fighters[upto - 1].name@)
    }
}

/// Adds a node for each fighter, labelled by name, and returns their node ids in the
/// order of the fighters.
pub fn enter_fighters(graph: &mut WeightedGraph, fighters: &Vec<Fighter>) -> (nodes: Vec<NodeId>)
    requires
        old(graph).wf(),
        old(graph)@.node_count() + fighters.len() <= CAPACITY,
    ensures
        final(graph).wf(),
        final(graph)@ == with_fighters(old(graph)@, fighters@, fighters.len() as nat),
        nodes.len() == fighters.len(),
        forall|i: int| 0 <= i < nodes.len() ==> #[trigger] nodes[i] == old(graph)@.node_count() + i,
{
    let mut nodes: Vec<NodeId> = Vec::new();
    let mut i: usize = 0;
    while i < fighters.len()
        invariant
            graph.wf(),
            i <= fighters.len(),
            old(graph)@.node_count() + fighters.len() <= CAPACITY,
            graph@ == with_fighters(old(graph)@, fighters@, i as nat),
            graph@.node_count() == old(graph)@.node_count() + i,
            nodes.len() == i,
            forall|j: int| 0 <= j < i ==> #[trigger] nodes[j] == old(graph)@.node_count() + j,
        decreases fighters.len() - i,
    {
        let id = graph.add_node(fighters[i].name.as_str());
        nodes.push(id);
        i += 1;
    }
    nodes
}

} // verus!
