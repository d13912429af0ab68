//! Directed graphs of nodes identified by dense integer indices.

use vstd::prelude::*;

verus! {

/// The index of a node in a graph.
pub type Node = usize;

/// A directed graph of nodes and their neighbors.
///
/// The nodes of a graph are the indices `0..node_count()`.
pub trait Graph {
    /// Whether this value describes a graph at all.
    spec fn wf(&self) -> bool;

    /// The number of nodes.
    spec fn node_count(&self) -> nat;

    /// The number of directed edges.
    spec fn edge_count(&self) -> nat;

    /// Whether there is an edge from `from` to `to`.
    spec fn adjacent(&self, from: Node, to: Node) -> bool;

    /// Return the number of nodes in this graph.
    fn nodes(&self) -> (n: Node)
        requires
            self.wf(),
        ensures
            n == self.node_count(),
    ;

    /// Return the number of directed edges in this graph.
    fn edges(&self) -> (n: usize)
        requires
            self.wf(),
        ensures
            n == self.edge_count(),
    ;

    /// Return the neighbors of `node`, each exactly once.
    fn neighbors(&self, node: Node) -> (out: Vec<Node>)
        requires
            self.wf(),
            node < self.node_count(),
        ensures
            out@.no_duplicates(),
            forall|to: Node| out@.contains(to) <==> self.adjacent(node, to),
    ;
}

} // verus!
