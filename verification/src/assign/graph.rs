//! The graphs that register allocation works on.
//!
//! Both are graphs of the `petgraph` crate. Verus does not look inside
//! them: this module says what they hold and what their operations do.

use vstd::prelude::*;
use petgraph::graphmap::GraphMap;
use petgraph::{Directed, Direction, Undirected};
use std::hash::{BuildHasher, RandomState};
use crate::assign::live_set::Key;

verus! {

/// `petgraph::graphmap::GraphMap`, a graph whose nodes are its keys.
#[verifier::external_type_specification]
#[verifier::external_body]
#[verifier::reject_recursive_types(N)]
#[verifier::reject_recursive_types(E)]
#[verifier::reject_recursive_types(Ty)]
#[verifier::reject_recursive_types(S)]
pub struct ExGraphMap<N, E, Ty, S: BuildHasher>(GraphMap<N, E, Ty, S>);

/// `petgraph::Directed`, the mark of a graph with directed edges.
#[verifier::external_type_specification]
#[verifier::external_body]
pub struct ExDirected(Directed);

/// `petgraph::Undirected`, the mark of a graph with undirected edges.
#[verifier::external_type_specification]
#[verifier::external_body]
pub struct ExUndirected(Undirected);

/// Which blocks jump to which: nodes are the numbers of block labels.
pub type FlowGraph = GraphMap<usize, (), Directed, RandomState>;

/// Which locations cannot share a home: nodes are the keys of locations.
pub type InterferenceGraph = GraphMap<Key, (), Undirected, RandomState>;

/// The edges of a flow graph, each as the pair of its source and its target.
pub uninterp spec fn flow_edges(g: FlowGraph) -> Set<(usize, usize)>;

/// The nodes of an interference graph.
pub uninterp spec fn nodes(g: InterferenceGraph) -> Set<Key>;

/// The pairs of nodes that an edge of an interference graph connects, each
/// in both orders.
pub uninterp spec fn adjacent(g: InterferenceGraph) -> Set<(Key, Key)>;

/// `GraphMap::from_edges`: the graph whose edges are exactly the pairs in
/// `edges`.
#[verifier::external_body]
pub(crate) fn flow_graph(edges: &Vec<(usize, usize)>) -> (g: FlowGraph)
    ensures
        flow_edges(g) == edges@.to_set(),
{
    GraphMap::from_edges(edges)
}

/// `GraphMap::neighbors_directed` with `Incoming`: the sources of the edges
/// that end in `n`, each once.
#[verifier::external_body]
pub(crate) fn predecessors(g: &FlowGraph, n: usize) -> (r: Vec<usize>)
    ensures
        r@.no_duplicates(),
        forall|s: usize| r@.contains(s) <==> flow_edges(*g).contains((s, n)),
{
    g.neighbors_directed(n, Direction::Incoming).collect()
}

/// `GraphMap::new`: a graph without nodes or edges.
#[verifier::external_body]
pub(crate) fn empty_graph() -> (g: InterferenceGraph)
    ensures
        nodes(g) == Set::<Key>::empty(),
        adjacent(g) == Set::<(Key, Key)>::empty(),
{
    GraphMap::new()
}

/// `GraphMap::add_node`: `n` becomes a node; the edges stay as they are.
#[verifier::external_body]
pub(crate) fn add_node(g: &mut InterferenceGraph, n: Key)
    ensures
        nodes(*final(g)) == nodes(*old(g)).insert(n),
        adjacent(*final(g)) == adjacent(*old(g)),
{
    g.add_node(n);
}

/// `GraphMap::add_edge`: `a` and `b` become nodes, and an edge connects
/// them.
#[verifier::external_body]
pub(crate) fn add_edge(g: &mut InterferenceGraph, a: Key, b: Key)
    ensures
        nodes(*final(g)) == nodes(*old(g)).insert(a).insert(b),
        adjacent(*final(g)) == adjacent(*old(g)).insert((a, b)).insert((b, a)),
{
    g.add_edge(a, b, ());
}

/// `GraphMap::nodes`: the nodes, each once, in the order in which they
/// came into the graph.
#[verifier::external_body]
pub(crate) fn node_list(g: &InterferenceGraph) -> (r: Vec<Key>)
    ensures
        r@.no_duplicates(),
        r@.to_set() == nodes(*g),
{
    g.nodes().collect()
}

/// `GraphMap::neighbors`: the nodes that an edge connects with `a`, each
/// once. An edge of an undirected graph connects its ends in both orders,
/// and its ends are nodes of the graph.
#[verifier::external_body]
pub(crate) fn neighbors(g: &InterferenceGraph, a: Key) -> (r: Vec<Key>)
    ensures
        r@.no_duplicates(),
        forall|b: Key| r@.contains(b) <==> adjacent(*g).contains((a, b)),
        forall|b: Key| r@.contains(b) <==> adjacent(*g).contains((b, a)),
        forall|b: Key| r@.contains(b) ==> nodes(*g).contains(b),
{
    g.neighbors(a).collect()
}

} // verus!
