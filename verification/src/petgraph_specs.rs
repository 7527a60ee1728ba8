//! Trusted interface to the petgraph store backing the rate graph.
//!
//! The rate graph keeps its vertices and edges in a `petgraph::graph::Graph`
//! with `String` node weights (display labels), `(numerator, denominator)`
//! edge weights, and `usize` indices (so adding nodes and edges never hits an
//! index limit). Verus sees the graph through two names — its sequence of
//! node labels and its sequence of edges in insertion order — and through the
//! wrappers below, whose contracts state what the petgraph sources show.

use vstd::prelude::*;

verus! {

#[verifier::external_type_specification]
#[verifier::external_body]
#[verifier::reject_recursive_types(N)]
#[verifier::reject_recursive_types(E)]
#[verifier::reject_recursive_types(Ty)]
#[verifier::reject_recursive_types(Ix)]
pub struct ExGraph<N, E, Ty, Ix>(petgraph::graph::Graph<N, E, Ty, Ix>);

#[verifier::external_type_specification]
#[verifier::external_body]
pub struct ExDirected(petgraph::Directed);

/// The petgraph store: node labels, rate weights, directed, usize indices.
pub type GraphStore = petgraph::graph::Graph<String, (u64, u64), petgraph::Directed, usize>;

/// The node weights of the store, in insertion order; a node's index is its
/// position (nodes are never removed, so indices are stable).
pub uninterp spec fn pg_nodes(g: GraphStore) -> Seq<Seq<char>>;

/// The edges of the store, in insertion order: ordered endpoint pair and
/// weight. An edge's index is its position (edges are never removed).
pub uninterp spec fn pg_edges(g: GraphStore) -> Seq<((int, int), (u64, u64))>;

/// Relies on `petgraph::graph::Graph::with_capacity`: a graph with no nodes
/// and no edges.
#[verifier::external_body]
pub(crate) fn pg_new() -> (g: GraphStore)
    ensures
        pg_nodes(g).len() == 0,
        pg_edges(g).len() == 0,
{
    petgraph::graph::Graph::with_capacity(0, 0)
}

/// Relies on `petgraph::graph::Graph::add_node`: appends a node with the
/// given weight and returns its index, the previous node count (with `usize`
/// indices the index-limit panic cannot trigger).
#[verifier::external_body]
pub(crate) fn pg_add_node(g: &mut GraphStore, w: String) -> (r: usize)
    ensures
        pg_nodes(*final(g)) == pg_nodes(*old(g)).push(w@),
        pg_edges(*final(g)) == pg_edges(*old(g)),
        r == pg_nodes(*old(g)).len(),
{
    g.add_node(w).index()
}

/// Relies on `petgraph::graph::Graph::node_count`: the number of nodes.
#[verifier::external_body]
pub(crate) fn pg_node_count(g: &GraphStore) -> (r: usize)
    ensures
        r == pg_nodes(*g).len(),
{
    g.node_count()
}

/// Relies on `petgraph::graph::Graph::find_edge`: the index of an edge from
/// `a` to `b` when one exists, `None` otherwise (also when `a` or `b` is not
/// a node).
#[verifier::external_body]
pub(crate) fn pg_find_edge(g: &GraphStore, a: usize, b: usize) -> (r: Option<usize>)
    ensures
        match r {
            Some(e) => e < pg_edges(*g).len() && pg_edges(*g)[e as int].0 == (
                a as int,
                b as int,
            ),
            None => forall|i: int|
                0 <= i < pg_edges(*g).len() ==> pg_edges(*g)[i].0 != (a as int, b as int),
        },
{
    g.find_edge(petgraph::graph::NodeIndex::new(a), petgraph::graph::NodeIndex::new(b)).map(
        |e: petgraph::graph::EdgeIndex<usize>| e.index(),
    )
}

/// Relies on `petgraph::graph::Graph::update_edge`: overwrites the weight of
/// an existing edge from `a` to `b`, or appends a new one, and returns the
/// index of the affected edge. Panics when `a` or `b` is not a node, so the
/// contract requires both to exist (with `usize` indices the edge-limit panic
/// cannot trigger).
#[verifier::external_body]
pub(crate) fn pg_update_edge(g: &mut GraphStore, a: usize, b: usize, w: (u64, u64)) -> (r: usize)
    requires
        a < pg_nodes(*old(g)).len(),
        b < pg_nodes(*old(g)).len(),
    ensures
        pg_nodes(*final(g)) == pg_nodes(*old(g)),
        (forall|i: int|
            0 <= i < pg_edges(*old(g)).len() ==> pg_edges(*old(g))[i].0 != (a as int, b as int))
            ==> pg_edges(*final(g)) == pg_edges(*old(g)).push(((a as int, b as int), w)) && r
            == pg_edges(*old(g)).len(),
        (exists|i: int|
            0 <= i < pg_edges(*old(g)).len() && pg_edges(*old(g))[i].0 == (a as int, b as int))
            ==> exists|i: int|
            0 <= i < pg_edges(*old(g)).len() && pg_edges(*old(g))[i].0 == (a as int, b as int)
                && pg_edges(*final(g)) == pg_edges(*old(g)).update(i, ((a as int, b as int), w))
                && r == i,
{
    g.update_edge(
        petgraph::graph::NodeIndex::new(a),
        petgraph::graph::NodeIndex::new(b),
        w,
    ).index()
}

/// Relies on `petgraph::graph::Graph::edge_weight`: the weight of the edge
/// with index `e`, when that index is in range.
#[verifier::external_body]
pub(crate) fn pg_edge_weight(g: &GraphStore, e: usize) -> (r: Option<(u64, u64)>)
    ensures
        e < pg_edges(*g).len() ==> r == Some(pg_edges(*g)[e as int].1),
        e >= pg_edges(*g).len() ==> r is None,
{
    g.edge_weight(petgraph::graph::EdgeIndex::new(e)).copied()
}

} // verus!
