use vstd::prelude::*;

use petgraph::visit::EdgeRef;

verus! {

// ---------------------------------------------------------------------------
// Trusted view of petgraph's stable directed graph. The node and edge
// weights the library stores are plain `u64` handles into its own vectors;
// node indices cross this boundary as `usize`.
//
// The graph's contents are named by two uninterpreted functions: `sg_nodes`,
// the occupied node indices with their weights, and `sg_edges`, the edges
// keyed by the ordered pair of endpoint indices with their weights. The
// third name, `sg_simple`, records that no two parallel edges share an
// ordered pair of endpoints, which holds of every graph built through
// `pg_update_edge` alone.
// ---------------------------------------------------------------------------

#[verifier::external_type_specification]
#[verifier::external_body]
#[verifier::reject_recursive_types(N)]
#[verifier::reject_recursive_types(E)]
#[verifier::reject_recursive_types(Ty)]
#[verifier::reject_recursive_types(Ix)]
pub struct ExStableGraph<N, E, Ty, Ix>(petgraph::stable_graph::StableGraph<N, E, Ty, Ix>);

#[verifier::external_type_specification]
#[verifier::external_body]
pub struct ExDirected(petgraph::Directed);

/// The concrete graph type the dependency graph stores.
pub type PgGraph = petgraph::stable_graph::StableGraph<u64, u64, petgraph::Directed, u32>;

/// The occupied node indices of the graph, each with its weight.
pub uninterp spec fn sg_nodes(g: PgGraph) -> Map<int, u64>;

/// The edges of the graph, keyed by the ordered pair (source, target) of
/// node indices, each with its weight.
pub uninterp spec fn sg_edges(g: PgGraph) -> Map<(int, int), u64>;

/// No two parallel edges share an ordered pair of endpoints.
pub uninterp spec fn sg_simple(g: PgGraph) -> bool;

/// The model of a graph with no nodes and no edges.
pub open spec fn pg_empty_model(g: PgGraph) -> bool {
    sg_nodes(g) == Map::<int, u64>::empty() && sg_edges(g) == Map::<(int, int), u64>::empty()
}

/// Relies on `StableGraph::new`: an empty graph.
#[verifier::external_body]
pub fn pg_new() -> (g: PgGraph)
    ensures
        pg_empty_model(g),
        sg_simple(g),
{
    petgraph::stable_graph::StableGraph::new()
}

/// Relies on `StableGraph::add_node`: stores the weight in a vacant slot and
/// returns its index, leaving every other node and every edge as it was.
#[verifier::external_body]
pub fn pg_add_node(g: &mut PgGraph, w: u64) -> (ix: usize)
    requires
        sg_nodes(*old(g)).dom().finite(),
        sg_nodes(*old(g)).dom().len() < 0xffff_fffe,
    ensures
        !sg_nodes(*old(g)).dom().contains(ix as int),
        sg_nodes(*final(g)) == sg_nodes(*old(g)).insert(ix as int, w),
        sg_edges(*final(g)) == sg_edges(*old(g)),
        sg_simple(*final(g)) == sg_simple(*old(g)),
{
    g.add_node(w).index()
}

/// Relies on `StableGraph::update_edge`: adds the edge from `a` to `b`, or
/// replaces the weight of the one already there; an upsert keyed by the
/// ordered pair. Both endpoints must be nodes.
#[verifier::external_body]
pub fn pg_update_edge(g: &mut PgGraph, a: usize, b: usize, w: u64)
    requires
        sg_nodes(*old(g)).dom().contains(a as int),
        sg_nodes(*old(g)).dom().contains(b as int),
        sg_simple(*old(g)),
        sg_edges(*old(g)).dom().finite(),
        sg_edges(*old(g)).dom().len() < 0xffff_fffe,
    ensures
        sg_edges(*final(g)) == sg_edges(*old(g)).insert((a as int, b as int), w),
        sg_nodes(*final(g)) == sg_nodes(*old(g)),
        sg_simple(*final(g)) == sg_simple(*old(g)),
{
    g.update_edge(
        petgraph::graph::NodeIndex::new(a),
        petgraph::graph::NodeIndex::new(b),
        w,
    );
}

/// Relies on `StableGraph::edges_directed` with `Outgoing`: every outgoing
/// edge of `a` exactly once, as the target's index and the edge weight, in
/// no promised order.
#[verifier::external_body]
pub fn pg_out_edges(g: &PgGraph, a: usize) -> (r: Vec<(usize, u64)>)
    requires
        sg_nodes(*g).dom().contains(a as int),
        sg_simple(*g),
    ensures
        forall|i: int|
            0 <= i < r@.len() ==> sg_edges(*g).contains_pair(
                (a as int, #[trigger] r@[i].0 as int),
                r@[i].1,
            ),
        forall|b: int|
            sg_edges(*g).dom().contains((a as int, b)) ==> exists|i: int|
                0 <= i < r@.len() && #[trigger] r@[i].0 as int == b,
        forall|i: int, j: int| 0 <= i < j < r@.len() ==> r@[i].0 != r@[j].0,
{
    let mut v: Vec<(usize, u64)> = Vec::new();
    for er in g.edges_directed(petgraph::graph::NodeIndex::new(a), petgraph::Direction::Outgoing) {
        v.push((er.target().index(), *er.weight()));
    }
    v
}

} // verus!
