//! The directed graph and the depth-first traversal of `petgraph`, with the
//! contracts that the rest of the crate relies on.
//!
//! Nothing in this file is proved: each contract restates what the graph
//! library documents of the function it names.

use crate::reach::reaches;
use fixedbitset::FixedBitSet;
use petgraph::graph::Graph;
use petgraph::graph::NodeIndex;
use petgraph::visit::Dfs;
use petgraph::visit::EdgeRef;
use petgraph::Directed;
use vstd::prelude::*;

verus! {

#[verifier::external_type_specification]
#[verifier::external_body]
#[verifier::reject_recursive_types(N)]
#[verifier::reject_recursive_types(E)]
#[verifier::reject_recursive_types(Ty)]
#[verifier::reject_recursive_types(Ix)]
pub struct ExGraph<N, E, Ty, Ix>(Graph<N, E, Ty, Ix>);

#[verifier::external_type_specification]
#[verifier::external_body]
pub struct ExDirected(Directed);

#[verifier::external_type_specification]
#[verifier::external_body]
#[verifier::reject_recursive_types(Ix)]
pub struct ExNodeIndex<Ix>(NodeIndex<Ix>);

#[verifier::external_type_specification]
#[verifier::external_body]
pub struct ExFixedBitSet(FixedBitSet);

#[verifier::external_type_specification]
#[verifier::external_body]
#[verifier::reject_recursive_types(N)]
#[verifier::reject_recursive_types(VM)]
pub struct ExDfs<N, VM>(Dfs<N, VM>);

/// A directed graph whose nodes carry a variable and whose edges carry
/// nothing. Nodes and edges are indexed by `usize`, so the graph has no
/// capacity of its own to run out of.
pub type VarGraph = Graph<u32, (), Directed, usize>;

/// A depth-first traversal of a `VarGraph`.
pub type Traversal = Dfs<NodeIndex<usize>, FixedBitSet>;

/// The variable that each node carries, by node index.
pub uninterp spec fn graph_nodes(g: VarGraph) -> Seq<u32>;

/// The source and the target node index of each edge, by edge index.
pub uninterp spec fn graph_edges(g: VarGraph) -> Seq<(int, int)>;

/// The node indices that the traversal has yet to hand out when it is
/// continued on `g`, in the order in which it will hand them out.
pub uninterp spec fn dfs_pending(d: Traversal, g: VarGraph) -> Seq<int>;

/// The number of nodes of the graph that the traversal was created on.
pub uninterp spec fn dfs_bound(d: Traversal) -> nat;

/// `Graph::with_capacity(0, 0)`: a graph without nodes or edges.
#[verifier::external_body]
pub(crate) fn graph_new() -> (g: VarGraph)
    ensures
        graph_nodes(g) == Seq::<u32>::empty(),
        graph_edges(g) == Seq::<(int, int)>::empty(),
{
    Graph::with_capacity(0, 0)
}

/// `Graph::add_node`: appends a node that carries `weight` and returns its
/// index, which is the number of nodes before the call. Edges stay as they
/// are. With `usize` indices the call has no capacity assertion to fail.
#[verifier::external_body]
pub(crate) fn graph_add_node(g: &mut VarGraph, weight: u32) -> (index: usize)
    ensures
        index == graph_nodes(*old(g)).len(),
        graph_nodes(*final(g)) == graph_nodes(*old(g)).push(weight),
        graph_edges(*final(g)) == graph_edges(*old(g)),
{
    g.add_node(weight).index()
}

/// `Graph::add_edge`: appends an edge from node `a` to node `b`; parallel
/// edges are allowed. Nodes stay as they are. The call panics when an
/// endpoint is not a node, which the precondition rules out.
#[verifier::external_body]
pub(crate) fn graph_add_edge(g: &mut VarGraph, a: usize, b: usize)
    requires
        a < graph_nodes(*old(g)).len(),
        b < graph_nodes(*old(g)).len(),
    ensures
        graph_nodes(*final(g)) == graph_nodes(*old(g)),
        graph_edges(*final(g)) == graph_edges(*old(g)).push((a as int, b as int)),
{
    g.add_edge(NodeIndex::new(a), NodeIndex::new(b), ());
}

/// `Graph::remove_edge`: removes edge `e`; the last edge takes over its
/// index, all other edges keep theirs. Nodes stay as they are.
#[verifier::external_body]
pub(crate) fn graph_remove_edge(g: &mut VarGraph, e: usize)
    requires
        e < graph_edges(*old(g)).len(),
    ensures
        graph_nodes(*final(g)) == graph_nodes(*old(g)),
        graph_edges(*final(g)) == graph_edges(*old(g)).update(
            e as int,
            graph_edges(*old(g)).last(),
        ).drop_last(),
{
    g.remove_edge(petgraph::graph::EdgeIndex::new(e));
}

/// The first item of `Graph::edges`, the iterator over the edges that leave
/// node `a`: the index of one such edge, or `None` when no edge leaves `a`.
#[verifier::external_body]
pub(crate) fn graph_out_edge(g: &VarGraph, a: usize) -> (edge: Option<usize>)
    requires
        a < graph_nodes(*g).len(),
    ensures
        match edge {
            Some(e) => e < graph_edges(*g).len() && graph_edges(*g)[e as int].0 == a,
            None => forall|e: int| 0 <= e < graph_edges(*g).len() ==> (#[trigger] graph_edges(*g)[e]).0 != a,
        },
{
    g.edges(NodeIndex::new(a)).next().map(|e| e.id().index())
}

/// `Dfs::new`: a traversal that starts at node `start`. Continued on the same
/// graph it hands out each node that can be reached from `start`, `start`
/// included, exactly once, and no other node.
#[verifier::external_body]
pub(crate) fn dfs_new(g: &VarGraph, start: usize) -> (d: Traversal)
    requires
        start < graph_nodes(*g).len(),
    ensures
        dfs_bound(d) == graph_nodes(*g).len(),
        dfs_pending(d, *g).no_duplicates(),
        forall|n: int| #[trigger]
            dfs_pending(d, *g).contains(n) <==> reaches(graph_edges(*g).to_set(), start as int, n),
{
    Dfs::new(g, NodeIndex::new(start))
}

/// `Dfs::next`: hands out the next node of the traversal, or `None` when
/// the traversal is done. The precondition keeps the traversal on a graph
/// of the size it was created for.
#[verifier::external_body]
pub(crate) fn dfs_next(d: &mut Traversal, g: &VarGraph) -> (node: Option<usize>)
    requires
        dfs_bound(*old(d)) == graph_nodes(*g).len(),
    ensures
        dfs_bound(*final(d)) == dfs_bound(*old(d)),
        match node {
            Some(n) => {
                &&& dfs_pending(*old(d), *g).len() > 0
                &&& n == dfs_pending(*old(d), *g)[0]
                &&& dfs_pending(*final(d), *g) == dfs_pending(*old(d), *g).skip(1)
            },
            None => dfs_pending(*old(d), *g).len() == 0 && dfs_pending(*final(d), *g).len() == 0,
        },
{
    d.next(g).map(|n| n.index())
}

} // verus!
