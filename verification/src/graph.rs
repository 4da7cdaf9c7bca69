//! The dependency graph: bindings to the `petgraph` crate.
//!
//! A graph is described by two names: the labels of its nodes, in the order of their indices, and
//! its arcs, as pairs of node indices in the order in which they were added.

use fixedbitset::FixedBitSet;
use petgraph::graph::DiGraph;
use petgraph::graph::NodeIndex;
use petgraph::visit::Topo;
use petgraph::Direction;
use vstd::prelude::*;

verus! {

/// Declares `petgraph::graph::Graph` as an opaque type.
#[verifier::external_type_specification]
#[verifier::external_body]
#[verifier::reject_recursive_types(N)]
#[verifier::reject_recursive_types(E)]
#[verifier::reject_recursive_types(Ty)]
#[verifier::reject_recursive_types(Ix)]
pub struct ExGraph<N, E, Ty, Ix>(petgraph::graph::Graph<N, E, Ty, Ix>);

/// Declares `petgraph::Directed` as an opaque type.
#[verifier::external_type_specification]
#[verifier::external_body]
pub struct ExDirected(petgraph::Directed);

/// Declares `petgraph::graph::NodeIndex` as an opaque type.
#[verifier::external_type_specification]
#[verifier::external_body]
#[verifier::reject_recursive_types(Ix)]
pub struct ExNodeIndex<Ix>(petgraph::graph::NodeIndex<Ix>);

/// Declares `fixedbitset::FixedBitSet` as an opaque type.
#[verifier::external_type_specification]
#[verifier::external_body]
pub struct ExFixedBitSet(fixedbitset::FixedBitSet);

/// Declares `petgraph::visit::Topo` as an opaque type.
#[verifier::external_type_specification]
#[verifier::external_body]
#[verifier::reject_recursive_types(N)]
#[verifier::reject_recursive_types(VM)]
pub struct ExTopo<N, VM>(petgraph::visit::Topo<N, VM>);

/// The node labels of a graph, by node index.
pub uninterp spec fn graph_labels(g: DiGraph<String, ()>) -> Seq<Seq<char>>;

/// The arcs of a graph, as (source, target), in the order in which they were added.
pub uninterp spec fn graph_arcs(g: DiGraph<String, ()>) -> Seq<(int, int)>;

/// The stack of nodes that a topological walk has still to look at, the next one last.
pub uninterp spec fn walk_pending(t: Topo<NodeIndex, FixedBitSet>) -> Seq<int>;

/// The nodes that a topological walk has handed out.
pub uninterp spec fn walk_done(t: Topo<NodeIndex, FixedBitSet>) -> Set<int>;

/// The number of nodes of the graph that a topological walk was made for.
pub uninterp spec fn walk_size(t: Topo<NodeIndex, FixedBitSet>) -> nat;

/// Which of a node's arcs to follow.
#[derive(Clone, Copy, Debug, PartialEq, Eq, Structural)]
pub enum Along {
    Incoming,
    Outgoing,
}

/// The sources of the arcs that end in `n`, the arc added last first.
pub open spec fn predecessors(arcs: Seq<(int, int)>, n: int) -> Seq<int>
    decreases arcs.len(),
{
    if arcs.len() == 0 {
        seq![]
    } else if arcs.last().1 == n {
        seq![arcs.last().0] + predecessors(arcs.drop_last(), n)
    } else {
        predecessors(arcs.drop_last(), n)
    }
}

/// The targets of the arcs that start in `n`, the arc added last first.
pub open spec fn successors(arcs: Seq<(int, int)>, n: int) -> Seq<int>
    decreases arcs.len(),
{
    if arcs.len() == 0 {
        seq![]
    } else if arcs.last().0 == n {
        seq![arcs.last().1] + successors(arcs.drop_last(), n)
    } else {
        successors(arcs.drop_last(), n)
    }
}

/// Whether every arc into `n` starts in a node of `done`.
pub open spec fn unlocked(arcs: Seq<(int, int)>, done: Set<int>, n: int) -> bool {
    forall|p: int| #[trigger] arcs.contains((p, n)) ==> done.contains(p)
}

/// Whether every arc joins two of the nodes `0..count`.
pub open spec fn arcs_within(arcs: Seq<(int, int)>, count: nat) -> bool {
    forall|i: int|
        0 <= i < arcs.len() ==> 0 <= (#[trigger] arcs[i]).0 < count && 0 <= arcs[i].1 < count
}

/// The nodes of `0..count` that no arc ends in, in ascending order.
pub open spec fn sources(arcs: Seq<(int, int)>, count: nat) -> Seq<int> {
    Seq::new(count, |i: int| i).filter(|n: int| predecessors(arcs, n).len() == 0)
}

/// Trusted: `Graph::new` makes a graph without nodes and arcs.
#[verifier::external_body]
pub(crate) fn new_graph() -> (g: DiGraph<String, ()>)
    ensures
        graph_labels(g) == Seq::<Seq<char>>::empty(),
        graph_arcs(g) == Seq::<(int, int)>::empty(),
{
    DiGraph::new()
}

/// Trusted: `Graph::add_node` adds a node with the given label and hands out the next free index.
/// It panics when the graph already has `u32::MAX` nodes.
#[verifier::external_body]
pub(crate) fn add_node(g: &mut DiGraph<String, ()>, label: String) -> (n: usize)
    requires
        graph_labels(*old(g)).len() < u32::MAX,
    ensures
        n == graph_labels(*old(g)).len(),
        graph_labels(*final(g)) == graph_labels(*old(g)).push(label@),
        graph_arcs(*final(g)) == graph_arcs(*old(g)),
{
    g.add_node(label).index()
}

/// Trusted: `Graph::add_edge` adds one arc, parallel to any that the graph has already. It panics
/// when an end is no node of the graph or the graph already has `u32::MAX` arcs.
#[verifier::external_body]
pub(crate) fn add_edge(g: &mut DiGraph<String, ()>, from: usize, to: usize)
    requires
        from < graph_labels(*old(g)).len(),
        to < graph_labels(*old(g)).len(),
        graph_arcs(*old(g)).len() < u32::MAX,
    ensures
        graph_labels(*final(g)) == graph_labels(*old(g)),
        graph_arcs(*final(g)) == graph_arcs(*old(g)).push((from as int, to as int)),
{
    g.add_edge(NodeIndex::new(from), NodeIndex::new(to), ());
}

/// Trusted: `Graph::node_count` counts the nodes.
#[verifier::external_body]
pub(crate) fn node_count(g: &DiGraph<String, ()>) -> (n: usize)
    ensures
        n == graph_labels(*g).len(),
{
    g.node_count()
}

/// Trusted: indexing a `Graph` by a node index gives the label of that node. It panics when there
/// is no such node.
#[verifier::external_body]
pub(crate) fn node_label(g: &DiGraph<String, ()>, n: usize) -> (label: &String)
    requires
        n < graph_labels(*g).len(),
    ensures
        label@ == graph_labels(*g)[n as int],
{
    &g[NodeIndex::new(n)]
}

/// Trusted: `Graph::neighbors_directed` gives one neighbour for each arc into the node
/// (`Incoming`) or out of it (`Outgoing`), in the reverse of the order in which the arcs were
/// added.
#[verifier::external_body]
pub(crate) fn neighbors(g: &DiGraph<String, ()>, n: usize, along: Along) -> (r: Vec<usize>)
    requires
        n < graph_labels(*g).len(),
    ensures
        r@.map_values(|m: usize| m as int) == (match along {
            Along::Incoming => predecessors(graph_arcs(*g), n as int),
            Along::Outgoing => successors(graph_arcs(*g), n as int),
        }),
{
    let direction = match along {
        Along::Incoming => Direction::Incoming,
        Along::Outgoing => Direction::Outgoing,
    };
    g.neighbors_directed(NodeIndex::new(n), direction).map(|m| m.index()).collect()
}

/// Trusted: `Topo::new` starts a topological walk. Its stack holds the nodes that no arc ends in,
/// in ascending order, and it has handed out nothing.
#[verifier::external_body]
pub(crate) fn new_walk(g: &DiGraph<String, ()>) -> (t: Topo<NodeIndex, FixedBitSet>)
    ensures
        walk_done(t) == Set::<int>::empty(),
        walk_size(t) == graph_labels(*g).len(),
        walk_pending(t) == sources(graph_arcs(*g), graph_labels(*g).len()),
{
    Topo::new(g)
}

/// Trusted: `Topo::next` drops nodes that were handed out before from the top of the stack, then
/// hands out the node it finds there and puts those of its successors on the stack whose
/// predecessors were all handed out. It returns `None` when the stack runs out. It panics on a
/// node beyond the size of the graph that the walk was made for.
#[verifier::external_body]
pub(crate) fn next_in_walk(
    t: &mut Topo<NodeIndex, FixedBitSet>,
    g: &DiGraph<String, ()>,
) -> (r: Option<usize>)
    requires
        graph_labels(*g).len() <= walk_size(*old(t)),
        arcs_within(graph_arcs(*g), graph_labels(*g).len()),
        forall|i: int|
            0 <= i < walk_pending(*old(t)).len() ==> 0 <= #[trigger] walk_pending(*old(t))[i]
                < graph_labels(*g).len(),
    ensures
        walk_size(*final(t)) == walk_size(*old(t)),
        match r {
            None => {
                &&& walk_done(*final(t)) == walk_done(*old(t))
                &&& walk_pending(*final(t)) == Seq::<int>::empty()
                &&& forall|i: int|
                    0 <= i < walk_pending(*old(t)).len() ==> walk_done(*old(t)).contains(
                        #[trigger] walk_pending(*old(t))[i],
                    )
            },
            Some(n) => {
                &&& !walk_done(*old(t)).contains(n as int)
                &&& walk_done(*final(t)) == walk_done(*old(t)).insert(n as int)
                &&& exists|k: int|
                    walk_step(
                        walk_pending(*old(t)),
                        walk_done(*old(t)),
                        graph_arcs(*g),
                        n as int,
                        k,
                        walk_pending(*final(t)),
                    )
            },
        },
{
    t.next(g).map(|n| n.index())
}

/// One step of a topological walk: `n` stands at position `k` of the stack, everything above it
/// was handed out before, and its successors that are unlocked by it take their place.
pub open spec fn walk_step(
    pending: Seq<int>,
    done: Set<int>,
    arcs: Seq<(int, int)>,
    n: int,
    k: int,
    after: Seq<int>,
) -> bool {
    &&& 0 <= k < pending.len()
    &&& pending[k] == n
    &&& forall|j: int| k < j < pending.len() ==> done.contains(#[trigger] pending[j])
    &&& after == pending.take(k) + successors(arcs, n).filter(
        |m: int| unlocked(arcs, done.insert(n), m),
    )
}

} // verus!
