//! The directed graph that backs the second representation.
//!
//! The graph itself is `petgraph`'s: nodes carry functions, edges carry
//! calls, and both are numbered from zero in the order in which they were
//! added. Nothing here is proved of `petgraph`. Each function below makes one
//! call into it and states what that call does, over four names for what a
//! graph holds: its nodes, its edges, and for each node the edges that start
//! and that end in it, in the order in which the graph hands them out.
use petgraph::algo::is_cyclic_directed;
use petgraph::algo::kosaraju_scc;
use petgraph::algo::toposort;
use petgraph::graph::DiGraph;
use petgraph::graph::EdgeIndex;
use petgraph::graph::NodeIndex;
use petgraph::visit::EdgeRef;
use petgraph::Direction;
use vstd::prelude::*;
use crate::types::CallRelation;
use crate::types::FunctionInfo;

verus! {

/// `petgraph::graph::Graph`, taken as it is: nothing of its inside is known.
#[verifier::external_type_specification]
#[verifier::external_body]
#[verifier::reject_recursive_types(N)]
#[verifier::reject_recursive_types(E)]
#[verifier::reject_recursive_types(Ty)]
#[verifier::reject_recursive_types(Ix)]
pub struct ExGraph<N, E, Ty, Ix>(petgraph::graph::Graph<N, E, Ty, Ix>);

/// `petgraph::Directed`, the marker of graphs with directed edges.
#[verifier::external_type_specification]
#[verifier::external_body]
pub struct ExDirected(petgraph::Directed);

/// An edge as the graph holds it: the numbers of its two end nodes and the
/// call that it carries.
pub struct GraphEdge {
    pub source: u32,
    pub target: u32,
    pub weight: CallRelation,
}

/// The functions that the nodes carry, by node number.
pub uninterp spec fn graph_nodes(g: DiGraph<FunctionInfo, CallRelation>) -> Seq<FunctionInfo>;

/// The edges, by edge number.
pub uninterp spec fn graph_edges(g: DiGraph<FunctionInfo, CallRelation>) -> Seq<GraphEdge>;

/// The numbers of the edges that start in `node`, in the order in which the
/// graph hands them out.
pub uninterp spec fn graph_outgoing(g: DiGraph<FunctionInfo, CallRelation>, node: u32) -> Seq<u32>;

/// The numbers of the edges that end in `node`, in the order in which the
/// graph hands them out.
pub uninterp spec fn graph_incoming(g: DiGraph<FunctionInfo, CallRelation>, node: u32) -> Seq<u32>;

/// `list` names exactly the edges that start in `node`, each once.
pub open spec fn lists_outgoing(edges: Seq<GraphEdge>, node: u32, list: Seq<u32>) -> bool {
    &&& list.no_duplicates()
    &&& forall|i: int|
        0 <= i < list.len() ==> (#[trigger] list[i]) < edges.len() && edges[list[i] as int].source
            == node
    &&& forall|e: int|
        0 <= e < edges.len() && (#[trigger] edges[e]).source == node ==> list.contains(e as u32)
}

/// `list` names exactly the edges that end in `node`, each once.
pub open spec fn lists_incoming(edges: Seq<GraphEdge>, node: u32, list: Seq<u32>) -> bool {
    &&& list.no_duplicates()
    &&& forall|i: int|
        0 <= i < list.len() ==> (#[trigger] list[i]) < edges.len() && edges[list[i] as int].target
            == node
    &&& forall|e: int|
        0 <= e < edges.len() && (#[trigger] edges[e]).target == node ==> list.contains(e as u32)
}

/// There is an edge from `a` to `b`.
pub open spec fn has_arc(edges: Seq<GraphEdge>, a: u32, b: u32) -> bool {
    exists|e: int| 0 <= e < edges.len() && (#[trigger] edges[e]).source == a && edges[e].target == b
}

/// `walk` follows edges from each of its nodes to the next.
pub open spec fn is_walk(edges: Seq<GraphEdge>, walk: Seq<u32>) -> bool {
    &&& walk.len() >= 1
    &&& forall|k: int| 0 <= k < walk.len() - 1 ==> has_arc(edges, #[trigger] walk[k], walk[k + 1])
}

/// `b` can be reached from `a` along edges; every node reaches itself.
pub open spec fn reaches(edges: Seq<GraphEdge>, a: u32, b: u32) -> bool {
    exists|walk: Seq<u32>| #[trigger] is_walk(edges, walk) && walk.first() == a && walk.last() == b
}

/// Some walk of at least one edge comes back to where it started. A loop
/// from a node to itself is such a walk.
pub open spec fn has_cycle(edges: Seq<GraphEdge>) -> bool {
    exists|walk: Seq<u32>| #[trigger]
        is_walk(edges, walk) && walk.len() >= 2 && walk.first() == walk.last()
}

/// Some walk of at least one edge leads from `node` back to it.
pub open spec fn on_cycle(edges: Seq<GraphEdge>, node: u32) -> bool {
    exists|walk: Seq<u32>| #[trigger]
        is_walk(edges, walk) && walk.len() >= 2 && walk.first() == node && walk.last() == node
}

/// `order` holds each of the `count` nodes once, and every edge leads from a
/// node to one that stands later.
pub open spec fn is_topological(order: Seq<u32>, count: nat, edges: Seq<GraphEdge>) -> bool {
    &&& order.len() == count
    &&& order.no_duplicates()
    &&& forall|i: int| 0 <= i < order.len() ==> (#[trigger] order[i]) < count
    &&& forall|e: int|
        0 <= e < edges.len() ==> order.index_of((#[trigger] edges[e]).source) < order.index_of(
            edges[e].target,
        )
}

/// `parts` splits the `count` nodes into the groups of nodes that reach one
/// another: each node stands in one group, once; two nodes share a group
/// exactly when each reaches the other; and an edge between two groups leads
/// from a later group to an earlier one.
pub open spec fn is_component_split(parts: Seq<Seq<u32>>, count: nat, edges: Seq<GraphEdge>) -> bool {
    &&& parts.flatten().len() == count
    &&& parts.flatten().no_duplicates()
    &&& forall|i: int, a: int|
        0 <= i < parts.len() && 0 <= a < parts[i].len() ==> (#[trigger] parts[i][a]) < count
    &&& forall|i: int, a: int, j: int, b: int|
        0 <= i < parts.len() && 0 <= a < parts[i].len() && 0 <= j < parts.len() && 0 <= b
            < parts[j].len() ==> ((i == j) <==> (reaches(edges, #[trigger] parts[i][a], #[trigger] parts[j][b])
            && reaches(edges, parts[j][b], parts[i][a])))
    &&& forall|i: int, a: int, j: int, b: int|
        0 <= i < parts.len() && 0 <= a < parts[i].len() && 0 <= j < parts.len() && 0 <= b
            < parts[j].len() && i != j && has_arc(edges, #[trigger] parts[i][a], #[trigger] parts[j][b])
            ==> j < i
}

/// The contents of a list of groups.
pub open spec fn group_views(groups: Seq<Vec<u32>>) -> Seq<Seq<u32>> {
    Seq::new(groups.len(), |i: int| groups[i]@)
}

/// `Graph::new`: a graph without nodes and edges.
#[verifier::external_body]
pub(crate) fn graph_new() -> (g: DiGraph<FunctionInfo, CallRelation>)
    ensures
        graph_nodes(g) == Seq::<FunctionInfo>::empty(),
        graph_edges(g) == Seq::<GraphEdge>::empty(),
{
    DiGraph::new()
}

/// `Graph::edge_count`: the number of edges, which the graph's 32-bit
/// numbering bounds.
#[verifier::external_body]
pub(crate) fn graph_edge_count(g: &DiGraph<FunctionInfo, CallRelation>) -> (count: usize)
    ensures
        count == graph_edges(*g).len(),
        count <= u32::MAX,
{
    g.edge_count()
}

/// `Graph::add_node`: the new node gets the next number and has no edges;
/// nothing else changes. The call panics in a graph that holds as many nodes
/// as its 32-bit numbering allows, which the precondition leaves out.
#[verifier::external_body]
pub(crate) fn graph_add_node(g: &mut DiGraph<FunctionInfo, CallRelation>, weight: FunctionInfo) -> (node: u32)
    requires
        graph_nodes(*old(g)).len() < u32::MAX,
    ensures
        node == graph_nodes(*old(g)).len(),
        graph_nodes(*final(g)) == graph_nodes(*old(g)).push(weight),
        graph_edges(*final(g)) == graph_edges(*old(g)),
        forall|n: u32| #[trigger] graph_outgoing(*final(g), n) == graph_outgoing(*old(g), n),
        forall|n: u32| #[trigger] graph_incoming(*final(g), n) == graph_incoming(*old(g), n),
{
    g.add_node(weight).index() as u32
}

/// `Graph::add_edge`: the new edge gets the next number and goes to the
/// front of the edges that start in `a` and of those that end in `b`; nothing
/// else changes. The call panics where an end is no node, or in a graph that
/// holds as many edges as its 32-bit numbering allows; the precondition
/// leaves both out.
#[verifier::external_body]
pub(crate) fn graph_add_edge(
    g: &mut DiGraph<FunctionInfo, CallRelation>,
    a: u32,
    b: u32,
    weight: CallRelation,
) -> (edge: u32)
    requires
        a < graph_nodes(*old(g)).len(),
        b < graph_nodes(*old(g)).len(),
        graph_edges(*old(g)).len() < u32::MAX,
    ensures
        edge == graph_edges(*old(g)).len(),
        graph_nodes(*final(g)) == graph_nodes(*old(g)),
        graph_edges(*final(g)) == graph_edges(*old(g)).push(
            GraphEdge { source: a, target: b, weight },
        ),
        forall|n: u32| #[trigger]
            graph_outgoing(*final(g), n) == if n == a {
                seq![edge] + graph_outgoing(*old(g), n)
            } else {
                graph_outgoing(*old(g), n)
            },
        forall|n: u32| #[trigger]
            graph_incoming(*final(g), n) == if n == b {
                seq![edge] + graph_incoming(*old(g), n)
            } else {
                graph_incoming(*old(g), n)
            },
{
    g.add_edge(NodeIndex::new(a as usize), NodeIndex::new(b as usize), weight).index() as u32
}

/// `Graph::node_weight`: the function of node `a`, if there is such a node.
#[verifier::external_body]
pub(crate) fn graph_node_weight(g: &DiGraph<FunctionInfo, CallRelation>, a: u32) -> (weight: Option<
    &FunctionInfo,
>)
    ensures
        a < graph_nodes(*g).len() ==> weight == Some(&graph_nodes(*g)[a as int]),
        a >= graph_nodes(*g).len() ==> weight is None,
{
    g.node_weight(NodeIndex::new(a as usize))
}

/// `Graph::edge_weight`: the call of edge `e`, if there is such an edge.
#[verifier::external_body]
pub(crate) fn graph_edge_weight(g: &DiGraph<FunctionInfo, CallRelation>, e: u32) -> (weight: Option<
    &CallRelation,
>)
    ensures
        e < graph_edges(*g).len() ==> weight == Some(&graph_edges(*g)[e as int].weight),
        e >= graph_edges(*g).len() ==> weight is None,
{
    g.edge_weight(EdgeIndex::new(e as usize))
}

/// `Graph::edge_endpoints`: the two end nodes of edge `e`, which are nodes
/// of the graph, if there is such an edge.
#[verifier::external_body]
pub(crate) fn graph_edge_endpoints(
    g: &DiGraph<FunctionInfo, CallRelation>,
    e: u32,
) -> (ends: Option<(u32, u32)>)
    ensures
        ends is Some <==> e < graph_edges(*g).len(),
        ends matches Some(pair) ==> pair.0 == graph_edges(*g)[e as int].source && pair.1
            == graph_edges(*g)[e as int].target && pair.0 < graph_nodes(*g).len() && pair.1
            < graph_nodes(*g).len(),
{
    g.edge_endpoints(EdgeIndex::new(e as usize)).map(|(a, b)| (a.index() as u32, b.index() as u32))
}

/// `Graph::edges_directed` with `Direction::Outgoing`: the numbers of the
/// edges that start in `a`, each once; none where `a` is no node.
#[verifier::external_body]
pub(crate) fn graph_outgoing_edges(g: &DiGraph<FunctionInfo, CallRelation>, a: u32) -> (list: Vec<u32>)
    ensures
        list@ == graph_outgoing(*g, a),
        lists_outgoing(graph_edges(*g), a, list@),
{
    g.edges_directed(NodeIndex::new(a as usize), Direction::Outgoing).map(
        |e| e.id().index() as u32,
    ).collect()
}

/// `Graph::edges_directed` with `Direction::Incoming`: the numbers of the
/// edges that end in `a`, each once; none where `a` is no node.
#[verifier::external_body]
pub(crate) fn graph_incoming_edges(g: &DiGraph<FunctionInfo, CallRelation>, a: u32) -> (list: Vec<u32>)
    ensures
        list@ == graph_incoming(*g, a),
        lists_incoming(graph_edges(*g), a, list@),
{
    g.edges_directed(NodeIndex::new(a as usize), Direction::Incoming).map(
        |e| e.id().index() as u32,
    ).collect()
}

/// `Graph::node_weights`: the functions of all nodes, by node number.
#[verifier::external_body]
pub(crate) fn graph_node_weights(g: &DiGraph<FunctionInfo, CallRelation>) -> (weights: Vec<
    &FunctionInfo,
>)
    ensures
        weights@.unref() == graph_nodes(*g),
{
    g.node_weights().collect()
}

/// `Graph::edge_weights`: the calls of all edges, by edge number.
#[verifier::external_body]
pub(crate) fn graph_edge_weights(g: &DiGraph<FunctionInfo, CallRelation>) -> (weights: Vec<
    &CallRelation,
>)
    ensures
        weights@.unref() == graph_edges(*g).map_values(|e: GraphEdge| e.weight),
{
    g.edge_weights().collect()
}

/// `petgraph::algo::is_cyclic_directed`: whether the graph holds a cycle.
#[verifier::external_body]
pub(crate) fn graph_is_cyclic(g: &DiGraph<FunctionInfo, CallRelation>) -> (cyclic: bool)
    ensures
        cyclic == has_cycle(graph_edges(*g)),
{
    is_cyclic_directed(g)
}

/// `petgraph::algo::toposort`: for a graph without a cycle, its nodes in an
/// order in which every edge leads forward; for a graph with a cycle, a node
/// that lies on a cycle as the error.
#[verifier::external_body]
pub(crate) fn graph_toposort(g: &DiGraph<FunctionInfo, CallRelation>) -> (sorted: Result<Vec<u32>, u32>)
    ensures
        sorted is Ok <==> !has_cycle(graph_edges(*g)),
        sorted matches Ok(order) ==> is_topological(
            order@,
            graph_nodes(*g).len(),
            graph_edges(*g),
        ),
        sorted matches Err(node) ==> node < graph_nodes(*g).len() && on_cycle(
            graph_edges(*g),
            node,
        ),
{
    match toposort(g, None) {
        Ok(order) => Ok(order.into_iter().map(|n| n.index() as u32).collect()),
        Err(cycle) => Err(cycle.node_id().index() as u32),
    }
}

/// `petgraph::algo::kosaraju_scc`: the strongly connected components, a
/// component that is reached from another one before it.
#[verifier::external_body]
pub(crate) fn graph_components(g: &DiGraph<FunctionInfo, CallRelation>) -> (parts: Vec<Vec<u32>>)
    ensures
        is_component_split(group_views(parts@), graph_nodes(*g).len(), graph_edges(*g)),
{
    kosaraju_scc(g).into_iter().map(
        |part| part.into_iter().map(|n| n.index() as u32).collect(),
    ).collect()
}

} // verus!
