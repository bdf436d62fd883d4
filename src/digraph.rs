//! The petgraph graph that holds a resolved lock, seen through its node and
//! edge sequences.

use petgraph::dot::{Config, Dot};
use petgraph::graph::{EdgeIndex, Graph, NodeIndex};
use petgraph::visit::EdgeRef;
use petgraph::Directed;
use vstd::prelude::*;

use crate::graph::Node;
use crate::text::decimal;

verus! {

#[verifier::external_type_specification]
#[verifier::external_body]
#[verifier::reject_recursive_types(N)]
#[verifier::reject_recursive_types(E)]
#[verifier::reject_recursive_types(Ty)]
#[verifier::reject_recursive_types(Ix)]
pub struct ExGraph<N, E, Ty, Ix>(Graph<N, E, Ty, Ix>);

#[verifier::external_type_specification]
#[verifier::external_body]
pub struct ExDirected(Directed);

/// The directed graph of a resolved lock, with `u32` indices.
pub type LockDiGraph = Graph<Node, String, Directed, u32>;

/// The node weights of a graph, by node index.
pub uninterp spec fn graph_nodes(g: LockDiGraph) -> Seq<Node>;

/// The edges of a graph, by edge index: source, target and label.
pub uninterp spec fn graph_edges(g: LockDiGraph) -> Seq<(int, int, Seq<char>)>;

/// Relies on petgraph's `Graph::new`: a graph with no nodes and no edges.
#[verifier::external_body]
pub(crate) fn graph_new() -> (g: LockDiGraph)
    ensures
        graph_nodes(g) == Seq::<Node>::empty(),
        graph_edges(g) == Seq::<(int, int, Seq<char>)>::empty(),
{
    Graph::new()
}

/// Relies on petgraph's `Graph::add_node`: the weight is appended, its index is
/// the former node count; it panics when that index is `u32::MAX`.
#[verifier::external_body]
pub(crate) fn graph_add_node(g: &mut LockDiGraph, w: Node) -> (i: usize)
    requires
        graph_nodes(*old(g)).len() < u32::MAX,
    ensures
        graph_nodes(*final(g)) == graph_nodes(*old(g)).push(w),
        graph_edges(*final(g)) == graph_edges(*old(g)),
        i == graph_nodes(*old(g)).len(),
{
    g.add_node(w).index()
}

/// Relies on petgraph's `Graph::add_edge`: the edge is appended; it panics when
/// an end is not a node or the edge index would be `u32::MAX`.
#[verifier::external_body]
pub(crate) fn graph_add_edge(g: &mut LockDiGraph, a: usize, b: usize, w: String)
    requires
        a < graph_nodes(*old(g)).len(),
        b < graph_nodes(*old(g)).len(),
        a < u32::MAX,
        b < u32::MAX,
        graph_edges(*old(g)).len() < u32::MAX,
    ensures
        graph_nodes(*final(g)) == graph_nodes(*old(g)),
        graph_edges(*final(g)) == graph_edges(*old(g)).push((a as int, b as int, w@)),
{
    g.add_edge(NodeIndex::new(a), NodeIndex::new(b), w);
}

/// Relies on petgraph's `Graph::node_count`; with `u32` indices `add_node`
/// never lets the count pass `u32::MAX`.
#[verifier::external_body]
pub(crate) fn graph_node_count(g: &LockDiGraph) -> (n: usize)
    ensures
        n == graph_nodes(*g).len(),
        n <= u32::MAX,
{
    g.node_count()
}

/// Relies on petgraph's `Graph::edge_count`; with `u32` indices `add_edge`
/// never lets the count pass `u32::MAX`.
#[verifier::external_body]
pub(crate) fn graph_edge_count(g: &LockDiGraph) -> (n: usize)
    ensures
        n == graph_edges(*g).len(),
        n <= u32::MAX,
{
    g.edge_count()
}

/// Relies on petgraph's `Graph::node_weight`: the weight at an index, if any.
#[verifier::external_body]
pub(crate) fn graph_node_weight(g: &LockDiGraph, i: usize) -> (r: Option<&Node>)
    requires
        i < u32::MAX,
    ensures
        r is Some <==> i < graph_nodes(*g).len(),
        r is Some ==> *r->0 == graph_nodes(*g)[i as int],
{
    g.node_weight(NodeIndex::new(i))
}

/// Relies on petgraph's `Graph::edge_weight`: the label at an edge index, if any.
#[verifier::external_body]
pub(crate) fn graph_edge_weight(g: &LockDiGraph, i: usize) -> (r: Option<&String>)
    requires
        i < u32::MAX,
    ensures
        r is Some <==> i < graph_edges(*g).len(),
        r is Some ==> r->0@ == graph_edges(*g)[i as int].2,
{
    g.edge_weight(EdgeIndex::new(i))
}

/// The statement for node `i` with attribute text `attrs`.
pub open spec fn dot_node_line(i: int, attrs: Seq<char>) -> Seq<char> {
    "    "@ + decimal(i as nat) + " [ "@ + attrs + "]\n"@
}

/// The statement for an edge from `a` to `b` with attribute text `attrs`.
pub open spec fn dot_edge_line(a: int, b: int, attrs: Seq<char>) -> Seq<char> {
    "    "@ + decimal(a as nat) + " -> "@ + decimal(b as nat) + " [ "@ + attrs + "]\n"@
}

/// The node statements, one per attribute text, in index order.
pub open spec fn dot_node_lines(attrs: Seq<Seq<char>>) -> Seq<char>
    decreases attrs.len(),
{
    if attrs.len() == 0 {
        Seq::empty()
    } else {
        dot_node_lines(attrs.drop_last()) + dot_node_line(attrs.len() - 1, attrs.last())
    }
}

/// The statements of the first `n` edges, each with the attribute text of its index.
pub open spec fn dot_edge_lines(
    edges: Seq<(int, int, Seq<char>)>,
    attrs: Seq<Seq<char>>,
    n: int,
) -> Seq<char>
    decreases n,
{
    if n <= 0 {
        Seq::empty()
    } else {
        dot_edge_lines(edges, attrs, n - 1) + dot_edge_line(
            edges[n - 1].0,
            edges[n - 1].1,
            attrs[n - 1],
        )
    }
}

/// The body of a Graphviz graph: the node statements, then the edge statements.
pub open spec fn dot_content(
    node_attrs: Seq<Seq<char>>,
    edges: Seq<(int, int, Seq<char>)>,
    edge_attrs: Seq<Seq<char>>,
) -> Seq<char> {
    dot_node_lines(node_attrs) + dot_edge_lines(edges, edge_attrs, edges.len() as int)
}

/// Relies on petgraph's `Dot::with_attr_getters` and its `Debug` output with
/// `NodeNoLabel`, `EdgeNoLabel` and `GraphContentOnly`: one line
/// `    i [ attrs]` per node, then one line `    a -> b [ attrs]` per edge, in
/// index order, each attribute text taken as given.
#[verifier::external_body]
pub(crate) fn render_dot_content(
    g: &LockDiGraph,
    node_attrs: &Vec<String>,
    edge_attrs: &Vec<String>,
) -> (r: String)
    requires
        node_attrs.len() == graph_nodes(*g).len(),
        edge_attrs.len() == graph_edges(*g).len(),
    ensures
        r@ == dot_content(
            node_attrs@.map_values(|s: String| s@),
            graph_edges(*g),
            edge_attrs@.map_values(|s: String| s@),
        ),
{
    let config = [Config::EdgeNoLabel, Config::NodeNoLabel, Config::GraphContentOnly];
    format!("{:?}", Dot::with_attr_getters(
        g,
        &config,
        &|_, e| edge_attrs[e.id().index()].clone(),
        &|_, (i, _)| node_attrs[i.index()].clone(),
    ))
}

} // verus!
