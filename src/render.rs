//! Graphviz rendering of a resolved graph.

use vstd::prelude::*;
use vstd::string::*;

use crate::digraph::{
    dot_content, graph_edge_count, graph_edge_weight, graph_edges, graph_node_count,
    graph_node_weight, graph_nodes, render_dot_content, LockDiGraph,
};
use crate::graph::{Node, NodeGraph};
use crate::lock::{find_key, lemma_key_absent, lemma_key_position_bounds, NodeRef};
use crate::similarity::{digest_group, digest_of, indices_view};
use crate::text::{decimal, decimal_string};

verus! {

/// The label of a node: its name, and for a GitHub pin its owner and repository.
pub open spec fn node_label(n: Node) -> Seq<char> {
    n.name@ + match n.locked {
        Some(l) => match l.reference {
            NodeRef::GitHub(g) => "\\ngithub:"@ + g.owner@ + "/"@ + g.repo@,
            NodeRef::Indirect(_) => Seq::empty(),
        },
        None => Seq::empty(),
    }
}

/// The link of a node with a GitHub pin: to its revision, if it has one.
pub open spec fn node_url(n: Node) -> Option<Seq<char>> {
    match n.locked {
        Some(l) => match l.reference {
            NodeRef::GitHub(g) => Some(
                match g.revision {
                    Some(rev) => "https://github.com/"@ + g.owner@ + "/"@ + g.repo@ + "/tree/"@
                        + rev@,
                    None => "https://github.com/"@ + g.owner@ + "/"@ + g.repo@,
                },
            ),
            NodeRef::Indirect(_) => None,
        },
        None => None,
    }
}

/// The colour weight of a node whose digest is shared by `size` nodes.
pub open spec fn color_text(size: nat) -> Seq<char> {
    if size > 1 {
        ", color="@ + decimal(size)
    } else {
        Seq::empty()
    }
}

/// The attribute text of a node whose digest is shared by `size` nodes.
pub open spec fn node_attr_text(n: Node, size: nat) -> Seq<char> {
    "label = \""@ + node_label(n) + "\""@ + match node_url(n) {
        Some(u) => ", URL = \""@ + u + "\""@,
        None => Seq::empty(),
    } + color_text(size)
}

/// The number of nodes that share the digest of node `j`; 0 without a digest.
pub open spec fn group_size(nodes: Seq<Node>, j: int) -> nat {
    match digest_of(nodes[j]) {
        Some(d) => digest_group(nodes, d, nodes.len() as int).len(),
        None => 0,
    }
}

/// The attribute text of an edge with the given label.
pub open spec fn edge_attr_text(label: Seq<char>) -> Seq<char> {
    "label = \""@ + label + "\""@
}

/// The lines that open the diagram.
pub open spec fn dot_header() -> Seq<char> {
    "digraph {\n    node [colorscheme=oranges9 shape=record]\n    rankdir=LR\n"@
}

/// The whole diagram of a graph.
pub open spec fn dot_document(g: LockDiGraph) -> Seq<char> {
    let nodes = graph_nodes(g);
    let edges = graph_edges(g);
    dot_header() + dot_content(
        Seq::new(nodes.len(), |j: int| node_attr_text(nodes[j], group_size(nodes, j))),
        edges,
        Seq::new(edges.len(), |k: int| edge_attr_text(edges[k].2)),
    ) + "}"@
}

/// The attribute text of a node whose digest is shared by `size` nodes.
pub fn node_attributes(n: &Node, size: usize) -> (r: String)
    ensures
        r@ == node_attr_text(*n, size as nat),
{
    let mut label = n.name.clone();
    let mut url: Option<String> = None;
    match &n.locked {
        Some(locked) => match &locked.reference {
            NodeRef::GitHub(github) => {
                label.append("\\ngithub:");
                label.append(github.owner.as_str());
                label.append("/");
                label.append(github.repo.as_str());
                let mut u = String::from_str("https://github.com/");
                u.append(github.owner.as_str());
                u.append("/");
                u.append(github.repo.as_str());
                match &github.revision {
                    Some(rev) => {
                        u.append("/tree/");
                        u.append(rev.as_str());
                    },
                    None => {},
                }
                url = Some(u);
            },
            NodeRef::Indirect(_) => {},
        },
        None => {},
    }
    let mut attrs = String::from_str("label = \"");
    attrs.append(label.as_str());
    attrs.append("\"");
    match &url {
        Some(u) => {
            attrs.append(", URL = \"");
            attrs.append(u.as_str());
            attrs.append("\"");
        },
        None => {},
    }
    if size > 1 {
        attrs.append(", color=");
        let c = decimal_string(size);
        attrs.append(c.as_str());
    }
    attrs
}

impl NodeGraph {
    /// Renders the graph as Graphviz text: one statement per node, labelled with
    /// its name, GitHub source and link, and coloured by the size of its
    /// duplicate group when that is above one; one statement per edge,
    /// labelled with its input name.
    pub fn to_dot(&self) -> (r: String)
        ensures
            r@ == dot_document(self.graph),
    {
        let ghost nodes = graph_nodes(self.graph);
        let ghost edges = graph_edges(self.graph);
        let map = self.similarity_map();
        let count: usize = graph_node_count(&self.graph);
        let mut node_attrs: Vec<String> = Vec::new();
        let mut j: usize = 0;
        while j < count
            invariant
                j <= count,
                count == nodes.len(),
                count <= u32::MAX,
                nodes == graph_nodes(self.graph),
                forall|k: int|
                    0 <= k < map.len() ==> indices_view(#[trigger] map@[k].1@) == digest_group(
                        nodes,
                        map@[k].0@,
                        nodes.len() as int,
                    ),
                forall|x: int|
                    0 <= x < nodes.len() && (#[trigger] digest_of(nodes[x])) is Some
                        ==> exists|k: int|
                        0 <= k < map.len() && (#[trigger] map@[k]).0@ == digest_of(nodes[x])->0,
                node_attrs.len() == j,
                forall|x: int|
                    0 <= x < j ==> (#[trigger] node_attrs@[x])@ == node_attr_text(
                        nodes[x],
                        group_size(nodes, x),
                    ),
            decreases count - j,
        {
            let w = graph_node_weight(&self.graph, j);
            if let Some(w) = w {
                let size: usize = match w.digest() {
                    Some(d) => match find_key(&map, &d) {
                        Some(k) => {
                            proof {
                                lemma_key_position_bounds(map@, d@, 0);
                            }
                            assert(indices_view(map@[k as int].1@).len() == map@[k as int].1@.len());
                            assert(group_size(nodes, j as int) == map@[k as int].1@.len());
                            map[k].1.len()
                        },
                        None => {
                            proof {
                                lemma_key_absent(map@, d@, 0);
                                assert(digest_of(nodes[j as int]) is Some);
                            }
                            0
                        },
                    },
                    None => 0,
                };
                proof {
                    if digest_of(nodes[j as int]) is Some {
                        let d = digest_of(nodes[j as int])->0;
                        assert(group_size(nodes, j as int) == digest_group(
                            nodes,
                            d,
                            nodes.len() as int,
                        ).len());
                    }
                }
                let attrs = node_attributes(w, size);
                node_attrs.push(attrs);
            }
            j = j + 1;
        }
        let ecount: usize = graph_edge_count(&self.graph);
        let mut edge_attrs: Vec<String> = Vec::new();
        let mut k: usize = 0;
        while k < ecount
            invariant
                k <= ecount,
                ecount == edges.len(),
                ecount <= u32::MAX,
                edges == graph_edges(self.graph),
                edge_attrs.len() == k,
                forall|x: int|
                    0 <= x < k ==> (#[trigger] edge_attrs@[x])@ == edge_attr_text(edges[x].2),
            decreases ecount - k,
        {
            if let Some(label) = graph_edge_weight(&self.graph, k) {
                let mut attrs = String::from_str("label = \"");
                attrs.append(label.as_str());
                attrs.append("\"");
                edge_attrs.push(attrs);
            }
            k = k + 1;
        }
        assert(node_attrs@.map_values(|s: String| s@) =~= Seq::new(
            nodes.len(),
            |x: int| node_attr_text(nodes[x], group_size(nodes, x)),
        ));
        assert(edge_attrs@.map_values(|s: String| s@) =~= Seq::new(
            edges.len(),
            |x: int| edge_attr_text(edges[x].2),
        ));
        let content = render_dot_content(&self.graph, &node_attrs, &edge_attrs);
        let mut out = String::from_str(
            "digraph {\n    node [colorscheme=oranges9 shape=record]\n    rankdir=LR\n",
        );
        out.append(content.as_str());
        out.append("}");
        out
    }
}

} // verus!
