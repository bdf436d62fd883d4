use flake_graph::graph::{process_node_inputs, traverse_path, FollowError, GraphError, NodeGraph};
use flake_graph::lock::{is_well_formed, FlakeLock, Node, NodeInput, NodeLock, NodeRef, NodeRefGitHub};
use petgraph::graph::{DiGraph, EdgeIndex, NodeIndex};
use petgraph::visit::EdgeRef;

fn github_lock(owner: &str, repo: &str, rev: &str, hash: &str, time: u32) -> NodeLock {
    NodeLock {
        last_modified: time,
        nar_hash: hash.to_string(),
        reference: NodeRef::GitHub(NodeRefGitHub {
            owner: owner.to_string(),
            repo: repo.to_string(),
            revision: Some(rev.to_string()),
            reference: None,
        }),
    }
}

fn nixpkgs_node() -> Node {
    Node {
        locked: Some(github_lock(
            "NixOS",
            "nixpkgs",
            "a2eca347ae1e542af3f818274c38305c1e00604c",
            "sha256-faLzZ2u3Wki8h9ykEfzQr19B464eyADP3Ux7A/vjKIY=",
            1692742407,
        )),
        original: Some(NodeRef::GitHub(NodeRefGitHub {
            owner: "NixOS".to_string(),
            repo: "nixpkgs".to_string(),
            revision: None,
            reference: Some("nixpkgs-unstable".to_string()),
        })),
        inputs: vec![],
    }
}

fn plain(inputs: Vec<(&str, NodeInput)>) -> Node {
    Node {
        locked: None,
        original: None,
        inputs: inputs.into_iter().map(|(k, v)| (k.to_string(), v)).collect(),
    }
}

fn direct(name: &str) -> NodeInput {
    NodeInput::Direct(name.to_string())
}

fn path(steps: &[&str]) -> NodeInput {
    NodeInput::Path(steps.iter().map(|s| s.to_string()).collect())
}

fn doc(nodes: Vec<(&str, Node)>) -> FlakeLock {
    FlakeLock {
        root: "root".to_string(),
        version: 7,
        nodes: nodes.into_iter().map(|(k, v)| (k.to_string(), v)).collect(),
    }
}

fn simple_lock() -> FlakeLock {
    doc(vec![
        ("nixpkgs", nixpkgs_node()),
        ("root", plain(vec![("nixpkgs", direct("nixpkgs"))])),
    ])
}

fn bound_lock() -> FlakeLock {
    let home_manager = Node {
        locked: Some(github_lock(
            "nix-community",
            "home-manager",
            "8bde7a651b94ba30bd0baaa9c4a08aae88cc2e92",
            "sha256-cTcNpsqi1llmUFl9bmCdD0mTyfjhBrNFPhu2W12WXzA=",
            1693187908,
        )),
        original: Some(NodeRef::GitHub(NodeRefGitHub {
            owner: "nix-community".to_string(),
            repo: "home-manager".to_string(),
            revision: None,
            reference: None,
        })),
        inputs: vec![("nixpkgs".to_string(), path(&["nixpkgs"]))],
    };
    doc(vec![
        ("home-manager", home_manager),
        ("nixpkgs", nixpkgs_node()),
        (
            "root",
            plain(vec![
                ("nixpkgs", direct("nixpkgs")),
                ("home-manager", direct("home-manager")),
            ]),
        ),
    ])
}

fn edges_of(g: &NodeGraph) -> Vec<(usize, usize, String)> {
    g.graph
        .edge_references()
        .map(|e| (e.source().index(), e.target().index(), e.weight().clone()))
        .collect()
}

#[test]
fn build_simple_lock_graph() {
    let graph = NodeGraph::from_lock(&simple_lock()).unwrap();
    assert_eq!(graph.graph.node_count(), 2);
    assert_eq!(edges_of(&graph), vec![(1, 0, "nixpkgs".to_string())]);
    assert_eq!(graph.root, 1);
    assert_eq!(graph.version, 7);
    let dot = graph.to_dot();
    assert!(dot.contains(
        "URL = \"https://github.com/NixOS/nixpkgs/tree/a2eca347ae1e542af3f818274c38305c1e00604c\""
    ));
}

#[test]
fn build_bound_lock_graph() {
    let graph = NodeGraph::from_lock(&bound_lock()).unwrap();
    assert_eq!(graph.graph.node_count(), 3);
    assert_eq!(
        edges_of(&graph),
        vec![
            (0, 1, "nixpkgs".to_string()),
            (2, 1, "nixpkgs".to_string()),
            (2, 0, "home-manager".to_string()),
        ]
    );
    assert!(graph.similarity_map().iter().all(|(_, group)| group.len() == 1));
    assert!(!graph.to_dot().contains("color="));
}

#[test]
fn graph_nodes_carry_document_entries() {
    let lock = simple_lock();
    let graph = NodeGraph::from_lock(&lock).unwrap();
    let first = &graph.graph[NodeIndex::new(0)];
    assert_eq!(first.name, "nixpkgs");
    assert_eq!(first.locked, lock.nodes[0].1.locked);
    assert_eq!(first.original, lock.nodes[0].1.original);
    assert_eq!(graph.graph[NodeIndex::new(1)].name, "root");
    assert_eq!(graph.graph[EdgeIndex::new(0)], "nixpkgs");
}

#[test]
fn scenario_simple_document() {
    let mut nixpkgs = nixpkgs_node();
    nixpkgs.locked = Some(github_lock("NixOS", "nixpkgs", "abc123", "sha256-x", 1));
    let lock = doc(vec![
        ("root", plain(vec![("nixpkgs", direct("nixpkgs"))])),
        ("nixpkgs", nixpkgs),
    ]);
    let graph = NodeGraph::from_lock(&lock).unwrap();
    assert_eq!(graph.graph.node_count(), 2);
    assert_eq!(edges_of(&graph), vec![(0, 1, "nixpkgs".to_string())]);
    assert!(graph.to_dot().contains(
        "1 [ label = \"nixpkgs\\ngithub:NixOS/nixpkgs\", URL = \"https://github.com/NixOS/nixpkgs/tree/abc123\"]"
    ));
}

#[test]
fn simple_lock_dot_text() {
    let graph = NodeGraph::from_lock(&simple_lock()).unwrap();
    let expected = "digraph {\n    node [colorscheme=oranges9 shape=record]\n    rankdir=LR\n    0 [ label = \"nixpkgs\\ngithub:NixOS/nixpkgs\", URL = \"https://github.com/NixOS/nixpkgs/tree/a2eca347ae1e542af3f818274c38305c1e00604c\"]\n    1 [ label = \"root\"]\n    1 -> 0 [ label = \"nixpkgs\"]\n}";
    assert_eq!(graph.to_dot(), expected);
}

#[test]
fn url_without_revision_is_repository_url() {
    let mut nixpkgs = nixpkgs_node();
    if let Some(NodeLock { reference: NodeRef::GitHub(g), .. }) = &mut nixpkgs.locked {
        g.revision = None;
    }
    let lock = doc(vec![("root", plain(vec![("n", direct("nixpkgs"))])), ("nixpkgs", nixpkgs)]);
    let dot = NodeGraph::from_lock(&lock).unwrap().to_dot();
    assert!(dot.contains("URL = \"https://github.com/NixOS/nixpkgs\"]"));
}

#[test]
fn follows_path_leads_past_root() {
    let lock = doc(vec![
        ("B", plain(vec![("x", path(&["a"]))])),
        ("root", plain(vec![("a", direct("A"))])),
        ("A", plain(vec![])),
    ]);
    assert_eq!(traverse_path(&vec!["a".to_string()], &lock), Ok("A".to_string()));
    let graph = NodeGraph::from_lock(&lock).unwrap();
    assert_eq!(
        edges_of(&graph),
        vec![(0, 2, "x".to_string()), (1, 2, "a".to_string())]
    );
}

#[test]
fn nested_follows_paths_resolve() {
    let lock = doc(vec![
        ("root", plain(vec![("a", direct("A")), ("b", path(&["a", "c"]))])),
        ("A", plain(vec![("c", direct("C"))])),
        ("C", plain(vec![])),
        ("D", plain(vec![("y", path(&["b"]))])),
    ]);
    assert_eq!(traverse_path(&vec!["b".to_string()], &lock), Ok("C".to_string()));
    let graph = NodeGraph::from_lock(&lock).unwrap();
    assert_eq!(
        edges_of(&graph),
        vec![
            (0, 1, "a".to_string()),
            (0, 2, "b".to_string()),
            (1, 2, "c".to_string()),
            (3, 2, "y".to_string()),
        ]
    );
}

#[test]
fn broken_follows_path_fails() {
    let lock = doc(vec![
        ("root", plain(vec![("a", direct("A"))])),
        ("A", plain(vec![])),
        ("B", plain(vec![("x", path(&["a", "missing"]))])),
    ]);
    assert_eq!(
        NodeGraph::from_lock(&lock).err(),
        Some(GraphError::BrokenFollowsPath {
            node: "B".to_string(),
            input: "x".to_string(),
            step: "missing".to_string(),
        })
    );
    assert_eq!(
        traverse_path(&vec!["nope".to_string()], &lock),
        Err(FollowError::Broken("nope".to_string()))
    );
}

#[test]
fn missing_root_fails() {
    let mut lock = doc(vec![("A", plain(vec![("b", direct("B"))]))]);
    lock.root = "top".to_string();
    assert_eq!(
        NodeGraph::from_lock(&lock).err(),
        Some(GraphError::MissingRoot { root: "top".to_string() })
    );
}

#[test]
fn dangling_reference_fails() {
    let lock = doc(vec![("root", plain(vec![("a", direct("ghost"))]))]);
    assert_eq!(
        NodeGraph::from_lock(&lock).err(),
        Some(GraphError::DanglingReference {
            node: "root".to_string(),
            input: "a".to_string(),
            target: "ghost".to_string(),
        })
    );
}

#[test]
fn empty_path_fails() {
    let lock = doc(vec![("root", plain(vec![("a", path(&[]))]))]);
    assert_eq!(
        NodeGraph::from_lock(&lock).err(),
        Some(GraphError::EmptyPath { node: "root".to_string(), input: "a".to_string() })
    );
    assert_eq!(traverse_path(&vec![], &lock), Err(FollowError::Empty));
}

#[test]
fn cyclic_path_fails() {
    let lock = doc(vec![("root", plain(vec![("a", path(&["a"]))]))]);
    assert_eq!(
        NodeGraph::from_lock(&lock).err(),
        Some(GraphError::CyclicFollowsPath { node: "root".to_string(), input: "a".to_string() })
    );
    assert_eq!(traverse_path(&vec!["a".to_string()], &lock), Err(FollowError::Cyclic));
}

#[test]
fn edge_count_matches_inputs() {
    let lock = bound_lock();
    let total: usize = lock.nodes.iter().map(|(_, n)| n.inputs.len()).sum();
    let graph = NodeGraph::from_lock(&lock).unwrap();
    assert_eq!(total, 3);
    assert_eq!(graph.graph.edge_count(), total);
}

#[test]
fn processing_twice_adds_nothing() {
    let lock = bound_lock();
    let mut graph = DiGraph::new();
    for (name, _) in &lock.nodes {
        graph.add_node(flake_graph::graph::Node { name: name.clone(), original: None, locked: None });
    }
    let mut visited = vec![false; lock.nodes.len()];
    process_node_inputs(&lock, 2, &mut graph, &mut visited).unwrap();
    assert_eq!(graph.edge_count(), 2);
    assert_eq!(visited, vec![false, false, true]);
    process_node_inputs(&lock, 2, &mut graph, &mut visited).unwrap();
    assert_eq!(graph.edge_count(), 2);
    assert_eq!(visited, vec![false, false, true]);
}

#[test]
fn scenario_follows_document() {
    let mut lock = bound_lock();
    lock.nodes[2].1.inputs.truncate(1);
    let graph = NodeGraph::from_lock(&lock).unwrap();
    assert_eq!(graph.graph.node_count(), 3);
    assert_eq!(
        edges_of(&graph),
        vec![(0, 1, "nixpkgs".to_string()), (2, 1, "nixpkgs".to_string())]
    );
    let map = graph.similarity_map();
    assert_eq!(map.len(), 2);
    assert!(map.iter().all(|(_, group)| group.len() == 1));
}

#[test]
fn ordinary_documents_fit_index_limits() {
    assert!(flake_graph::graph::fits_index_limits(&bound_lock()));
    assert!(flake_graph::graph::fits_index_limits(&doc(vec![])));
}

#[test]
fn repeated_names_are_not_well_formed() {
    assert!(is_well_formed(&bound_lock()));
    let repeated_node = doc(vec![("root", plain(vec![])), ("root", plain(vec![]))]);
    assert!(!is_well_formed(&repeated_node));
    let repeated_input = doc(vec![
        ("root", plain(vec![("a", direct("root")), ("a", direct("root"))])),
    ]);
    assert!(!is_well_formed(&repeated_input));
}

#[test]
fn failed_processing_adds_no_edge() {
    let lock = doc(vec![
        ("root", plain(vec![("a", direct("A")), ("b", direct("ghost"))])),
        ("A", plain(vec![])),
    ]);
    let mut graph = DiGraph::new();
    for (name, _) in &lock.nodes {
        graph.add_node(flake_graph::graph::Node { name: name.clone(), original: None, locked: None });
    }
    let mut visited = vec![false; lock.nodes.len()];
    let r = process_node_inputs(&lock, 0, &mut graph, &mut visited);
    assert_eq!(
        r,
        Err(GraphError::DanglingReference {
            node: "root".to_string(),
            input: "b".to_string(),
            target: "ghost".to_string(),
        })
    );
    assert_eq!(graph.edge_count(), 0);
    assert_eq!(visited, vec![false, false]);
}
