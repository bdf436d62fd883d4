use flake_graph::graph::{Node, NodeGraph};
use flake_graph::lock::{
    FlakeLock, Node as LockNode, NodeInput, NodeLock, NodeRef, NodeRefGitHub, NodeRefIndirect,
};

fn pinned(owner: &str, repo: &str, rev: &str, hash: &str, time: u32) -> Option<NodeLock> {
    Some(NodeLock {
        last_modified: time,
        nar_hash: hash.to_string(),
        reference: NodeRef::GitHub(NodeRefGitHub {
            owner: owner.to_string(),
            repo: repo.to_string(),
            revision: Some(rev.to_string()),
            reference: None,
        }),
    })
}

fn graph_node(name: &str, locked: Option<NodeLock>) -> Node {
    Node { name: name.to_string(), original: None, locked }
}

fn entry(name: &str, locked: Option<NodeLock>, inputs: Vec<(&str, &str)>) -> (String, LockNode) {
    (
        name.to_string(),
        LockNode {
            locked,
            original: None,
            inputs: inputs
                .into_iter()
                .map(|(k, v)| (k.to_string(), NodeInput::Direct(v.to_string())))
                .collect(),
        },
    )
}

fn duplicated_lock() -> FlakeLock {
    FlakeLock {
        root: "root".to_string(),
        version: 7,
        nodes: vec![
            entry("root", None, vec![("nixpkgs", "nixpkgs"), ("other", "nixpkgs_2")]),
            entry("nixpkgs", pinned("NixOS", "nixpkgs", "aaa", "sha256-a", 1), vec![]),
            entry("nixpkgs_2", pinned("NixOS", "nixpkgs", "bbb", "sha256-b", 2), vec![]),
        ],
    }
}

#[test]
fn digest_ignores_hash_and_time() {
    let a = graph_node("a", pinned("NixOS", "nixpkgs", "aaa", "sha256-a", 1));
    let b = graph_node("b", pinned("NixOS", "nixpkgs", "bbb", "sha256-b", 2));
    assert_eq!(a.digest(), Some("github::NixOS/nixpkgs".to_string()));
    assert_eq!(a.digest(), b.digest());
}

#[test]
fn digest_differs_by_owner_or_repo() {
    let a = graph_node("a", pinned("NixOS", "nixpkgs", "aaa", "h", 1));
    let b = graph_node("b", pinned("nix-community", "nixpkgs", "aaa", "h", 1));
    let c = graph_node("c", pinned("NixOS", "home-manager", "aaa", "h", 1));
    assert_ne!(a.digest(), b.digest());
    assert_ne!(a.digest(), c.digest());
}

#[test]
fn digest_of_indirect_and_unpinned() {
    let indirect = graph_node(
        "i",
        Some(NodeLock {
            last_modified: 3,
            nar_hash: "h".to_string(),
            reference: NodeRef::Indirect(NodeRefIndirect { id: "flake-utils".to_string() }),
        }),
    );
    assert_eq!(indirect.digest(), Some("indirect::flake-utils".to_string()));
    assert_eq!(graph_node("root", None).digest(), None);
}

#[test]
fn duplicates_share_one_group() {
    let graph = NodeGraph::from_lock(&duplicated_lock()).unwrap();
    let map = graph.similarity_map();
    assert_eq!(map, vec![("github::NixOS/nixpkgs".to_string(), vec![1, 2])]);
}

#[test]
fn duplicates_are_coloured_by_group_size() {
    let graph = NodeGraph::from_lock(&duplicated_lock()).unwrap();
    let dot = graph.to_dot();
    assert!(dot.contains(
        "    1 [ label = \"nixpkgs\\ngithub:NixOS/nixpkgs\", URL = \"https://github.com/NixOS/nixpkgs/tree/aaa\", color=2]\n"
    ));
    assert!(dot.contains("    0 [ label = \"root\"]\n"));
    assert!(dot.contains("    0 -> 2 [ label = \"other\"]\n"));
}

#[test]
fn large_groups_write_decimal_colour() {
    let mut nodes = vec![];
    for i in 0..12 {
        nodes.push(entry(&format!("n{}", i), pinned("o", "r", "x", "h", 1), vec![]));
    }
    nodes.push(entry("root", None, vec![]));
    let lock = FlakeLock { root: "root".to_string(), version: 7, nodes };
    let dot = NodeGraph::from_lock(&lock).unwrap().to_dot();
    assert!(dot.contains("    11 [ label = \"n11\\ngithub:o/r\", URL = \"https://github.com/o/r/tree/x\", color=12]\n"));
}

#[test]
fn slash_in_owner_does_not_collide() {
    let a = graph_node("a", pinned("a/b", "c", "x", "h", 1));
    let b = graph_node("b", pinned("a", "b/c", "x", "h", 1));
    assert_eq!(a.digest(), Some("github::a%2Fb/c".to_string()));
    assert_eq!(b.digest(), Some("github::a/b/c".to_string()));
    assert_ne!(a.digest(), b.digest());
    let p = graph_node("p", pinned("50%", "r", "x", "h", 1));
    assert_eq!(p.digest(), Some("github::50%25/r".to_string()));
}
