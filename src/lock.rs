//! The lock document: nodes, their pinned and original references, and their inputs.
//!
//! Maps of the document format are held as vectors of `(key, value)` entries,
//! in document order; a lookup takes the first entry with the key.

use vstd::prelude::*;

verus! {

/// A whole lock document.
#[derive(Debug, Clone, PartialEq)]
pub struct FlakeLock {
    pub nodes: Vec<(String, Node)>,
    pub root: String,
    pub version: u8,
}

/// One dependency node of the document.
#[derive(Debug, Clone, PartialEq)]
pub struct Node {
    pub locked: Option<NodeLock>,
    pub original: Option<NodeRef>,
    pub inputs: Vec<(String, NodeInput)>,
}

/// A pinned reference: the source it points at, with time stamp and content hash.
#[derive(Debug, Clone, PartialEq)]
pub struct NodeLock {
    pub last_modified: u32,
    pub nar_hash: String,
    pub reference: NodeRef,
}

/// The closed set of reference kinds.
#[derive(Debug, Clone, PartialEq)]
pub enum NodeRef {
    GitHub(NodeRefGitHub),
    Indirect(NodeRefIndirect),
}

/// A source-control reference on GitHub.
#[derive(Debug, Clone, PartialEq)]
pub struct NodeRefGitHub {
    pub owner: String,
    pub reference: Option<String>,
    pub revision: Option<String>,
    pub repo: String,
}

/// A registry reference by opaque identifier.
#[derive(Debug, Clone, PartialEq)]
pub struct NodeRefIndirect {
    pub id: String,
}

/// An input: either the name of another node, or a "follows" path of input
/// names walked from the root node.
#[derive(Debug, Clone, PartialEq)]
pub enum NodeInput {
    Direct(String),
    Path(Vec<String>),
}

/// Index of the first entry at or after `i` whose key is `k`, or -1.
pub open spec fn key_position<V>(entries: Seq<(String, V)>, k: Seq<char>, i: int) -> int
    decreases entries.len() - i,
{
    if i < 0 || i >= entries.len() {
        -1
    } else if entries[i].0@ == k {
        i
    } else {
        key_position(entries, k, i + 1)
    }
}

/// A found position is in bounds and holds the key.
pub proof fn lemma_key_position_bounds<V>(entries: Seq<(String, V)>, k: Seq<char>, i: int)
    requires
        0 <= i,
    ensures
        key_position(entries, k, i) == -1 || (i <= key_position(entries, k, i) < entries.len()
            && entries[key_position(entries, k, i)].0@ == k),
    decreases entries.len() - i,
{
    if i < entries.len() && entries[i].0@ != k {
        lemma_key_position_bounds(entries, k, i + 1);
    }
}

/// When no position is found, no entry from `i` on holds the key.
pub proof fn lemma_key_absent<V>(entries: Seq<(String, V)>, k: Seq<char>, i: int)
    requires
        0 <= i,
        key_position(entries, k, i) == -1,
    ensures
        forall|j: int| i <= j < entries.len() ==> (#[trigger] entries[j]).0@ != k,
    decreases entries.len() - i,
{
    if i < entries.len() {
        lemma_key_absent(entries, k, i + 1);
    }
}

/// The views of a list of names.
pub open spec fn names_view(names: Seq<String>) -> Seq<Seq<char>> {
    names.map_values(|s: String| s@)
}

/// Finds the first entry whose key is `k`.
pub fn find_key<V>(entries: &Vec<(String, V)>, k: &String) -> (r: Option<usize>)
    ensures
        match r {
            Some(i) => i as int == key_position(entries@, k@, 0) && i < entries.len(),
            None => key_position(entries@, k@, 0) == -1,
        },
{
    let mut i: usize = 0;
    while i < entries.len()
        invariant
            i <= entries.len(),
            key_position(entries@, k@, 0) == key_position(entries@, k@, i as int),
        decreases entries.len() - i,
    {
        if entries[i].0 == *k {
            return Some(i);
        }
        i = i + 1;
    }
    None
}

/// No two entries share a key, as in the document's maps.
pub open spec fn keys_unique<V>(entries: Seq<(String, V)>) -> bool {
    forall|a: int, b: int|
        0 <= a < b < entries.len() ==> (#[trigger] entries[a]).0@ != (#[trigger] entries[b]).0@
}

/// Node names are unique, and input names are unique within each node.
pub open spec fn well_formed(lock: FlakeLock) -> bool {
    &&& keys_unique(lock.nodes@)
    &&& forall|i: int| 0 <= i < lock.nodes@.len() ==> keys_unique(#[trigger] lock.nodes@[i].1.inputs@)
}

/// The first position of a key comes at or before any entry that holds it.
pub proof fn lemma_key_position_first<V>(entries: Seq<(String, V)>, k: Seq<char>, i: int, j: int)
    requires
        0 <= i <= j < entries.len(),
        entries[j].0@ == k,
    ensures
        i <= key_position(entries, k, i) <= j,
    decreases j - i,
{
    if entries[i].0@ != k {
        lemma_key_position_first(entries, k, i + 1, j);
    }
}

/// Whether no two entries share a key.
pub fn has_unique_keys<V>(entries: &Vec<(String, V)>) -> (r: bool)
    ensures
        r == keys_unique(entries@),
{
    let mut j: usize = 0;
    while j < entries.len()
        invariant
            j <= entries.len(),
            keys_unique(entries@.take(j as int)),
        decreases entries.len() - j,
    {
        let p = find_key(entries, &entries[j].0);
        if p != Some(j) {
            proof {
                lemma_key_position_first(entries@, entries@[j as int].0@, 0, j as int);
                lemma_key_position_bounds(entries@, entries@[j as int].0@, 0);
                let q = key_position(entries@, entries@[j as int].0@, 0);
                assert(q < j);
                assert(entries@[q].0@ == entries@[j as int].0@);
            }
            return false;
        }
        proof {
            assert forall|a: int, b: int|
                0 <= a < b < j + 1 implies (#[trigger] entries@.take(j + 1)[a]).0@
                    != (#[trigger] entries@.take(j + 1)[b]).0@ by {
                if b == j {
                    if entries@[a].0@ == entries@[b].0@ {
                        lemma_key_position_first(entries@, entries@[a].0@, 0, a);
                    }
                } else {
                    assert(entries@.take(j as int)[a] == entries@[a]);
                    assert(entries@.take(j as int)[b] == entries@[b]);
                }
            }
        }
        j = j + 1;
    }
    assert(entries@.take(j as int) =~= entries@);
    true
}

/// Whether node names are unique, and input names unique within each node.
pub fn is_well_formed(lock: &FlakeLock) -> (r: bool)
    ensures
        r == well_formed(*lock),
{
    if !has_unique_keys(&lock.nodes) {
        return false;
    }
    let mut i: usize = 0;
    while i < lock.nodes.len()
        invariant
            i <= lock.nodes.len(),
            forall|x: int| 0 <= x < i ==> keys_unique(#[trigger] lock.nodes@[x].1.inputs@),
        decreases lock.nodes.len() - i,
    {
        if !has_unique_keys(&lock.nodes[i].1.inputs) {
            return false;
        }
        i = i + 1;
    }
    true
}

/// A copy of a reference, equal to it.
pub fn copy_ref(r: &NodeRef) -> (c: NodeRef)
    ensures
        c == *r,
{
    match r {
        NodeRef::GitHub(g) => NodeRef::GitHub(
            NodeRefGitHub {
                owner: g.owner.clone(),
                reference: copy_opt_string(&g.reference),
                revision: copy_opt_string(&g.revision),
                repo: g.repo.clone(),
            },
        ),
        NodeRef::Indirect(i) => NodeRef::Indirect(NodeRefIndirect { id: i.id.clone() }),
    }
}

fn copy_opt_string(s: &Option<String>) -> (c: Option<String>)
    ensures
        c == *s,
{
    match s {
        Some(v) => Some(v.clone()),
        None => None,
    }
}

/// A copy of an optional reference, equal to it.
pub fn copy_opt_ref(r: &Option<NodeRef>) -> (c: Option<NodeRef>)
    ensures
        c == *r,
{
    match r {
        Some(v) => Some(copy_ref(v)),
        None => None,
    }
}

/// A copy of an optional pinned reference, equal to it.
pub fn copy_opt_lock(l: &Option<NodeLock>) -> (c: Option<NodeLock>)
    ensures
        c == *l,
{
    match l {
        Some(v) => Some(
            NodeLock {
                last_modified: v.last_modified,
                nar_hash: v.nar_hash.clone(),
                reference: copy_ref(&v.reference),
            },
        ),
        None => None,
    }
}

} // verus!
