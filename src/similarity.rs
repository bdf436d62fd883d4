//! Digests of pinned references, and the grouping of graph nodes that pin the
//! same source.

use vstd::prelude::*;
use vstd::string::*;

use crate::digraph::{graph_node_count, graph_node_weight, graph_nodes};
use crate::graph::{Node, NodeGraph};
use crate::lock::{find_key, lemma_key_absent, lemma_key_position_bounds, NodeRef};

verus! {

/// The escaped form of one character of an owner: '%' and '/' are
/// percent-encoded, every other character stands for itself.
pub open spec fn escape_char(c: char) -> Seq<char> {
    if c == '%' {
        "%25"@
    } else if c == '/' {
        "%2F"@
    } else {
        seq![c]
    }
}

/// An owner with '%' and '/' percent-encoded, so that it holds no '/'.
pub open spec fn escape_owner(s: Seq<char>) -> Seq<char>
    decreases s.len(),
{
    if s.len() == 0 {
        Seq::empty()
    } else {
        escape_char(s[0]) + escape_owner(s.drop_first())
    }
}

/// The identity of a reference: its kind with the fields that name its source.
/// A GitHub owner is escaped, so that the '/' after it is the first one.
pub open spec fn ref_digest(r: NodeRef) -> Seq<char> {
    match r {
        NodeRef::GitHub(g) => "github::"@ + escape_owner(g.owner@) + "/"@ + g.repo@,
        NodeRef::Indirect(i) => "indirect::"@ + i.id@,
    }
}

/// The digest of a node: that of its pinned reference, if it has one.
pub open spec fn digest_of(n: Node) -> Option<Seq<char>> {
    match n.locked {
        Some(l) => Some(ref_digest(l.reference)),
        None => None,
    }
}

/// The indices among the first `n` nodes whose digest is `d`, in order.
pub open spec fn digest_group(nodes: Seq<Node>, d: Seq<char>, n: int) -> Seq<int>
    decreases n,
{
    if n <= 0 {
        Seq::empty()
    } else if digest_of(nodes[n - 1]) == Some(d) {
        digest_group(nodes, d, n - 1).push(n - 1)
    } else {
        digest_group(nodes, d, n - 1)
    }
}

/// Pinned GitHub references with the same owner and repository have the same
/// digest, whatever their hashes, times, branches and revisions.
pub proof fn lemma_digest_stable(a: Node, b: Node)
    requires
        a.locked matches Some(la) && la.reference is GitHub,
        b.locked matches Some(lb) && lb.reference is GitHub,
        a.locked->0.reference->GitHub_0.owner@ == b.locked->0.reference->GitHub_0.owner@,
        a.locked->0.reference->GitHub_0.repo@ == b.locked->0.reference->GitHub_0.repo@,
    ensures
        digest_of(a) == digest_of(b),
{
}

proof fn lemma_escape_push(a: Seq<char>, c: char)
    ensures
        escape_owner(a.push(c)) == escape_owner(a) + escape_char(c),
    decreases a.len(),
{
    if a.len() == 0 {
        assert(a.push(c).drop_first() =~= Seq::<char>::empty());
        assert(a.push(c)[0] == c);
        assert(escape_owner(Seq::<char>::empty()) == Seq::<char>::empty());
        assert(escape_owner(a) == Seq::<char>::empty());
        assert(escape_owner(a.push(c)) =~= escape_char(c) + Seq::<char>::empty());
    } else {
        assert(a.push(c).drop_first() =~= a.drop_first().push(c));
        lemma_escape_push(a.drop_first(), c);
        assert(escape_owner(a.push(c)) =~= escape_owner(a) + escape_char(c));
    }
}

proof fn lemma_escape_no_slash(s: Seq<char>)
    ensures
        forall|k: int| 0 <= k < escape_owner(s).len() ==> escape_owner(s)[k] != '/',
    decreases s.len(),
{
    reveal_strlit("%25");
    reveal_strlit("%2F");
    if s.len() > 0 {
        lemma_escape_no_slash(s.drop_first());
        let e = escape_char(s[0]);
        let rest = escape_owner(s.drop_first());
        assert forall|k: int| 0 <= k < escape_owner(s).len() implies escape_owner(s)[k] != '/' by {
            if k < e.len() {
                assert(escape_owner(s)[k] == e[k]);
            } else {
                assert(escape_owner(s)[k] == rest[k - e.len()]);
            }
        }
    }
}

proof fn lemma_escape_injective(a: Seq<char>, b: Seq<char>)
    requires
        escape_owner(a) == escape_owner(b),
    ensures
        a == b,
    decreases a.len(),
{
    reveal_strlit("%25");
    reveal_strlit("%2F");
    if a.len() == 0 || b.len() == 0 {
        if a.len() != 0 {
            assert(escape_owner(a).len() > 0);
        }
        if b.len() != 0 {
            assert(escape_owner(b).len() > 0);
        }
        assert(a =~= b);
    } else {
        let (ea, eb) = (escape_char(a[0]), escape_char(b[0]));
        let (ra, rb) = (escape_owner(a.drop_first()), escape_owner(b.drop_first()));
        let x = escape_owner(a);
        assert(x == ea + ra);
        assert(x == eb + rb);
        assert(x[0] == ea[0] && x[0] == eb[0]);
        if ea.len() == 3 {
            assert(x[1] == ea[1] && x[2] == ea[2]);
        }
        if eb.len() == 3 {
            assert(x[1] == eb[1] && x[2] == eb[2]);
        }
        assert(a[0] == b[0]);
        assert(ra =~= x.subrange(ea.len() as int, x.len() as int));
        assert(rb =~= x.subrange(eb.len() as int, x.len() as int));
        lemma_escape_injective(a.drop_first(), b.drop_first());
        assert(a =~= seq![a[0]] + a.drop_first());
        assert(b =~= seq![b[0]] + b.drop_first());
    }
}

/// GitHub references that differ in owner or repository never share a digest.
pub proof fn lemma_digest_distinct(a: crate::lock::NodeRefGitHub, b: crate::lock::NodeRefGitHub)
    requires
        a.owner@ != b.owner@ || a.repo@ != b.repo@,
    ensures
        ref_digest(NodeRef::GitHub(a)) != ref_digest(NodeRef::GitHub(b)),
{
    reveal_strlit("/");
    lemma_escape_no_slash(a.owner@);
    lemma_escape_no_slash(b.owner@);
    let p = "github::"@;
    let (oa, ob, ra, rb) = (escape_owner(a.owner@), escape_owner(b.owner@), a.repo@, b.repo@);
    let (pl, oal, obl) = (p.len() as int, oa.len() as int, ob.len() as int);
    let da = p + oa + "/"@ + ra;
    let db = p + ob + "/"@ + rb;
    if da == db {
        if oal < obl {
            assert(da[pl + oal] == '/');
            assert(db[pl + oal] == ob[oal]);
        } else if obl < oal {
            assert(db[pl + obl] == '/');
            assert(da[pl + obl] == oa[obl]);
        } else {
            assert(oa =~= da.subrange(pl, pl + oal));
            assert(ob =~= db.subrange(pl, pl + obl));
            assert(ra =~= da.subrange(pl + oal + 1, da.len() as int));
            assert(rb =~= db.subrange(pl + obl + 1, db.len() as int));
            lemma_escape_injective(a.owner@, b.owner@);
        }
    }
}

/// Writes an owner with '%' and '/' percent-encoded.
pub fn escape_owner_string(owner: &String) -> (r: String)
    ensures
        r@ == escape_owner(owner@),
{
    let s = owner.as_str();
    let n: usize = s.unicode_len();
    let mut out = String::new();
    let mut i: usize = 0;
    while i < n
        invariant
            i <= n,
            n == owner@.len(),
            s@ == owner@,
            out@ == escape_owner(owner@.take(i as int)),
        decreases n - i,
    {
        proof {
            reveal_strlit("%25");
            reveal_strlit("%2F");
            lemma_escape_push(owner@.take(i as int), owner@[i as int]);
            assert(owner@.take(i + 1) =~= owner@.take(i as int).push(owner@[i as int]));
        }
        let c = s.get_char(i);
        if c == '%' {
            out.append("%25");
        } else if c == '/' {
            out.append("%2F");
        } else {
            let one = s.substring_char(i, i + 1);
            assert(one@ =~= seq![c]);
            out.append(one);
        }
        i = i + 1;
    }
    assert(owner@.take(n as int) =~= owner@);
    out
}

proof fn lemma_group_two(nodes: Seq<Node>, d: Seq<char>, i: int, j: int, n: int)
    requires
        0 <= i < j < nodes.len(),
        0 <= n <= nodes.len(),
        digest_of(nodes[i]) == Some(d),
        digest_of(nodes[j]) == Some(d),
        forall|x: int|
            0 <= x < nodes.len() && x != i && x != j ==> digest_of(#[trigger] nodes[x]) != Some(d),
    ensures
        digest_group(nodes, d, n) == (if n > i {
            seq![i]
        } else {
            Seq::<int>::empty()
        }) + (if n > j {
            seq![j]
        } else {
            Seq::<int>::empty()
        }),
    decreases n,
{
    if n > 0 {
        lemma_group_two(nodes, d, i, j, n - 1);
        assert(digest_group(nodes, d, n) =~= (if n > i {
            seq![i]
        } else {
            Seq::<int>::empty()
        }) + (if n > j {
            seq![j]
        } else {
            Seq::<int>::empty()
        }));
    } else {
        assert(digest_group(nodes, d, n) =~= Seq::<int>::empty() + Seq::<int>::empty());
    }
}

/// Two nodes, and no others, that share a digest form one group of exactly
/// those two indices.
pub proof fn lemma_two_duplicates(nodes: Seq<Node>, d: Seq<char>, i: int, j: int)
    requires
        0 <= i < j < nodes.len(),
        digest_of(nodes[i]) == Some(d),
        digest_of(nodes[j]) == Some(d),
        forall|x: int|
            0 <= x < nodes.len() && x != i && x != j ==> digest_of(#[trigger] nodes[x]) != Some(d),
    ensures
        digest_group(nodes, d, nodes.len() as int) == seq![i, j],
{
    lemma_group_two(nodes, d, i, j, nodes.len() as int);
    assert(seq![i] + seq![j] =~= seq![i, j]);
}

/// When no two nodes share a digest, every group has at most one node, so no
/// node is marked as a duplicate.
pub proof fn lemma_distinct_digests(nodes: Seq<Node>, d: Seq<char>, n: int)
    requires
        0 <= n <= nodes.len(),
        forall|a: int, b: int|
            0 <= a < b < nodes.len() && (#[trigger] digest_of(nodes[a])) is Some ==> digest_of(
                nodes[a],
            ) != #[trigger] digest_of(nodes[b]),
    ensures
        digest_group(nodes, d, n).len() <= 1,
        digest_group(nodes, d, n).len() == 1 ==> 0 <= digest_group(nodes, d, n)[0] < n
            && digest_of(nodes[digest_group(nodes, d, n)[0]]) == Some(d),
    decreases n,
{
    if n > 0 {
        lemma_distinct_digests(nodes, d, n - 1);
        if digest_of(nodes[n - 1]) == Some(d) && digest_group(nodes, d, n - 1).len() == 1 {
            let x = digest_group(nodes, d, n - 1)[0];
            assert(digest_of(nodes[x]) != digest_of(nodes[n - 1]));
        }
    }
}

impl Node {
    /// The digest of the node's pinned reference, if it has one.
    pub fn digest(&self) -> (r: Option<String>)
        ensures
            match r {
                Some(d) => digest_of(*self) == Some(d@),
                None => digest_of(*self) is None,
            },
    {
        match &self.locked {
            Some(locked) => Some(
                match &locked.reference {
                    NodeRef::GitHub(github) => {
                        let mut d = String::from_str("github::");
                        let owner = escape_owner_string(&github.owner);
                        d.append(owner.as_str());
                        d.append("/");
                        d.append(github.repo.as_str());
                        d
                    },
                    NodeRef::Indirect(indirect) => {
                        let mut d = String::from_str("indirect::");
                        d.append(indirect.id.as_str());
                        d
                    },
                },
            ),
            None => None,
        }
    }
}

proof fn lemma_group_empty(nodes: Seq<Node>, d: Seq<char>, n: int)
    requires
        forall|j: int| 0 <= j < n ==> digest_of(#[trigger] nodes[j]) != Some(d),
    ensures
        digest_group(nodes, d, n) == Seq::<int>::empty(),
    decreases n,
{
    if n > 0 {
        lemma_group_empty(nodes, d, n - 1);
    }
}

/// The view of a list of node indices.
pub open spec fn indices_view(v: Seq<usize>) -> Seq<int> {
    v.map_values(|x: usize| x as int)
}

impl NodeGraph {
    /// Groups the graph's nodes by digest: one entry per digest that some node
    /// has, holding the indices of all nodes with that digest in order. Nodes
    /// with no pinned reference are left out.
    pub fn similarity_map(&self) -> (r: Vec<(String, Vec<usize>)>)
        ensures
            forall|k: int|
                0 <= k < r.len() ==> indices_view(#[trigger] r@[k].1@) == digest_group(
                    graph_nodes(self.graph),
                    r@[k].0@,
                    graph_nodes(self.graph).len() as int,
                ) && r@[k].1.len() > 0,
            forall|k1: int, k2: int|
                0 <= k1 < k2 < r.len() ==> (#[trigger] r@[k1]).0@ != (#[trigger] r@[k2]).0@,
            forall|j: int|
                0 <= j < graph_nodes(self.graph).len() && (#[trigger] digest_of(
                    graph_nodes(self.graph)[j],
                )) is Some ==> exists|k: int|
                    0 <= k < r.len() && (#[trigger] r@[k]).0@ == digest_of(
                        graph_nodes(self.graph)[j],
                    )->0,
    {
        let ghost nodes = graph_nodes(self.graph);
        let count: usize = graph_node_count(&self.graph);
        let mut map: Vec<(String, Vec<usize>)> = Vec::new();
        let mut idx: usize = 0;
        while idx < count
            invariant
                idx <= count,
                count == nodes.len(),
                count <= u32::MAX,
                nodes == graph_nodes(self.graph),
                forall|k: int|
                    0 <= k < map.len() ==> indices_view(#[trigger] map@[k].1@) == digest_group(
                        nodes,
                        map@[k].0@,
                        idx as int,
                    ) && map@[k].1.len() > 0,
                forall|k1: int, k2: int|
                    0 <= k1 < k2 < map.len() ==> (#[trigger] map@[k1]).0@ != (#[trigger] map@[k2]).0@,
                forall|j: int|
                    0 <= j < idx && (#[trigger] digest_of(nodes[j])) is Some ==> exists|k: int|
                        0 <= k < map.len() && (#[trigger] map@[k]).0@ == digest_of(nodes[j])->0,
            decreases count - idx,
        {
            let ghost old_map = map@;
            let w = graph_node_weight(&self.graph, idx);
            let d = match w {
                Some(w) => w.digest(),
                None => None,
            };
            match d {
                Some(d) => {
                    proof {
                        lemma_key_position_bounds(map@, d@, 0);
                    }
                    match find_key(&map, &d) {
                        Some(k) => {
                            let mut entry: (String, Vec<usize>) = (String::new(), Vec::new());
                            map.set_and_swap(k, &mut entry);
                            entry.1.push(idx);
                            map.set_and_swap(k, &mut entry);
                            assert forall|k2: int| 0 <= k2 < map.len() implies indices_view(
                                #[trigger] map@[k2].1@,
                            ) == digest_group(nodes, map@[k2].0@, idx + 1) && map@[k2].1.len()
                                > 0 by {
                                if k2 == k {
                                    assert(indices_view(map@[k2].1@) =~= indices_view(
                                        old_map[k2].1@,
                                    ).push(idx as int));
                                } else {
                                    assert(map@[k2] == old_map[k2]);
                                }
                            }
                            assert forall|j: int|
                                0 <= j < idx + 1 && (#[trigger] digest_of(
                                    nodes[j],
                                )) is Some implies exists|k3: int|
                                0 <= k3 < map.len() && (#[trigger] map@[k3]).0@ == digest_of(
                                    nodes[j],
                                )->0 by {
                                if j < idx {
                                    let k3 = choose|k3: int|
                                        0 <= k3 < old_map.len() && (#[trigger] old_map[k3]).0@
                                            == digest_of(nodes[j])->0;
                                    assert(map@[k3].0@ == old_map[k3].0@);
                                } else {
                                    assert(map@[k as int].0@ == d@);
                                }
                            }
                        },
                        None => {
                            proof {
                                lemma_key_absent(map@, d@, 0);
                                assert forall|j: int| 0 <= j < idx implies digest_of(
                                    #[trigger] nodes[j],
                                ) != Some(d@) by {
                                    if digest_of(nodes[j]) == Some(d@) {
                                        let k3 = choose|k3: int|
                                            0 <= k3 < old_map.len() && (#[trigger] old_map[k3]).0@
                                                == digest_of(nodes[j])->0;
                                    }
                                }
                                lemma_group_empty(nodes, d@, idx as int);
                            }
                            let ghost dv = d@;
                            map.push((d, vec![idx]));
                            assert forall|k2: int| 0 <= k2 < map.len() implies indices_view(
                                #[trigger] map@[k2].1@,
                            ) == digest_group(nodes, map@[k2].0@, idx + 1) && map@[k2].1.len()
                                > 0 by {
                                if k2 == old_map.len() {
                                    assert(indices_view(map@[k2].1@) =~= seq![idx as int]);
                                    assert(digest_group(nodes, dv, idx as int) == Seq::<
                                        int,
                                    >::empty());
                                } else {
                                    assert(map@[k2] == old_map[k2]);
                                }
                            }
                            assert forall|j: int|
                                0 <= j < idx + 1 && (#[trigger] digest_of(
                                    nodes[j],
                                )) is Some implies exists|k3: int|
                                0 <= k3 < map.len() && (#[trigger] map@[k3]).0@ == digest_of(
                                    nodes[j],
                                )->0 by {
                                if j < idx {
                                    let k3 = choose|k3: int|
                                        0 <= k3 < old_map.len() && (#[trigger] old_map[k3]).0@
                                            == digest_of(nodes[j])->0;
                                    assert(map@[k3] == old_map[k3]);
                                } else {
                                    assert(map@[old_map.len() as int].0@ == dv);
                                }
                            }
                        },
                    }
                },
                None => {
                    assert forall|k2: int| 0 <= k2 < map.len() implies indices_view(
                        #[trigger] map@[k2].1@,
                    ) == digest_group(nodes, map@[k2].0@, idx + 1) by {}
                },
            }
            idx = idx + 1;
        }
        map
    }
}

} // verus!
