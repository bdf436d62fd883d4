//! The resolved graph of a lock document: one graph node per document node, one
//! edge per declared input, labelled with the input's name.

use vstd::prelude::*;

use crate::digraph::{
    graph_add_edge, graph_add_node, graph_edges, graph_new, graph_nodes, LockDiGraph,
};
use crate::lock::{
    copy_opt_lock, copy_opt_ref, find_key, well_formed, key_position, lemma_key_position_bounds, names_view,
    FlakeLock, NodeInput, NodeLock, NodeRef,
};

verus! {

/// A node of the resolved graph.
#[derive(Debug, Clone, PartialEq)]
pub struct Node {
    pub name: String,
    pub original: Option<NodeRef>,
    pub locked: Option<NodeLock>,
}

/// A resolved lock document. Node `i` of `graph` stands for entry `i` of the
/// document's nodes; `root` is the index of the root node.
pub struct NodeGraph {
    pub graph: LockDiGraph,
    pub root: usize,
    pub version: u8,
}

/// Why a follows path could not be walked.
#[derive(Debug, Clone, PartialEq)]
pub enum FollowError {
    /// A node reached, or named as a target, is not in the document.
    Dangling(String),
    /// A step names no input of the node reached so far.
    Broken(String),
    /// A path with no step.
    Empty,
    /// Paths that follow each other deeper than the document has nodes.
    Cyclic,
}

/// The mathematical value of a [`FollowError`].
pub enum FollowFault {
    Dangling(Seq<char>),
    Broken(Seq<char>),
    Empty,
    Cyclic,
}

impl View for FollowError {
    type V = FollowFault;

    open spec fn view(&self) -> FollowFault {
        match self {
            FollowError::Dangling(n) => FollowFault::Dangling(n@),
            FollowError::Broken(s) => FollowFault::Broken(s@),
            FollowError::Empty => FollowFault::Empty,
            FollowError::Cyclic => FollowFault::Cyclic,
        }
    }
}

/// Why a lock document could not be resolved into a graph. Each variant names
/// the node and the input where resolution failed.
#[derive(Debug, Clone, PartialEq)]
pub enum GraphError {
    MissingRoot { root: String },
    DanglingReference { node: String, input: String, target: String },
    BrokenFollowsPath { node: String, input: String, step: String },
    EmptyPath { node: String, input: String },
    CyclicFollowsPath { node: String, input: String },
}

/// The mathematical value of a [`GraphError`].
pub enum GraphFault {
    MissingRoot(Seq<char>),
    DanglingReference(Seq<char>, Seq<char>, Seq<char>),
    BrokenFollowsPath(Seq<char>, Seq<char>, Seq<char>),
    EmptyPath(Seq<char>, Seq<char>),
    CyclicFollowsPath(Seq<char>, Seq<char>),
}

impl View for GraphError {
    type V = GraphFault;

    open spec fn view(&self) -> GraphFault {
        match self {
            GraphError::MissingRoot { root } => GraphFault::MissingRoot(root@),
            GraphError::DanglingReference { node, input, target } => GraphFault::DanglingReference(
                node@,
                input@,
                target@,
            ),
            GraphError::BrokenFollowsPath { node, input, step } => GraphFault::BrokenFollowsPath(
                node@,
                input@,
                step@,
            ),
            GraphError::EmptyPath { node, input } => GraphFault::EmptyPath(node@, input@),
            GraphError::CyclicFollowsPath { node, input } => GraphFault::CyclicFollowsPath(
                node@,
                input@,
            ),
        }
    }
}

/// The mathematical value of the outcome of a walk.
pub open spec fn follow_view(r: Result<String, FollowError>) -> Result<Seq<char>, FollowFault> {
    match r {
        Ok(n) => Ok(n@),
        Err(e) => Err(e@),
    }
}

/// Walks `steps` from the node named `cur`: each step is an input name of the
/// node reached so far, and leads to that input's target. A follows input met
/// on the way is walked from the root first, with one unit of `fuel` less.
pub open spec fn walk(lock: FlakeLock, cur: Seq<char>, steps: Seq<Seq<char>>, fuel: nat) -> Result<
    Seq<char>,
    FollowFault,
>
    decreases fuel, steps.len(),
{
    if steps.len() == 0 {
        Ok(cur)
    } else {
        let ni = key_position(lock.nodes@, cur, 0);
        if ni < 0 {
            Err(FollowFault::Dangling(cur))
        } else {
            let inputs = lock.nodes@[ni].1.inputs@;
            let ii = key_position(inputs, steps[0], 0);
            if ii < 0 {
                Err(FollowFault::Broken(steps[0]))
            } else {
                match inputs[ii].1 {
                    NodeInput::Direct(n) => walk(lock, n@, steps.drop_first(), fuel),
                    NodeInput::Path(p) => {
                        if p.len() == 0 {
                            Err(FollowFault::Empty)
                        } else if fuel == 0 {
                            Err(FollowFault::Cyclic)
                        } else {
                            match walk(lock, lock.root@, names_view(p@), (fuel - 1) as nat) {
                                Ok(n) => walk(lock, n, steps.drop_first(), fuel),
                                Err(e) => Err(e),
                            }
                        }
                    },
                }
            }
        }
    }
}

/// The name a follows path leads to, walked from the root; nested follows
/// paths may go as deep as the document has nodes.
pub open spec fn follow_path(lock: FlakeLock, path: Seq<Seq<char>>) -> Result<Seq<char>, FollowFault> {
    if path.len() == 0 {
        Err(FollowFault::Empty)
    } else {
        walk(lock, lock.root@, path, lock.nodes@.len())
    }
}

/// The index of the node that an input leads to.
pub open spec fn input_target(lock: FlakeLock, input: NodeInput) -> Result<int, FollowFault> {
    let name = match input {
        NodeInput::Direct(n) => Ok(n@),
        NodeInput::Path(p) => follow_path(lock, names_view(p@)),
    };
    match name {
        Ok(n) => {
            let i = key_position(lock.nodes@, n, 0);
            if i < 0 {
                Err(FollowFault::Dangling(n))
            } else {
                Ok(i)
            }
        },
        Err(e) => Err(e),
    }
}

/// The error for a failure on input `input` of node `node`.
pub open spec fn input_fault(node: Seq<char>, input: Seq<char>, f: FollowFault) -> GraphFault {
    match f {
        FollowFault::Dangling(t) => GraphFault::DanglingReference(node, input, t),
        FollowFault::Broken(s) => GraphFault::BrokenFollowsPath(node, input, s),
        FollowFault::Empty => GraphFault::EmptyPath(node, input),
        FollowFault::Cyclic => GraphFault::CyclicFollowsPath(node, input),
    }
}

/// The edges of the first `k` inputs of node `i`, or the first failure among them.
pub open spec fn node_edges(lock: FlakeLock, i: int, k: int) -> Result<
    Seq<(int, int, Seq<char>)>,
    GraphFault,
>
    decreases k,
{
    if k <= 0 {
        Ok(Seq::empty())
    } else {
        match node_edges(lock, i, k - 1) {
            Ok(es) => {
                let entry = lock.nodes@[i];
                let input = entry.1.inputs@[k - 1];
                match input_target(lock, input.1) {
                    Ok(t) => Ok(es.push((i, t, input.0@))),
                    Err(f) => Err(input_fault(entry.0@, input.0@, f)),
                }
            },
            Err(e) => Err(e),
        }
    }
}

/// The edges of all inputs of node `i`.
pub open spec fn all_node_edges(lock: FlakeLock, i: int) -> Result<
    Seq<(int, int, Seq<char>)>,
    GraphFault,
> {
    node_edges(lock, i, lock.nodes@[i].1.inputs@.len() as int)
}

/// The edges of the first `n` nodes, node after node, or the first failure.
pub open spec fn lock_edges(lock: FlakeLock, n: int) -> Result<
    Seq<(int, int, Seq<char>)>,
    GraphFault,
>
    decreases n,
{
    if n <= 0 {
        Ok(Seq::empty())
    } else {
        match lock_edges(lock, n - 1) {
            Ok(es) => match all_node_edges(lock, n - 1) {
                Ok(more) => Ok(es + more),
                Err(e) => Err(e),
            },
            Err(e) => Err(e),
        }
    }
}

/// The edges of the resolved graph of a document, or why there is none.
pub open spec fn resolve(lock: FlakeLock) -> Result<Seq<(int, int, Seq<char>)>, GraphFault> {
    if key_position(lock.nodes@, lock.root@, 0) < 0 {
        Err(GraphFault::MissingRoot(lock.root@))
    } else {
        lock_edges(lock, lock.nodes@.len() as int)
    }
}

/// The graph node that stands for a document entry.
pub open spec fn graph_node_of(entry: (String, crate::lock::Node)) -> Node {
    Node { name: entry.0, original: entry.1.original, locked: entry.1.locked }
}

/// The number of inputs over all nodes.
pub open spec fn total_inputs(nodes: Seq<(String, crate::lock::Node)>) -> nat
    decreases nodes.len(),
{
    if nodes.len() == 0 {
        0
    } else {
        total_inputs(nodes.drop_last()) + nodes.last().1.inputs@.len()
    }
}

/// What processing node `i` does to the edges and the visited marks: nothing
/// when it is marked, else its edges are appended and it is marked.
pub open spec fn process_spec(
    lock: FlakeLock,
    i: int,
    edges: Seq<(int, int, Seq<char>)>,
    visited: Seq<bool>,
) -> Result<(Seq<(int, int, Seq<char>)>, Seq<bool>), GraphFault> {
    if visited[i] {
        Ok((edges, visited))
    } else {
        match all_node_edges(lock, i) {
            Ok(es) => Ok((edges + es, visited.update(i, true))),
            Err(e) => Err(e),
        }
    }
}

fn walk_steps(lock: &FlakeLock, start: &String, steps: &Vec<String>, fuel: usize) -> (r: Result<
    String,
    FollowError,
>)
    ensures
        follow_view(r) == walk(*lock, start@, names_view(steps@), fuel as nat),
    decreases fuel,
{
    let ghost all = names_view(steps@);
    let mut cur = start.clone();
    let mut k: usize = 0;
    assert(all.skip(0) =~= all);
    while k < steps.len()
        invariant
            k <= steps.len(),
            all == names_view(steps@),
            walk(*lock, start@, all, fuel as nat) == walk(*lock, cur@, all.skip(k as int), fuel as nat),
        decreases steps.len() - k,
    {
        let ghost rest = all.skip(k as int);
        assert(rest.len() > 0 && rest[0] == steps@[k as int]@);
        assert(rest.drop_first() =~= all.skip(k + 1));
        let ni = match find_key(&lock.nodes, &cur) {
            Some(ni) => ni,
            None => {
                return Err(FollowError::Dangling(cur));
            },
        };
        let inputs = &lock.nodes[ni].1.inputs;
        let ii = match find_key(inputs, &steps[k]) {
            Some(ii) => ii,
            None => {
                return Err(FollowError::Broken(steps[k].clone()));
            },
        };
        match &inputs[ii].1 {
            NodeInput::Direct(n) => {
                cur = n.clone();
            },
            NodeInput::Path(p) => {
                if p.len() == 0 {
                    return Err(FollowError::Empty);
                }
                if fuel == 0 {
                    return Err(FollowError::Cyclic);
                }
                match walk_steps(lock, &lock.root, p, fuel - 1) {
                    Ok(n) => {
                        cur = n;
                    },
                    Err(e) => {
                        return Err(e);
                    },
                }
            },
        }
        k = k + 1;
    }
    assert(all.skip(k as int) =~= Seq::<Seq<char>>::empty());
    Ok(cur)
}

/// Walks a follows path from the root of the document to the name of the node
/// it leads to.
pub fn traverse_path(path: &Vec<String>, flake_lock: &FlakeLock) -> (r: Result<String, FollowError>)
    ensures
        follow_view(r) == follow_path(*flake_lock, names_view(path@)),
{
    if path.len() == 0 {
        return Err(FollowError::Empty);
    }
    walk_steps(flake_lock, &flake_lock.root, path, flake_lock.nodes.len())
}

/// Resolves an input to the index of the document entry it leads to.
pub fn resolve_input(flake_lock: &FlakeLock, input: &NodeInput) -> (r: Result<usize, FollowError>)
    ensures
        match r {
            Ok(i) => input_target(*flake_lock, *input) == Ok::<int, FollowFault>(i as int) && i
                < flake_lock.nodes.len(),
            Err(e) => input_target(*flake_lock, *input) == Err::<int, FollowFault>(e@),
        },
{
    let name = match input {
        NodeInput::Direct(n) => n.clone(),
        NodeInput::Path(p) => match traverse_path(p, flake_lock) {
            Ok(n) => n,
            Err(e) => {
                return Err(e);
            },
        },
    };
    proof {
        lemma_key_position_bounds(flake_lock.nodes@, name@, 0);
    }
    match find_key(&flake_lock.nodes, &name) {
        Some(i) => Ok(i),
        None => Err(FollowError::Dangling(name)),
    }
}

fn input_error(node: &String, input: &String, e: FollowError) -> (r: GraphError)
    ensures
        r@ == input_fault(node@, input@, e@),
{
    match e {
        FollowError::Dangling(t) => GraphError::DanglingReference {
            node: node.clone(),
            input: input.clone(),
            target: t,
        },
        FollowError::Broken(s) => GraphError::BrokenFollowsPath {
            node: node.clone(),
            input: input.clone(),
            step: s,
        },
        FollowError::Empty => GraphError::EmptyPath { node: node.clone(), input: input.clone() },
        FollowError::Cyclic => GraphError::CyclicFollowsPath {
            node: node.clone(),
            input: input.clone(),
        },
    }
}

proof fn lemma_node_edges_len(lock: FlakeLock, i: int, k: int)
    requires
        0 <= k,
        node_edges(lock, i, k) is Ok,
    ensures
        node_edges(lock, i, k)->Ok_0.len() == k,
    decreases k,
{
    if k > 0 {
        lemma_node_edges_len(lock, i, k - 1);
    }
}

proof fn lemma_node_edges_err(lock: FlakeLock, i: int, k: int, m: int)
    requires
        0 <= k <= m,
        node_edges(lock, i, k) is Err,
    ensures
        node_edges(lock, i, m) == node_edges(lock, i, k),
    decreases m - k,
{
    if m > k {
        lemma_node_edges_err(lock, i, k, m - 1);
    }
}

proof fn lemma_lock_edges_len(lock: FlakeLock, n: int)
    requires
        0 <= n <= lock.nodes@.len(),
        lock_edges(lock, n) is Ok,
    ensures
        lock_edges(lock, n)->Ok_0.len() == total_inputs(lock.nodes@.take(n)),
    decreases n,
{
    if n > 0 {
        lemma_lock_edges_len(lock, n - 1);
        lemma_node_edges_len(lock, n - 1, lock.nodes@[n - 1].1.inputs@.len() as int);
        assert(lock.nodes@.take(n).drop_last() =~= lock.nodes@.take(n - 1));
    } else {
        assert(lock.nodes@.take(n) =~= Seq::<(String, crate::lock::Node)>::empty());
    }
}

proof fn lemma_total_prefix(nodes: Seq<(String, crate::lock::Node)>, i: int)
    requires
        0 <= i <= nodes.len(),
    ensures
        total_inputs(nodes.take(i)) <= total_inputs(nodes),
    decreases nodes.len() - i,
{
    if i == nodes.len() {
        assert(nodes.take(i) =~= nodes);
    } else {
        lemma_total_prefix(nodes, i + 1);
        assert(nodes.take(i + 1).drop_last() =~= nodes.take(i));
    }
}

/// Adds the edges of node `i`, unless `visited` marks it as done already, and
/// marks it.
pub fn process_node_inputs(
    flake_lock: &FlakeLock,
    i: usize,
    graph: &mut LockDiGraph,
    visited: &mut Vec<bool>,
) -> (r: Result<(), GraphError>)
    requires
        i < flake_lock.nodes.len(),
        old(visited).len() == flake_lock.nodes.len(),
        graph_nodes(*old(graph)).len() == flake_lock.nodes.len(),
        flake_lock.nodes.len() < u32::MAX,
        !old(visited)@[i as int] ==> graph_edges(*old(graph)).len()
            + flake_lock.nodes@[i as int].1.inputs.len() < u32::MAX,
    ensures
        graph_nodes(*final(graph)) == graph_nodes(*old(graph)),
        match process_spec(*flake_lock, i as int, graph_edges(*old(graph)), old(visited)@) {
            Ok(s) => r is Ok && graph_edges(*final(graph)) == s.0 && final(visited)@ == s.1,
            Err(f) => r matches Err(e) && e@ == f && graph_edges(*final(graph)) == graph_edges(
                *old(graph),
            ) && final(visited)@ == old(visited)@,
        },
{
    if visited[i] {
        return Ok(());
    }
    let entry = &flake_lock.nodes[i];
    let inputs = &entry.1.inputs;
    let mut targets: Vec<usize> = Vec::new();
    let mut k: usize = 0;
    assert(Seq::new(0, |x: int| (i as int, targets@[x] as int, inputs@[x].0@)) =~= Seq::<
        (int, int, Seq<char>),
    >::empty());
    while k < inputs.len()
        invariant
            k <= inputs.len(),
            *graph == *old(graph),
            visited@ == old(visited)@,
            !visited@[i as int],
            i < flake_lock.nodes.len(),
            *entry == flake_lock.nodes@[i as int],
            inputs == flake_lock.nodes@[i as int].1.inputs,
            targets.len() == k,
            forall|x: int| 0 <= x < k ==> #[trigger] targets@[x] < flake_lock.nodes.len(),
            node_edges(*flake_lock, i as int, k as int) == Ok::<
                Seq<(int, int, Seq<char>)>,
                GraphFault,
            >(Seq::new(k as nat, |x: int| (i as int, targets@[x] as int, inputs@[x].0@))),
        decreases inputs.len() - k,
    {
        let input = &inputs[k];
        let ghost prev = Seq::new(k as nat, |x: int| (i as int, targets@[x] as int, inputs@[x].0@));
        match resolve_input(flake_lock, &input.1) {
            Ok(t) => {
                targets.push(t);
                assert(prev.push(
                    (i as int, t as int, input.0@),
                ) =~= Seq::new((k + 1) as nat, |x: int| (i as int, targets@[x] as int, inputs@[x].0@)));
            },
            Err(e) => {
                assert(node_edges(*flake_lock, i as int, k + 1) == Err::<
                    Seq<(int, int, Seq<char>)>,
                    GraphFault,
                >(input_fault(entry.0@, input.0@, e@)));
                proof {
                    lemma_node_edges_err(*flake_lock, i as int, k + 1, inputs.len() as int);
                }
                return Err(input_error(&entry.0, &input.0, e));
            },
        }
        k = k + 1;
    }
    let ghost es = Seq::new(inputs.len() as nat, |x: int| (i as int, targets@[x] as int, inputs@[x].0@));
    let ghost old_edges = graph_edges(*graph);
    let ghost old_nodes = graph_nodes(*graph);
    let mut m: usize = 0;
    while m < inputs.len()
        invariant
            m <= inputs.len(),
            i < flake_lock.nodes.len(),
            inputs == flake_lock.nodes@[i as int].1.inputs,
            targets.len() == inputs.len(),
            forall|x: int| 0 <= x < inputs.len() ==> #[trigger] targets@[x] < flake_lock.nodes.len(),
            es == Seq::new(inputs.len() as nat, |x: int| (i as int, targets@[x] as int, inputs@[x].0@)),
            flake_lock.nodes.len() < u32::MAX,
            graph_nodes(*graph) == old_nodes,
            old_nodes.len() == flake_lock.nodes.len(),
            old_edges.len() + inputs.len() < u32::MAX,
            graph_edges(*graph) == old_edges + es.take(m as int),
        decreases inputs.len() - m,
    {
        graph_add_edge(graph, i, targets[m], inputs[m].0.clone());
        assert(es.take(m + 1) =~= es.take(m as int).push(es[m as int]));
        assert(graph_edges(*graph) =~= old_edges + es.take(m + 1));
        m = m + 1;
    }
    assert(es.take(inputs.len() as int) =~= es);
    visited.set(i, true);
    Ok(())
}

/// Processing a node a second time changes nothing: once its edges are added
/// it is marked, and a marked node is skipped.
pub proof fn lemma_process_idempotent(
    lock: FlakeLock,
    i: int,
    edges: Seq<(int, int, Seq<char>)>,
    visited: Seq<bool>,
)
    requires
        0 <= i < visited.len(),
        process_spec(lock, i, edges, visited) is Ok,
    ensures
        process_spec(
            lock,
            i,
            process_spec(lock, i, edges, visited)->Ok_0.0,
            process_spec(lock, i, edges, visited)->Ok_0.1,
        ) == process_spec(lock, i, edges, visited),
{
}

/// A resolved document has exactly one edge per declared input, whether the
/// input names its target or follows a path.
pub proof fn lemma_edge_count(lock: FlakeLock)
    requires
        resolve(lock) is Ok,
    ensures
        resolve(lock)->Ok_0.len() == total_inputs(lock.nodes@),
{
    lemma_lock_edges_len(lock, lock.nodes@.len() as int);
    assert(lock.nodes@.take(lock.nodes@.len() as int) =~= lock.nodes@);
}

/// A one-step follows path `[a]` leads to the node that the root's input `a`
/// names directly, not to the root itself.
pub proof fn lemma_follow_direct_step(lock: FlakeLock, a: Seq<char>)
    requires
        key_position(lock.nodes@, lock.root@, 0) >= 0,
        key_position(
            lock.nodes@[key_position(lock.nodes@, lock.root@, 0)].1.inputs@,
            a,
            0,
        ) >= 0,
        lock.nodes@[key_position(lock.nodes@, lock.root@, 0)].1.inputs@[key_position(
            lock.nodes@[key_position(lock.nodes@, lock.root@, 0)].1.inputs@,
            a,
            0,
        )].1 is Direct,
    ensures
        follow_path(lock, seq![a]) == Ok::<Seq<char>, FollowFault>(
            lock.nodes@[key_position(lock.nodes@, lock.root@, 0)].1.inputs@[key_position(
                lock.nodes@[key_position(lock.nodes@, lock.root@, 0)].1.inputs@,
                a,
                0,
            )].1->Direct_0@,
        ),
{
    let steps = seq![a];
    let ri = key_position(lock.nodes@, lock.root@, 0);
    lemma_key_position_bounds(lock.nodes@, lock.root@, 0);
    let inputs = lock.nodes@[ri].1.inputs@;
    lemma_key_position_bounds(inputs, a, 0);
    let target = inputs[key_position(inputs, a, 0)].1->Direct_0@;
    assert(steps.drop_first() =~= Seq::<Seq<char>>::empty());
    assert(walk(lock, target, Seq::<Seq<char>>::empty(), lock.nodes@.len()) == Ok::<
        Seq<char>,
        FollowFault,
    >(target));
}

proof fn lemma_lock_edges_err(lock: FlakeLock, k: int, m: int)
    requires
        0 <= k <= m,
        lock_edges(lock, k) is Err,
    ensures
        lock_edges(lock, m) == lock_edges(lock, k),
    decreases m - k,
{
    if m > k {
        lemma_lock_edges_err(lock, k, m - 1);
    }
}

/// Whether the document fits the graph's 32-bit node and edge indices, which
/// [`NodeGraph::from_lock`] asks of its argument.
pub fn fits_index_limits(flake_lock: &FlakeLock) -> (r: bool)
    ensures
        r == (flake_lock.nodes.len() < u32::MAX && total_inputs(flake_lock.nodes@) < u32::MAX),
{
    let n: usize = flake_lock.nodes.len();
    if n >= 0xffff_ffff {
        return false;
    }
    let mut sum: usize = 0;
    let mut i: usize = 0;
    while i < n
        invariant
            i <= n,
            n == flake_lock.nodes.len(),
            sum == total_inputs(flake_lock.nodes@.take(i as int)),
            sum < u32::MAX,
        decreases n - i,
    {
        proof {
            assert(flake_lock.nodes@.take(i + 1).drop_last() =~= flake_lock.nodes@.take(i as int));
        }
        let more: usize = flake_lock.nodes[i].1.inputs.len();
        if more >= 0xffff_ffff - sum {
            proof {
                lemma_total_prefix(flake_lock.nodes@, i + 1);
            }
            return false;
        }
        sum = sum + more;
        i = i + 1;
    }
    assert(flake_lock.nodes@.take(n as int) =~= flake_lock.nodes@);
    true
}

/// Walking `a` then `b` is walking `a + b`.
pub proof fn lemma_walk_concat(
    lock: FlakeLock,
    cur: Seq<char>,
    a: Seq<Seq<char>>,
    b: Seq<Seq<char>>,
    fuel: nat,
)
    ensures
        walk(lock, cur, a + b, fuel) == match walk(lock, cur, a, fuel) {
            Ok(n) => walk(lock, n, b, fuel),
            Err(e) => Err(e),
        },
    decreases a.len(),
{
    if a.len() == 0 {
        assert(a + b =~= b);
    } else {
        assert((a + b).drop_first() =~= a.drop_first() + b);
        assert((a + b)[0] == a[0]);
        let ni = key_position(lock.nodes@, cur, 0);
        if ni >= 0 {
            let inputs = lock.nodes@[ni].1.inputs@;
            let ii = key_position(inputs, a[0], 0);
            if ii >= 0 {
                match inputs[ii].1 {
                    NodeInput::Direct(n) => {
                        lemma_walk_concat(lock, n@, a.drop_first(), b, fuel);
                    },
                    NodeInput::Path(p) => {
                        if p.len() > 0 && fuel > 0 {
                            let inner = walk(lock, lock.root@, names_view(p@), (fuel - 1) as nat);
                            if inner is Ok {
                                lemma_walk_concat(lock, inner->Ok_0, a.drop_first(), b, fuel);
                            }
                        }
                    },
                }
            }
        }
    }
}

/// A walk fails on the first step that the node reached so far lacks, with
/// that step; it never skips it.
pub proof fn lemma_walk_broken_step(
    lock: FlakeLock,
    cur: Seq<char>,
    steps: Seq<Seq<char>>,
    i: int,
    fuel: nat,
)
    requires
        0 <= i < steps.len(),
        walk(lock, cur, steps.take(i), fuel) is Ok,
        key_position(lock.nodes@, walk(lock, cur, steps.take(i), fuel)->Ok_0, 0) >= 0,
        key_position(
            lock.nodes@[key_position(
                lock.nodes@,
                walk(lock, cur, steps.take(i), fuel)->Ok_0,
                0,
            )].1.inputs@,
            steps[i],
            0,
        ) < 0,
    ensures
        walk(lock, cur, steps, fuel) == Err::<Seq<char>, FollowFault>(FollowFault::Broken(steps[i])),
{
    assert(steps =~= steps.take(i) + steps.skip(i));
    lemma_walk_concat(lock, cur, steps.take(i), steps.skip(i), fuel);
    assert(steps.skip(i)[0] == steps[i]);
}

/// A failing input is never dropped: when every node before `i` and every
/// input of node `i` before `k` resolve, and input `k` does not, resolving the
/// document fails with that input's error.
pub proof fn lemma_first_failure(lock: FlakeLock, i: int, k: int)
    requires
        key_position(lock.nodes@, lock.root@, 0) >= 0,
        0 <= i < lock.nodes@.len(),
        0 <= k < lock.nodes@[i].1.inputs@.len(),
        lock_edges(lock, i) is Ok,
        node_edges(lock, i, k) is Ok,
        input_target(lock, lock.nodes@[i].1.inputs@[k].1) is Err,
    ensures
        resolve(lock) == Err::<Seq<(int, int, Seq<char>)>, GraphFault>(
            input_fault(
                lock.nodes@[i].0@,
                lock.nodes@[i].1.inputs@[k].0@,
                input_target(lock, lock.nodes@[i].1.inputs@[k].1)->Err_0,
            ),
        ),
{
    lemma_node_edges_err(lock, i, k + 1, lock.nodes@[i].1.inputs@.len() as int);
    lemma_lock_edges_err(lock, i + 1, lock.nodes@.len() as int);
}

impl NodeGraph {
    /// Resolves a lock document into its graph: node `i` of the graph stands for
    /// entry `i` of the document, with one edge per declared input from the
    /// node that declares it to the node it resolves to. Fails with the first
    /// failure in document order, or when the root is missing.
    pub fn from_lock(flake_lock: &FlakeLock) -> (r: Result<NodeGraph, GraphError>)
        requires
            well_formed(*flake_lock),
            flake_lock.nodes.len() < u32::MAX,
            total_inputs(flake_lock.nodes@) < u32::MAX,
        ensures
            match r {
                Ok(g) => resolve(*flake_lock) is Ok && graph_edges(g.graph) == resolve(
                    *flake_lock,
                )->Ok_0 && graph_nodes(g.graph) == flake_lock.nodes@.map_values(
                    |e: (String, crate::lock::Node)| graph_node_of(e),
                ) && g.root as int == key_position(flake_lock.nodes@, flake_lock.root@, 0)
                    && g.version == flake_lock.version,
                Err(e) => resolve(*flake_lock) == Err::<Seq<(int, int, Seq<char>)>, GraphFault>(
                    e@,
                ),
            },
    {
        let root: usize = match find_key(&flake_lock.nodes, &flake_lock.root) {
            Some(root) => root,
            None => {
                return Err(GraphError::MissingRoot { root: flake_lock.root.clone() });
            },
        };
        let ghost nodes_model = flake_lock.nodes@.map_values(
            |e: (String, crate::lock::Node)| graph_node_of(e),
        );
        let n: usize = flake_lock.nodes.len();
        let mut graph = graph_new();
        let mut visited: Vec<bool> = Vec::new();
        let mut k: usize = 0;
        while k < n
            invariant
                k <= n,
                n == flake_lock.nodes.len(),
                n < u32::MAX,
                nodes_model == flake_lock.nodes@.map_values(
                    |e: (String, crate::lock::Node)| graph_node_of(e),
                ),
                graph_nodes(graph) == nodes_model.take(k as int),
                graph_edges(graph) == Seq::<(int, int, Seq<char>)>::empty(),
                visited@ == Seq::new(k as nat, |j: int| false),
            decreases n - k,
        {
            let entry = &flake_lock.nodes[k];
            let node = Node {
                name: entry.0.clone(),
                original: copy_opt_ref(&entry.1.original),
                locked: copy_opt_lock(&entry.1.locked),
            };
            graph_add_node(&mut graph, node);
            visited.push(false);
            assert(graph_nodes(graph) =~= nodes_model.take(k + 1));
            assert(visited@ =~= Seq::new((k + 1) as nat, |j: int| false));
            k = k + 1;
        }
        assert(nodes_model.take(n as int) =~= nodes_model);
        let mut i: usize = 0;
        while i < n
            invariant
                i <= n,
                n == flake_lock.nodes.len(),
                n < u32::MAX,
                total_inputs(flake_lock.nodes@) < u32::MAX,
                root as int == key_position(flake_lock.nodes@, flake_lock.root@, 0),
                graph_nodes(graph) == nodes_model,
                nodes_model.len() == n,
                lock_edges(*flake_lock, i as int) is Ok,
                graph_edges(graph) == lock_edges(*flake_lock, i as int)->Ok_0,
                visited@ == Seq::new(n as nat, |j: int| j < i),
            decreases n - i,
        {
            proof {
                lemma_lock_edges_len(*flake_lock, i as int);
                lemma_total_prefix(flake_lock.nodes@, i + 1);
                assert(flake_lock.nodes@.take(i + 1).drop_last() =~= flake_lock.nodes@.take(
                    i as int,
                ));
            }
            let res = process_node_inputs(flake_lock, i, &mut graph, &mut visited);
            match res {
                Ok(()) => {},
                Err(e) => {
                    proof {
                        lemma_lock_edges_err(*flake_lock, i + 1, n as int);
                    }
                    return Err(e);
                },
            }
            assert(visited@ =~= Seq::new(n as nat, |j: int| j < i + 1));
            i = i + 1;
        }
        Ok(NodeGraph { graph, root, version: flake_lock.version })
    }
}

} // verus!
