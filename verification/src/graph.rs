//! The nodes of the computation graph and the walk that invalidates them.

use crate::dependencies::Dependency;
use crate::dependencies::Rdep;
use crate::dependencies::VersionedDependencies;
use crate::dependencies::VersionedRevDependencies;
use crate::dependencies::rdeps_after;
use crate::dependencies::snapshot_after;
use crate::history::CellHistory;
use crate::history::accepts_mark;
use crate::history::dirtied_at;
use crate::history::verified_at;
use crate::key::DiceKey;
use crate::task::DiceResult;
use crate::versions::MinorVersion;
use crate::versions::VersionNumber;
use std::collections::HashMap;
use std::collections::hash_map::Entry;
use std::sync::Arc;
use vstd::prelude::*;
use vstd::std_specs::iter::IteratorSpec;

verus! {

broadcast use vstd::std_specs::hash::group_hash_axioms;

/// What a node holds, as a mathematical value.
pub ghost struct NodeState {
    pub value: DiceResult,
    pub history: CellHistory,
    pub deps: Option<(VersionNumber, Seq<Dependency>)>,
    pub rdeps: Map<u32, VersionNumber>,
}

/// One node as a dump of the graph shows it.
pub struct NodeSnapshot {
    pub key: DiceKey,
    pub value: DiceResult,
    pub history: CellHistory,
    /// The keys that the node read, in the order in which it read them.
    pub reads: Vec<DiceKey>,
    /// The keys of the nodes that read it, in no particular order.
    pub read_by: Vec<DiceKey>,
}

/// The keys that a snapshot of edges points at, in order; none where there
/// is no snapshot.
pub open spec fn edge_keys(deps: Option<(VersionNumber, Seq<Dependency>)>) -> Seq<DiceKey> {
    match deps {
        Some(read) => Seq::new(read.1.len(), |i: int| read.1[i].key),
        None => Seq::empty(),
    }
}

/// Whether a snapshot shows a resident node of `nodes` as it is.
pub open spec fn depicts(shot: NodeSnapshot, nodes: Map<u32, NodeState>) -> bool {
    &&& nodes.contains_key(shot.key.index)
    &&& shot.value == nodes[shot.key.index].value
    &&& shot.history == nodes[shot.key.index].history
    &&& shot.reads@ == edge_keys(nodes[shot.key.index].deps)
    &&& shot.read_by@.no_duplicates()
    &&& forall|k: DiceKey|
        shot.read_by@.contains(k) <==> nodes[shot.key.index].rdeps.contains_key(k.index)
}

/// The cached state of one key: its value, for which versions the value
/// holds, what it read, and who read it.
pub struct GraphNode {
    key: DiceKey,
    value: DiceResult,
    history: CellHistory,
    deps: VersionedDependencies,
    rdeps: VersionedRevDependencies,
}

impl View for GraphNode {
    type V = NodeState;

    closed spec fn view(&self) -> NodeState {
        NodeState {
            value: self.value,
            history: self.history,
            deps: self.deps@,
            rdeps: self.rdeps@,
        }
    }
}

impl GraphNode {
    pub closed spec fn spec_key(&self) -> DiceKey {
        self.key
    }

    pub fn key(&self) -> (key: DiceKey)
        ensures
            key == self.spec_key(),
    {
        self.key
    }

    pub fn value(&self) -> (value: DiceResult)
        ensures
            value == self@.value,
    {
        self.value
    }

    pub fn history(&self) -> (history: CellHistory)
        ensures
            history == self@.history,
    {
        self.history
    }

    /// The edges that the last computation of this node read, or `None`
    /// where none was stored.
    pub fn deps(&self) -> (snapshot: Option<Arc<Vec<Dependency>>>)
        ensures
            match snapshot {
                Some(deps) => self@.deps matches Some(stored) && deps@ == stored.1,
                None => self@.deps is None,
            },
    {
        self.deps.deps()
    }

    /// What this node holds, written out for tools that dump the graph.
    pub fn snapshot(&self) -> (shot: NodeSnapshot)
        ensures
            shot.key == self.spec_key(),
            shot.value == self@.value,
            shot.history == self@.history,
            shot.reads@ == edge_keys(self@.deps),
            shot.read_by@.no_duplicates(),
            forall|k: DiceKey| shot.read_by@.contains(k) <==> self@.rdeps.contains_key(k.index),
    {
        let mut reads: Vec<DiceKey> = Vec::new();
        match self.deps.deps() {
            Some(edges) => {
                let mut i: usize = 0;
                while i < edges.len()
                    invariant
                        0 <= i <= edges@.len(),
                        reads@.len() == i,
                        forall|j: int| 0 <= j < i ==> #[trigger] reads@[j] == edges@[j].key,
                    decreases edges@.len() - i,
                {
                    reads.push(edges[i].key);
                    i = i + 1;
                }
            },
            None => {},
        }
        assert(reads@ =~= edge_keys(self@.deps));
        let dependents = self.rdeps.dependents();
        let mut read_by: Vec<DiceKey> = Vec::new();
        let mut j: usize = 0;
        while j < dependents.len()
            invariant
                0 <= j <= dependents@.len(),
                read_by@.len() == j,
                forall|i: int| 0 <= i < j ==> #[trigger] read_by@[i] == dependents@[i].0,
            decreases dependents@.len() - j,
        {
            read_by.push(dependents[j].0);
            j = j + 1;
        }
        proof {
            assert forall|a: int, b: int|
                0 <= a < read_by@.len() && 0 <= b < read_by@.len() && a != b implies read_by@[a]
                != read_by@[b] by {
                assert(dependents@[a] != dependents@[b]);
            }
            assert forall|k: DiceKey| read_by@.contains(k) <==> self@.rdeps.contains_key(
                k.index,
            ) by {
                if read_by@.contains(k) {
                    let at = choose|at: int| 0 <= at < read_by@.len() && read_by@[at] == k;
                    assert(dependents@.contains(dependents@[at]));
                }
                if self@.rdeps.contains_key(k.index) {
                    assert(dependents@.contains(Rdep(k)));
                    let at = choose|at: int| 0 <= at < dependents@.len() && dependents@[at] == Rdep(k);
                    assert(read_by@[at] == k);
                }
            }
        }
        NodeSnapshot { key: self.key, value: self.value, history: self.history, reads, read_by }
    }

    /// Whether this node holds an edge to `target`.
    fn reads_key(&self, target: DiceKey) -> (found: bool)
        ensures
            found == reads(self@, target.index),
    {
        match self.deps.deps() {
            Some(edges) => {
                let mut i: usize = 0;
                while i < edges.len()
                    invariant
                        0 <= i <= edges@.len(),
                        self@.deps matches Some(read) && read.1 == edges@,
                        forall|j: int| 0 <= j < i ==> (#[trigger] edges@[j]).key.index != target.index,
                    decreases edges@.len() - i,
                {
                    if edges[i].key.index == target.index {
                        return true;
                    }
                    i = i + 1;
                }
                false
            },
            None => false,
        }
    }

    /// The nodes that read this one, each once, in no particular order.
    pub fn dependents(&self) -> (all: Vec<Rdep>)
        ensures
            all@.no_duplicates(),
            forall|r: Rdep| all@.contains(r) <==> self@.rdeps.contains_key(r.0.index),
    {
        self.rdeps.dependents()
    }
}

/// Whether the node of index `i` is resident and a notification as of `v`
/// would change it.
pub open spec fn takes_mark(nodes: Map<u32, NodeState>, i: u32, v: VersionNumber) -> bool {
    nodes.contains_key(i) && accepts_mark(nodes[i].history, v)
}

/// Whether `path` leads from dependency to dependent, step by step, through
/// resident nodes that a notification as of `v` changes.
pub open spec fn is_chain(nodes: Map<u32, NodeState>, path: Seq<u32>, v: VersionNumber) -> bool {
    &&& path.len() > 0
    &&& forall|i: int| 0 <= i < path.len() ==> takes_mark(nodes, #[trigger] path[i], v)
    &&& forall|i: int|
        0 <= i < path.len() - 1 ==> nodes[#[trigger] path[i]].rdeps.contains_key(path[i + 1])
}

/// Whether dirtying `from` as of `v` reaches the node of index `to`: the
/// walk goes from a node to its dependents and stops at a node that is
/// gone or already marked as of `v` or later.
pub open spec fn notified(nodes: Map<u32, NodeState>, from: DiceKey, to: u32, v: VersionNumber) -> bool {
    exists|path: Seq<u32>| #[trigger]
        is_chain(nodes, path, v) && path[0] == from.index && path.last() == to
}

/// A node after it was marked as of `v`.
pub open spec fn marked_as_of(node: NodeState, v: VersionNumber) -> NodeState {
    NodeState { history: dirtied_at(node.history, v), ..node }
}

/// The graph after `key` was dirtied as of `v`: every node that the walk
/// reaches carries the mark, and nothing else changed.
pub open spec fn after_dirty(nodes: Map<u32, NodeState>, key: DiceKey, v: VersionNumber) -> Map<
    u32,
    NodeState,
> {
    Map::new(
        |i: u32| nodes.contains_key(i),
        |i: u32|
            if notified(nodes, key, i, v) {
                marked_as_of(nodes[i], v)
            } else {
                nodes[i]
            },
    )
}

/// The graph in the middle of a walk that has marked the nodes in `marked`.
pub open spec fn partly_marked(nodes: Map<u32, NodeState>, marked: Set<u32>, v: VersionNumber) -> Map<
    u32,
    NodeState,
> {
    Map::new(
        |i: u32| nodes.contains_key(i),
        |i: u32|
            if marked.contains(i) {
                marked_as_of(nodes[i], v)
            } else {
                nodes[i]
            },
    )
}

/// A walk marks only nodes that take the mark.
pub proof fn lemma_notified_takes_mark(
    nodes: Map<u32, NodeState>,
    key: DiceKey,
    to: u32,
    v: VersionNumber,
)
    requires
        notified(nodes, key, to, v),
    ensures
        takes_mark(nodes, to, v),
        takes_mark(nodes, key.index, v),
{
    let path = choose|path: Seq<u32>| #[trigger]
        is_chain(nodes, path, v) && path[0] == key.index && path.last() == to;
    assert(takes_mark(nodes, path[path.len() - 1], v));
    assert(takes_mark(nodes, path[0], v));
}

/// A chain that ends at a node can be prolonged by one of its dependents
/// that takes the mark.
pub proof fn lemma_prolong_chain(
    nodes: Map<u32, NodeState>,
    key: DiceKey,
    via: u32,
    to: u32,
    v: VersionNumber,
)
    requires
        notified(nodes, key, via, v),
        nodes[via].rdeps.contains_key(to),
        takes_mark(nodes, to, v),
    ensures
        notified(nodes, key, to, v),
{
    let path = choose|path: Seq<u32>| #[trigger]
        is_chain(nodes, path, v) && path[0] == key.index && path.last() == via;
    let longer = path.push(to);
    assert forall|i: int| 0 <= i < longer.len() implies takes_mark(nodes, #[trigger] longer[i], v) by {
        if i < path.len() {
            assert(longer[i] == path[i]);
        }
    }
    assert forall|i: int| 0 <= i < longer.len() - 1 implies nodes[#[trigger] longer[i]].rdeps.contains_key(
        longer[i + 1],
    ) by {
        if i < path.len() - 1 {
            assert(longer[i] == path[i]);
            assert(longer[i + 1] == path[i + 1]);
        } else {
            assert(longer[i] == via);
        }
    }
    assert(is_chain(nodes, longer, v));
    assert(longer[0] == key.index && longer.last() == to);
}

/// Every node of a chain from the root lies in a set that holds the root
/// and, with a node, each of its dependents that takes the mark.
proof fn lemma_chain_within(
    nodes: Map<u32, NodeState>,
    marked: Set<u32>,
    path: Seq<u32>,
    v: VersionNumber,
    upto: int,
)
    requires
        is_chain(nodes, path, v),
        0 <= upto < path.len(),
        marked.contains(path[0]),
        forall|m: u32, r: u32|
            marked.contains(m) && #[trigger] nodes[m].rdeps.contains_key(r) && takes_mark(
                nodes,
                r,
                v,
            ) ==> marked.contains(r),
    ensures
        marked.contains(path[upto]),
    decreases upto,
{
    if upto > 0 {
        lemma_chain_within(nodes, marked, path, v, upto - 1);
        let m = path[upto - 1];
        assert(nodes[m].rdeps.contains_key(path[upto - 1 + 1]));
        assert(takes_mark(nodes, path[upto], v));
    }
}

/// Dirtying a node twice as of the same version is a no-op the second
/// time.
pub proof fn lemma_dirty_twice_is_dirty_once(
    nodes: Map<u32, NodeState>,
    key: DiceKey,
    v: VersionNumber,
)
    ensures
        after_dirty(after_dirty(nodes, key, v), key, v) == after_dirty(nodes, key, v),
        forall|i: u32| !notified(after_dirty(nodes, key, v), key, i, v),
{
    let once = after_dirty(nodes, key, v);
    assert forall|i: u32| !notified(once, key, i, v) by {
        if notified(once, key, i, v) {
            let path = choose|path: Seq<u32>| #[trigger]
                is_chain(once, path, v) && path[0] == key.index && path.last() == i;
            assert(takes_mark(once, path[0], v));
            if !notified(nodes, key, key.index, v) {
                let single = seq![key.index];
                assert(is_chain(nodes, single, v));
                assert(single[0] == key.index && single.last() == key.index);
            }
        }
    }
    assert(after_dirty(once, key, v) =~= once);
}

/// A walk as of `v1` changes neither who depends on whom nor which nodes a
/// walk as of a later `v2` goes through.
proof fn lemma_later_chain_unchanged(
    nodes: Map<u32, NodeState>,
    key: DiceKey,
    v1: VersionNumber,
    v2: VersionNumber,
    path: Seq<u32>,
)
    requires
        v1.0 < v2.0,
    ensures
        is_chain(after_dirty(nodes, key, v1), path, v2) <==> is_chain(nodes, path, v2),
{
    let once = after_dirty(nodes, key, v1);
    assert forall|j: u32| takes_mark(once, j, v2) <==> takes_mark(nodes, j, v2) by {
        if nodes.contains_key(j) && notified(nodes, key, j, v1) {
            let reached = choose|reached: Seq<u32>| #[trigger]
                is_chain(nodes, reached, v1) && reached[0] == key.index && reached.last() == j;
            assert(takes_mark(nodes, reached[reached.len() - 1], v1));
        }
    }
    if is_chain(nodes, path, v2) {
        assert forall|i: int| 0 <= i < path.len() implies takes_mark(once, #[trigger] path[i], v2) by {
            assert(takes_mark(nodes, path[i], v2));
        }
        assert forall|i: int| 0 <= i < path.len() - 1 implies once[#[trigger] path[i]].rdeps.contains_key(
            path[i + 1],
        ) by {
            assert(takes_mark(nodes, path[i], v2));
            assert(nodes[path[i]].rdeps.contains_key(path[i + 1]));
        }
    }
    if is_chain(once, path, v2) {
        assert forall|i: int| 0 <= i < path.len() implies takes_mark(nodes, #[trigger] path[i], v2) by {
            assert(takes_mark(once, path[i], v2));
        }
        assert forall|i: int| 0 <= i < path.len() - 1 implies nodes[#[trigger] path[i]].rdeps.contains_key(
            path[i + 1],
        ) by {
            assert(takes_mark(once, path[i], v2));
            assert(once[path[i]].rdeps.contains_key(path[i + 1]));
        }
    }
}

/// Dirtying a node as of `v1` and then as of a later `v2` leaves every node
/// that either walk reached marked as of `v2`: the graph is the one that a
/// single walk as of `v2` leaves.
pub proof fn lemma_later_dirty_prevails(
    nodes: Map<u32, NodeState>,
    key: DiceKey,
    v1: VersionNumber,
    v2: VersionNumber,
)
    requires
        v1.0 < v2.0,
    ensures
        after_dirty(after_dirty(nodes, key, v1), key, v2) == after_dirty(nodes, key, v2),
        forall|i: u32|
            notified(nodes, key, i, v1) ==> #[trigger] after_dirty(
                after_dirty(nodes, key, v1),
                key,
                v2,
            )[i].history.dirtied == Some(v2),
{
    let once = after_dirty(nodes, key, v1);
    assert forall|i: u32| notified(once, key, i, v2) <==> notified(nodes, key, i, v2) by {
        if notified(once, key, i, v2) {
            let path = choose|path: Seq<u32>| #[trigger]
                is_chain(once, path, v2) && path[0] == key.index && path.last() == i;
            lemma_later_chain_unchanged(nodes, key, v1, v2, path);
            assert(is_chain(nodes, path, v2));
        }
        if notified(nodes, key, i, v2) {
            let path = choose|path: Seq<u32>| #[trigger]
                is_chain(nodes, path, v2) && path[0] == key.index && path.last() == i;
            lemma_later_chain_unchanged(nodes, key, v1, v2, path);
            assert(is_chain(once, path, v2));
        }
    }
    assert forall|i: u32| notified(nodes, key, i, v1) implies notified(nodes, key, i, v2) by {
        let path = choose|path: Seq<u32>| #[trigger]
            is_chain(nodes, path, v1) && path[0] == key.index && path.last() == i;
        assert forall|j: int| 0 <= j < path.len() implies takes_mark(nodes, #[trigger] path[j], v2) by {
            assert(takes_mark(nodes, path[j], v1));
        }
        assert(is_chain(nodes, path, v2));
    }
    assert forall|i: u32| notified(nodes, key, i, v2) implies takes_mark(nodes, i, v2) by {
        let path = choose|path: Seq<u32>| #[trigger]
            is_chain(nodes, path, v2) && path[0] == key.index && path.last() == i;
        assert(takes_mark(nodes, path[path.len() - 1], v2));
    }
    assert forall|i: u32| notified(nodes, key, i, v1) implies takes_mark(nodes, i, v1) by {
        let path = choose|path: Seq<u32>| #[trigger]
            is_chain(nodes, path, v1) && path[0] == key.index && path.last() == i;
        assert(takes_mark(nodes, path[path.len() - 1], v1));
    }
    assert(after_dirty(once, key, v2) =~= after_dirty(nodes, key, v2));
}

/// The graph after a computation of `key` stored its result.
pub open spec fn stored(
    nodes: Map<u32, NodeState>,
    key: DiceKey,
    value: DiceResult,
    history: CellHistory,
    v: VersionNumber,
    deps: Seq<Dependency>,
) -> Map<u32, NodeState> {
    nodes.insert(
        key.index,
        if nodes.contains_key(key.index) {
            NodeState {
                value,
                history,
                deps: snapshot_after(nodes[key.index].deps, v, deps),
                rdeps: nodes[key.index].rdeps,
            }
        } else {
            NodeState { value, history, deps: Some((v, deps)), rdeps: Map::empty() }
        },
    )
}

/// The graph after the node of `target` recorded that `dependent` read it
/// at `v`.
pub open spec fn with_rdep(
    nodes: Map<u32, NodeState>,
    target: DiceKey,
    dependent: Rdep,
    v: VersionNumber,
) -> Map<u32, NodeState> {
    if nodes.contains_key(target.index) {
        nodes.insert(
            target.index,
            NodeState {
                rdeps: rdeps_after(nodes[target.index].rdeps, dependent, v),
                ..nodes[target.index]
            },
        )
    } else {
        nodes
    }
}

/// The graph after the value of `key` was confirmed at `v`.
pub open spec fn verified(nodes: Map<u32, NodeState>, key: DiceKey, v: VersionNumber) -> Map<
    u32,
    NodeState,
> {
    if nodes.contains_key(key.index) {
        nodes.insert(
            key.index,
            NodeState { history: verified_at(nodes[key.index].history, v), ..nodes[key.index] },
        )
    } else {
        nodes
    }
}

/// Whether a node holds an edge to the key of index `target`.
pub open spec fn reads(node: NodeState, target: u32) -> bool {
    node.deps matches Some(read) && exists|i: int|
        0 <= i < read.1.len() && (#[trigger] read.1[i]).key.index == target
}

/// Whether a resident node other than its own holds an edge to `key`.
pub open spec fn held(nodes: Map<u32, NodeState>, key: DiceKey) -> bool {
    exists|n: u32| n != key.index && nodes.contains_key(n) && #[trigger] reads(nodes[n], key.index)
}

/// The graph after the node of `key` was reclaimed, which it is unless an
/// edge holds it.
pub open spec fn evicted(nodes: Map<u32, NodeState>, key: DiceKey) -> Map<u32, NodeState> {
    if held(nodes, key) {
        nodes
    } else {
        nodes.remove(key.index)
    }
}

/// The nodes of the graph, each under the index of its key.
pub struct Graph {
    nodes: HashMap<u32, GraphNode>,
}

impl View for Graph {
    type V = Map<u32, NodeState>;

    closed spec fn view(&self) -> Map<u32, NodeState> {
        Map::new(|i: u32| self.nodes@.contains_key(i), |i: u32| self.nodes@[i]@)
    }
}

impl Graph {
    /// Every node is filed under its own key.
    pub closed spec fn wf(&self) -> bool {
        forall|i: u32| #[trigger] self.nodes@.contains_key(i) ==> self.nodes@[i].spec_key().index == i
    }

    pub fn new() -> (graph: Graph)
        ensures
            graph.wf(),
            graph@ == Map::<u32, NodeState>::empty(),
    {
        let graph = Graph { nodes: HashMap::new() };
        assert(graph@ =~= Map::<u32, NodeState>::empty());
        graph
    }

    /// The graph holds finitely many nodes.
    pub proof fn lemma_finite(&self)
        ensures
            self@.dom().finite(),
    {
        assert(self@.dom() =~= self.nodes@.dom());
    }

    /// The node of `key`, if it is resident.
    pub fn lookup(&self, key: DiceKey) -> (node: Option<&GraphNode>)
        requires
            self.wf(),
        ensures
            match node {
                Some(node) => self@.contains_key(key.index) && node@ == self@[key.index]
                    && node.spec_key() == key,
                None => !self@.contains_key(key.index),
            },
    {
        self.nodes.get(&key.index)
    }

    /// Marks the one node of `key` possibly stale as of `v`; tells whether
    /// that changed it.
    pub fn mark(&mut self, key: DiceKey, v: VersionNumber) -> (changed: bool)
        requires
            old(self).wf(),
        ensures
            final(self).wf(),
            changed == takes_mark(old(self)@, key.index, v),
            final(self)@ == (if old(self)@.contains_key(key.index) {
                old(self)@.insert(key.index, marked_as_of(old(self)@[key.index], v))
            } else {
                old(self)@
            }),
    {
        let changed = match self.nodes.entry(key.index) {
            Entry::Occupied(mut held) => {
                let node = held.get_mut();
                node.history.mark_dirty(v)
            },
            Entry::Vacant(_) => false,
        };
        assert(final(self)@ =~= (if old(self)@.contains_key(key.index) {
            old(self)@.insert(key.index, marked_as_of(old(self)@[key.index], v))
        } else {
            old(self)@
        }));
        changed
    }

    /// Stores what a computation of `key` that finished at `v` produced:
    /// its value with the given history, and the snapshot of what it read,
    /// which replaces the stored snapshot only if `v` is strictly newer.
    /// The dependents of the node stay as they are.
    pub fn store(
        &mut self,
        key: DiceKey,
        value: DiceResult,
        history: CellHistory,
        v: VersionNumber,
        deps: Arc<Vec<Dependency>>,
    )
        requires
            old(self).wf(),
        ensures
            final(self).wf(),
            final(self)@ == stored(old(self)@, key, value, history, v, deps@),
    {
        match self.nodes.entry(key.index) {
            Entry::Occupied(mut held) => {
                let node = held.get_mut();
                node.value = value;
                node.history = history;
                node.deps.add_deps(v, deps);
            },
            Entry::Vacant(slot) => {
                let mut read = VersionedDependencies::new();
                read.add_deps(v, deps);
                slot.insert(
                    GraphNode { key, value, history, deps: read, rdeps: VersionedRevDependencies::new() },
                );
            },
        }
        assert(final(self)@ =~= stored(old(self)@, key, value, history, v, deps@));
    }

    /// Records on the node of `target` that `dependent` read it at `v`. A
    /// target that is gone records nothing.
    pub fn add_rdep(&mut self, target: DiceKey, dependent: Rdep, v: VersionNumber)
        requires
            old(self).wf(),
        ensures
            final(self).wf(),
            final(self)@ == with_rdep(old(self)@, target, dependent, v),
    {
        match self.nodes.entry(target.index) {
            Entry::Occupied(mut held) => {
                let node = held.get_mut();
                node.rdeps.add_rdep(dependent, v);
            },
            Entry::Vacant(_) => {},
        }
        assert(final(self)@ =~= with_rdep(old(self)@, target, dependent, v));
    }

    /// Confirms the value of `key` at `v`: its mark is gone. A node that is
    /// gone stays gone.
    pub fn verify(&mut self, key: DiceKey, v: VersionNumber)
        requires
            old(self).wf(),
        ensures
            final(self).wf(),
            final(self)@ == verified(old(self)@, key, v),
    {
        match self.nodes.entry(key.index) {
            Entry::Occupied(mut held) => {
                let node = held.get_mut();
                node.history.mark_verified(v);
            },
            Entry::Vacant(_) => {},
        }
        assert(final(self)@ =~= verified(old(self)@, key, v));
    }

    /// Whether a resident node other than its own holds an edge to `key`.
    /// Such an edge keeps the node of `key`.
    pub fn is_held(&self, key: DiceKey) -> (is_held: bool)
        requires
            self.wf(),
        ensures
            is_held == held(self@, key),
    {
        let keys = self.keys();
        let mut i: usize = 0;
        while i < keys.len()
            invariant
                self.wf(),
                0 <= i <= keys@.len(),
                forall|k: DiceKey| keys@.contains(k) <==> self@.contains_key(k.index),
                forall|j: int|
                    0 <= j < i ==> !((#[trigger] keys@[j]).index != key.index && reads(
                        self@[keys@[j].index],
                        key.index,
                    )),
            decreases keys@.len() - i,
        {
            let holder = keys[i];
            assert(keys@.contains(keys@[i as int]));
            if holder.index != key.index {
                match self.lookup(holder) {
                    Some(node) => {
                        if node.reads_key(key) {
                            return true;
                        }
                    },
                    None => {},
                }
            }
            i = i + 1;
        }
        proof {
            if held(self@, key) {
                let n = choose|n: u32|
                    n != key.index && self@.contains_key(n) && #[trigger] reads(self@[n], key.index);
                let holder = DiceKey { index: n };
                assert(keys@.contains(holder));
                let at = choose|at: int| 0 <= at < keys@.len() && keys@[at] == holder;
                assert(keys@[at].index == n);
            }
        }
        false
    }

    /// Reclaims the node of `key` once no edge holds it: the node goes if
    /// it is resident and no other resident node holds an edge to it.
    /// Entries for it in the reverse dependencies of other nodes do not
    /// keep it; they stay behind and point at nothing from then on.
    pub fn evict(&mut self, key: DiceKey) -> (reclaimed: bool)
        requires
            old(self).wf(),
        ensures
            final(self).wf(),
            reclaimed == (old(self)@.contains_key(key.index) && !held(old(self)@, key)),
            final(self)@ == evicted(old(self)@, key),
    {
        if self.is_held(key) {
            return false;
        }
        let dropped = self.nodes.remove(&key.index);
        assert(final(self)@ =~= old(self)@.remove(key.index));
        dropped.is_some()
    }

    /// The keys of the resident nodes, each once, in no particular order.
    pub fn keys(&self) -> (all: Vec<DiceKey>)
        ensures
            all@.no_duplicates(),
            forall|k: DiceKey| all@.contains(k) <==> self@.contains_key(k.index),
    {
        let mut all: Vec<DiceKey> = Vec::new();
        let ghost indices = self.nodes.keys().remaining().unref();
        assert(indices.no_duplicates()) by {
            let refs = self.nodes.keys().remaining();
            assert forall|i: int, j: int|
                0 <= i < indices.len() && 0 <= j < indices.len() && i != j implies indices[i]
                != indices[j] by {
                assert(refs[i] != refs[j]);
            }
        }
        for index in it: self.nodes.keys()
            invariant
                it.seq().unref() == indices,
                all@.len() == it.index(),
                forall|i: int| 0 <= i < all@.len() ==> (#[trigger] all@[i]).index == indices[i],
        {
            all.push(DiceKey { index: *index });
        }
        proof {
            assert forall|k: DiceKey| all@.contains(k) <==> self@.contains_key(k.index) by {
                if all@.contains(k) {
                    let i = choose|i: int| 0 <= i < all@.len() && all@[i] == k;
                    assert(indices[i] == k.index);
                    assert(indices.to_set().contains(k.index));
                }
                if self@.contains_key(k.index) {
                    assert(indices.to_set().contains(k.index));
                    let i = choose|i: int| 0 <= i < indices.len() && indices[i] == k.index;
                    assert(all@[i] == k);
                }
            }
        }
        all
    }

    /// A dump of the graph for tools: every resident node once, with its
    /// value, its history and its edges in both directions, by key.
    pub fn introspect(&self) -> (dump: Vec<NodeSnapshot>)
        requires
            self.wf(),
        ensures
            forall|i: int| 0 <= i < dump@.len() ==> depicts(#[trigger] dump@[i], self@),
            forall|i: int, j: int|
                0 <= i < dump@.len() && 0 <= j < dump@.len() && i != j ==> dump@[i].key
                    != dump@[j].key,
            forall|k: DiceKey|
                self@.contains_key(k.index) ==> exists|i: int|
                    0 <= i < dump@.len() && (#[trigger] dump@[i]).key == k,
    {
        let keys = self.keys();
        let mut dump: Vec<NodeSnapshot> = Vec::new();
        let mut i: usize = 0;
        while i < keys.len()
            invariant
                self.wf(),
                0 <= i <= keys@.len(),
                dump@.len() == i,
                forall|k: DiceKey| keys@.contains(k) <==> self@.contains_key(k.index),
                forall|j: int| 0 <= j < i ==> (#[trigger] dump@[j]).key == keys@[j],
                forall|j: int| 0 <= j < i ==> depicts(#[trigger] dump@[j], self@),
            decreases keys@.len() - i,
        {
            let key = keys[i];
            assert(keys@.contains(keys@[i as int]));
            match self.lookup(key) {
                Some(node) => {
                    dump.push(node.snapshot());
                },
                None => {
                    assert(false);
                },
            }
            i = i + 1;
        }
        proof {
            assert forall|k: DiceKey| self@.contains_key(k.index) implies exists|i: int|
                0 <= i < dump@.len() && (#[trigger] dump@[i]).key == k by {
                assert(keys@.contains(k));
                let at = choose|at: int| 0 <= at < keys@.len() && keys@[at] == k;
                assert(dump@[at].key == k);
            }
        }
        dump
    }

    /// Dirties `key` as of `v`: marks its node and, from each node it
    /// marks, goes on to the dependents of that node. A node that is gone,
    /// or that carries a mark as of `v` or later, is left alone and the walk
    /// does not go through it. Returns the keys of the nodes it marked.
    pub fn dirty(&mut self, key: DiceKey, v: VersionNumber) -> (affected: Vec<DiceKey>)
        requires
            old(self).wf(),
        ensures
            final(self).wf(),
            final(self)@ == after_dirty(old(self)@, key, v),
            affected@.no_duplicates(),
            forall|k: DiceKey| affected@.contains(k) <==> notified(old(self)@, key, k.index, v),
    {
        let ghost pre = self@;
        let ghost mut marked: Set<u32> = Set::empty();
        let mut affected: Vec<DiceKey> = Vec::new();
        let mut stack: Vec<u32> = Vec::new();
        stack.push(key.index);
        proof {
            assert(self@ =~= partly_marked(pre, marked, v));
            self.lemma_finite();
            assert(stack@[0] == key.index);
            if takes_mark(pre, key.index, v) {
                let path = seq![key.index];
                assert(is_chain(pre, path, v));
                assert(path[0] == key.index && path.last() == key.index);
            }
        }
        while stack.len() > 0
            invariant
                self.wf(),
                pre == old(self)@,
                pre.dom().finite(),
                marked.finite(),
                marked.subset_of(pre.dom()),
                marked.len() <= pre.dom().len(),
                self@ == partly_marked(pre, marked, v),
                forall|m: u32| #[trigger]
                    marked.contains(m) ==> takes_mark(pre, m, v) && notified(pre, key, m, v),
                forall|j: int|
                    0 <= j < stack@.len() && takes_mark(pre, #[trigger] stack@[j], v) ==> notified(
                        pre,
                        key,
                        stack@[j],
                        v,
                    ),
                forall|m: u32, r: u32|
                    marked.contains(m) && #[trigger] pre[m].rdeps.contains_key(r)
                        && takes_mark(pre, r, v) ==> marked.contains(r) || stack@.contains(
                        r,
                    ),
                takes_mark(pre, key.index, v) ==> marked.contains(key.index)
                    || stack@.contains(key.index),
                affected@.no_duplicates(),
                forall|k: DiceKey| affected@.contains(k) <==> marked.contains(k.index),
            decreases pre.dom().len() - marked.len(), stack@.len(),
        {
            let ghost stack_before = stack@;
            let s = stack.pop().unwrap();
            let node_key = DiceKey { index: s };
            let ghost before = self@;
            let changed = self.mark(node_key, v);
            assert forall|r: u32| stack_before.contains(r) implies stack@.contains(r) || r == s by {
                let j = choose|j: int| 0 <= j < stack_before.len() && stack_before[j] == r;
                if j < stack@.len() {
                    assert(stack@[j] == r);
                }
            }
            if changed {
                let ghost marked_before = marked;
                let ghost affected_before = affected@;
                proof {
                    assert(!marked.contains(s));
                    assert(takes_mark(pre, s, v));
                    assert(notified(pre, key, s, v));
                    let grown = marked.insert(s);
                    assert(grown.subset_of(pre.dom()));
                    vstd::set_lib::lemma_len_subset(grown, pre.dom());
                    assert(self@ =~= partly_marked(pre, grown, v));
                    marked = grown;
                }
                affected.push(node_key);
                proof {
                    assert(affected@ == affected_before.push(node_key));
                    assert(!affected_before.contains(node_key));
                    assert forall|k: DiceKey| affected@.contains(k) <==> marked.contains(
                        k.index,
                    ) by {
                        if affected@.contains(k) {
                            let j = choose|j: int| 0 <= j < affected@.len() && affected@[j] == k;
                            if j < affected_before.len() {
                                assert(affected_before[j] == k);
                                assert(affected_before.contains(k));
                            }
                        }
                        if marked.contains(k.index) {
                            if k.index == s {
                                assert(affected@[affected@.len() - 1] == k);
                            } else {
                                assert(marked_before.contains(k.index));
                                assert(affected_before.contains(k));
                                let j = choose|j: int|
                                    0 <= j < affected_before.len() && affected_before[j] == k;
                                assert(affected@[j] == k);
                            }
                        }
                    }
                    assert forall|i: int, j: int|
                        0 <= i < affected@.len() && 0 <= j < affected@.len() && i != j implies affected@[i]
                        != affected@[j] by {
                        if i < affected_before.len() && j < affected_before.len() {
                            assert(affected_before[i] != affected_before[j]);
                        } else if i < affected_before.len() {
                            assert(affected_before[i] == affected@[i]);
                            assert(affected_before.contains(affected@[i]));
                        } else {
                            assert(affected_before[j] == affected@[j]);
                            assert(affected_before.contains(affected@[j]));
                        }
                    }
                }
                let dependents = match self.lookup(node_key) {
                    Some(node) => node.rdeps.dependents(),
                    None => Vec::new(),
                };
                let ghost stack_mid = stack@;
                let mut j: usize = 0;
                while j < dependents.len()
                    invariant
                        0 <= j <= dependents@.len(),
                        notified(pre, key, s, v),
                        pre.contains_key(s),
                        forall|r: Rdep| dependents@.contains(r) <==> pre[s].rdeps.contains_key(r.0.index),
                        forall|i: int| 0 <= i < stack_mid.len() ==> stack@.len() > i && stack@[i] == stack_mid[i],
                        stack@.len() == stack_mid.len() + j,
                        forall|i: int| 0 <= i < j ==> stack@[stack_mid.len() + i] == (#[trigger] dependents@[i]).0.index,
                        forall|i: int|
                            0 <= i < stack@.len() && takes_mark(pre, #[trigger] stack@[i], v) ==> notified(
                                pre,
                                key,
                                stack@[i],
                                v,
                            ),
                    decreases dependents@.len() - j,
                {
                    let r = dependents[j].0.index;
                    proof {
                        assert(dependents@.contains(dependents@[j as int]));
                        if takes_mark(pre, r, v) {
                            lemma_prolong_chain(pre, key, s, r, v);
                        }
                    }
                    stack.push(r);
                    j = j + 1;
                }
                proof {
                    assert forall|r: u32| stack_mid.contains(r) implies stack@.contains(r) by {
                        let i = choose|i: int| 0 <= i < stack_mid.len() && stack_mid[i] == r;
                        assert(stack@[i] == r);
                    }
                    assert forall|m: u32, r: u32|
                        marked.contains(m) && #[trigger] pre[m].rdeps.contains_key(r)
                            && takes_mark(pre, r, v) implies marked.contains(r)
                        || stack@.contains(r) by {
                        if m == s {
                            let dep = Rdep(DiceKey { index: r });
                            assert(dependents@.contains(dep));
                            let i = choose|i: int| 0 <= i < dependents@.len() && dependents@[i] == dep;
                            assert(stack@[stack_mid.len() + i] == r);
                        } else {
                            if !marked.contains(r) {
                                assert(stack_before.contains(r));
                            }
                        }
                    }
                }
            } else {
                proof {
                    assert(self@ =~= before);
                }
            }
        }
        proof {
            assert forall|i: u32| notified(pre, key, i, v) implies marked.contains(i) by {
                let path = choose|path: Seq<u32>| #[trigger]
                    is_chain(pre, path, v) && path[0] == key.index && path.last() == i;
                assert(takes_mark(pre, path[0], v));
                assert(!stack@.contains(key.index));
                assert forall|m: u32, r: u32|
                    marked.contains(m) && #[trigger] pre[m].rdeps.contains_key(r)
                        && takes_mark(pre, r, v) implies marked.contains(r) by {
                    assert(!stack@.contains(r));
                }
                lemma_chain_within(pre, marked, path, v, path.len() - 1);
            }
            assert(self@ =~= after_dirty(pre, key, v));
        }
        affected
    }
}

impl Dependency {
    /// The node that this edge points at, if it is still resident. `None`
    /// says that it was evicted: the caller treats the edge as unresolved
    /// and computes again. The graph keeps one state per node, so the
    /// version asked for does not change the answer.
    #[allow(unused_variables)]
    pub fn lookup_node<'a>(&self, graph: &'a Graph, v: VersionNumber, mv: MinorVersion) -> (node:
        Option<&'a GraphNode>)
        requires
            graph.wf(),
        ensures
            match node {
                Some(node) => graph@.contains_key(self.key.index) && node@ == graph@[self.key.index]
                    && node.spec_key() == self.key,
                None => !graph@.contains_key(self.key.index),
            },
    {
        graph.lookup(self.key)
    }

    /// Marks the target of this edge dirty as of `v`, dependents included.
    pub fn dirty(&self, graph: &mut Graph, v: VersionNumber) -> (affected: Vec<DiceKey>)
        requires
            old(graph).wf(),
        ensures
            final(graph).wf(),
            final(graph)@ == after_dirty(old(graph)@, self.key, v),
            affected@.no_duplicates(),
            forall|k: DiceKey| affected@.contains(k) <==> notified(old(graph)@, self.key, k.index, v),
    {
        graph.dirty(self.key, v)
    }

    /// The key that a dump of the graph shows for this edge.
    pub fn introspect(&self) -> (key: DiceKey)
        ensures
            key == self.key,
    {
        self.key
    }
}

impl Rdep {
    /// The dependent that this back-reference points at, if it is still
    /// resident. A back-reference to a node that is gone yields `None`.
    pub fn upgrade<'a>(&self, graph: &'a Graph) -> (node: Option<&'a GraphNode>)
        requires
            graph.wf(),
        ensures
            match node {
                Some(node) => graph@.contains_key(self.0.index) && node@ == graph@[self.0.index]
                    && node.spec_key() == self.0,
                None => !graph@.contains_key(self.0.index),
            },
    {
        graph.lookup(self.0)
    }
}

/// Back-references do not keep a node: a node that no edge holds is
/// reclaimed whatever points back at it. Every other node stays as it is,
/// so the entries for the node in their reverse dependencies are still
/// there; they point at nothing, and no walk marks the node or goes through
/// it.
pub proof fn lemma_back_references_do_not_keep(
    nodes: Map<u32, NodeState>,
    key: DiceKey,
    from: DiceKey,
    v: VersionNumber,
)
    requires
        !held(nodes, key),
    ensures
        !evicted(nodes, key).contains_key(key.index),
        forall|i: u32|
            i != key.index && #[trigger] nodes.contains_key(i) ==> evicted(nodes, key).contains_key(i)
                && evicted(nodes, key)[i] == nodes[i],
        !notified(evicted(nodes, key), from, key.index, v),
        forall|path: Seq<u32>| is_chain(evicted(nodes, key), path, v) ==> !path.contains(key.index),
{
    let left = evicted(nodes, key);
    assert forall|path: Seq<u32>| is_chain(left, path, v) implies !path.contains(key.index) by {
        if path.contains(key.index) {
            let at = choose|at: int| 0 <= at < path.len() && path[at] == key.index;
            assert(takes_mark(left, path[at], v));
        }
    }
    if notified(left, from, key.index, v) {
        let path = choose|path: Seq<u32>| #[trigger]
            is_chain(left, path, v) && path[0] == from.index && path.last() == key.index;
        assert(takes_mark(left, path[path.len() - 1], v));
    }
}

/// An edge keeps the node it points at: while a resident node holds an edge
/// to it, the node is not reclaimed.
pub proof fn lemma_edges_keep(nodes: Map<u32, NodeState>, key: DiceKey, holder: u32)
    requires
        holder != key.index,
        nodes.contains_key(holder),
        reads(nodes[holder], key.index),
    ensures
        evicted(nodes, key) == nodes,
{
}

} // verus!
