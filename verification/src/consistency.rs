//! What holds of the engine between any two steps, and what follows from
//! it: an invalidation reaches every node that rests on what was written.

use crate::dependencies::ComputedDependency;
use crate::dependencies::Dependency;
use crate::dependencies::Rdep;
use crate::dice::DiceState;
use crate::dice::Evaluation;
use crate::dice::TransactionCtx;
use crate::dice::Verdict;
use crate::dice::can_commit;
use crate::dice::committed;
use crate::dice::decided;
use crate::dice::edge_holds;
use crate::dice::evaluated;
use crate::dice::is_current;
use crate::dice::linked;
use crate::dice::notified_set;
use crate::dice::propagated;
use crate::dice::read_begun;
use crate::dice::reclaimed_state;
use crate::dice::resumed;
use crate::dice::verdict_of;
use crate::dice::walk;
use crate::dice::write_recorded;
use crate::graph::NodeState;
use crate::graph::after_dirty;
use crate::graph::is_chain;
use crate::graph::lemma_notified_takes_mark;
use crate::graph::lemma_prolong_chain;
use crate::graph::marked_as_of;
use crate::graph::notified;
use crate::graph::reads;
use crate::graph::stored;
use crate::graph::takes_mark;
use crate::graph::verified;
use crate::graph::with_rdep;
use crate::key::DiceKey;
use crate::task::DiceResult;
use crate::task::DiceTask;
use crate::versions::VersionNumber;
use vstd::prelude::*;

verus! {

/// Whether the node of index `n` is resident and holds an edge at position
/// `i` of what it read.
pub open spec fn edge_at(nodes: Map<u32, NodeState>, n: u32, i: int) -> bool {
    nodes.contains_key(n) && 0 <= i < edges_of(nodes[n]).len()
}

/// The edges that a node holds; none where it has no snapshot.
pub open spec fn edges_of(node: NodeState) -> Seq<Dependency> {
    match node.deps {
        Some(read) => read.1,
        None => Seq::empty(),
    }
}

/// The index of the key that the edge at position `i` of node `n` points
/// at.
pub open spec fn target_of(nodes: Map<u32, NodeState>, n: u32, i: int) -> u32 {
    edges_of(nodes[n])[i].key.index
}

/// Every edge points at a resident node, which has its holder among its
/// dependents.
pub open spec fn edges_backed(nodes: Map<u32, NodeState>) -> bool {
    forall|n: u32, i: int| #[trigger]
        edge_at(nodes, n, i) ==> nodes.contains_key(target_of(nodes, n, i)) && nodes[target_of(
            nodes,
            n,
            i,
        )].rdeps.contains_key(n)
}

/// Marks flow against the edges: who holds an edge to a marked node is
/// marked itself, as of a version that is at least as new.
pub open spec fn marks_flow(nodes: Map<u32, NodeState>) -> bool {
    forall|n: u32, i: int| #[trigger]
        edge_at(nodes, n, i) ==> (nodes[target_of(nodes, n, i)].history.dirtied matches Some(below)
            ==> nodes[n].history.dirtied matches Some(above) && above.0 >= below.0)
}

/// Nothing changed behind a confirmed value: who carries no mark holds
/// edges only to values that hold since no later than its confirmation.
pub open spec fn values_fresh(nodes: Map<u32, NodeState>) -> bool {
    forall|n: u32, i: int| #[trigger]
        edge_at(nodes, n, i) ==> (nodes[n].history.dirtied is None ==> nodes[target_of(
            nodes,
            n,
            i,
        )].history.since.0 <= nodes[n].history.verified.0)
}

/// The versions in a node are in order, and none is ahead of `version`: the
/// value holds since a version at which it was confirmed, what it read was
/// written no later than that, and a mark is newer than the confirmation.
pub open spec fn node_in_order(node: NodeState, version: VersionNumber) -> bool {
    &&& node.history.since.0 <= node.history.verified.0 <= version.0
    &&& node.deps matches Some(read) ==> read.0.0 <= node.history.verified.0
    &&& node.history.dirtied matches Some(mark) ==> node.history.verified.0 < mark.0 <= version.0
}

/// What holds of the graph of an engine at `version`.
pub open spec fn graph_consistent(nodes: Map<u32, NodeState>, version: VersionNumber) -> bool {
    &&& edges_backed(nodes)
    &&& marks_flow(nodes)
    &&& values_fresh(nodes)
    &&& forall|n: u32| #[trigger] nodes.contains_key(n) ==> node_in_order(nodes[n], version)
}

/// The writes `pending[from..]` are newer than every confirmation in the
/// graph, and none is ahead of `version`.
pub open spec fn writes_ahead(
    nodes: Map<u32, NodeState>,
    pending: Seq<(DiceKey, VersionNumber)>,
    from: int,
    version: VersionNumber,
) -> bool {
    forall|at: int|
        from <= at < pending.len() ==> (#[trigger] pending[at]).1.0 <= version.0 && forall|n: u32| #[trigger]
            nodes.contains_key(n) ==> nodes[n].history.verified.0 < pending[at].1.0
}

/// A task in flight is of no version ahead of the engine; one of the
/// current version belongs to a read that saw every write propagated, and
/// to a node that is absent or marked. A completed task holds the value of
/// a resident node that carries no mark.
pub open spec fn task_in_order(s: DiceState, n: u32) -> bool {
    match s.tasks[n] {
        DiceTask::Pending(at) => at.0 <= s.version.0 && (at == s.version ==> s.pending.len() == 0
            && (!s.nodes.contains_key(n) || s.nodes[n].history.dirtied is Some)),
        DiceTask::Ready(value) => s.nodes.contains_key(n) && s.nodes[n].value == value
            && s.nodes[n].history.dirtied is None,
    }
}

/// Every task is in order.
pub open spec fn tasks_in_order(s: DiceState) -> bool {
    forall|n: u32| #[trigger] s.tasks.contains_key(n) ==> task_in_order(s, n)
}

/// What holds of an engine between any two steps.
pub open spec fn consistent(s: DiceState) -> bool {
    &&& graph_consistent(s.nodes, s.version)
    &&& writes_ahead(s.nodes, s.pending, 0, s.version)
    &&& tasks_in_order(s)
}

/// Recording a write keeps the engine consistent.
pub proof fn lemma_write_keeps_consistent(s: DiceState, key: DiceKey)
    requires
        consistent(s),
        s.version.0 < usize::MAX,
    ensures
        consistent(write_recorded(s, key)),
{
    let after = write_recorded(s, key);
    assert forall|n: u32, i: int| #[trigger] edge_at(after.nodes, n, i) implies after.nodes.contains_key(
        target_of(after.nodes, n, i),
    ) && after.nodes[target_of(after.nodes, n, i)].rdeps.contains_key(n) by {
        assert(edge_at(s.nodes, n, i));
    }
    assert forall|at: int| 0 <= at < after.pending.len() implies (#[trigger] after.pending[at]).1.0
        <= after.version.0 && forall|n: u32| #[trigger]
        after.nodes.contains_key(n) ==> after.nodes[n].history.verified.0 < after.pending[at].1.0 by {
        if at < s.pending.len() {
            assert(after.pending[at] == s.pending[at]);
        }
    }
}

/// A walk keeps the graph consistent, if it is as of a version that is
/// newer than every confirmation and not ahead of the engine. It changes
/// no node but by a mark.
pub proof fn lemma_dirty_keeps_consistent(
    nodes: Map<u32, NodeState>,
    key: DiceKey,
    w: VersionNumber,
    version: VersionNumber,
)
    requires
        graph_consistent(nodes, version),
        w.0 <= version.0,
        forall|n: u32| #[trigger] nodes.contains_key(n) ==> nodes[n].history.verified.0 < w.0,
    ensures
        graph_consistent(after_dirty(nodes, key, w), version),
        forall|n: u32| after_dirty(nodes, key, w).contains_key(n) <==> nodes.contains_key(n),
        forall|n: u32| #[trigger]
            nodes.contains_key(n) ==> after_dirty(nodes, key, w)[n] == (if notified(
                nodes,
                key,
                n,
                w,
            ) {
                marked_as_of(nodes[n], w)
            } else {
                nodes[n]
            }),
{
    let after = after_dirty(nodes, key, w);
    assert forall|n: u32| notified(nodes, key, n, w) implies takes_mark(nodes, n, w) by {
        lemma_notified_takes_mark(nodes, key, n, w);
    }
    assert forall|n: u32, i: int| #[trigger] edge_at(after, n, i) implies after.contains_key(
        target_of(after, n, i),
    ) && after[target_of(after, n, i)].rdeps.contains_key(n) by {
        assert(edge_at(nodes, n, i));
    }
    assert forall|n: u32, i: int| #[trigger] edge_at(after, n, i) implies (after[target_of(
        after,
        n,
        i,
    )].history.dirtied matches Some(below) ==> after[n].history.dirtied matches Some(above)
        && above.0 >= below.0) by {
        assert(edge_at(nodes, n, i));
        let d = target_of(nodes, n, i);
        assert(target_of(after, n, i) == d);
        if notified(nodes, key, d, w) {
            if takes_mark(nodes, n, w) {
                lemma_prolong_chain(nodes, key, d, n, w);
            }
        }
    }
    assert forall|n: u32, i: int| #[trigger] edge_at(after, n, i) implies (after[n].history.dirtied is None
        ==> after[target_of(after, n, i)].history.since.0 <= after[n].history.verified.0) by {
        assert(edge_at(nodes, n, i));
        assert(target_of(after, n, i) == target_of(nodes, n, i));
    }
    assert forall|n: u32| #[trigger] after.contains_key(n) implies node_in_order(after[n], version) by {
        assert(node_in_order(nodes[n], version));
    }
}

/// Propagating writes keeps the graph consistent. It changes no node but
/// by a mark, removes no mark, and changes no task but by removing it.
pub proof fn lemma_propagation_keeps_consistent(
    nodes: Map<u32, NodeState>,
    tasks: Map<u32, DiceTask>,
    pending: Seq<(DiceKey, VersionNumber)>,
    from: int,
    version: VersionNumber,
)
    requires
        0 <= from,
        graph_consistent(nodes, version),
        writes_ahead(nodes, pending, from, version),
    ensures
        graph_consistent(propagated(nodes, tasks, pending, from).0, version),
        forall|n: u32| propagated(nodes, tasks, pending, from).0.contains_key(n) <==> nodes.contains_key(n),
        forall|n: u32| #[trigger]
            nodes.contains_key(n) ==> same_but_mark(nodes[n], propagated(nodes, tasks, pending, from).0[n]),
        forall|n: u32| #[trigger]
            propagated(nodes, tasks, pending, from).1.contains_key(n) ==> tasks.contains_key(n)
                && propagated(nodes, tasks, pending, from).1[n] == tasks[n] && (nodes.contains_key(n)
                ==> propagated(nodes, tasks, pending, from).0[n] == nodes[n]),
    decreases pending.len() - from,
{
    if from < pending.len() {
        let key = pending[from].0;
        let w = pending[from].1;
        let marked = after_dirty(nodes, key, w);
        let left = tasks.remove_keys(notified_set(nodes, key, w));
        lemma_dirty_keeps_consistent(nodes, key, w, version);
        assert forall|at: int| from + 1 <= at < pending.len() implies (#[trigger] pending[at]).1.0
            <= version.0 && forall|n: u32| #[trigger]
            marked.contains_key(n) ==> marked[n].history.verified.0 < pending[at].1.0 by {
            assert forall|n: u32| #[trigger] marked.contains_key(n) implies marked[n].history.verified.0
                < pending[at].1.0 by {
                assert(nodes.contains_key(n));
            }
        }
        lemma_propagation_keeps_consistent(marked, left, pending, from + 1, version);
        assert forall|n: u32| #[trigger] nodes.contains_key(n) implies same_but_mark(
            nodes[n],
            propagated(nodes, tasks, pending, from).0[n],
        ) by {
            assert(marked.contains_key(n));
            assert(same_but_mark(marked[n], propagated(marked, left, pending, from + 1).0[n]));
        }
    }
}

/// Whether `after` is `before` but for a mark that was set or made newer.
pub open spec fn same_but_mark(before: NodeState, after: NodeState) -> bool {
    &&& after.value == before.value
    &&& after.deps == before.deps
    &&& after.rdeps == before.rdeps
    &&& after.history.since == before.history.since
    &&& after.history.verified == before.history.verified
    &&& before.history.dirtied matches Some(old) ==> after.history.dirtied matches Some(new)
        && new.0 >= old.0
}

/// Beginning a read keeps the engine consistent.
pub proof fn lemma_read_keeps_consistent(s: DiceState)
    requires
        consistent(s),
    ensures
        consistent(read_begun(s)),
{
    lemma_propagation_keeps_consistent(s.nodes, s.tasks, s.pending, 0, s.version);
    let after = read_begun(s);
    assert forall|n: u32| #[trigger] after.tasks.contains_key(n) implies task_in_order(after, n) by {
        assert(s.tasks.contains_key(n));
        assert(task_in_order(s, n));
        if s.nodes.contains_key(n) {
            assert(same_but_mark(s.nodes[n], after.nodes[n]));
        }
    }
}

/// Where a walk over recorded dependencies ends in `Reuse`, every one of
/// them is resident, unmarked and unchanged since the confirmation.
pub proof fn lemma_walk_reuse(
    nodes: Map<u32, NodeState>,
    confirmed: VersionNumber,
    deps: Seq<Dependency>,
    from: int,
)
    requires
        0 <= from,
        walk(nodes, confirmed, deps, from) == Verdict::Reuse,
    ensures
        forall|i: int|
            from <= i < deps.len() ==> nodes.contains_key((#[trigger] deps[i]).key.index)
                && nodes[deps[i].key.index].history.dirtied is None
                && nodes[deps[i].key.index].history.since.0 <= confirmed.0,
    decreases deps.len() - from,
{
    if from < deps.len() {
        lemma_walk_reuse(nodes, confirmed, deps, from + 1);
    }
}

/// The decision for the owner of a task keeps the engine consistent.
pub proof fn lemma_decision_keeps_consistent(s: DiceState, key: DiceKey, ctx: TransactionCtx)
    requires
        graph_consistent(s.nodes, s.version),
        is_current(s, ctx),
        s.tasks.contains_key(key.index),
        s.tasks[key.index] == DiceTask::Pending(ctx.version),
        forall|n: u32| n != key.index && #[trigger] s.tasks.contains_key(n) ==> task_in_order(s, n),
    ensures
        consistent(decided(s, key, ctx).0),
{
    let after = decided(s, key, ctx).0;
    if s.nodes.contains_key(key.index) && verdict_of(s.nodes, s.nodes[key.index]) == Verdict::Reuse {
        let node = s.nodes[key.index];
        if node.history.dirtied is Some {
            lemma_walk_reuse(s.nodes, node.history.verified, edges_of(node), 0);
        }
        assert forall|n: u32, i: int| #[trigger] edge_at(after.nodes, n, i) implies after.nodes.contains_key(
            target_of(after.nodes, n, i),
        ) && after.nodes[target_of(after.nodes, n, i)].rdeps.contains_key(n) by {
            assert(edge_at(s.nodes, n, i));
        }
        assert forall|n: u32, i: int| #[trigger] edge_at(after.nodes, n, i) implies (after.nodes[target_of(
            after.nodes,
            n,
            i,
        )].history.dirtied matches Some(below) ==> after.nodes[n].history.dirtied matches Some(above)
            && above.0 >= below.0) by {
            assert(edge_at(s.nodes, n, i));
            assert(target_of(after.nodes, n, i) == target_of(s.nodes, n, i));
        }
        assert forall|n: u32, i: int| #[trigger] edge_at(after.nodes, n, i) implies (
        after.nodes[n].history.dirtied is None ==> after.nodes[target_of(
            after.nodes,
            n,
            i,
        )].history.since.0 <= after.nodes[n].history.verified.0) by {
            assert(edge_at(s.nodes, n, i));
            assert(target_of(after.nodes, n, i) == target_of(s.nodes, n, i));
            if n == key.index && node.history.dirtied is Some {
                assert(edges_of(node)[i].key.index == target_of(s.nodes, n, i));
            }
        }
        assert forall|n: u32| #[trigger] after.nodes.contains_key(n) implies node_in_order(
            after.nodes[n],
            after.version,
        ) by {
            assert(node_in_order(s.nodes[n], s.version));
        }
        assert forall|n: u32| #[trigger] after.tasks.contains_key(n) implies task_in_order(after, n) by {
            if n != key.index {
                assert(s.tasks.contains_key(n));
                assert(task_in_order(s, n));
            }
        }
    } else {
        assert(after == s);
        assert forall|n: u32| #[trigger] after.tasks.contains_key(n) implies task_in_order(after, n) by {
            if n != key.index {
                assert(task_in_order(s, n));
            }
        }
    }
}

/// A request keeps the engine consistent.
pub proof fn lemma_request_keeps_consistent(s: DiceState, key: DiceKey, ctx: TransactionCtx)
    requires
        consistent(s),
    ensures
        consistent(evaluated(s, key, ctx).0),
{
    if evaluated(s, key, ctx).0 != s {
        let owned = DiceState { tasks: s.tasks.insert(key.index, DiceTask::Pending(ctx.version)), ..s };
        assert forall|n: u32| n != key.index && #[trigger] owned.tasks.contains_key(n) implies task_in_order(
            owned,
            n,
        ) by {
            assert(s.tasks.contains_key(n));
            assert(task_in_order(s, n));
        }
        lemma_decision_keeps_consistent(owned, key, ctx);
    }
}

/// Resuming keeps the engine consistent.
pub proof fn lemma_resume_keeps_consistent(s: DiceState, key: DiceKey, ctx: TransactionCtx)
    requires
        consistent(s),
    ensures
        consistent(resumed(s, key, ctx).0),
{
    if resumed(s, key, ctx).0 != s {
        assert forall|n: u32| n != key.index && #[trigger] s.tasks.contains_key(n) implies task_in_order(
            s,
            n,
        ) by {
            assert(task_in_order(s, n));
        }
        lemma_decision_keeps_consistent(s, key, ctx);
    }
}

/// Recording a dependent changes nothing of a graph but the dependents of
/// the targets of the edges, which only gain: each target that is resident
/// has the dependent among them afterwards.
pub proof fn lemma_linked(
    nodes: Map<u32, NodeState>,
    edges: Seq<Dependency>,
    dependent: DiceKey,
    v: VersionNumber,
    upto: int,
)
    requires
        0 <= upto <= edges.len(),
    ensures
        forall|n: u32| linked(nodes, edges, dependent, v, upto).contains_key(n) <==> nodes.contains_key(n),
        forall|n: u32| #[trigger]
            nodes.contains_key(n) ==> same_but_dependents(nodes[n], linked(nodes, edges, dependent, v, upto)[n]),
        forall|i: int|
            0 <= i < upto && nodes.contains_key((#[trigger] edges[i]).key.index) ==> linked(
                nodes,
                edges,
                dependent,
                v,
                upto,
            )[edges[i].key.index].rdeps.contains_key(dependent.index),
    decreases upto,
{
    if upto > 0 {
        lemma_linked(nodes, edges, dependent, v, upto - 1);
        let before = linked(nodes, edges, dependent, v, upto - 1);
        let after = linked(nodes, edges, dependent, v, upto);
        assert(after == with_rdep(before, edges[upto - 1].key, Rdep(dependent), v));
        assert forall|n: u32| #[trigger] nodes.contains_key(n) implies same_but_dependents(
            nodes[n],
            after[n],
        ) by {
            assert(same_but_dependents(nodes[n], before[n]));
        }
        assert forall|i: int|
            0 <= i < upto && nodes.contains_key((#[trigger] edges[i]).key.index) implies after[edges[i].key.index].rdeps.contains_key(
            dependent.index,
        ) by {
            let d = edges[i].key.index;
            assert(same_but_dependents(nodes[d], before[d]));
            if i < upto - 1 {
                assert(before[d].rdeps.contains_key(dependent.index));
            }
        }
    }
}

/// Whether `after` is `before` but for dependents that it gained.
pub open spec fn same_but_dependents(before: NodeState, after: NodeState) -> bool {
    &&& after.value == before.value
    &&& after.deps == before.deps
    &&& after.history == before.history
    &&& forall|r: u32| before.rdeps.contains_key(r) ==> after.rdeps.contains_key(r)
}

/// A commit that is taken keeps the engine consistent.
pub proof fn lemma_commit_keeps_consistent(
    s: DiceState,
    key: DiceKey,
    ctx: TransactionCtx,
    value: DiceResult,
    observed: Seq<ComputedDependency>,
)
    requires
        consistent(s),
        can_commit(s, key, ctx, observed),
    ensures
        consistent(committed(s, key, ctx, value, observed)),
{
    let v = ctx.version;
    let after = committed(s, key, ctx, value, observed);
    let edges = crate::dependencies::stored_edges(observed);
    let base = stored(
        s.nodes,
        key,
        value,
        crate::history::CellHistory {
            since: crate::dice::held_since(s.nodes, key, value, v),
            verified: v,
            dirtied: None,
        },
        v,
        edges,
    );
    assert(edges.len() == observed.len());
    lemma_linked(base, edges, key, v, observed.len() as int);
    assert(after.nodes == linked(base, edges, key, v, observed.len() as int));
    assert(base.contains_key(key.index));
    assert(s.tasks.contains_key(key.index));
    assert(task_in_order(s, key.index));
    if s.nodes.contains_key(key.index) {
        assert(node_in_order(s.nodes[key.index], s.version));
    }
    assert(base[key.index].deps == Some((v, edges)));
    assert(same_but_dependents(base[key.index], after.nodes[key.index]));
    assert forall|n: u32, i: int| #[trigger] edge_at(after.nodes, n, i) implies after.nodes.contains_key(
        target_of(after.nodes, n, i),
    ) && after.nodes[target_of(after.nodes, n, i)].rdeps.contains_key(n) by {
        assert(base.contains_key(n));
        assert(same_but_dependents(base[n], after.nodes[n]));
        let d = target_of(after.nodes, n, i);
        if n == key.index {
            assert(d == edges[i].key.index);
            assert(edge_holds(s.nodes, observed[i], v));
            assert(base.contains_key(d));
        } else {
            assert(edge_at(s.nodes, n, i));
            assert(d == target_of(s.nodes, n, i));
            assert(base.contains_key(d));
            assert(same_but_dependents(base[d], after.nodes[d]));
        }
    }
    assert forall|n: u32, i: int| #[trigger] edge_at(after.nodes, n, i) implies (after.nodes[target_of(
        after.nodes,
        n,
        i,
    )].history.dirtied matches Some(below) ==> after.nodes[n].history.dirtied matches Some(above)
        && above.0 >= below.0) by {
        assert(base.contains_key(n));
        assert(same_but_dependents(base[n], after.nodes[n]));
        let d = target_of(after.nodes, n, i);
        if n == key.index {
            assert(d == edges[i].key.index);
            assert(edge_holds(s.nodes, observed[i], v));
            assert(base.contains_key(d));
            assert(same_but_dependents(base[d], after.nodes[d]));
        } else {
            assert(edge_at(s.nodes, n, i));
            assert(d == target_of(s.nodes, n, i));
            assert(base.contains_key(d));
            assert(same_but_dependents(base[d], after.nodes[d]));
        }
    }
    assert forall|n: u32, i: int| #[trigger] edge_at(after.nodes, n, i) implies (
    after.nodes[n].history.dirtied is None ==> after.nodes[target_of(after.nodes, n, i)].history.since.0
        <= after.nodes[n].history.verified.0) by {
        assert(base.contains_key(n));
        assert(same_but_dependents(base[n], after.nodes[n]));
        let d = target_of(after.nodes, n, i);
        if n == key.index {
            assert(d == edges[i].key.index);
            assert(edge_holds(s.nodes, observed[i], v));
            assert(base.contains_key(d));
            assert(same_but_dependents(base[d], after.nodes[d]));
            assert(node_in_order(s.nodes[d], s.version));
        } else {
            assert(edge_at(s.nodes, n, i));
            assert(d == target_of(s.nodes, n, i));
            assert(base.contains_key(d));
            assert(same_but_dependents(base[d], after.nodes[d]));
        }
    }
    assert forall|n: u32| #[trigger] after.nodes.contains_key(n) implies node_in_order(
        after.nodes[n],
        after.version,
    ) by {
        assert(base.contains_key(n));
        assert(same_but_dependents(base[n], after.nodes[n]));
        if n != key.index {
            assert(node_in_order(s.nodes[n], s.version));
        }
    }
    assert forall|n: u32| #[trigger] after.tasks.contains_key(n) implies task_in_order(after, n) by {
        if n != key.index {
            assert(s.tasks.contains_key(n));
            assert(task_in_order(s, n));
            assert(after.tasks[n] == s.tasks[n]);
            assert(after.nodes.contains_key(n) <==> base.contains_key(n));
            assert(base.contains_key(n) <==> s.nodes.contains_key(n));
            if s.nodes.contains_key(n) {
                assert(same_but_dependents(base[n], after.nodes[n]));
                assert(base[n] == s.nodes[n]);
            }
        } else {
            assert(after.tasks[n] == DiceTask::Ready(value));
        }
    }
}

/// Reclaiming a node keeps the engine consistent.
pub proof fn lemma_reclaim_keeps_consistent(s: DiceState, key: DiceKey)
    requires
        consistent(s),
    ensures
        consistent(reclaimed_state(s, key)),
{
    let after = reclaimed_state(s, key);
    if after != s {
        assert forall|n: u32, i: int| #[trigger] edge_at(after.nodes, n, i) implies after.nodes.contains_key(
            target_of(after.nodes, n, i),
        ) && after.nodes[target_of(after.nodes, n, i)].rdeps.contains_key(n) by {
            assert(edge_at(s.nodes, n, i));
            assert(reads(s.nodes[n], target_of(s.nodes, n, i)));
        }
        assert forall|n: u32, i: int| #[trigger] edge_at(after.nodes, n, i) implies (after.nodes[target_of(
            after.nodes,
            n,
            i,
        )].history.dirtied matches Some(below) ==> after.nodes[n].history.dirtied matches Some(above)
            && above.0 >= below.0) by {
            assert(edge_at(s.nodes, n, i));
            assert(reads(s.nodes[n], target_of(s.nodes, n, i)));
        }
        assert forall|n: u32, i: int| #[trigger] edge_at(after.nodes, n, i) implies (
        after.nodes[n].history.dirtied is None ==> after.nodes[target_of(
            after.nodes,
            n,
            i,
        )].history.since.0 <= after.nodes[n].history.verified.0) by {
            assert(edge_at(s.nodes, n, i));
            assert(reads(s.nodes[n], target_of(s.nodes, n, i)));
        }
        assert forall|n: u32| #[trigger] after.tasks.contains_key(n) implies task_in_order(after, n) by {
            assert(s.tasks.contains_key(n));
            assert(task_in_order(s, n));
        }
    }
}

/// Whether `up` climbs the graph from a node to those that rest on it:
/// each node of it but the first is resident and holds an edge to the one
/// before.
pub open spec fn climbs(nodes: Map<u32, NodeState>, up: Seq<u32>) -> bool {
    &&& up.len() > 0
    &&& forall|j: int|
        0 <= j < up.len() - 1 ==> nodes.contains_key(#[trigger] up[j + 1]) && reads(
            nodes[up[j + 1]],
            up[j],
        )
}

/// In a consistent graph, each node that another rests on is resident and
/// is among the dependents of that other.
proof fn lemma_climb_is_backed(nodes: Map<u32, NodeState>, version: VersionNumber, up: Seq<u32>, j: int)
    requires
        graph_consistent(nodes, version),
        climbs(nodes, up),
        0 <= j < up.len() - 1,
    ensures
        nodes.contains_key(up[j]),
        nodes.contains_key(up[j + 1]),
        nodes[up[j]].rdeps.contains_key(up[j + 1]),
        nodes[up[j]].history.dirtied matches Some(below) ==> nodes[up[j + 1]].history.dirtied matches Some(
            above,
        ) && above.0 >= below.0,
        nodes[up[j + 1]].history.dirtied is None ==> nodes[up[j]].history.since.0 <= nodes[up[j
            + 1]].history.verified.0,
{
    let holder = up[j + 1];
    assert(nodes.contains_key(holder) && reads(nodes[holder], up[j]));
    let read = nodes[holder].deps->0;
    let i = choose|i: int| 0 <= i < read.1.len() && (#[trigger] read.1[i]).key.index == up[j];
    assert(edge_at(nodes, holder, i));
    assert(target_of(nodes, holder, i) == up[j]);
}

/// A cached value without a mark rests only on cached values without a
/// mark: in a consistent graph, if the last node of a climb carries no
/// mark, then every node below it is resident and carries none either, and
/// none of them changed after the node that read it was confirmed.
pub proof fn lemma_unmarked_rests_on_unmarked(
    nodes: Map<u32, NodeState>,
    version: VersionNumber,
    up: Seq<u32>,
    j: int,
)
    requires
        graph_consistent(nodes, version),
        climbs(nodes, up),
        nodes.contains_key(up.last()),
        nodes[up.last()].history.dirtied is None,
        0 <= j < up.len(),
    ensures
        nodes.contains_key(up[j]),
        nodes[up[j]].history.dirtied is None,
        j < up.len() - 1 ==> nodes[up[j]].history.since.0 <= nodes[up[j + 1]].history.verified.0,
    decreases up.len() - j,
{
    if j < up.len() - 1 {
        lemma_unmarked_rests_on_unmarked(nodes, version, up, j + 1);
        lemma_climb_is_backed(nodes, version, up, j);
    }
}

/// Propagating one more write is propagating the others and then dirtying
/// its key.
pub proof fn lemma_propagate_last(
    nodes: Map<u32, NodeState>,
    tasks: Map<u32, DiceTask>,
    pending: Seq<(DiceKey, VersionNumber)>,
    last: (DiceKey, VersionNumber),
    from: int,
)
    requires
        0 <= from <= pending.len(),
    ensures
        propagated(nodes, tasks, pending.push(last), from) == (
            after_dirty(propagated(nodes, tasks, pending, from).0, last.0, last.1),
            propagated(nodes, tasks, pending, from).1.remove_keys(
                notified_set(propagated(nodes, tasks, pending, from).0, last.0, last.1),
            ),
        ),
    decreases pending.len() - from,
{
    let longer = pending.push(last);
    if from < pending.len() {
        assert(longer[from] == pending[from]);
        lemma_propagate_last(
            after_dirty(nodes, pending[from].0, pending[from].1),
            tasks.remove_keys(notified_set(nodes, pending[from].0, pending[from].1)),
            pending,
            last,
            from + 1,
        );
    } else {
        assert(longer[from] == last);
        reveal_with_fuel(propagated, 2);
    }
}

/// An invalidation reaches every node that rests on what was written.
///
/// In a consistent engine, once a write to a key is recorded and the next
/// read has begun, the node of the key and every resident node that read
/// it, directly or through others, carries the mark of the new version, and
/// none of them has a task left in the cache: none of their values is
/// handed out before it was checked.
pub proof fn lemma_write_reaches_every_dependent(s: DiceState, key: DiceKey, up: Seq<u32>, j: int)
    requires
        consistent(s),
        s.version.0 < usize::MAX,
        s.nodes.contains_key(key.index),
        climbs(s.nodes, up),
        up[0] == key.index,
        0 <= j < up.len(),
    ensures
        read_begun(write_recorded(s, key)).nodes.contains_key(up[j]),
        read_begun(write_recorded(s, key)).nodes[up[j]].history.dirtied == Some(
            write_recorded(s, key).version,
        ),
        !read_begun(write_recorded(s, key)).tasks.contains_key(up[j]),
{
    let written = write_recorded(s, key);
    let w = written.version;
    let before = propagated(s.nodes, s.tasks, s.pending, 0);
    lemma_propagate_last(s.nodes, s.tasks, s.pending, (key, w), 0);
    lemma_propagation_keeps_consistent(s.nodes, s.tasks, s.pending, 0, s.version);
    let nodes = before.0;
    assert(climbs(nodes, up)) by {
        assert forall|k: int| 0 <= k < up.len() - 1 implies nodes.contains_key(#[trigger] up[k + 1])
            && reads(nodes[up[k + 1]], up[k]) by {
            assert(s.nodes.contains_key(up[k + 1]));
            assert(same_but_mark(s.nodes[up[k + 1]], nodes[up[k + 1]]));
        }
    }
    let chain = up.take(j + 1);
    assert forall|k: int| 0 <= k < chain.len() implies takes_mark(nodes, #[trigger] chain[k], w) by {
        assert(chain[k] == up[k]);
        if k < up.len() - 1 {
            lemma_climb_is_backed(nodes, s.version, up, k);
        } else if k > 0 {
            lemma_climb_is_backed(nodes, s.version, up, k - 1);
        }
        assert(nodes.contains_key(up[k]));
        assert(node_in_order(nodes[up[k]], s.version));
    }
    assert forall|k: int| 0 <= k < chain.len() - 1 implies nodes[#[trigger] chain[k]].rdeps.contains_key(
        chain[k + 1],
    ) by {
        assert(chain[k] == up[k]);
        assert(chain[k + 1] == up[k + 1]);
        lemma_climb_is_backed(nodes, s.version, up, k);
    }
    assert(is_chain(nodes, chain, w));
    assert(chain[0] == key.index && chain.last() == up[j]);
    assert(notified(nodes, key, up[j], w));
    assert(notified_set(nodes, key, w).contains(up[j]));
}

/// A value that is handed out rests only on values that hold.
///
/// Where a consistent engine answers a request with a result, the node of
/// the key is resident, holds that result and carries no mark; every node
/// it rests on, directly or through others, is resident and carries no
/// mark either, and holds its value since no later than the node that read
/// it was confirmed: no write to any of them is waiting to be looked at.
pub proof fn lemma_answer_rests_on_unmarked(
    s: DiceState,
    key: DiceKey,
    ctx: TransactionCtx,
    up: Seq<u32>,
    j: int,
)
    requires
        consistent(s),
        evaluated(s, key, ctx).1 is Ready,
        climbs(evaluated(s, key, ctx).0.nodes, up),
        up.last() == key.index,
        0 <= j < up.len(),
    ensures
        evaluated(s, key, ctx).0.nodes.contains_key(key.index),
        evaluated(s, key, ctx).1 == Evaluation::Ready(evaluated(s, key, ctx).0.nodes[key.index].value),
        evaluated(s, key, ctx).0.nodes.contains_key(up[j]),
        evaluated(s, key, ctx).0.nodes[up[j]].history.dirtied is None,
        j < up.len() - 1 ==> evaluated(s, key, ctx).0.nodes[up[j]].history.since.0 <= evaluated(
            s,
            key,
            ctx,
        ).0.nodes[up[j + 1]].history.verified.0,
{
    let after = evaluated(s, key, ctx).0;
    lemma_request_keeps_consistent(s, key, ctx);
    lemma_answer_is_cached(s, key, ctx);
    lemma_unmarked_rests_on_unmarked(after.nodes, after.version, up, j);
}

/// A request that is answered with a result leaves that result as the
/// completed task of the key.
pub proof fn lemma_answer_is_cached(s: DiceState, key: DiceKey, ctx: TransactionCtx)
    requires
        consistent(s),
        evaluated(s, key, ctx).1 is Ready,
    ensures
        evaluated(s, key, ctx).0.tasks.contains_key(key.index),
        evaluated(s, key, ctx).0.tasks[key.index] == DiceTask::Ready(
            evaluated(s, key, ctx).1->Ready_0,
        ),
        evaluated(s, key, ctx).0.nodes.contains_key(key.index),
        evaluated(s, key, ctx).0.nodes[key.index].value == evaluated(s, key, ctx).1->Ready_0,
        evaluated(s, key, ctx).0.nodes[key.index].history.dirtied is None,
{
    let after = evaluated(s, key, ctx).0;
    lemma_request_keeps_consistent(s, key, ctx);
    assert(after.tasks.contains_key(key.index));
    assert(task_in_order(after, key.index));
}

} // verus!
