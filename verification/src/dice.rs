//! The engine: it decides, for each request, whether a cached value can be
//! handed out, whether the requester has to compute, or whether it joins a
//! computation that is under way.

use crate::cache::CacheEntry;
use crate::cache::SharedCache;
use crate::cache::entry_of;
use crate::consistency::consistent;
use crate::consistency::lemma_commit_keeps_consistent;
use crate::consistency::lemma_read_keeps_consistent;
use crate::consistency::lemma_reclaim_keeps_consistent;
use crate::consistency::lemma_request_keeps_consistent;
use crate::consistency::lemma_resume_keeps_consistent;
use crate::consistency::lemma_write_keeps_consistent;
use crate::dependencies::ComputedDependency;
use crate::dependencies::Dependency;
use crate::dependencies::Rdep;
use crate::dependencies::stored_edges;
use crate::graph::Graph;
use crate::graph::NodeSnapshot;
use crate::graph::NodeState;
use crate::graph::after_dirty;
use crate::graph::depicts;
use crate::graph::held;
use crate::graph::notified;
use crate::graph::stored;
use crate::graph::verified;
use crate::graph::with_rdep;
use crate::history::CellHistory;
use crate::key::DiceKey;
use crate::registry::DiceKeyIndex;
use crate::registry::ErasedKey;
use crate::registry::interned;
use crate::task::DiceResult;
use crate::task::DiceTask;
use crate::task::same_result;
use crate::versions::MinorVersion;
use crate::versions::VersionClock;
use crate::versions::VersionNumber;
use std::sync::Arc;
use vstd::prelude::*;

verus! {

/// What a read transaction observes: a version, and the ordinal that tells
/// it apart from the other reads of that version.
#[derive(Clone, Copy, Debug, PartialEq, Eq, Structural)]
pub struct TransactionCtx {
    pub version: VersionNumber,
    pub minor: MinorVersion,
}

/// The engine as a mathematical value.
pub ghost struct DiceState {
    /// The identities that the registry has seen, each at the index of its
    /// handle.
    pub keys: Seq<(u64, Seq<u8>)>,
    /// The current version.
    pub version: VersionNumber,
    /// The ordinal that the next read of the current version gets.
    pub next_minor: MinorVersion,
    /// The writes whose invalidation has not been propagated yet, oldest
    /// first.
    pub pending: Seq<(DiceKey, VersionNumber)>,
    /// The shared task cache.
    pub tasks: Map<u32, DiceTask>,
    /// The resident nodes.
    pub nodes: Map<u32, NodeState>,
}

/// The indices of the nodes that dirtying `key` as of `v` marks.
pub open spec fn notified_set(nodes: Map<u32, NodeState>, key: DiceKey, v: VersionNumber) -> Set<u32> {
    Set::new(|i: u32| notified(nodes, key, i, v))
}

/// The nodes and the tasks after the writes `pending[from..]` were
/// propagated, one after the other: each dirties its key as of its version,
/// and the task of every node that this marks leaves the cache.
pub open spec fn propagated(
    nodes: Map<u32, NodeState>,
    tasks: Map<u32, DiceTask>,
    pending: Seq<(DiceKey, VersionNumber)>,
    from: int,
) -> (Map<u32, NodeState>, Map<u32, DiceTask>)
    decreases pending.len() - from,
{
    if from < 0 || from >= pending.len() {
        (nodes, tasks)
    } else {
        propagated(
            after_dirty(nodes, pending[from].0, pending[from].1),
            tasks.remove_keys(notified_set(nodes, pending[from].0, pending[from].1)),
            pending,
            from + 1,
        )
    }
}

/// The engine after a write to `key` was recorded: the version moved on by
/// one and the write waits to be propagated.
pub open spec fn write_recorded(s: DiceState, key: DiceKey) -> DiceState {
    DiceState {
        version: VersionNumber((s.version.0 + 1) as usize),
        next_minor: MinorVersion(0),
        pending: s.pending.push((key, VersionNumber((s.version.0 + 1) as usize))),
        ..s
    }
}

/// The engine after a read transaction began: every recorded write is
/// propagated.
pub open spec fn read_begun(s: DiceState) -> DiceState {
    DiceState {
        next_minor: MinorVersion((s.next_minor.0 + 1) as usize),
        pending: Seq::empty(),
        nodes: propagated(s.nodes, s.tasks, s.pending, 0).0,
        tasks: propagated(s.nodes, s.tasks, s.pending, 0).1,
        ..s
    }
}

/// What the engine answers to a request for a key.
#[derive(Clone, Copy, Debug, PartialEq, Eq)]
pub enum Evaluation {
    /// The value of the key at the version of the transaction.
    Ready(DiceResult),
    /// The requester owns the task of this key: it runs the computation and
    /// commits what comes out.
    Compute(DiceKey),
    /// The requester owns the task, and the cached value may still hold:
    /// this dependency has to be brought up to date first, then the
    /// requester resumes.
    CheckDependency(DiceKey),
    /// Another requester owns the task of this key at this version: the
    /// requester waits for it.
    InFlight(DiceKey),
    /// The transaction is not current: a write was recorded after it began.
    Stale,
}

/// What the recorded dependencies of a node say about its cached value.
#[derive(Clone, Copy, Debug, PartialEq, Eq, Structural)]
pub enum Verdict {
    /// The value holds.
    Reuse,
    /// The value has to be computed again.
    Recompute,
    /// It depends on this key, which is marked possibly stale itself.
    Check(DiceKey),
}

/// Goes through `deps[from..]` in order and stops at the first edge that
/// decides: a target that is gone, or that changed after `confirmed`, asks
/// for a recomputation; a target that is marked asks to be checked first.
pub open spec fn walk(
    nodes: Map<u32, NodeState>,
    confirmed: VersionNumber,
    deps: Seq<Dependency>,
    from: int,
) -> Verdict
    decreases deps.len() - from,
{
    if from < 0 || from >= deps.len() {
        Verdict::Reuse
    } else if !nodes.contains_key(deps[from].key.index) {
        Verdict::Recompute
    } else if nodes[deps[from].key.index].history.dirtied is Some {
        Verdict::Check(deps[from].key)
    } else if nodes[deps[from].key.index].history.since.0 > confirmed.0 {
        Verdict::Recompute
    } else {
        walk(nodes, confirmed, deps, from + 1)
    }
}

/// The verdict on a resident node: a node without a mark holds; a marked
/// node that read nothing is an input that was written, and is computed
/// again; any other marked node goes by its recorded dependencies.
pub open spec fn verdict_of(nodes: Map<u32, NodeState>, node: NodeState) -> Verdict {
    if node.history.dirtied is None {
        Verdict::Reuse
    } else {
        match node.deps {
            Some(read) if read.1.len() > 0 => walk(nodes, node.history.verified, read.1, 0),
            _ => Verdict::Recompute,
        }
    }
}

/// Whether a transaction observes the engine as it is now.
pub open spec fn is_current(s: DiceState, ctx: TransactionCtx) -> bool {
    ctx.version == s.version && s.pending.len() == 0
}

/// The decision for the owner of the task of `key`.
pub open spec fn decided(s: DiceState, key: DiceKey, ctx: TransactionCtx) -> (DiceState, Evaluation) {
    if !s.nodes.contains_key(key.index) {
        (s, Evaluation::Compute(key))
    } else {
        match verdict_of(s.nodes, s.nodes[key.index]) {
            Verdict::Reuse => (
                DiceState {
                    nodes: verified(s.nodes, key, ctx.version),
                    tasks: s.tasks.insert(key.index, DiceTask::Ready(s.nodes[key.index].value)),
                    ..s
                },
                Evaluation::Ready(s.nodes[key.index].value),
            ),
            Verdict::Recompute => (s, Evaluation::Compute(key)),
            Verdict::Check(dependency) => (s, Evaluation::CheckDependency(dependency)),
        }
    }
}

/// The engine after a request for `key`, and its answer. A completed task
/// answers with its value and an in-flight task of this version makes the
/// requester wait; otherwise the requester becomes the owner of the task.
pub open spec fn evaluated(s: DiceState, key: DiceKey, ctx: TransactionCtx) -> (
    DiceState,
    Evaluation,
) {
    if !is_current(s, ctx) {
        (s, Evaluation::Stale)
    } else {
        match entry_of(s.tasks, key) {
            CacheEntry::Occupied(DiceTask::Ready(value)) => (s, Evaluation::Ready(value)),
            CacheEntry::Occupied(DiceTask::Pending(at)) if at == ctx.version => (
                s,
                Evaluation::InFlight(key),
            ),
            _ => decided(
                DiceState { tasks: s.tasks.insert(key.index, DiceTask::Pending(ctx.version)), ..s },
                key,
                ctx,
            ),
        }
    }
}

/// The engine after the owner of the task of `key` resumed, and the answer.
/// A task that is completed answers with its result; where the task is not
/// in flight at the version of the transaction, there is nothing to resume.
pub open spec fn resumed(s: DiceState, key: DiceKey, ctx: TransactionCtx) -> (DiceState, Evaluation) {
    if !is_current(s, ctx) {
        (s, Evaluation::Stale)
    } else {
        match entry_of(s.tasks, key) {
            CacheEntry::Occupied(DiceTask::Ready(value)) => (s, Evaluation::Ready(value)),
            CacheEntry::Occupied(DiceTask::Pending(at)) if at == ctx.version => decided(s, key, ctx),
            _ => (s, Evaluation::Stale),
        }
    }
}

/// The observation that a computation makes of `key` in `ctx`.
pub open spec fn observed_edge(s: DiceState, key: DiceKey, ctx: TransactionCtx) -> Option<
    ComputedDependency,
> {
    if s.nodes.contains_key(key.index) {
        Some(
            ComputedDependency {
                key,
                version: ctx.version,
                history: s.nodes[key.index].history,
            },
        )
    } else {
        None
    }
}

/// Whether an observation made during a computation still holds when the
/// computation commits at `v`: it was made at `v`, of a value that held, and
/// the node it saw is resident, unmarked and unchanged since.
pub open spec fn edge_holds(nodes: Map<u32, NodeState>, edge: ComputedDependency, v: VersionNumber) -> bool {
    &&& edge.version == v
    &&& edge.history.dirtied is None
    &&& nodes.contains_key(edge.key.index)
    &&& nodes[edge.key.index].history.dirtied is None
    &&& nodes[edge.key.index].history.since == edge.history.since
}

/// Whether the computation of `key` may commit: its transaction is current,
/// it owns the task, and every observation it made still holds.
pub open spec fn can_commit(
    s: DiceState,
    key: DiceKey,
    ctx: TransactionCtx,
    observed: Seq<ComputedDependency>,
) -> bool {
    &&& is_current(s, ctx)
    &&& entry_of(s.tasks, key) == CacheEntry::Occupied(DiceTask::Pending(ctx.version))
    &&& forall|i: int| 0 <= i < observed.len() ==> edge_holds(s.nodes, #[trigger] observed[i], ctx.version)
}

/// The graph after the targets of `edges[..upto]` recorded `dependent` at
/// `v`.
pub open spec fn linked(
    nodes: Map<u32, NodeState>,
    edges: Seq<Dependency>,
    dependent: DiceKey,
    v: VersionNumber,
    upto: int,
) -> Map<u32, NodeState>
    decreases upto,
{
    if upto <= 0 {
        nodes
    } else {
        with_rdep(linked(nodes, edges, dependent, v, upto - 1), edges[upto - 1].key, Rdep(dependent), v)
    }
}

/// The version since which a node holds `value` after a computation at `v`
/// produced it: a value equal to the one the node held is no change.
pub open spec fn held_since(nodes: Map<u32, NodeState>, key: DiceKey, value: DiceResult, v: VersionNumber) -> VersionNumber {
    if nodes.contains_key(key.index) && nodes[key.index].value == value {
        nodes[key.index].history.since
    } else {
        v
    }
}

/// The engine after the computation of `key` committed `value` with what it
/// observed: the node holds the value, confirmed at the version of the
/// transaction; the observations are its stored edges; each of their
/// targets records the node as a dependent; the task is completed.
pub open spec fn committed(
    s: DiceState,
    key: DiceKey,
    ctx: TransactionCtx,
    value: DiceResult,
    observed: Seq<ComputedDependency>,
) -> DiceState {
    DiceState {
        nodes: linked(
            stored(
                s.nodes,
                key,
                value,
                CellHistory {
                    since: held_since(s.nodes, key, value, ctx.version),
                    verified: ctx.version,
                    dirtied: None,
                },
                ctx.version,
                stored_edges(observed),
            ),
            stored_edges(observed),
            key,
            ctx.version,
            observed.len() as int,
        ),
        tasks: s.tasks.insert(key.index, DiceTask::Ready(value)),
        ..s
    }
}

/// Whether an answer makes its requester the owner of a task, the one that
/// may run the computation.
pub open spec fn makes_owner(answer: Evaluation) -> bool {
    answer is Compute || answer is CheckDependency
}

/// How many of `n` requests for `key`, made one after the other in the
/// transaction `ctx`, make their requester the owner of the task.
pub open spec fn owners_among(s: DiceState, key: DiceKey, ctx: TransactionCtx, n: nat) -> nat
    decreases n,
{
    if n == 0 {
        0
    } else {
        (if makes_owner(evaluated(s, key, ctx).1) {
            1nat
        } else {
            0nat
        }) + owners_among(evaluated(s, key, ctx).0, key, ctx, (n - 1) as nat)
    }
}

/// Whether requests for `key` in `ctx` find the matter settled: the
/// transaction is stale, or the slot holds a completed task or a task in
/// flight at the version of the transaction.
pub open spec fn settled(s: DiceState, key: DiceKey, ctx: TransactionCtx) -> bool {
    ||| !is_current(s, ctx)
    ||| entry_of(s.tasks, key) is Occupied && entry_of(s.tasks, key)->Occupied_0 is Ready
    ||| entry_of(s.tasks, key) == CacheEntry::Occupied(DiceTask::Pending(ctx.version))
}

/// Once a request for a key was answered, the matter is settled, and a
/// settled request changes nothing and makes nobody an owner.
pub proof fn lemma_request_settles(s: DiceState, key: DiceKey, ctx: TransactionCtx)
    ensures
        settled(evaluated(s, key, ctx).0, key, ctx),
        settled(s, key, ctx) ==> evaluated(s, key, ctx).0 == s && !makes_owner(
            evaluated(s, key, ctx).1,
        ),
{
}

/// Of any number of requests for one key in one transaction, with no write
/// and no commit between them, at most one makes its requester the owner:
/// the computation is started at most once.
pub proof fn lemma_at_most_one_owner(s: DiceState, key: DiceKey, ctx: TransactionCtx, n: nat)
    ensures
        owners_among(s, key, ctx, n) <= 1,
        settled(s, key, ctx) ==> owners_among(s, key, ctx, n) == 0,
    decreases n,
{
    if n > 0 {
        lemma_request_settles(s, key, ctx);
        lemma_at_most_one_owner(evaluated(s, key, ctx).0, key, ctx, (n - 1) as nat);
    }
}

/// Once the matter of a key is settled for a transaction, it stays
/// settled through whatever is asked, resumed or committed, for this key or
/// any other, in this transaction or any other: until a write is recorded
/// or the node is reclaimed, no further requester becomes the owner.
pub proof fn lemma_settled_stays(
    s: DiceState,
    key: DiceKey,
    ctx: TransactionCtx,
    other: DiceKey,
    by: TransactionCtx,
    produced: DiceResult,
    observed: Seq<ComputedDependency>,
)
    requires
        settled(s, key, ctx),
    ensures
        settled(evaluated(s, other, by).0, key, ctx),
        settled(resumed(s, other, by).0, key, ctx),
        can_commit(s, other, by, observed) ==> settled(
            committed(s, other, by, produced, observed),
            key,
            ctx,
        ),
{
}

/// A second request in the same transaction joins the first: it leaves the
/// engine as the first left it, gets the same value where the first got
/// one, and is told to wait where the first became the owner.
pub proof fn lemma_second_request_joins(s: DiceState, key: DiceKey, ctx: TransactionCtx)
    ensures
        ({
            let first = evaluated(s, key, ctx);
            let second = evaluated(first.0, key, ctx);
            &&& second.0 == first.0
            &&& !makes_owner(second.1)
            &&& first.1 is Ready ==> second.1 == first.1
            &&& makes_owner(first.1) ==> second.1 == Evaluation::InFlight(key)
            &&& first.1 is InFlight ==> second.1 == first.1
            &&& first.1 is Stale ==> second.1 == first.1
        }),
{
}

/// What a computation committed is what every request in its transaction
/// gets from then on, without another computation.
pub proof fn lemma_committed_value_is_served(
    s: DiceState,
    key: DiceKey,
    ctx: TransactionCtx,
    value: DiceResult,
    observed: Seq<ComputedDependency>,
)
    requires
        can_commit(s, key, ctx, observed),
    ensures
        evaluated(committed(s, key, ctx, value, observed), key, ctx) == (
            committed(s, key, ctx, value, observed),
            Evaluation::Ready(value),
        ),
{
}

/// A completed task stays what it is through every request, resumption and
/// commit: only the propagation of a write removes it.
pub proof fn lemma_completed_tasks_stay(
    s: DiceState,
    holder: DiceKey,
    value: DiceResult,
    key: DiceKey,
    ctx: TransactionCtx,
    produced: DiceResult,
    observed: Seq<ComputedDependency>,
)
    requires
        entry_of(s.tasks, holder) == CacheEntry::Occupied(DiceTask::Ready(value)),
    ensures
        entry_of(evaluated(s, key, ctx).0.tasks, holder) == CacheEntry::Occupied(
            DiceTask::Ready(value),
        ),
        entry_of(resumed(s, key, ctx).0.tasks, holder) == CacheEntry::Occupied(
            DiceTask::Ready(value),
        ),
        can_commit(s, key, ctx, observed) ==> entry_of(
            committed(s, key, ctx, produced, observed).tasks,
            holder,
        ) == CacheEntry::Occupied(DiceTask::Ready(value)),
{
}

/// The engine after the node of `key` was reclaimed, if it could be.
pub open spec fn reclaimed_state(s: DiceState, key: DiceKey) -> DiceState {
    if s.nodes.contains_key(key.index) && !held(s.nodes, key) {
        DiceState { nodes: s.nodes.remove(key.index), tasks: s.tasks.remove(key.index), ..s }
    } else {
        s
    }
}

/// The incremental computation engine.
pub struct Dice {
    keys: DiceKeyIndex,
    clock: VersionClock,
    cache: SharedCache,
    graph: Graph,
    pending: Vec<(DiceKey, VersionNumber)>,
}

impl View for Dice {
    type V = DiceState;

    closed spec fn view(&self) -> DiceState {
        DiceState {
            keys: self.keys@,
            version: self.clock.version(),
            next_minor: self.clock.next_minor(),
            pending: self.pending@,
            tasks: self.cache@,
            nodes: self.graph@,
        }
    }
}

impl Dice {
    /// What holds of every engine between two calls.
    pub closed spec fn wf(&self) -> bool {
        self.intact() && consistent(self@)
    }

    /// The parts of the engine are well-formed each by itself.
    closed spec fn intact(&self) -> bool {
        self.graph.wf() && self.keys.wf()
    }

    /// An engine is consistent between any two calls.
    pub proof fn lemma_consistent(&self)
        requires
            self.wf(),
        ensures
            consistent(self@),
    {
    }

    /// An engine at version 0 that has computed nothing.
    pub fn new() -> (dice: Dice)
        ensures
            dice.wf(),
            dice@ == (DiceState {
                keys: Seq::empty(),
                version: VersionNumber(0),
                next_minor: MinorVersion(0),
                pending: Seq::empty(),
                tasks: Map::empty(),
                nodes: Map::empty(),
            }),
    {
        let dice = Dice {
            keys: DiceKeyIndex::new(),
            clock: VersionClock::new(),
            cache: SharedCache::new(),
            graph: Graph::new(),
            pending: Vec::new(),
        };
        assert(dice@.keys =~= Seq::empty());
        dice
    }

    /// The handle of the computation with the identity `key`: the one it
    /// got before, or the next index for an identity that is new. Nothing
    /// else changes.
    pub fn intern(&mut self, key: ErasedKey) -> (handle: DiceKey)
        requires
            old(self).wf(),
            old(self)@.keys.contains(key@) || old(self)@.keys.len() < u32::MAX,
        ensures
            final(self).wf(),
            final(self)@ == (DiceState { keys: interned(old(self)@.keys, key@), ..old(self)@ }),
            handle.index < final(self)@.keys.len(),
            final(self)@.keys[handle.index as int] == key@,
            !old(self)@.keys.contains(key@) ==> handle.index == old(self)@.keys.len(),
    {
        self.keys.intern(key)
    }

    /// The handle of the computation with the identity `key`, if the
    /// registry has seen it.
    pub fn handle_of(&self, key: &ErasedKey) -> (found: Option<DiceKey>)
        requires
            self.wf(),
        ensures
            match found {
                Some(handle) => handle.index < self@.keys.len() && self@.keys[handle.index as int]
                    == key@,
                None => !self@.keys.contains(key@),
            },
    {
        self.keys.lookup(key)
    }

    /// The identity that `handle` stands for, if the registry of this
    /// engine issued it.
    pub fn identity(&self, handle: DiceKey) -> (key: Option<&ErasedKey>)
        ensures
            match key {
                Some(key) => handle.index < self@.keys.len() && key@ == self@.keys[handle.index as int],
                None => handle.index >= self@.keys.len(),
            },
    {
        self.keys.get(handle)
    }

    /// Whether the registry can take no identity that is new.
    pub fn keys_exhausted(&self) -> (full: bool)
        ensures
            full == (self@.keys.len() >= u32::MAX),
    {
        self.keys.is_full()
    }

    /// The current version.
    pub fn current_version(&self) -> (v: VersionNumber)
        ensures
            v == self@.version,
    {
        self.clock.current()
    }

    /// Whether the version sequence is used up, so that no further write
    /// can be recorded.
    pub fn is_exhausted(&self) -> (b: bool)
        ensures
            b == (self@.version.0 == usize::MAX),
    {
        self.clock.is_exhausted()
    }

    /// Whether the current version has had as many reads as can be told
    /// apart.
    pub fn reads_exhausted(&self) -> (b: bool)
        ensures
            b == (self@.next_minor.0 == usize::MAX),
    {
        self.clock.reads_exhausted()
    }

    /// Records that the input `key` changed. The version moves on and the
    /// new version comes back; the invalidation itself waits for the next
    /// read transaction.
    pub fn record_write(&mut self, key: DiceKey) -> (v: VersionNumber)
        requires
            old(self).wf(),
            old(self)@.version.0 < usize::MAX,
        ensures
            final(self).wf(),
            final(self)@ == write_recorded(old(self)@, key),
            v == final(self)@.version,
            v.0 == old(self)@.version.0 + 1,
    {
        proof {
            lemma_write_keeps_consistent(old(self)@, key);
        }
        let v = self.clock.advance();
        self.pending.push((key, v));
        v
    }

    /// Begins a read transaction at the current version. Every write
    /// recorded since the last read is propagated first: its key is dirtied
    /// as of its version, dependents included, and the cached task of each
    /// node that this marks is dropped.
    pub fn begin_read(&mut self) -> (ctx: TransactionCtx)
        requires
            old(self).wf(),
            old(self)@.next_minor.0 < usize::MAX,
        ensures
            final(self).wf(),
            final(self)@ == read_begun(old(self)@),
            ctx == (TransactionCtx { version: old(self)@.version, minor: old(self)@.next_minor }),
    {
        proof {
            lemma_read_keeps_consistent(old(self)@);
        }
        let mut i: usize = 0;
        while i < self.pending.len()
            invariant
                self.intact(),
                0 <= i <= self.pending@.len(),
                self.pending@ == old(self).pending@,
                self.clock == old(self).clock,
                self.keys == old(self).keys,
                propagated(self.graph@, self.cache@, self.pending@, i as int) == propagated(
                    old(self).graph@,
                    old(self).cache@,
                    old(self).pending@,
                    0,
                ),
            decreases self.pending@.len() - i,
        {
            let key = self.pending[i].0;
            let v = self.pending[i].1;
            let ghost nodes = self.graph@;
            let ghost tasks = self.cache@;
            let affected = self.graph.dirty(key, v);
            let ghost marked_graph = self.graph;
            let ghost queue = self.pending;
            let ghost clock = self.clock;
            let ghost keys = self.keys;
            let mut j: usize = 0;
            while j < affected.len()
                invariant
                    0 <= j <= affected@.len(),
                    self.graph == marked_graph,
                    self.pending == queue,
                    self.clock == clock,
                    self.keys == keys,
                    self.cache@ == tasks.remove_keys(
                        Set::new(
                            |k: u32|
                                exists|at: int| 0 <= at < j && (#[trigger] affected@[at]).index == k,
                        ),
                    ),
                decreases affected@.len() - j,
            {
                self.cache.invalidate(affected[j]);
                j = j + 1;
                assert(self.cache@ =~= tasks.remove_keys(
                    Set::new(
                        |k: u32| exists|at: int| 0 <= at < j && (#[trigger] affected@[at]).index == k,
                    ),
                ));
            }
            proof {
                assert forall|k: u32|
                    (exists|at: int| 0 <= at < j && (#[trigger] affected@[at]).index == k)
                        <==> notified(nodes, key, k, v) by {
                    if notified(nodes, key, k, v) {
                        let hit = DiceKey { index: k };
                        assert(affected@.contains(hit));
                        let at = choose|at: int| 0 <= at < affected@.len() && affected@[at] == hit;
                        assert(affected@[at].index == k);
                    }
                    if exists|at: int| 0 <= at < j && (#[trigger] affected@[at]).index == k {
                        let at = choose|at: int| 0 <= at < j && (#[trigger] affected@[at]).index == k;
                        assert(affected@.contains(affected@[at]));
                    }
                }
                assert(self.cache@ =~= tasks.remove_keys(notified_set(nodes, key, v)));
            }
            i = i + 1;
        }
        self.pending.clear();
        let at = self.clock.begin_read();
        TransactionCtx { version: at.0, minor: at.1 }
    }

    /// Whether `ctx` observes the engine as it is now.
    pub fn observes_now(&self, ctx: TransactionCtx) -> (b: bool)
        ensures
            b == is_current(self@, ctx),
    {
        ctx.version.0 == self.clock.current().0 && self.pending.len() == 0
    }

    /// The verdict on the resident node of `key`.
    fn judge(&self, key: DiceKey) -> (verdict: Verdict)
        requires
            self.intact(),
            self@.nodes.contains_key(key.index),
        ensures
            verdict == verdict_of(self@.nodes, self@.nodes[key.index]),
    {
        let node = match self.graph.lookup(key) {
            Some(node) => node,
            None => {
                return Verdict::Recompute;
            },
        };
        let history = node.history();
        if !history.is_dirty() {
            return Verdict::Reuse;
        }
        let read = match node.deps() {
            Some(read) => read,
            None => {
                return Verdict::Recompute;
            },
        };
        if read.len() == 0 {
            return Verdict::Recompute;
        }
        let mut i: usize = 0;
        while i < read.len()
            invariant
                self.intact(),
                0 <= i <= read@.len(),
                verdict_of(self@.nodes, self@.nodes[key.index]) == walk(
                    self.graph@,
                    history.verified,
                    read@,
                    0,
                ),
                walk(self.graph@, history.verified, read@, i as int) == walk(
                    self.graph@,
                    history.verified,
                    read@,
                    0,
                ),
            decreases read@.len() - i,
        {
            let target = read[i].key;
            match self.graph.lookup(target) {
                None => {
                    return Verdict::Recompute;
                },
                Some(seen) => {
                    let theirs = seen.history();
                    if theirs.is_dirty() {
                        return Verdict::Check(target);
                    }
                    if theirs.since.0 > history.verified.0 {
                        return Verdict::Recompute;
                    }
                },
            }
            i = i + 1;
        }
        Verdict::Reuse
    }

    /// Decides for the owner of the task of `key`.
    fn decide(&mut self, key: DiceKey, ctx: TransactionCtx) -> (outcome: Evaluation)
        requires
            old(self).intact(),
        ensures
            final(self).intact(),
            (final(self)@, outcome) == decided(old(self)@, key, ctx),
    {
        let value = match self.graph.lookup(key) {
            Some(node) => node.value(),
            None => {
                return Evaluation::Compute(key);
            },
        };
        match self.judge(key) {
            Verdict::Reuse => {
                self.graph.verify(key, ctx.version);
                self.cache.set(key, DiceTask::Ready(value));
                Evaluation::Ready(value)
            },
            Verdict::Recompute => Evaluation::Compute(key),
            Verdict::Check(dependency) => Evaluation::CheckDependency(dependency),
        }
    }

    /// Answers a request for the value of `key` in the transaction `ctx`.
    ///
    /// A completed task answers with its value, whoever asks and however
    /// often. Of the requesters that find no task of this version, exactly
    /// the first becomes its owner; it is told to reuse the cached value, to
    /// check a dependency first, or to compute. Every other requester is
    /// told that the task is in flight.
    pub fn evaluate(&mut self, key: DiceKey, ctx: TransactionCtx) -> (outcome: Evaluation)
        requires
            old(self).wf(),
        ensures
            final(self).wf(),
            (final(self)@, outcome) == evaluated(old(self)@, key, ctx),
    {
        proof {
            lemma_request_keeps_consistent(old(self)@, key, ctx);
        }
        if !self.observes_now(ctx) {
            return Evaluation::Stale;
        }
        let ghost before = self@;
        match self.cache.occupy(key, DiceTask::Pending(ctx.version)) {
            CacheEntry::Occupied(DiceTask::Ready(value)) => {
                assert(self@ == before);
                Evaluation::Ready(value)
            },
            CacheEntry::Occupied(DiceTask::Pending(at)) => {
                if at.0 == ctx.version.0 {
                    assert(self@ == before);
                    Evaluation::InFlight(key)
                } else {
                    self.cache.set(key, DiceTask::Pending(ctx.version));
                    self.decide(key, ctx)
                }
            },
            CacheEntry::Vacant => self.decide(key, ctx),
        }
    }

    /// Lets the owner of the task of `key` go on after it brought a
    /// dependency up to date: the engine decides again. A task that is
    /// completed answers with its result; anyone who resumes a task that is
    /// not in flight at the version of the transaction is told `Stale`.
    pub fn resume(&mut self, key: DiceKey, ctx: TransactionCtx) -> (outcome: Evaluation)
        requires
            old(self).wf(),
        ensures
            final(self).wf(),
            (final(self)@, outcome) == resumed(old(self)@, key, ctx),
    {
        proof {
            lemma_resume_keeps_consistent(old(self)@, key, ctx);
        }
        if !self.observes_now(ctx) {
            return Evaluation::Stale;
        }
        match self.cache.get(key) {
            CacheEntry::Occupied(DiceTask::Ready(value)) => Evaluation::Ready(value),
            CacheEntry::Occupied(DiceTask::Pending(at)) => {
                if at.0 == ctx.version.0 {
                    self.decide(key, ctx)
                } else {
                    Evaluation::Stale
                }
            },
            CacheEntry::Vacant => Evaluation::Stale,
        }
    }

    /// What a running computation records when it has read the value of
    /// `key` in the transaction `ctx`: the key, the version, and the history
    /// of the value it saw. `None` where the node is not resident.
    pub fn observe(&self, key: DiceKey, ctx: TransactionCtx) -> (edge: Option<ComputedDependency>)
        requires
            self.wf(),
        ensures
            edge == observed_edge(self@, key, ctx),
    {
        match self.graph.lookup(key) {
            Some(node) => Some(ComputedDependency::new(key, ctx.version, node.history())),
            None => None,
        }
    }

    /// Whether the observation `edge` still holds for a commit at `v`.
    fn holds(&self, edge: &ComputedDependency, v: VersionNumber) -> (b: bool)
        requires
            self.intact(),
        ensures
            b == edge_holds(self@.nodes, *edge, v),
    {
        if edge.version.0 != v.0 || !edge.is_valid() {
            return false;
        }
        match self.graph.lookup(edge.key) {
            Some(node) => {
                let history = node.history();
                !history.is_dirty() && history.since.0 == edge.history.since.0
            },
            None => false,
        }
    }

    /// Commits what the computation of `key` produced in the transaction
    /// `ctx`: its value and what it observed on the way.
    ///
    /// The commit is taken if and only if the transaction is current, the
    /// task of `key` is in flight at its version, and every observation
    /// still holds. A commit that is not taken changes nothing: a
    /// computation that was superseded drops its result silently.
    pub fn commit(
        &mut self,
        key: DiceKey,
        ctx: TransactionCtx,
        value: DiceResult,
        observed: Vec<ComputedDependency>,
    ) -> (taken: bool)
        requires
            old(self).wf(),
        ensures
            final(self).wf(),
            taken == can_commit(old(self)@, key, ctx, observed@),
            final(self)@ == (if taken {
                committed(old(self)@, key, ctx, value, observed@)
            } else {
                old(self)@
            }),
    {
        proof {
            if can_commit(old(self)@, key, ctx, observed@) {
                lemma_commit_keeps_consistent(old(self)@, key, ctx, value, observed@);
            }
        }
        if !self.observes_now(ctx) {
            return false;
        }
        match self.cache.get(key) {
            CacheEntry::Occupied(DiceTask::Pending(at)) => {
                if at.0 != ctx.version.0 {
                    return false;
                }
            },
            _ => {
                return false;
            },
        }
        let v = ctx.version;
        let mut i: usize = 0;
        while i < observed.len()
            invariant
                self.wf(),
                *self == *old(self),
                v == ctx.version,
                0 <= i <= observed@.len(),
                forall|j: int| 0 <= j < i ==> edge_holds(self@.nodes, #[trigger] observed@[j], v),
            decreases observed@.len() - i,
        {
            if !self.holds(&observed[i], v) {
                assert(!edge_holds(old(self)@.nodes, observed@[i as int], ctx.version));
                return false;
            }
            i = i + 1;
        }
        let ghost seen = observed@;
        let mut edges: Vec<Dependency> = Vec::new();
        for edge in it: observed
            invariant
                it.seq() == seen,
                edges@.len() == it.index(),
                forall|j: int| 0 <= j < edges@.len() ==> #[trigger] edges@[j] == stored_edges(seen)[j],
        {
            edges.push(edge.into_dependency());
        }
        assert(edges@ =~= stored_edges(seen));
        let since = match self.graph.lookup(key) {
            Some(node) => {
                if same_result(&node.value(), &value) {
                    node.history().since
                } else {
                    v
                }
            },
            None => v,
        };
        let links = Arc::new(edges);
        let shared = crate::dependencies::dupe_snapshot(&links);
        self.graph.store(key, value, CellHistory { since, verified: v, dirtied: None }, v, shared);
        let ghost base = self.graph@;
        let mut j: usize = 0;
        while j < links.len()
            invariant
                self.intact(),
                0 <= j <= links@.len(),
                self.cache == old(self).cache,
                self.clock == old(self).clock,
                self.pending == old(self).pending,
                self.keys == old(self).keys,
                self.graph@ == linked(base, links@, key, v, j as int),
            decreases links@.len() - j,
        {
            self.graph.add_rdep(links[j].key, Rdep(key), v);
            j = j + 1;
        }
        self.cache.set(key, DiceTask::Ready(value));
        true
    }

    /// Reclaims the node of `key`, and its cached task with it, once no
    /// edge holds it: the node goes if it is resident and no other resident
    /// node holds an edge to it. Whatever points back at the node from the
    /// reverse dependencies of other nodes does not keep it; it stays
    /// behind and points at nothing.
    pub fn evict(&mut self, key: DiceKey) -> (reclaimed: bool)
        requires
            old(self).wf(),
        ensures
            final(self).wf(),
            reclaimed == (old(self)@.nodes.contains_key(key.index) && !held(old(self)@.nodes, key)),
            final(self)@ == reclaimed_state(old(self)@, key),
    {
        proof {
            lemma_reclaim_keeps_consistent(old(self)@, key);
        }
        if self.graph.evict(key) {
            self.cache.invalidate(key);
            true
        } else {
            assert(self@.nodes =~= old(self)@.nodes);
            false
        }
    }

    /// A dump of the graph for tools: every resident node once, with its
    /// value, its history and its edges in both directions.
    pub fn introspect(&self) -> (dump: Vec<NodeSnapshot>)
        requires
            self.wf(),
        ensures
            forall|i: int| 0 <= i < dump@.len() ==> depicts(#[trigger] dump@[i], self@.nodes),
            forall|i: int, j: int|
                0 <= i < dump@.len() && 0 <= j < dump@.len() && i != j ==> dump@[i].key
                    != dump@[j].key,
            forall|k: DiceKey|
                self@.nodes.contains_key(k.index) ==> exists|i: int|
                    0 <= i < dump@.len() && (#[trigger] dump@[i]).key == k,
    {
        self.graph.introspect()
    }

    /// The number of tasks in the shared cache.
    pub fn active_tasks_count(&self) -> (n: usize)
        ensures
            crate::cache::counts(n, self@.tasks),
    {
        self.cache.active_tasks_count()
    }
}

/// The engine after the target of `edge` was asked for again, and what the
/// asker gets: the answer, and with a value the observation of it.
pub open spec fn recomputed(s: DiceState, edge: Dependency, ctx: TransactionCtx) -> (
    DiceState,
    (Evaluation, Option<ComputedDependency>),
) {
    (
        evaluated(s, edge.key, ctx).0,
        (
            evaluated(s, edge.key, ctx).1,
            if evaluated(s, edge.key, ctx).1 is Ready {
                observed_edge(evaluated(s, edge.key, ctx).0, edge.key, ctx)
            } else {
                None
            },
        ),
    )
}

impl Dependency {
    /// Asks for the current value of the target of this edge, as a
    /// dependent does that checks whether it still holds. With a value
    /// comes the observation of it; any other answer is for the asker to
    /// act on.
    pub fn recompute(&self, dice: &mut Dice, ctx: TransactionCtx) -> (answer: (
        Evaluation,
        Option<ComputedDependency>,
    ))
        requires
            old(dice).wf(),
        ensures
            final(dice).wf(),
            (final(dice)@, answer) == recomputed(old(dice)@, *self, ctx),
    {
        let outcome = dice.evaluate(self.key, ctx);
        match outcome {
            Evaluation::Ready(_) => (outcome, dice.observe(self.key, ctx)),
            _ => (outcome, None),
        }
    }
}

} // verus!
