//! The forward and the reverse dependencies of a node of the computation
//! graph.

use crate::history::CellHistory;
use crate::key::DiceKey;
use crate::versions::VersionNumber;
use dupe::Dupe;
use std::collections::HashMap;
use std::collections::hash_map::Entry;
use std::sync::Arc;
use vstd::prelude::*;
use vstd::std_specs::cmp::PartialEqSpec;
use vstd::std_specs::cmp::PartialEqSpecImpl;
use vstd::std_specs::iter::IteratorSpec;

verus! {

broadcast use vstd::std_specs::hash::group_hash_axioms;

/// A stored forward edge: the node that holds it read the node of `key` when
/// it was last computed. Edges are equal exactly when they point at the same
/// key, whatever version they were recorded at.
#[derive(Clone, Copy, Debug, PartialEq, Eq, Structural, Hash)]
pub struct Dependency {
    pub key: DiceKey,
}

impl Dependency {
    pub fn new(key: DiceKey) -> (edge: Self)
        ensures
            edge.key == key,
    {
        Dependency { key }
    }

    /// What two edges are compared by: the key they point at.
    pub fn get_key_equality(&self) -> (key: DiceKey)
        ensures
            key == self.key,
    {
        self.key
    }
}

/// A freshly observed edge: a computation that is still running asked for
/// `key` at `version` and saw a value with this history. It is not part of
/// the graph until the computation commits.
///
/// Two observations are equal exactly when they are of the same key at the
/// same version, whatever history each of them saw.
#[derive(Debug)]
pub struct ComputedDependency {
    pub key: DiceKey,
    pub version: VersionNumber,
    pub history: CellHistory,
}

impl PartialEq for ComputedDependency {
    fn eq(&self, other: &Self) -> (equal: bool) {
        self.key.index == other.key.index && self.version.0 == other.version.0
    }
}

impl Eq for ComputedDependency {

}

impl PartialEqSpecImpl for ComputedDependency {
    open spec fn obeys_eq_spec() -> bool {
        true
    }

    open spec fn eq_spec(&self, other: &Self) -> bool {
        self.key.index == other.key.index && self.version.0 == other.version.0
    }
}

/// Observed edges are compared by the pair that `get_key_equality` gives,
/// and by nothing else: the history that was seen plays no part.
pub proof fn lemma_observations_equal_by_key_and_version(a: ComputedDependency, b: ComputedDependency)
    ensures
        PartialEqSpec::eq_spec(&a, &b) <==> (a.key, a.version) == (b.key, b.version),
        PartialEqSpec::eq_spec(&a, &a),
        PartialEqSpec::eq_spec(&a, &b) ==> PartialEqSpec::eq_spec(&b, &a),
{
}

impl ComputedDependency {
    pub fn new(key: DiceKey, version: VersionNumber, history: CellHistory) -> (edge: Self)
        ensures
            edge == (ComputedDependency { key, version, history }),
    {
        ComputedDependency { key, version, history }
    }

    /// For which versions the value that was observed holds.
    pub fn get_history(&self) -> (history: CellHistory)
        ensures
            history == self.history,
    {
        self.history
    }

    /// The stored edge that this observation becomes when its computation
    /// commits. The observation is used up.
    pub fn into_dependency(self) -> (edge: Dependency)
        ensures
            edge == (Dependency { key: self.key }),
    {
        Dependency { key: self.key }
    }

    /// What two observations are compared by: the key they point at and the
    /// version they were made at.
    pub fn get_key_equality(&self) -> (id: (DiceKey, VersionNumber))
        ensures
            id == (self.key, self.version),
    {
        (self.key, self.version)
    }

    /// Whether the value that was observed was known to hold: an
    /// observation of a value that was marked possibly stale must not be
    /// committed.
    pub fn is_valid(&self) -> (valid: bool)
        ensures
            valid == (self.history.dirtied is None),
    {
        !self.history.is_dirty()
    }
}

/// The stored edges that a list of observations becomes, in order.
pub open spec fn stored_edges(observed: Seq<ComputedDependency>) -> Seq<Dependency> {
    Seq::new(observed.len(), |i: int| Dependency { key: observed[i].key })
}

/// What a forward-dependency store holds after a write of `deps` at version
/// `v` onto `current`: the written snapshot where it is strictly newer than
/// the stored one, the stored one otherwise.
pub open spec fn snapshot_after(
    current: Option<(VersionNumber, Seq<Dependency>)>,
    v: VersionNumber,
    deps: Seq<Dependency>,
) -> Option<(VersionNumber, Seq<Dependency>)> {
    match current {
        Some(stored) if v.0 <= stored.0.0 => current,
        _ => Some((v, deps)),
    }
}

/// Hands out a second handle to a shared snapshot through `Dupe::dupe`,
/// which for an `Arc` is its `clone`: the new handle points at the same
/// vector.
#[verifier::external_body]
pub(crate) fn dupe_snapshot(deps: &Arc<Vec<Dependency>>) -> (shared: Arc<Vec<Dependency>>)
    ensures
        shared == *deps,
{
    deps.dupe()
}

/// The outgoing edges of one node, as of the most recent computation that
/// wrote them. Only the newest snapshot is kept.
pub struct VersionedDependencies {
    deps: Option<(VersionNumber, Arc<Vec<Dependency>>)>,
}

impl View for VersionedDependencies {
    type V = Option<(VersionNumber, Seq<Dependency>)>;

    closed spec fn view(&self) -> Self::V {
        match self.deps {
            Some(stored) => Some((stored.0, stored.1@)),
            None => None,
        }
    }
}

impl VersionedDependencies {
    /// The store of a node that was never computed.
    pub fn new() -> (store: Self)
        ensures
            store@ is None,
    {
        Self { deps: None }
    }

    /// The current snapshot, or `None` where the node was never computed.
    pub fn deps(&self) -> (snapshot: Option<Arc<Vec<Dependency>>>)
        ensures
            match snapshot {
                Some(deps) => self@ matches Some(stored) && deps@ == stored.1,
                None => self@ is None,
            },
    {
        match &self.deps {
            Some(stored) => Some(dupe_snapshot(&stored.1)),
            None => None,
        }
    }

    /// The version the current snapshot was written at.
    pub fn version(&self) -> (v: Option<VersionNumber>)
        ensures
            match v {
                Some(v) => self@ matches Some(stored) && v == stored.0,
                None => self@ is None,
            },
    {
        match &self.deps {
            Some(stored) => Some(stored.0),
            None => None,
        }
    }

    /// Writes the snapshot `deps` of version `v`. It replaces the stored
    /// snapshot if and only if `v` is strictly greater than the stored
    /// version; an older or equal write is dropped.
    pub fn add_deps(&mut self, v: VersionNumber, deps: Arc<Vec<Dependency>>)
        ensures
            final(self)@ == snapshot_after(old(self)@, v, deps@),
    {
        let replace = match &self.deps {
            Some(stored) => v.0 > stored.0.0,
            None => true,
        };
        if replace {
            self.deps = Some((v, deps));
        }
    }

    /// The stored pair as it is, for tools that dump the graph.
    pub fn debug_deps(&self) -> (stored: &Option<(VersionNumber, Arc<Vec<Dependency>>)>)
        ensures
            match *stored {
                Some(pair) => self@ == Some((pair.0, pair.1@)),
                None => self@ is None,
            },
    {
        &self.deps
    }
}

/// Two writes at versions `older < newer` leave the newer snapshot in a
/// store that held nothing as new as it, whichever of the two arrives first.
pub proof fn lemma_newer_snapshot_wins(
    current: Option<(VersionNumber, Seq<Dependency>)>,
    older: VersionNumber,
    older_deps: Seq<Dependency>,
    newer: VersionNumber,
    newer_deps: Seq<Dependency>,
)
    requires
        older.0 < newer.0,
        current matches Some(stored) ==> stored.0.0 < newer.0,
    ensures
        snapshot_after(snapshot_after(current, older, older_deps), newer, newer_deps) == Some(
            (newer, newer_deps),
        ),
        snapshot_after(snapshot_after(current, newer, newer_deps), older, older_deps) == Some(
            (newer, newer_deps),
        ),
{
}

/// Writes at different versions commute on every store: the order of
/// arrival never shows in what is stored.
pub proof fn lemma_snapshot_writes_commute(
    current: Option<(VersionNumber, Seq<Dependency>)>,
    v1: VersionNumber,
    deps1: Seq<Dependency>,
    v2: VersionNumber,
    deps2: Seq<Dependency>,
)
    requires
        v1 != v2,
    ensures
        snapshot_after(snapshot_after(current, v1, deps1), v2, deps2) == snapshot_after(
            snapshot_after(current, v2, deps2),
            v1,
            deps1,
        ),
{
}

/// A write never lowers the stored version, and a stored snapshot changes
/// only to the one written.
pub proof fn lemma_snapshot_version_monotonic(
    current: Option<(VersionNumber, Seq<Dependency>)>,
    v: VersionNumber,
    deps: Seq<Dependency>,
)
    ensures
        snapshot_after(current, v, deps) matches Some(after) && after.0.0 >= v.0 && (
        current matches Some(stored) ==> after.0.0 >= stored.0.0) && (after == (v, deps)
            || current == Some(after)),
{
}

/// A back-reference to a dependent node that does not keep it alive. It is
/// compared by the identity of the node it points at, never by content.
#[derive(Clone, Copy, Debug, PartialEq, Eq, Structural, Hash)]
pub struct Rdep(pub DiceKey);

/// What a reverse-dependency table records after `dependent` was observed at
/// `version`: a new entry, or the entry it had if that is at least as new.
pub open spec fn rdeps_after(
    recorded: Map<u32, VersionNumber>,
    dependent: Rdep,
    version: VersionNumber,
) -> Map<u32, VersionNumber> {
    if recorded.contains_key(dependent.0.index) && recorded[dependent.0.index].0 >= version.0 {
        recorded
    } else {
        recorded.insert(dependent.0.index, version)
    }
}

/// Observing one dependent at two versions records the larger of them,
/// whichever call comes first, in a table that held nothing newer for it.
pub proof fn lemma_larger_rdep_version_wins(
    recorded: Map<u32, VersionNumber>,
    dependent: Rdep,
    larger: VersionNumber,
    smaller: VersionNumber,
)
    requires
        smaller.0 < larger.0,
        recorded.contains_key(dependent.0.index) ==> recorded[dependent.0.index].0 <= larger.0,
    ensures
        rdeps_after(rdeps_after(recorded, dependent, larger), dependent, smaller)[dependent.0.index]
            == larger,
        rdeps_after(rdeps_after(recorded, dependent, smaller), dependent, larger)[dependent.0.index]
            == larger,
        rdeps_after(rdeps_after(recorded, dependent, larger), dependent, smaller) == rdeps_after(
            recorded,
            dependent,
            larger,
        ),
{
}

/// Observations commute: two calls in either order leave the same table.
pub proof fn lemma_rdep_observations_commute(
    recorded: Map<u32, VersionNumber>,
    d1: Rdep,
    v1: VersionNumber,
    d2: Rdep,
    v2: VersionNumber,
)
    ensures
        rdeps_after(rdeps_after(recorded, d1, v1), d2, v2) == rdeps_after(
            rdeps_after(recorded, d2, v2),
            d1,
            v1,
        ),
{
    assert(rdeps_after(rdeps_after(recorded, d1, v1), d2, v2) =~= rdeps_after(
        rdeps_after(recorded, d2, v2),
        d1,
        v1,
    ));
}

/// An observation never lowers a recorded version, never removes a
/// dependent, and touches no other dependent's entry.
pub proof fn lemma_rdep_version_monotonic(
    recorded: Map<u32, VersionNumber>,
    dependent: Rdep,
    version: VersionNumber,
)
    ensures
        rdeps_after(recorded, dependent, version).contains_key(dependent.0.index),
        rdeps_after(recorded, dependent, version)[dependent.0.index].0 >= version.0,
        forall|other: u32| #[trigger]
            recorded.contains_key(other) ==> rdeps_after(recorded, dependent, version).contains_key(
                other,
            ) && rdeps_after(recorded, dependent, version)[other].0 >= recorded[other].0,
        forall|other: u32|
            other != dependent.0.index ==> (#[trigger] rdeps_after(
                recorded,
                dependent,
                version,
            ).contains_key(other) <==> recorded.contains_key(other)),
{
}

/// The dependents of one node, each under the index of its key, with the
/// version at which the edge was last observed.
pub struct VersionedRevDependenciesData {
    pub rdeps: HashMap<u32, VersionNumber>,
}

/// The set of reverse dependencies of a node.
pub struct VersionedRevDependencies {
    data: VersionedRevDependenciesData,
}

impl View for VersionedRevDependencies {
    type V = Map<u32, VersionNumber>;

    closed spec fn view(&self) -> Self::V {
        self.data.rdeps@
    }
}

impl VersionedRevDependencies {
    /// The table of a node nothing depends on yet.
    pub fn new() -> (store: Self)
        ensures
            store@ == Map::<u32, VersionNumber>::empty(),
    {
        Self { data: VersionedRevDependenciesData { rdeps: HashMap::new() } }
    }

    /// Records that `dependent` read this node at `current_version`. A new
    /// dependent is inserted; a known one keeps the larger of the two
    /// versions, whatever order the calls come in.
    pub fn add_rdep(&mut self, dependent: Rdep, current_version: VersionNumber)
        ensures
            final(self)@ == rdeps_after(old(self)@, dependent, current_version),
    {
        match self.data.rdeps.entry(dependent.0.index) {
            Entry::Occupied(mut entry) => {
                if entry.get().0 < current_version.0 {
                    entry.insert(current_version);
                }
            },
            Entry::Vacant(v) => {
                v.insert(current_version);
            },
        }
        assert(final(self)@ =~= rdeps_after(old(self)@, dependent, current_version));
    }

    /// The dependents in the table, each once, in no particular order.
    pub fn dependents(&self) -> (all: Vec<Rdep>)
        ensures
            all@.no_duplicates(),
            forall|r: Rdep| all@.contains(r) <==> self@.contains_key(r.0.index),
    {
        let mut all: Vec<Rdep> = Vec::new();
        let ghost keys = self.data.rdeps.keys().remaining().unref();
        assert(keys.no_duplicates()) by {
            let refs = self.data.rdeps.keys().remaining();
            assert forall|i: int, j: int| 0 <= i < keys.len() && 0 <= j < keys.len() && i != j implies keys[i] != keys[j] by {
                assert(refs[i] != refs[j]);
            }
        }
        for index in it: self.data.rdeps.keys()
            invariant
                it.seq().unref() == keys,
                all@.len() == it.index(),
                forall|i: int| 0 <= i < all@.len() ==> (#[trigger] all@[i]).0.index == keys[i],
        {
            all.push(Rdep(DiceKey { index: *index }));
        }
        proof {
            assert forall|r: Rdep| all@.contains(r) <==> self@.contains_key(r.0.index) by {
                if all@.contains(r) {
                    let i = choose|i: int| 0 <= i < all@.len() && all@[i] == r;
                    assert(keys[i] == r.0.index);
                    assert(keys.to_set().contains(r.0.index));
                }
                if self@.contains_key(r.0.index) {
                    assert(keys.to_set().contains(r.0.index));
                    let i = choose|i: int| 0 <= i < keys.len() && keys[i] == r.0.index;
                    assert(all@[i] == r);
                }
            }
        }
        all
    }

    /// The table itself, for walking the dependents.
    pub fn rdeps(&self) -> (data: &VersionedRevDependenciesData)
        ensures
            data.rdeps@ == self@,
    {
        &self.data
    }
}

} // verus!
