use dice::dependencies::ComputedDependency;
use dice::dependencies::Dependency;
use dice::dependencies::Rdep;
use dice::dependencies::VersionedDependencies;
use dice::dependencies::VersionedRevDependencies;
use dice::history::CellHistory;
use dice::key::DiceKey;
use dice::versions::VersionNumber;
use std::sync::Arc;

fn edges(indices: &[u32]) -> Arc<Vec<Dependency>> {
    Arc::new(indices.iter().map(|i| Dependency::new(DiceKey::new(*i))).collect())
}

fn keys(store: &VersionedDependencies) -> Option<Vec<u32>> {
    store.deps().map(|deps| deps.iter().map(|d| d.key.index).collect())
}

#[test]
fn a_new_store_has_no_snapshot() {
    let store = VersionedDependencies::new();
    assert!(store.deps().is_none());
    assert_eq!(store.version(), None);
    assert!(store.debug_deps().is_none());
}

#[test]
fn the_first_write_is_stored() {
    let mut store = VersionedDependencies::new();
    store.add_deps(VersionNumber(0), edges(&[4, 2]));
    assert_eq!(keys(&store), Some(vec![4, 2]));
    assert_eq!(store.version(), Some(VersionNumber(0)));
}

#[test]
fn the_newer_snapshot_wins_in_arrival_order() {
    let mut store = VersionedDependencies::new();
    store.add_deps(VersionNumber(1), edges(&[1]));
    store.add_deps(VersionNumber(2), edges(&[2, 3]));
    assert_eq!(keys(&store), Some(vec![2, 3]));
    assert_eq!(store.version(), Some(VersionNumber(2)));
}

#[test]
fn the_newer_snapshot_wins_against_arrival_order() {
    let mut store = VersionedDependencies::new();
    store.add_deps(VersionNumber(2), edges(&[2, 3]));
    store.add_deps(VersionNumber(1), edges(&[1]));
    assert_eq!(keys(&store), Some(vec![2, 3]));
    assert_eq!(store.version(), Some(VersionNumber(2)));
}

#[test]
fn a_second_write_at_the_same_version_is_dropped() {
    let mut store = VersionedDependencies::new();
    store.add_deps(VersionNumber(3), edges(&[7]));
    store.add_deps(VersionNumber(3), edges(&[8]));
    assert_eq!(keys(&store), Some(vec![7]));
    let stored = store.debug_deps().as_ref().unwrap();
    assert_eq!(stored.0, VersionNumber(3));
    assert_eq!(stored.1.len(), 1);
}

#[test]
fn a_snapshot_handed_out_is_the_one_that_was_written() {
    let mut store = VersionedDependencies::new();
    let written = edges(&[5, 6]);
    store.add_deps(VersionNumber(1), written.clone());
    let got = store.deps().unwrap();
    assert!(Arc::ptr_eq(&written, &got));
}

#[test]
fn a_new_dependent_is_recorded_at_its_version() {
    let mut rdeps = VersionedRevDependencies::new();
    assert!(rdeps.rdeps().rdeps.is_empty());
    rdeps.add_rdep(Rdep(DiceKey::new(9)), VersionNumber(4));
    assert_eq!(rdeps.rdeps().rdeps.len(), 1);
    assert_eq!(rdeps.rdeps().rdeps.get(&9), Some(&VersionNumber(4)));
}

#[test]
fn the_larger_version_of_a_dependent_wins_then_smaller() {
    let mut rdeps = VersionedRevDependencies::new();
    let d = Rdep(DiceKey::new(1));
    rdeps.add_rdep(d, VersionNumber(5));
    rdeps.add_rdep(d, VersionNumber(3));
    assert_eq!(rdeps.rdeps().rdeps.get(&1), Some(&VersionNumber(5)));
    assert_eq!(rdeps.rdeps().rdeps.len(), 1);
}

#[test]
fn the_larger_version_of_a_dependent_wins_then_larger() {
    let mut rdeps = VersionedRevDependencies::new();
    let d = Rdep(DiceKey::new(1));
    rdeps.add_rdep(d, VersionNumber(3));
    rdeps.add_rdep(d, VersionNumber(5));
    assert_eq!(rdeps.rdeps().rdeps.get(&1), Some(&VersionNumber(5)));
    rdeps.add_rdep(d, VersionNumber(5));
    assert_eq!(rdeps.rdeps().rdeps.get(&1), Some(&VersionNumber(5)));
}

#[test]
fn dependents_are_kept_apart_by_the_node_they_point_at() {
    let mut rdeps = VersionedRevDependencies::new();
    rdeps.add_rdep(Rdep(DiceKey::new(1)), VersionNumber(1));
    rdeps.add_rdep(Rdep(DiceKey::new(2)), VersionNumber(2));
    rdeps.add_rdep(Rdep(DiceKey::new(1)), VersionNumber(3));
    let mut all: Vec<u32> = rdeps.dependents().iter().map(|r| r.0.index).collect();
    all.sort();
    assert_eq!(all, vec![1, 2]);
    assert_eq!(rdeps.rdeps().rdeps.get(&1), Some(&VersionNumber(3)));
    assert_eq!(rdeps.rdeps().rdeps.get(&2), Some(&VersionNumber(2)));
}

#[test]
fn stored_edges_are_equal_when_they_point_at_one_key() {
    let a = Dependency::new(DiceKey::new(3));
    let b = Dependency::new(DiceKey::new(3));
    let c = Dependency::new(DiceKey::new(4));
    assert_eq!(a, b);
    assert_ne!(a, c);
    assert_eq!(a.get_key_equality(), DiceKey::new(3));
    assert_eq!(a.introspect(), DiceKey::new(3));
}

#[test]
fn an_observation_becomes_the_edge_to_its_key() {
    let history = CellHistory::computed_at(VersionNumber(2));
    let seen = ComputedDependency::new(DiceKey::new(6), VersionNumber(2), history);
    assert_eq!(seen.get_history(), history);
    assert_eq!(seen.get_key_equality(), (DiceKey::new(6), VersionNumber(2)));
    assert!(seen.is_valid());
    assert_eq!(seen.into_dependency(), Dependency::new(DiceKey::new(6)));
}

#[test]
fn an_observation_of_a_marked_value_is_not_valid() {
    let mut history = CellHistory::computed_at(VersionNumber(2));
    assert!(history.mark_dirty(VersionNumber(3)));
    let seen = ComputedDependency::new(DiceKey::new(6), VersionNumber(3), history);
    assert!(!seen.is_valid());
}

#[test]
fn observations_are_equal_by_key_and_version_alone() {
    let clean = CellHistory::computed_at(VersionNumber(1));
    let mut marked = CellHistory::computed_at(VersionNumber(1));
    assert!(marked.mark_dirty(VersionNumber(2)));
    assert_ne!(clean, marked);
    let seen = ComputedDependency::new(DiceKey::new(6), VersionNumber(2), clean);
    let seen_marked = ComputedDependency::new(DiceKey::new(6), VersionNumber(2), marked);
    assert_eq!(seen, seen_marked);
    assert_eq!(seen.get_key_equality(), seen_marked.get_key_equality());
    assert!(seen == seen);
}

#[test]
fn observations_at_different_versions_are_unequal() {
    let history = CellHistory::computed_at(VersionNumber(1));
    let earlier = ComputedDependency::new(DiceKey::new(6), VersionNumber(1), history);
    let later = ComputedDependency::new(DiceKey::new(6), VersionNumber(2), history);
    assert_ne!(earlier, later);
    // Stored edges to one key are equal whatever version they come from.
    assert_eq!(earlier.into_dependency(), later.into_dependency());
}

#[test]
fn observations_of_different_keys_are_unequal() {
    let history = CellHistory::computed_at(VersionNumber(1));
    let one = ComputedDependency::new(DiceKey::new(6), VersionNumber(1), history);
    let other = ComputedDependency::new(DiceKey::new(7), VersionNumber(1), history);
    assert_ne!(one, other);
}
