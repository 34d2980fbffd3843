use dice::history::CellHistory;
use dice::versions::VersionNumber;

#[test]
fn a_computed_value_holds_from_its_version_on() {
    let history = CellHistory::computed_at(VersionNumber(4));
    assert_eq!(history.since, VersionNumber(4));
    assert_eq!(history.verified, VersionNumber(4));
    assert_eq!(history.dirtied, None);
    assert!(!history.is_dirty());
}

#[test]
fn a_later_mark_replaces_an_earlier_one() {
    let mut history = CellHistory::computed_at(VersionNumber(1));
    assert!(history.would_accept(VersionNumber(2)));
    assert!(history.mark_dirty(VersionNumber(2)));
    assert_eq!(history.dirtied, Some(VersionNumber(2)));
    assert!(history.mark_dirty(VersionNumber(5)));
    assert_eq!(history.dirtied, Some(VersionNumber(5)));
}

#[test]
fn a_mark_at_the_same_or_an_older_version_changes_nothing() {
    let mut history = CellHistory::computed_at(VersionNumber(1));
    assert!(history.mark_dirty(VersionNumber(5)));
    assert!(!history.would_accept(VersionNumber(5)));
    assert!(!history.mark_dirty(VersionNumber(5)));
    assert!(!history.mark_dirty(VersionNumber(3)));
    assert_eq!(history.dirtied, Some(VersionNumber(5)));
}

#[test]
fn confirming_removes_the_mark_and_never_lowers_the_version() {
    let mut history = CellHistory::computed_at(VersionNumber(3));
    history.mark_dirty(VersionNumber(4));
    history.mark_verified(VersionNumber(4));
    assert_eq!(
        history,
        CellHistory { since: VersionNumber(3), verified: VersionNumber(4), dirtied: None }
    );
    history.mark_verified(VersionNumber(2));
    assert_eq!(history.verified, VersionNumber(4));
}
