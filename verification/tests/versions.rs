use dice::versions::MinorVersion;
use dice::versions::VersionClock;
use dice::versions::VersionNumber;

#[test]
fn a_new_clock_is_at_version_zero() {
    let clock = VersionClock::new();
    assert_eq!(clock.current(), VersionNumber(0));
    assert!(!clock.is_exhausted());
    assert!(!clock.reads_exhausted());
}

#[test]
fn every_write_issues_a_version_that_was_never_issued() {
    let mut clock = VersionClock::new();
    let mut last = clock.current();
    for expected in 1..=5usize {
        let next = clock.advance();
        assert_eq!(next, VersionNumber(expected));
        assert!(next > last);
        assert_eq!(clock.current(), next);
        last = next;
    }
}

#[test]
fn reads_of_one_version_get_minor_versions_in_turn() {
    let mut clock = VersionClock::new();
    assert_eq!(clock.begin_read(), (VersionNumber(0), MinorVersion(0)));
    assert_eq!(clock.begin_read(), (VersionNumber(0), MinorVersion(1)));
    assert_eq!(clock.advance(), VersionNumber(1));
    assert_eq!(clock.begin_read(), (VersionNumber(1), MinorVersion(0)));
}

#[test]
fn versions_compare_by_their_number() {
    assert!(VersionNumber::new(3).is_newer_than(VersionNumber::new(2)));
    assert!(!VersionNumber::new(2).is_newer_than(VersionNumber::new(2)));
    assert!(!VersionNumber::new(1).is_newer_than(VersionNumber::new(2)));
    assert_eq!(VersionNumber(4).latest(VersionNumber(9)), VersionNumber(9));
    assert_eq!(VersionNumber(9).latest(VersionNumber(4)), VersionNumber(9));
    assert_eq!(MinorVersion::new(2), MinorVersion(2));
}
