//! The version clock: major versions count committed writes, minor versions
//! tell apart the read transactions that observe one major version.

use vstd::prelude::*;

verus! {

/// A point in the commit sequence. Versions are totally ordered by their
/// number.
#[derive(Clone, Copy, Debug, PartialEq, Eq, Structural, PartialOrd, Ord, Hash)]
pub struct VersionNumber(pub usize);

impl VersionNumber {
    pub fn new(num: usize) -> (v: VersionNumber)
        ensures
            v.0 == num,
    {
        VersionNumber(num)
    }

    /// Whether this version was issued after `other`.
    pub fn is_newer_than(&self, other: VersionNumber) -> (newer: bool)
        ensures
            newer == (self.0 > other.0),
    {
        self.0 > other.0
    }

    /// The later of two versions.
    pub fn latest(self, other: VersionNumber) -> (v: VersionNumber)
        ensures
            v == newest(self, other),
    {
        if other.0 > self.0 {
            other
        } else {
            self
        }
    }
}

/// The later of two versions.
pub open spec fn newest(a: VersionNumber, b: VersionNumber) -> VersionNumber {
    if b.0 > a.0 {
        b
    } else {
        a
    }
}

/// The ordinal of a read transaction among those that observe one major
/// version.
#[derive(Clone, Copy, Debug, PartialEq, Eq, Structural, PartialOrd, Ord, Hash)]
pub struct MinorVersion(pub usize);

impl MinorVersion {
    pub fn new(num: usize) -> (m: MinorVersion)
        ensures
            m.0 == num,
    {
        MinorVersion(num)
    }
}

/// The clock of one engine. It can be read and advanced, nothing else.
pub struct VersionClock {
    major: VersionNumber,
    minor: MinorVersion,
}

impl VersionClock {
    /// The version that the next read observes.
    pub closed spec fn version(&self) -> VersionNumber {
        self.major
    }

    /// The ordinal that the next read transaction at `version()` gets.
    pub closed spec fn next_minor(&self) -> MinorVersion {
        self.minor
    }

    /// A clock at version 0 on which nothing has been read yet.
    pub fn new() -> (clock: VersionClock)
        ensures
            clock.version() == VersionNumber(0),
            clock.next_minor() == MinorVersion(0),
    {
        VersionClock { major: VersionNumber(0), minor: MinorVersion(0) }
    }

    pub fn current(&self) -> (v: VersionNumber)
        ensures
            v == self.version(),
    {
        self.major
    }

    /// Whether `advance` can still issue a version.
    pub fn is_exhausted(&self) -> (b: bool)
        ensures
            b == (self.version().0 == usize::MAX),
    {
        self.major.0 == usize::MAX
    }

    /// Whether `begin_read` can still issue a minor version.
    pub fn reads_exhausted(&self) -> (b: bool)
        ensures
            b == (self.next_minor().0 == usize::MAX),
    {
        self.minor.0 == usize::MAX
    }

    /// Starts a read transaction: it observes the current version under a
    /// minor version that no earlier read of that version had.
    pub fn begin_read(&mut self) -> (at: (VersionNumber, MinorVersion))
        requires
            old(self).next_minor().0 < usize::MAX,
        ensures
            at.0 == old(self).version(),
            at.1 == old(self).next_minor(),
            final(self).version() == old(self).version(),
            final(self).next_minor().0 == old(self).next_minor().0 + 1,
    {
        let at = (self.major, self.minor);
        self.minor = MinorVersion(self.minor.0 + 1);
        at
    }

    /// Commits a write: issues the next version, which becomes current, and
    /// starts its minor versions afresh.
    pub fn advance(&mut self) -> (v: VersionNumber)
        requires
            old(self).version().0 < usize::MAX,
        ensures
            v.0 == old(self).version().0 + 1,
            final(self).version() == v,
            final(self).next_minor() == MinorVersion(0),
    {
        let v = VersionNumber(self.major.0 + 1);
        self.major = v;
        self.minor = MinorVersion(0);
        v
    }
}

} // verus!
