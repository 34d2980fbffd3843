//! The validity of a cached value over the version sequence.

use crate::versions::VersionNumber;
use vstd::prelude::*;

verus! {

/// For which versions the value of a node is known to hold: it was computed
/// (or last changed) at `since`, was last confirmed at `verified`, and may
/// carry a mark that it is possibly stale as of `dirtied`.
#[derive(Clone, Copy, Debug, PartialEq, Eq, Structural)]
pub struct CellHistory {
    pub since: VersionNumber,
    pub verified: VersionNumber,
    pub dirtied: Option<VersionNumber>,
}

/// What a history reads after a notification that the value is possibly
/// stale as of `v`: a mark at `v`, unless it already carries one that is at
/// least as new.
pub open spec fn dirtied_at(history: CellHistory, v: VersionNumber) -> CellHistory {
    if accepts_mark(history, v) {
        CellHistory { dirtied: Some(v), ..history }
    } else {
        history
    }
}

/// Whether a notification as of `v` changes this history.
pub open spec fn accepts_mark(history: CellHistory, v: VersionNumber) -> bool {
    match history.dirtied {
        Some(d) => d.0 < v.0,
        None => true,
    }
}

impl CellHistory {
    /// The history of a value computed at `v`.
    pub fn computed_at(v: VersionNumber) -> (history: CellHistory)
        ensures
            history == (CellHistory { since: v, verified: v, dirtied: None }),
    {
        CellHistory { since: v, verified: v, dirtied: None }
    }

    pub fn is_dirty(&self) -> (dirty: bool)
        ensures
            dirty == (self.dirtied is Some),
    {
        self.dirtied.is_some()
    }

    /// Whether a notification as of `v` would change this history.
    pub fn would_accept(&self, v: VersionNumber) -> (accepts: bool)
        ensures
            accepts == accepts_mark(*self, v),
    {
        match self.dirtied {
            Some(d) => d.0 < v.0,
            None => true,
        }
    }

    /// Marks the value possibly stale as of `v`. Returns whether the mark
    /// changed anything: a second notification at the same or an older
    /// version does not.
    pub fn mark_dirty(&mut self, v: VersionNumber) -> (changed: bool)
        ensures
            *final(self) == dirtied_at(*old(self), v),
            changed == accepts_mark(*old(self), v),
    {
        if self.would_accept(v) {
            self.dirtied = Some(v);
            true
        } else {
            false
        }
    }

    /// Confirms the value at `v`: the mark is gone and `verified` moves up to
    /// `v`.
    pub fn mark_verified(&mut self, v: VersionNumber)
        ensures
            *final(self) == verified_at(*old(self), v),
    {
        self.dirtied = None;
        if self.verified.0 < v.0 {
            self.verified = v;
        }
    }
}

/// The history after the value was confirmed at `v`.
pub open spec fn verified_at(history: CellHistory, v: VersionNumber) -> CellHistory {
    CellHistory {
        since: history.since,
        verified: if history.verified.0 < v.0 {
            v
        } else {
            history.verified
        },
        dirtied: None,
    }
}

} // verus!
