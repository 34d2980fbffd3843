//! The unit of work that the shared cache holds for a key.

use crate::versions::VersionNumber;
use vstd::prelude::*;

verus! {

/// The result of a computation, as the engine sees it: an opaque handle.
/// The engine stores it, hands it back and compares it; what it stands for
/// is known to whoever asked for the key.
#[derive(Clone, Copy, Debug, PartialEq, Eq, Structural, Hash)]
pub struct DiceValue(pub u64);

/// The failure of a computation, as the engine sees it: an opaque handle,
/// like a value.
#[derive(Clone, Copy, Debug, PartialEq, Eq, Structural, Hash)]
pub struct DiceError(pub u64);

/// What a computation ends with: its value, or its failure. The engine
/// treats both alike: it stores the result, hands it to every requester as
/// it is, and does not compute again on its own account because the result
/// is a failure.
pub type DiceResult = Result<DiceValue, DiceError>;

/// Whether two results are the same value or the same failure.
pub fn same_result(a: &DiceResult, b: &DiceResult) -> (same: bool)
    ensures
        same == (*a == *b),
{
    match (a, b) {
        (Ok(x), Ok(y)) => x.0 == y.0,
        (Err(x), Err(y)) => x.0 == y.0,
        _ => false,
    }
}

/// The work for one key: in flight, or completed with its result.
#[derive(Clone, Copy, Debug, PartialEq, Eq, Hash)]
pub enum DiceTask {
    /// Some requester started the computation at this version and has not
    /// committed yet.
    Pending(VersionNumber),
    /// The computation finished with this result.
    Ready(DiceResult),
}

impl DiceTask {
    pub fn is_pending(&self) -> (b: bool)
        ensures
            b == (*self is Pending),
    {
        match self {
            DiceTask::Pending(_) => true,
            DiceTask::Ready(_) => false,
        }
    }
}

} // verus!
