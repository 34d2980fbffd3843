//! The handle that stands for a computation everywhere in the engine.

use vstd::prelude::*;

verus! {

/// The interned identity of a computation: small, copyable, and stable for
/// the life of the registry that issued it. Two handles are equal exactly
/// when they stand for the same computation.
#[derive(Clone, Copy, Debug, PartialEq, Eq, Structural, PartialOrd, Ord, Hash)]
pub struct DiceKey {
    pub index: u32,
}

impl DiceKey {
    pub fn new(index: u32) -> (key: DiceKey)
        ensures
            key.index == index,
    {
        DiceKey { index }
    }
}

} // verus!
