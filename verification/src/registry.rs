//! The key registry: it interns the identities of computations into
//! `DiceKey` handles.

use crate::key::DiceKey;
use vstd::prelude::*;

verus! {

/// The identity of a computation with its type erased: a tag for the kind
/// of key, and the encoded key. Two identities stand for the same
/// computation exactly when both parts are equal.
#[derive(Debug)]
pub struct ErasedKey {
    pub kind: u64,
    pub repr: Vec<u8>,
}

impl View for ErasedKey {
    type V = (u64, Seq<u8>);

    open spec fn view(&self) -> (u64, Seq<u8>) {
        (self.kind, self.repr@)
    }
}

impl ErasedKey {
    pub fn new(kind: u64, repr: Vec<u8>) -> (key: ErasedKey)
        ensures
            key@ == (kind, repr@),
    {
        ErasedKey { kind, repr }
    }

    /// Whether two identities stand for the same computation.
    pub fn same(&self, other: &ErasedKey) -> (same: bool)
        ensures
            same == (self@ == other@),
    {
        if self.kind != other.kind || self.repr.len() != other.repr.len() {
            return false;
        }
        let mut i: usize = 0;
        while i < self.repr.len()
            invariant
                0 <= i <= self.repr@.len(),
                self.repr@.len() == other.repr@.len(),
                forall|j: int| 0 <= j < i ==> self.repr@[j] == other.repr@[j],
            decreases self.repr@.len() - i,
        {
            if self.repr[i] != other.repr[i] {
                return false;
            }
            i = i + 1;
        }
        assert(self.repr@ =~= other.repr@);
        true
    }
}

/// The registry: every identity it has seen, at the position that is the
/// index of its handle.
pub struct DiceKeyIndex {
    keys: Vec<ErasedKey>,
}

impl View for DiceKeyIndex {
    type V = Seq<(u64, Seq<u8>)>;

    closed spec fn view(&self) -> Seq<(u64, Seq<u8>)> {
        Seq::new(self.keys@.len(), |i: int| self.keys@[i]@)
    }
}

impl DiceKeyIndex {
    /// No identity is registered twice, and every position fits a handle.
    pub open spec fn wf(&self) -> bool {
        &&& self@.no_duplicates()
        &&& self@.len() <= u32::MAX
    }

    /// A registry that has seen nothing.
    pub fn new() -> (index: DiceKeyIndex)
        ensures
            index.wf(),
            index@.len() == 0,
    {
        DiceKeyIndex { keys: Vec::new() }
    }

    /// How many identities are registered.
    pub fn len(&self) -> (n: usize)
        ensures
            n == self@.len(),
    {
        self.keys.len()
    }

    /// Whether the registry has issued every handle there is.
    pub fn is_full(&self) -> (full: bool)
        ensures
            full == (self@.len() >= u32::MAX),
    {
        self.keys.len() >= u32::MAX as usize
    }

    /// The handle of `key`, if it is registered.
    pub fn lookup(&self, key: &ErasedKey) -> (found: Option<DiceKey>)
        requires
            self.wf(),
        ensures
            match found {
                Some(handle) => handle.index < self@.len() && self@[handle.index as int] == key@,
                None => !self@.contains(key@),
            },
    {
        let mut i: usize = 0;
        while i < self.keys.len()
            invariant
                self.wf(),
                0 <= i <= self@.len(),
                self@.len() == self.keys@.len(),
                forall|j: int| 0 <= j < i ==> self@[j] != key@,
            decreases self@.len() - i,
        {
            if self.keys[i].same(key) {
                assert(self@[i as int] == self.keys@[i as int]@);
                return Some(DiceKey { index: i as u32 });
            }
            assert(self@[i as int] == self.keys@[i as int]@);
            i = i + 1;
        }
        None
    }

    /// The handle of `key`. An identity that was seen before gets the
    /// handle it got then, and the registry stays as it is; a new one gets
    /// the next index and is added at the end.
    pub fn intern(&mut self, key: ErasedKey) -> (handle: DiceKey)
        requires
            old(self).wf(),
            old(self)@.contains(key@) || old(self)@.len() < u32::MAX,
        ensures
            final(self).wf(),
            final(self)@ == interned(old(self)@, key@),
            handle.index < final(self)@.len(),
            final(self)@[handle.index as int] == key@,
            old(self)@.contains(key@) ==> old(self)@[handle.index as int] == key@,
            !old(self)@.contains(key@) ==> handle.index == old(self)@.len(),
    {
        match self.lookup(&key) {
            Some(handle) => handle,
            None => {
                let index = self.keys.len() as u32;
                self.keys.push(key);
                assert(final(self)@ =~= old(self)@.push(key@));
                assert(final(self)@.no_duplicates()) by {
                    assert forall|a: int, b: int|
                        0 <= a < final(self)@.len() && 0 <= b < final(self)@.len() && a
                            != b implies final(self)@[a] != final(self)@[b] by {
                        if a < old(self)@.len() && b < old(self)@.len() {
                            assert(old(self)@[a] != old(self)@[b]);
                        } else if a < old(self)@.len() {
                            assert(old(self)@.contains(old(self)@[a]));
                        } else {
                            assert(old(self)@.contains(old(self)@[b]));
                        }
                    }
                }
                DiceKey { index }
            },
        }
    }

    /// The identity that `handle` stands for, if this registry issued it.
    pub fn get(&self, handle: DiceKey) -> (key: Option<&ErasedKey>)
        ensures
            match key {
                Some(key) => handle.index < self@.len() && key@ == self@[handle.index as int],
                None => handle.index >= self@.len(),
            },
    {
        let i = handle.index as usize;
        if i < self.keys.len() {
            assert(self@[i as int] == self.keys@[i as int]@);
            Some(&self.keys[i])
        } else {
            None
        }
    }
}

/// The registered identities after `key` was interned.
pub open spec fn interned(keys: Seq<(u64, Seq<u8>)>, key: (u64, Seq<u8>)) -> Seq<(u64, Seq<u8>)> {
    if keys.contains(key) {
        keys
    } else {
        keys.push(key)
    }
}

/// The handle that interning `key` into `keys` gives.
pub open spec fn handle_of(keys: Seq<(u64, Seq<u8>)>, key: (u64, Seq<u8>)) -> int {
    interned(keys, key).index_of(key)
}

/// Handles are stable and tell identities apart: interning never moves an
/// identity that is registered, and in a registry without duplicates two
/// identities get the same handle exactly when they are equal.
pub proof fn lemma_handles_identify(
    keys: Seq<(u64, Seq<u8>)>,
    first: (u64, Seq<u8>),
    second: (u64, Seq<u8>),
)
    requires
        keys.no_duplicates(),
    ensures
        interned(keys, first).no_duplicates(),
        forall|i: int| 0 <= i < keys.len() ==> interned(keys, first)[i] == keys[i],
        handle_of(interned(keys, first), first) == handle_of(keys, first),
        (handle_of(interned(keys, first), second) == handle_of(keys, first)) <==> first == second,
{
    let once = interned(keys, first);
    assert(once.no_duplicates()) by {
        if !keys.contains(first) {
            assert forall|a: int, b: int|
                0 <= a < once.len() && 0 <= b < once.len() && a != b implies once[a] != once[b] by {
                if a < keys.len() && b < keys.len() {
                    assert(keys[a] != keys[b]);
                } else if a < keys.len() {
                    assert(keys.contains(keys[a]));
                } else {
                    assert(keys.contains(keys[b]));
                }
            }
        }
    }
    assert(once.contains(first)) by {
        if !keys.contains(first) {
            assert(once[keys.len() as int] == first);
        }
    }
    assert(interned(once, first) == once);
    let twice = interned(once, second);
    assert(twice.contains(second)) by {
        if !once.contains(second) {
            assert(twice[once.len() as int] == second);
        }
    }
    let at_first = once.index_of(first);
    let at_second = twice.index_of(second);
    assert(0 <= at_first < once.len() && once[at_first] == first);
    assert(0 <= at_second < twice.len() && twice[at_second] == second);
    if first == second {
        assert(twice == once);
    } else if at_first == at_second {
        assert(twice[at_first] == once[at_first]);
    }
}

} // verus!
