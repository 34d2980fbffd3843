//! The task cache that computations share: at most one task per key.

use crate::key::DiceKey;
use crate::task::DiceTask;
use dashmap::DashMap;
use fnv::FnvBuildHasher;
use fnv::FnvHasher;
use std::hash::BuildHasherDefault;
use vstd::prelude::*;

verus! {

/// `dashmap::DashMap`, the sharded concurrent map. Nothing is known of a
/// value of it but what the functions below say.
#[verifier::external_type_specification]
#[verifier::external_body]
#[verifier::reject_recursive_types(K)]
#[verifier::reject_recursive_types(V)]
#[verifier::reject_recursive_types(S)]
pub struct ExDashMap<K, V, S>(DashMap<K, V, S>);

/// `std::hash::BuildHasherDefault`, which makes the hashers of the map.
#[verifier::external_type_specification]
#[verifier::external_body]
#[verifier::reject_recursive_types(H)]
pub struct ExBuildHasherDefault<H>(BuildHasherDefault<H>);

/// `fnv::FnvHasher`, the hasher of the map.
#[verifier::external_type_specification]
#[verifier::external_body]
pub struct ExFnvHasher(FnvHasher);

/// The concurrent map behind the cache: from the index of a key to its task.
pub type TaskMap = DashMap<u32, DiceTask, FnvBuildHasher>;

/// The tasks of a cache that holds none.
pub open spec fn no_tasks() -> Map<u32, DiceTask> {
    Map::empty()
}

/// Whether `n` is the number of `tasks`, which are finitely many.
pub open spec fn counts(n: usize, tasks: Map<u32, DiceTask>) -> bool {
    tasks.dom().finite() && tasks.len() == n
}

/// The tasks that a map holds, each under the index of its key.
pub uninterp spec fn cached(storage: TaskMap) -> Map<u32, DiceTask>;

/// `DashMap::default`: a map that holds nothing.
#[verifier::external_body]
fn storage_new() -> (storage: TaskMap)
    ensures
        cached(storage) == no_tasks(),
{
    DashMap::default()
}

/// `DashMap::len`: the number of keys that hold a task.
#[verifier::external_body]
fn storage_len(storage: &TaskMap) -> (n: usize)
    ensures
        counts(n, cached(*storage)),
{
    storage.len()
}

/// `DashMap::get`: the task under `key`, if the map holds one.
#[verifier::external_body]
fn storage_get(storage: &TaskMap, key: u32) -> (task: Option<
    DiceTask,
>)
    ensures
        task == (if cached(*storage).contains_key(key) {
            Some(cached(*storage)[key])
        } else {
            None
        }),
{
    match storage.get(&key) {
        Some(held) => Some(*held.value()),
        None => None,
    }
}

/// `DashMap::entry` followed by `Entry::or_insert`: a vacant slot takes
/// `task`, an occupied one keeps what it has; either way the task that the
/// slot then holds comes back.
#[verifier::external_body]
fn storage_or_insert(
    storage: &mut TaskMap,
    key: u32,
    task: DiceTask,
) -> (held: DiceTask)
    ensures
        cached(*final(storage)) == (if cached(*old(storage)).contains_key(key) {
            cached(*old(storage))
        } else {
            cached(*old(storage)).insert(key, task)
        }),
        held == cached(*final(storage))[key],
{
    *storage.entry(key).or_insert(task)
}

/// `DashMap::insert`: the slot of `key` holds `task` afterwards; the task it
/// held before comes back.
#[verifier::external_body]
fn storage_insert(
    storage: &mut TaskMap,
    key: u32,
    task: DiceTask,
) -> (before: Option<DiceTask>)
    ensures
        cached(*final(storage)) == cached(*old(storage)).insert(key, task),
        before == (if cached(*old(storage)).contains_key(key) {
            Some(cached(*old(storage))[key])
        } else {
            None
        }),
{
    storage.insert(key, task)
}

/// `DashMap::remove`: the slot of `key` is vacant afterwards; the task it
/// held comes back.
#[verifier::external_body]
fn storage_remove(storage: &mut TaskMap, key: u32) -> (before:
    Option<DiceTask>)
    ensures
        cached(*final(storage)) == cached(*old(storage)).remove(key),
        before == (if cached(*old(storage)).contains_key(key) {
            Some(cached(*old(storage))[key])
        } else {
            None
        }),
{
    match storage.remove(&key) {
        Some(pair) => Some(pair.1),
        None => None,
    }
}

/// What a requester finds under a key.
#[derive(Clone, Copy, Debug, PartialEq, Eq)]
pub enum CacheEntry {
    /// A task exists: the requester joins it.
    Occupied(DiceTask),
    /// No task exists: the requester that populates the slot starts the
    /// computation.
    Vacant,
}

/// The cache of tasks, keyed by `DiceKey` alone.
pub struct SharedCache {
    storage: TaskMap,
}

impl View for SharedCache {
    type V = Map<u32, DiceTask>;

    closed spec fn view(&self) -> Self::V {
        cached(self.storage)
    }
}

impl SharedCache {
    /// An empty cache.
    pub fn new() -> (cache: Self)
        ensures
            cache@ == no_tasks(),
    {
        Self { storage: storage_new() }
    }

    /// The slot of `key`: occupied with its task, or vacant.
    pub fn get(&self, key: DiceKey) -> (slot: CacheEntry)
        ensures
            slot == entry_of(self@, key),
    {
        match storage_get(&self.storage, key.index) {
            Some(task) => CacheEntry::Occupied(task),
            None => CacheEntry::Vacant,
        }
    }

    /// Populates the slot of `key` with `task` if it is vacant, and returns
    /// what the slot held before. Of any number of requesters that call this
    /// for one key, exactly the first finds it vacant.
    pub fn occupy(&mut self, key: DiceKey, task: DiceTask) -> (found: CacheEntry)
        ensures
            found == entry_of(old(self)@, key),
            final(self)@ == occupied(old(self)@, key, task),
    {
        let found = self.get(key);
        let _ = storage_or_insert(&mut self.storage, key.index, task);
        found
    }

    /// Replaces the task of `key`, occupied or not.
    pub fn set(&mut self, key: DiceKey, task: DiceTask)
        ensures
            final(self)@ == old(self)@.insert(key.index, task),
    {
        let _ = storage_insert(&mut self.storage, key.index, task);
    }

    /// Empties the slot of `key`.
    pub fn invalidate(&mut self, key: DiceKey)
        ensures
            final(self)@ == old(self)@.remove(key.index),
    {
        let _ = storage_remove(&mut self.storage, key.index);
    }

    /// The number of occupied slots.
    pub fn active_tasks_count(&self) -> (n: usize)
        ensures
            counts(n, self@),
    {
        storage_len(&self.storage)
    }
}

/// The slot that a cache with these tasks shows for `key`.
pub open spec fn entry_of(tasks: Map<u32, DiceTask>, key: DiceKey) -> CacheEntry {
    if tasks.contains_key(key.index) {
        CacheEntry::Occupied(tasks[key.index])
    } else {
        CacheEntry::Vacant
    }
}

/// The tasks after `task` was offered for the slot of `key`: only a vacant
/// slot takes it.
pub open spec fn occupied(tasks: Map<u32, DiceTask>, key: DiceKey, task: DiceTask) -> Map<
    u32,
    DiceTask,
> {
    if tasks.contains_key(key.index) {
        tasks
    } else {
        tasks.insert(key.index, task)
    }
}

} // verus!
