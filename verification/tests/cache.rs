use dice::cache::CacheEntry;
use dice::cache::SharedCache;
use dice::key::DiceKey;
use dice::task::DiceTask;
use dice::task::DiceValue;
use dice::versions::VersionNumber;

#[test]
fn a_new_cache_holds_no_task() {
    let cache = SharedCache::new();
    assert_eq!(cache.active_tasks_count(), 0);
    assert_eq!(cache.get(DiceKey::new(3)), CacheEntry::Vacant);
}

#[test]
fn only_the_first_requester_finds_the_slot_vacant() {
    let mut cache = SharedCache::new();
    let key = DiceKey::new(7);
    assert_eq!(cache.occupy(key, DiceTask::Pending(VersionNumber(1))), CacheEntry::Vacant);
    assert_eq!(
        cache.occupy(key, DiceTask::Ready(Ok(DiceValue(1)))),
        CacheEntry::Occupied(DiceTask::Pending(VersionNumber(1)))
    );
    assert_eq!(cache.get(key), CacheEntry::Occupied(DiceTask::Pending(VersionNumber(1))));
    assert_eq!(cache.active_tasks_count(), 1);
}

#[test]
fn a_task_can_be_replaced_and_removed() {
    let mut cache = SharedCache::new();
    let a = DiceKey::new(1);
    let b = DiceKey::new(2);
    cache.set(a, DiceTask::Pending(VersionNumber(1)));
    cache.set(b, DiceTask::Pending(VersionNumber(1)));
    cache.set(a, DiceTask::Ready(Ok(DiceValue(5))));
    assert_eq!(cache.get(a), CacheEntry::Occupied(DiceTask::Ready(Ok(DiceValue(5)))));
    assert_eq!(cache.active_tasks_count(), 2);
    cache.invalidate(a);
    cache.invalidate(a);
    assert_eq!(cache.get(a), CacheEntry::Vacant);
    assert_eq!(cache.get(b), CacheEntry::Occupied(DiceTask::Pending(VersionNumber(1))));
    assert_eq!(cache.active_tasks_count(), 1);
    assert!(DiceTask::Pending(VersionNumber(1)).is_pending());
    assert!(!DiceTask::Ready(Ok(DiceValue(5))).is_pending());
}
