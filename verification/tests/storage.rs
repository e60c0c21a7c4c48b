use dedup_cache::storage::{CacheStorage, RemoteReply, StorageLookup};
use dedup_cache::wait_map::WaitMap;

#[test]
fn storage_without_remote_reports_absent() {
    let mut storage = CacheStorage::new(2, None, "test");
    assert!(!storage.has_remote());
    assert_eq!(storage.get(1), StorageLookup::Absent);
    assert!(!storage.insert(1, 10));
    assert_eq!(storage.get(1), StorageLookup::Found(10));
}

#[test]
fn storage_with_remote_asks_on_miss() {
    let mut storage = CacheStorage::new(2, Some(vec![]), "test");
    assert!(storage.has_remote());
    assert_eq!(storage.get(1), StorageLookup::AskRemote);
    assert!(storage.insert(1, 10));
    assert_eq!(storage.get(1), StorageLookup::Found(10));
}

#[test]
fn storage_backfills_what_the_remote_found() {
    let mut storage = CacheStorage::new(2, Some(vec![]), "test");
    assert_eq!(storage.backfill(1, RemoteReply::Found(10)), Some(10));
    assert_eq!(storage.len(), 1);
    assert_eq!(storage.get_in_memory(1), Some(10));
    assert_eq!(storage.backfill(2, RemoteReply::Missing), None);
    assert_eq!(storage.backfill(3, RemoteReply::Failed), None);
    assert_eq!(storage.len(), 1);
    assert_eq!(storage.in_memory_keys(), vec![1]);
}

#[test]
fn storage_read_promotes() {
    let mut storage = CacheStorage::new(2, None, "test");
    storage.insert(1, 10);
    storage.insert(2, 20);
    assert_eq!(storage.get(1), StorageLookup::Found(10));
    storage.backfill(3, RemoteReply::Found(30));
    assert_eq!(storage.in_memory_keys(), vec![3, 1]);
}

#[test]
fn remote_reply_values() {
    assert_eq!(RemoteReply::Found(4).into_value(), Some(4));
    assert_eq!(RemoteReply::Missing.into_value(), None);
    assert_eq!(RemoteReply::Failed.into_value(), None);
}

#[test]
fn wait_map_opens_joins_and_settles() {
    let mut map = WaitMap::new();
    assert_eq!(map.len(), 0);
    assert!(!map.contains(1));
    assert_eq!(map.get_or_insert(1), Ok(0));
    assert!(map.contains(1));
    assert_eq!(map.get_or_insert(1), Err(0));
    assert_eq!(map.get_or_insert(2), Ok(1));
    assert_eq!(map.len(), 2);
    assert!(!map.is_settled(0));
    assert_eq!(map.outcome(0), None);

    assert!(!map.settle(0, 2, Some(5)));
    assert!(!map.settle(7, 1, Some(5)));
    assert!(map.settle(0, 1, Some(5)));
    assert!(!map.settle(0, 1, Some(6)));
    assert!(map.is_settled(0));
    assert_eq!(map.outcome(0), Some(5));
    assert!(!map.contains(1));
    assert_eq!(map.len(), 1);

    // a settled slot with a waiter is not free: the next production goes on
    assert_eq!(map.get_or_insert(3), Ok(2));
    map.leave(0);
    assert!(!map.is_settled(0));
    assert_eq!(map.outcome(0), None);
    assert_eq!(map.get_or_insert(4), Ok(0));
}

#[test]
fn wait_map_abandons() {
    let mut map = WaitMap::new();
    assert_eq!(map.get_or_insert(1), Ok(0));
    assert_eq!(map.get_or_insert(1), Err(0));
    assert_eq!(map.get_or_insert(1), Err(0));
    assert!(map.settle(0, 1, None));
    assert!(map.is_settled(0));
    assert_eq!(map.outcome(0), None);
    map.leave(0);
    assert!(map.is_settled(0));
    map.leave(0);
    assert!(!map.is_settled(0));
    map.leave(0);
    map.leave(9);
    assert!(!map.is_settled(9));
    assert_eq!(map.outcome(9), None);
    assert_eq!(map.len(), 0);
}

#[test]
fn wait_map_slot_without_waiters_is_free_at_once() {
    let mut map = WaitMap::new();
    assert_eq!(map.get_or_insert(1), Ok(0));
    assert!(map.settle(0, 1, Some(5)));
    assert!(!map.is_settled(0));
    assert_eq!(map.get_or_insert(2), Ok(0));
}
