use dedup_cache::cache::{DeduplicatingCache, Entry, EntryError};
use dedup_cache::configuration::{Cache, InMemoryCache, RedisCache, DEFAULT_CACHE_CAPACITY};
use dedup_cache::storage::RemoteReply;

fn local(capacity: usize) -> DeduplicatingCache {
    DeduplicatingCache::with_capacity(capacity, None, "test")
}

fn two_tier(capacity: usize) -> DeduplicatingCache {
    DeduplicatingCache::with_capacity(
        capacity,
        Some(vec!["redis://localhost:6379".to_string()]),
        "test",
    )
}

fn read(entry: Entry, cache: &mut DeduplicatingCache) -> Result<u64, EntryError> {
    assert!(entry.is_ready(cache));
    entry.get(cache)
}

#[test]
fn example_cache_usage() {
    let k: u64 = 7;
    let mut cache = DeduplicatingCache::with_capacity(1, None, "test");

    let entry = cache.get(k);

    let value = if entry.is_first() {
        // potentially long and complex task that can fail
        let value: u64 = 1234;
        entry.insert(&mut cache, value);
        value
    } else {
        entry.get(&mut cache).unwrap()
    };
    assert_eq!(value, 1234);
    assert_eq!(read(cache.get(k), &mut cache), Ok(1234));
}

#[test]
fn it_should_enforce_cache_limits() {
    let mut cache = DeduplicatingCache::with_capacity(13, None, "test");

    for i in 0..14 {
        let entry = cache.get(i);
        entry.insert(&mut cache, i);
    }

    assert_eq!(cache.storage().len(), 13);
}

#[test]
fn it_should_only_delegate_once_per_key() {
    let mut retrievals = 0;
    let mut cache = DeduplicatingCache::with_capacity(10, None, "test");

    // A hundred callers ask for the same key before any value is there.
    let mut waiting = Vec::new();
    let mut results = Vec::new();
    let mut producer = None;
    for _ in 0..100 {
        let entry = cache.get(1);
        if entry.is_first() {
            assert!(producer.is_none());
            producer = Some(entry);
        } else {
            assert!(!entry.is_ready(&cache));
            waiting.push(entry);
        }
    }
    assert_eq!(waiting.len(), 99);
    assert_eq!(cache.in_flight(), 1);

    // The one producer retrieves the value and publishes it.
    retrievals += 1;
    let value: u64 = 1;
    producer.unwrap().insert(&mut cache, value);
    results.push(value);

    for entry in waiting {
        results.push(read(entry, &mut cache).unwrap());
    }

    assert_eq!(retrievals, 1);
    assert_eq!(results, vec![1u64; 100]);
    assert_eq!(cache.in_flight(), 0);

    // To be really sure, check there is only one value in the cache
    assert_eq!(cache.storage().len(), 1);
}

#[test]
fn capacity_thirteen_drops_the_first_of_fourteen_keys() {
    let mut cache = local(13);
    for i in 0..14 {
        cache.get(i).insert(&mut cache, i + 100);
    }
    assert_eq!(cache.storage().len(), 13);
    assert_eq!(cache.in_memory_keys(), vec![13, 12, 11, 10, 9, 8, 7, 6, 5, 4, 3, 2, 1]);
    assert_eq!(cache.get_in_memory(0), None);
    assert_eq!(cache.get_in_memory(1), Some(101));
    assert!(cache.get(0).is_first());
}

#[test]
fn cancelled_producer_leaves_waiters_without_value() {
    let mut cache = local(4);
    let producer = cache.get(5);
    assert!(producer.is_first());
    let first = cache.get(5);
    let second = cache.get(5);
    assert!(!first.is_first());
    assert!(!second.is_first());
    assert_eq!(first.slot(), producer.slot());
    assert_eq!(second.slot(), producer.slot());
    assert!(!first.is_ready(&cache));

    // the producer is cancelled before it inserts
    producer.abandon(&mut cache);
    assert_eq!(cache.in_flight(), 0);

    assert_eq!(read(first, &mut cache), Err(EntryError::NoValue));
    assert_eq!(read(second, &mut cache), Err(EntryError::NoValue));

    let retry = cache.get(5);
    assert!(retry.is_first());
    assert_eq!(cache.in_flight(), 1);
    retry.insert(&mut cache, 55);
    assert_eq!(read(cache.get(5), &mut cache), Ok(55));
}

#[test]
fn warm_remote_store_is_asked_once() {
    let mut cache = two_tier(4);
    assert!(cache.has_remote());
    let mut remote_gets = 0;

    let first = cache.get(9);
    let second = cache.get(9);
    assert!(first.is_first());
    assert!(!second.is_first());

    // only the producer asks the remote tier
    remote_gets += 1;
    let first = cache.answer(first, RemoteReply::Found(90));
    assert!(!first.is_first());
    assert_eq!(read(first, &mut cache), Ok(90));
    assert_eq!(read(second, &mut cache), Ok(90));

    assert_eq!(remote_gets, 1);
    assert_eq!(cache.in_memory_keys(), vec![9]);
    assert_eq!(cache.get_in_memory(9), Some(90));
    assert_eq!(cache.in_flight(), 0);
}

#[test]
fn unreachable_remote_store_degrades_to_memory() {
    let mut cache = two_tier(4);
    let entry = cache.get(3);
    assert!(entry.is_first());
    let entry = cache.answer(entry, RemoteReply::Failed);
    assert!(entry.is_first());
    assert_eq!(cache.in_flight(), 1);

    let write_remote = entry.insert(&mut cache, 33);
    assert!(write_remote);
    assert_eq!(cache.in_flight(), 0);
    assert_eq!(read(cache.get(3), &mut cache), Ok(33));
}

#[test]
fn remote_miss_keeps_the_producer() {
    let mut cache = two_tier(4);
    let entry = cache.get(3);
    let entry = cache.answer(entry, RemoteReply::Missing);
    assert!(entry.is_first());
    assert_eq!(cache.storage().len(), 0);
    assert_eq!(cache.in_flight(), 1);
}

#[test]
fn answer_leaves_other_entries_alone() {
    let mut cache = two_tier(4);
    let producer = cache.get(3);
    let waiter = cache.get(3);
    let waiter = cache.answer(waiter, RemoteReply::Found(1));
    assert!(!waiter.is_first());
    assert!(!waiter.is_ready(&cache));
    assert_eq!(cache.storage().len(), 0);
    producer.insert(&mut cache, 30);
    assert_eq!(read(waiter, &mut cache), Ok(30));

    let held = cache.get(3);
    let held = cache.answer(held, RemoteReply::Found(1));
    assert_eq!(read(held, &mut cache), Ok(30));
}

#[test]
fn read_promotes_past_the_next_eviction() {
    let (a, b, c) = (1, 2, 3);
    let mut cache = local(2);
    cache.insert(a, 10);
    cache.insert(b, 20);
    assert_eq!(read(cache.get(a), &mut cache), Ok(10));
    cache.insert(c, 30);
    let mut keys = cache.in_memory_keys();
    assert_eq!(keys, vec![c, a]);
    keys.sort();
    assert_eq!(keys, vec![a, c]);
    assert_eq!(cache.get_in_memory(b), None);
}

#[test]
fn insert_is_visible_without_a_producer() {
    let mut cache = local(4);
    let write_remote = cache.insert(8, 80);
    assert!(!write_remote);
    let entry = cache.get(8);
    assert!(!entry.is_first());
    assert_eq!(entry.slot(), None);
    assert_eq!(read(entry, &mut cache), Ok(80));
    assert_eq!(cache.in_flight(), 0);
}

#[test]
fn second_insert_wins() {
    let mut cache = local(4);
    cache.insert(8, 80);
    cache.insert(8, 81);
    assert_eq!(cache.storage().len(), 1);
    assert_eq!(cache.get_in_memory(8), Some(81));
    assert_eq!(cache.in_flight(), 0);
}

#[test]
fn insert_does_not_settle_a_production_in_flight() {
    let mut cache = local(4);
    let producer = cache.get(8);
    let waiter = cache.get_dedup(8);
    cache.insert(8, 80);
    assert_eq!(cache.in_flight(), 1);
    assert!(!waiter.is_ready(&cache));
    // memory holds the key now, so a new caller does not wait
    assert_eq!(read(cache.get(8), &mut cache), Ok(80));
    producer.insert(&mut cache, 81);
    assert_eq!(read(waiter, &mut cache), Ok(81));
    assert_eq!(cache.get_in_memory(8), Some(81));
}

#[test]
fn insert_with_remote_asks_for_write_through() {
    let mut cache = two_tier(4);
    assert!(cache.insert(8, 80));
    assert_eq!(cache.insert_in_memory(9, 90), 2);
    assert_eq!(cache.insert_in_memory(9, 91), 2);
}

#[test]
fn producer_cannot_read_its_own_entry() {
    let mut cache = local(4);
    let producer = cache.get(2);
    let waiter = cache.get(2);
    assert!(producer.is_ready(&cache));
    assert_eq!(producer.get(&mut cache), Err(EntryError::IsFirst));
    // reading gave the entry up: the production is abandoned
    assert_eq!(cache.in_flight(), 0);
    assert_eq!(read(waiter, &mut cache), Err(EntryError::NoValue));
    assert!(cache.get(2).is_first());
}

#[test]
fn send_reaches_waiters_but_not_memory() {
    let mut cache = local(4);
    let producer = cache.get(2);
    let waiter = cache.get(2);
    producer.send(&mut cache, 20);
    assert_eq!(read(waiter, &mut cache), Ok(20));
    assert_eq!(cache.storage().len(), 0);
    assert_eq!(cache.in_flight(), 0);
    assert!(cache.get(2).is_first());
}

#[test]
fn insert_through_a_waiter_writes_nothing() {
    let mut cache = two_tier(4);
    let producer = cache.get(2);
    let waiter = cache.get(2);
    let other = cache.get(2);
    assert!(!waiter.insert(&mut cache, 99));
    other.send(&mut cache, 98);
    assert_eq!(cache.storage().len(), 0);
    assert_eq!(cache.in_flight(), 1);
    producer.abandon(&mut cache);
    assert_eq!(cache.in_flight(), 0);
}

#[test]
fn insert_through_a_value_entry_writes_nothing() {
    let mut cache = local(4);
    cache.insert(2, 20);
    let held = cache.get(2);
    assert!(!held.insert(&mut cache, 99));
    assert_eq!(cache.get_in_memory(2), Some(20));
    let held = cache.get(2);
    held.send(&mut cache, 98);
    let held = cache.get(2);
    held.abandon(&mut cache);
    assert_eq!(cache.get_in_memory(2), Some(20));
}

#[test]
fn productions_of_different_keys_do_not_meet() {
    let mut cache = local(4);
    let one = cache.get(1);
    let two = cache.get(2);
    assert!(one.is_first());
    assert!(two.is_first());
    assert_ne!(one.slot(), two.slot());
    assert_eq!(cache.in_flight(), 2);
    let wait_one = cache.get(1);
    let wait_two = cache.get(2);
    assert_eq!(wait_one.slot(), one.slot());
    assert_eq!(wait_two.slot(), two.slot());
    two.insert(&mut cache, 20);
    assert!(wait_two.is_ready(&cache));
    assert!(!wait_one.is_ready(&cache));
    one.abandon(&mut cache);
    assert_eq!(read(wait_two, &mut cache), Ok(20));
    assert_eq!(read(wait_one, &mut cache), Err(EntryError::NoValue));
}

#[test]
fn slot_is_reused_once_everyone_has_left() {
    let mut cache = local(4);
    let producer = cache.get(1);
    let slot = producer.slot();
    let waiter = cache.get(1);
    producer.abandon(&mut cache);
    // the waiter still holds the slot: a new production takes another place
    let retry = cache.get(1);
    assert!(retry.is_first());
    assert_ne!(retry.slot(), slot);
    assert_eq!(read(waiter, &mut cache), Err(EntryError::NoValue));
    retry.abandon(&mut cache);
    // now both places are free again
    let third = cache.get(1);
    assert_eq!(third.slot(), slot);
}

#[test]
fn waiter_that_leaves_early_does_not_disturb_the_others() {
    let mut cache = local(4);
    let producer = cache.get(1);
    let leaving = cache.get(1);
    let staying = cache.get(1);
    leaving.abandon(&mut cache);
    assert_eq!(cache.in_flight(), 1);
    producer.insert(&mut cache, 10);
    assert_eq!(read(staying, &mut cache), Ok(10));
}

#[test]
fn get_dedup_waits_even_when_memory_holds_the_key() {
    let mut cache = local(4);
    let producer = cache.get(1);
    cache.insert(1, 5);
    let waiter = cache.get_dedup(1);
    assert_eq!(waiter.slot(), producer.slot());
    assert!(!waiter.is_ready(&cache));
    producer.insert(&mut cache, 10);
    assert_eq!(read(waiter, &mut cache), Ok(10));
}

#[test]
fn get_dedup_reads_memory_before_it_elects() {
    let mut cache = local(4);
    cache.insert(1, 5);
    let entry = cache.get_dedup(1);
    assert!(!entry.is_first());
    assert_eq!(entry.slot(), None);
    assert_eq!(read(entry, &mut cache), Ok(5));
    assert_eq!(cache.in_flight(), 0);
}

#[test]
fn wait_map_tickets() {
    let mut cache = local(4);
    let opened = cache.get_or_insert_wait_map(1);
    assert!(opened.is_ok());
    let slot = opened.unwrap();
    assert_eq!(cache.get_or_insert_wait_map(1), Err(slot));
    assert_eq!(cache.in_flight(), 1);
    // a production of another key, or another slot, is not removed
    cache.remove_from_wait_map(2, slot);
    cache.remove_from_wait_map(1, slot + 1);
    cache.send(slot + 1, 1, 10);
    assert_eq!(cache.in_flight(), 1);
    cache.remove_from_wait_map(1, slot);
    assert_eq!(cache.in_flight(), 0);
    let again = cache.get_or_insert_wait_map(1);
    assert!(again.is_ok());
    cache.send(again.unwrap(), 1, 10);
    assert_eq!(cache.in_flight(), 0);
    assert_eq!(cache.storage().len(), 0);
}

#[test]
fn cache_keeps_its_setup() {
    let cache = two_tier(4);
    assert_eq!(cache.caller(), "test");
    assert_eq!(cache.storage().caller(), "test");
    assert_eq!(
        cache.storage().redis_urls(),
        &Some(vec!["redis://localhost:6379".to_string()])
    );
    let cache = local(4);
    assert!(!cache.has_remote());
    assert_eq!(cache.storage().redis_urls(), &None);
    assert_eq!(cache.in_memory_keys(), Vec::<u64>::new());
}

#[test]
fn cache_from_default_configuration() {
    let config = Cache::default();
    assert!(config.is_valid());
    assert_eq!(config.in_memory.limit, 512);
    assert_eq!(DEFAULT_CACHE_CAPACITY, 512);
    assert_eq!(InMemoryCache::default().limit, 512);
    let mut cache = DeduplicatingCache::from_configuration(&config, "planner");
    assert!(!cache.has_remote());
    assert_eq!(cache.caller(), "planner");
    for i in 0..600 {
        cache.insert(i, i);
    }
    assert_eq!(cache.storage().len(), 512);
}

#[test]
fn cache_from_configuration_with_remote_tier() {
    let config = Cache {
        in_memory: InMemoryCache { limit: 2 },
        redis: Some(RedisCache {
            urls: vec!["redis://a".to_string(), "redis://b".to_string()],
            timeout: Some(200),
            ttl: None,
        }),
    };
    assert!(config.is_valid());
    let mut cache = DeduplicatingCache::from_configuration(&config, "planner");
    assert!(cache.has_remote());
    assert_eq!(
        cache.storage().redis_urls(),
        &Some(vec!["redis://a".to_string(), "redis://b".to_string()])
    );
    cache.insert(1, 1);
    cache.insert(2, 2);
    cache.insert(3, 3);
    assert_eq!(cache.in_memory_keys(), vec![3, 2]);
}

#[test]
fn configuration_without_room_is_not_valid() {
    let config = Cache { in_memory: InMemoryCache { limit: 0 }, redis: None };
    assert!(!config.is_valid());
}

#[test]
fn published_value_is_in_memory_when_waiters_wake() {
    let mut cache = local(2);
    let producer = cache.get(4);
    let waiter = cache.get(4);
    assert_eq!(cache.get_in_memory(4), None);
    producer.insert(&mut cache, 40);
    // the waiter can read now, and so can anyone who asks the cache
    assert!(waiter.is_ready(&cache));
    assert_eq!(cache.get_in_memory(4), Some(40));
    assert_eq!(read(waiter, &mut cache), Ok(40));
    assert_eq!(read(cache.get(4), &mut cache), Ok(40));
    // until the value is evicted
    cache.insert(5, 50);
    cache.insert(6, 60);
    assert!(cache.get(4).is_first());
}

#[test]
fn fewer_keys_than_capacity_all_stay() {
    let mut cache = local(5);
    for i in 0..3 {
        cache.insert(i, i * 2);
    }
    assert_eq!(cache.storage().len(), 3);
    assert_eq!(cache.in_memory_keys(), vec![2, 1, 0]);
}

#[test]
fn more_keys_than_capacity_keeps_the_latest() {
    let mut cache = local(5);
    for i in 0..20 {
        cache.insert(i, i * 2);
    }
    assert_eq!(cache.storage().len(), 5);
    assert_eq!(cache.in_memory_keys(), vec![19, 18, 17, 16, 15]);
    assert_eq!(cache.get_in_memory(15), Some(30));
}
