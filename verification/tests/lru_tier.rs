use dedup_cache::lru_tier::LruTier;

#[test]
fn tier_starts_empty() {
    let tier = LruTier::new(3);
    assert_eq!(tier.len(), 0);
    assert_eq!(tier.keys(), Vec::<u64>::new());
}

#[test]
fn tier_put_then_get_returns_value() {
    let mut tier = LruTier::new(3);
    assert_eq!(tier.put(7, 70), None);
    assert_eq!(tier.get(7), Some(70));
    assert_eq!(tier.get(8), None);
    assert_eq!(tier.len(), 1);
}

#[test]
fn tier_put_replaces_and_returns_previous() {
    let mut tier = LruTier::new(3);
    assert_eq!(tier.put(7, 70), None);
    assert_eq!(tier.put(8, 80), None);
    assert_eq!(tier.put(7, 71), Some(70));
    assert_eq!(tier.get(7), Some(71));
    assert_eq!(tier.len(), 2);
    assert_eq!(tier.keys(), vec![7, 8]);
}

#[test]
fn tier_keys_are_most_recent_first() {
    let mut tier = LruTier::new(4);
    tier.put(1, 10);
    tier.put(2, 20);
    tier.put(3, 30);
    assert_eq!(tier.keys(), vec![3, 2, 1]);
    assert_eq!(tier.get(1), Some(10));
    assert_eq!(tier.keys(), vec![1, 3, 2]);
    assert_eq!(tier.get(9), None);
    assert_eq!(tier.keys(), vec![1, 3, 2]);
}

#[test]
fn tier_evicts_least_recently_used() {
    let mut tier = LruTier::new(2);
    tier.put(1, 10);
    tier.put(2, 20);
    tier.put(3, 30);
    assert_eq!(tier.len(), 2);
    assert_eq!(tier.keys(), vec![3, 2]);
    assert_eq!(tier.get(1), None);
}

#[test]
fn tier_get_protects_from_eviction() {
    let mut tier = LruTier::new(2);
    tier.put(1, 10);
    tier.put(2, 20);
    assert_eq!(tier.get(1), Some(10));
    tier.put(3, 30);
    assert_eq!(tier.keys(), vec![3, 1]);
    assert_eq!(tier.get(2), None);
}

#[test]
fn tier_of_capacity_one_keeps_last() {
    let mut tier = LruTier::new(1);
    tier.put(1, 10);
    tier.put(2, 20);
    assert_eq!(tier.keys(), vec![2]);
    assert_eq!(tier.get(2), Some(20));
    assert_eq!(tier.get(1), None);
}

#[test]
fn tier_accepts_the_largest_capacity() {
    let mut tier = LruTier::new(usize::MAX);
    tier.put(1, 10);
    tier.put(2, 20);
    assert_eq!(tier.len(), 2);
    assert_eq!(tier.keys(), vec![2, 1]);
}
