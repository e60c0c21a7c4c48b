use dedup_cache::metrics::{CacheMetric, CacheStorageName, KIND_LABEL, STORAGE_LABEL};

#[test]
fn metric_names_are_fixed() {
    assert_eq!(CacheMetric::HitCount.name(), "cache_hit_count");
    assert_eq!(CacheMetric::MissCount.name(), "cache_miss_count");
    assert_eq!(CacheMetric::HitTime.name(), "cache_hit_time");
    assert_eq!(CacheMetric::MissTime.name(), "cache_miss_time");
    assert_eq!(CacheMetric::Size.name(), "cache_size");
}

#[test]
fn storage_labels_are_fixed() {
    assert_eq!(CacheStorageName::Memory.label(), "memory");
    assert_eq!(CacheStorageName::Redis.label(), "redis");
    assert_eq!(KIND_LABEL, "kind");
    assert_eq!(STORAGE_LABEL, "storage");
}

#[test]
fn a_read_is_counted_as_hit_or_miss() {
    assert_eq!(CacheMetric::counter(true), CacheMetric::HitCount);
    assert_eq!(CacheMetric::counter(false), CacheMetric::MissCount);
    assert_eq!(CacheMetric::histogram(true), CacheMetric::HitTime);
    assert_eq!(CacheMetric::histogram(false), CacheMetric::MissTime);
}
