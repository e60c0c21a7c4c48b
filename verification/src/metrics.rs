//! The names under which the cache reports what it does.
//!
//! Every read is counted as a hit or as a miss of one tier, and its duration
//! goes to the histogram of hits or of misses. Every write to memory reports
//! the size of the in-memory tier. Dashboards read these names: they are part
//! of the interface.

use vstd::prelude::*;

verus! {

/// The label that carries the name of the cache's user.
pub const KIND_LABEL: &'static str = "kind";

/// The label that carries the name of the tier.
pub const STORAGE_LABEL: &'static str = "storage";

/// A tier of the storage.
#[derive(Clone, Copy, Debug, PartialEq, Eq, Structural)]
pub enum CacheStorageName {
    Memory,
    Redis,
}

impl CacheStorageName {
    /// The value of the storage label for the tier.
    pub open spec fn label_of(self) -> Seq<char> {
        match self {
            CacheStorageName::Memory => "memory"@,
            CacheStorageName::Redis => "redis"@,
        }
    }

    /// The value of the storage label for the tier.
    pub fn label(&self) -> (label: &'static str)
        ensures
            label@ == self.label_of(),
    {
        match self {
            CacheStorageName::Memory => "memory",
            CacheStorageName::Redis => "redis",
        }
    }
}

/// What the cache reports.
#[derive(Clone, Copy, Debug, PartialEq, Eq, Structural)]
pub enum CacheMetric {
    /// Counts the reads that found a value.
    HitCount,
    /// Counts the reads that found none.
    MissCount,
    /// The duration of a read that found a value.
    HitTime,
    /// The duration of a read that found none.
    MissTime,
    /// The number of entries in a tier.
    Size,
}

impl CacheMetric {
    /// The name of the metric.
    pub open spec fn name_of(self) -> Seq<char> {
        match self {
            CacheMetric::HitCount => "cache_hit_count"@,
            CacheMetric::MissCount => "cache_miss_count"@,
            CacheMetric::HitTime => "cache_hit_time"@,
            CacheMetric::MissTime => "cache_miss_time"@,
            CacheMetric::Size => "cache_size"@,
        }
    }

    /// The name of the metric.
    pub fn name(&self) -> (name: &'static str)
        ensures
            name@ == self.name_of(),
    {
        match self {
            CacheMetric::HitCount => "cache_hit_count",
            CacheMetric::MissCount => "cache_miss_count",
            CacheMetric::HitTime => "cache_hit_time",
            CacheMetric::MissTime => "cache_miss_time",
            CacheMetric::Size => "cache_size",
        }
    }

    /// The counter that a read adds one to.
    pub fn counter(hit: bool) -> (metric: CacheMetric)
        ensures
            metric == if hit {
                CacheMetric::HitCount
            } else {
                CacheMetric::MissCount
            },
    {
        if hit {
            CacheMetric::HitCount
        } else {
            CacheMetric::MissCount
        }
    }

    /// The histogram that records the duration of a read.
    pub fn histogram(hit: bool) -> (metric: CacheMetric)
        ensures
            metric == if hit {
                CacheMetric::HitTime
            } else {
                CacheMetric::MissTime
            },
    {
        if hit {
            CacheMetric::HitTime
        } else {
            CacheMetric::MissTime
        }
    }
}

} // verus!
