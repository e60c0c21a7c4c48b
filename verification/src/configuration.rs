//! The settings of a cache.

use vstd::prelude::*;

verus! {

/// The capacity of an in-memory tier that is configured without one.
pub const DEFAULT_CACHE_CAPACITY: usize = 512;

/// The settings of the in-memory tier.
#[derive(Clone, Copy, Debug)]
pub struct InMemoryCache {
    /// The number of entries that the tier holds at most. It is not zero.
    pub limit: usize,
}

impl Default for InMemoryCache {
    fn default() -> (config: Self)
        ensures
            config.limit == DEFAULT_CACHE_CAPACITY,
    {
        InMemoryCache { limit: DEFAULT_CACHE_CAPACITY }
    }
}

/// The settings of the remote tier.
#[derive(Debug)]
pub struct RedisCache {
    /// The endpoints of the remote store.
    pub urls: Vec<String>,
    /// The time allowed for one operation, in milliseconds. An operation that
    /// takes longer counts as a miss, or as a write that did not happen.
    pub timeout: Option<u64>,
    /// The time after which the remote store drops an entry, in seconds.
    pub ttl: Option<u64>,
}

/// The settings of a cache: an in-memory tier, and a remote tier or none.
#[derive(Debug)]
pub struct Cache {
    pub in_memory: InMemoryCache,
    pub redis: Option<RedisCache>,
}

impl Cache {
    /// The in-memory tier holds at least one entry.
    pub open spec fn wf(&self) -> bool {
        self.in_memory.limit > 0
    }

    /// The endpoints of the remote tier, where one is configured.
    pub open spec fn endpoints(&self) -> Option<Seq<String>> {
        match self.redis {
            Some(redis) => Some(redis.urls@),
            None => None,
        }
    }

    /// Whether the settings can be used: the limit is not zero.
    pub fn is_valid(&self) -> (valid: bool)
        ensures
            valid == self.wf(),
    {
        self.in_memory.limit > 0
    }
}

impl Default for Cache {
    /// An in-memory tier of the default capacity and no remote tier.
    fn default() -> (config: Self)
        ensures
            config.wf(),
            config.in_memory.limit == DEFAULT_CACHE_CAPACITY,
            config.redis is None,
    {
        Cache { in_memory: InMemoryCache { limit: DEFAULT_CACHE_CAPACITY }, redis: None }
    }
}

} // verus!
