//! The storage facade: the in-memory tier in front of an optional remote tier.
//!
//! The facade owns the in-memory tier and decides what a read or a write
//! means for both tiers. The remote tier itself is reached by the caller: a
//! read that misses in memory tells the caller to ask the remote tier, and the
//! answer comes back through [`CacheStorage::backfill`].

use crate::lru_tier::{fits, keys_of, lookup, stored, touched, LruTier};
use vstd::prelude::*;

verus! {

/// What the remote tier answered to a read.
#[derive(Clone, Copy, Debug, PartialEq, Eq, Structural)]
pub enum RemoteReply {
    /// The key is stored remotely with this value.
    Found(u64),
    /// The key is not stored remotely.
    Missing,
    /// The remote tier could not be reached in time, or what it sent could
    /// not be decoded.
    Failed,
}

impl RemoteReply {
    /// The value that the reply carries. A failure counts as a miss.
    pub open spec fn value(self) -> Option<u64> {
        match self {
            RemoteReply::Found(value) => Some(value),
            RemoteReply::Missing => None,
            RemoteReply::Failed => None,
        }
    }

    /// The value that the reply carries. A failure counts as a miss.
    pub fn into_value(self) -> (value: Option<u64>)
        ensures
            value == self.value(),
    {
        match self {
            RemoteReply::Found(value) => Some(value),
            RemoteReply::Missing => None,
            RemoteReply::Failed => None,
        }
    }
}

/// What a read of the facade found in memory, and what is left to do.
#[derive(Clone, Copy, Debug, PartialEq, Eq, Structural)]
pub enum StorageLookup {
    /// The in-memory tier holds the value.
    Found(u64),
    /// The in-memory tier misses and a remote tier is there to be asked.
    AskRemote,
    /// The in-memory tier misses and there is no remote tier.
    Absent,
}

/// The facade as a value.
pub ghost struct StorageState {
    /// The entries in memory, most recently used first.
    pub memory: Seq<(u64, u64)>,
    /// The number of entries that the memory holds at most.
    pub capacity: nat,
    /// Whether a remote tier stands behind the memory.
    pub remote: bool,
}

impl StorageState {
    pub open spec fn wf(self) -> bool {
        fits(self.memory, self.capacity)
    }

    /// What a read of `key` returns.
    pub open spec fn find(self, key: u64) -> StorageLookup {
        match lookup(self.memory, key) {
            Some(value) => StorageLookup::Found(value),
            None => if self.remote {
                StorageLookup::AskRemote
            } else {
                StorageLookup::Absent
            },
        }
    }

    /// The state after `key` was read.
    pub open spec fn read(self, key: u64) -> StorageState {
        StorageState { memory: touched(self.memory, key), ..self }
    }

    /// The state after `value` was written under `key`.
    pub open spec fn written(self, key: u64, value: u64) -> StorageState {
        StorageState { memory: stored(self.memory, self.capacity, key, value), ..self }
    }

    /// The state after the remote tier answered a read of `key`: a value that
    /// was found is written to memory.
    pub open spec fn filled(self, key: u64, reply: RemoteReply) -> StorageState {
        match reply.value() {
            Some(value) => self.written(key, value),
            None => self,
        }
    }
}

/// The endpoints that a list of addresses names, where there is a list.
pub open spec fn endpoints_of(urls: Option<Vec<String>>) -> Option<Seq<String>> {
    match urls {
        Some(urls) => Some(urls@),
        None => None,
    }
}

/// The two tiers behind one interface.
pub struct CacheStorage {
    memory: LruTier,
    redis_urls: Option<Vec<String>>,
    caller: String,
}

impl View for CacheStorage {
    type V = StorageState;

    closed spec fn view(&self) -> StorageState {
        StorageState {
            memory: self.memory@,
            capacity: self.memory.capacity(),
            remote: self.redis_urls is Some,
        }
    }
}

impl CacheStorage {
    pub open spec fn wf(&self) -> bool {
        self@.wf()
    }

    /// The label under which this storage reports.
    pub closed spec fn caller_name(&self) -> Seq<char> {
        self.caller@
    }

    /// The endpoints of the remote tier, where there is one.
    pub closed spec fn endpoints(&self) -> Option<Seq<String>> {
        endpoints_of(self.redis_urls)
    }

    /// An empty storage of the given capacity, with a remote tier exactly
    /// when endpoints are given.
    pub fn new(capacity: usize, redis_urls: Option<Vec<String>>, caller: &str) -> (storage: Self)
        requires
            0 < capacity,
        ensures
            storage.wf(),
            storage@ == (StorageState {
                memory: Seq::<(u64, u64)>::empty(),
                capacity: capacity as nat,
                remote: redis_urls is Some,
            }),
            storage.endpoints() == endpoints_of(redis_urls),
            storage.caller_name() == caller@,
    {
        CacheStorage { memory: LruTier::new(capacity), redis_urls, caller: caller.to_owned() }
    }

    /// Reads `key` from memory alone. A hit makes the entry the most recently
    /// used one.
    pub fn get_in_memory(&mut self, key: u64) -> (found: Option<u64>)
        requires
            old(self).wf(),
        ensures
            final(self).wf(),
            found == lookup(old(self)@.memory, key),
            final(self)@ == old(self)@.read(key),
            final(self).endpoints() == old(self).endpoints(),
            final(self).caller_name() == old(self).caller_name(),
    {
        self.memory.get(key)
    }

    /// Reads `key`: from memory if it is there; otherwise the answer says
    /// whether a remote tier is to be asked.
    pub fn get(&mut self, key: u64) -> (found: StorageLookup)
        requires
            old(self).wf(),
        ensures
            final(self).wf(),
            found == old(self)@.find(key),
            final(self)@ == old(self)@.read(key),
            final(self).endpoints() == old(self).endpoints(),
            final(self).caller_name() == old(self).caller_name(),
    {
        match self.memory.get(key) {
            Some(value) => StorageLookup::Found(value),
            None => if self.redis_urls.is_some() {
                StorageLookup::AskRemote
            } else {
                StorageLookup::Absent
            },
        }
    }

    /// Takes the remote tier's answer to a read of `key`. A value that was
    /// found is written to memory and returned; a miss or a failure changes
    /// nothing.
    pub fn backfill(&mut self, key: u64, reply: RemoteReply) -> (found: Option<u64>)
        requires
            old(self).wf(),
        ensures
            final(self).wf(),
            found == reply.value(),
            final(self)@ == old(self)@.filled(key, reply),
            final(self).endpoints() == old(self).endpoints(),
            final(self).caller_name() == old(self).caller_name(),
    {
        match reply.into_value() {
            Some(value) => {
                self.memory.put(key, value);
                Some(value)
            },
            None => None,
        }
    }

    /// Writes `value` under `key` to memory. Returns whether the pair is to
    /// be written to the remote tier as well.
    pub fn insert(&mut self, key: u64, value: u64) -> (write_remote: bool)
        requires
            old(self).wf(),
        ensures
            final(self).wf(),
            write_remote == old(self)@.remote,
            final(self)@ == old(self)@.written(key, value),
            final(self).endpoints() == old(self).endpoints(),
            final(self).caller_name() == old(self).caller_name(),
    {
        self.memory.put(key, value);
        self.redis_urls.is_some()
    }

    /// The number of entries in memory.
    pub fn len(&self) -> (n: usize)
        ensures
            n == self@.memory.len(),
    {
        self.memory.len()
    }

    /// The keys in memory, most recently used first.
    pub fn in_memory_keys(&self) -> (keys: Vec<u64>)
        ensures
            keys@ == keys_of(self@.memory),
    {
        self.memory.keys()
    }

    /// Whether a remote tier stands behind the memory.
    pub fn has_remote(&self) -> (remote: bool)
        ensures
            remote == self@.remote,
    {
        self.redis_urls.is_some()
    }

    /// The endpoints of the remote tier, where there is one.
    pub fn redis_urls(&self) -> (urls: &Option<Vec<String>>)
        ensures
            endpoints_of(*urls) == self.endpoints(),
    {
        &self.redis_urls
    }

    /// The label under which this storage reports.
    pub fn caller(&self) -> (caller: &str)
        ensures
            caller@ == self.caller_name(),
    {
        self.caller.as_str()
    }
}

} // verus!
