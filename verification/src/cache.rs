//! The deduplicating front-end.
//!
//! A caller asks for a key and gets an [`Entry`]: the value, where the cache
//! holds it; the obligation to produce it, where nobody is producing it yet;
//! or a place among the waiters of the production that is in flight. For any
//! key at most one production is in flight at a time.
//!
//! Every operation is one step of the protocol and takes the cache by
//! exclusive reference. What happens between two steps (the producer's work,
//! a question to the remote tier, a waiter's sleep) is the caller's business:
//! the caller performs it and comes back with the outcome.

use crate::configuration::Cache;
use crate::lru_tier::{fits, keys_of, lookup, stored, touched};
use crate::storage::{endpoints_of, CacheStorage, RemoteReply, StorageState};
use crate::wait_map::{Registry, WaitMap};
use vstd::prelude::*;

verus! {

/// What a caller holds after asking for a key.
#[derive(Clone, Copy, Debug, PartialEq, Eq, Structural)]
pub enum Handle {
    /// The cache held the value.
    Value(u64),
    /// A production is in flight; the caller waits on its slot.
    Waiter { slot: usize },
    /// The caller is to produce the value for `key` and to publish it
    /// through `slot`, or to give the production up.
    Producer { key: u64, slot: usize },
}

/// Why an [`Entry`] gave no value.
#[derive(Clone, Copy, Debug, PartialEq, Eq, Structural)]
pub enum EntryError {
    /// The entry is the producer's: there is nothing to read, the value is
    /// to be inserted.
    IsFirst,
    /// The producer went away without a value.
    NoValue,
}

/// The cache as a value.
pub ghost struct CacheState {
    /// The entries in memory, most recently used first.
    pub memory: Seq<(u64, u64)>,
    /// The number of entries that the memory holds at most.
    pub capacity: nat,
    /// Whether a remote tier stands behind the memory.
    pub remote: bool,
    /// The productions in flight and their slots.
    pub registry: Registry,
}

impl CacheState {
    pub open spec fn wf(self) -> bool {
        fits(self.memory, self.capacity) && self.registry.wf()
    }

    /// A cache that holds nothing and waits for nothing.
    pub open spec fn empty(capacity: nat, remote: bool) -> CacheState {
        CacheState { memory: Seq::empty(), capacity, remote, registry: Registry::empty() }
    }

    /// Memory does not hold `key`, and no production is in flight for it.
    pub open spec fn cold(self, key: u64) -> bool {
        lookup(self.memory, key) is None && !self.registry.in_flight(key)
    }

    /// The state after `key` was read in memory.
    pub open spec fn read(self, key: u64) -> CacheState {
        CacheState { memory: touched(self.memory, key), ..self }
    }

    /// The state after `value` was written under `key`.
    pub open spec fn written(self, key: u64, value: u64) -> CacheState {
        CacheState { memory: stored(self.memory, self.capacity, key, value), ..self }
    }

    /// The state after the production of `key` at `slot` ended with `outcome`.
    pub open spec fn settled(self, slot: usize, key: u64, outcome: Option<u64>) -> CacheState {
        CacheState { registry: self.registry.settled(slot, key, outcome), ..self }
    }

    /// The state after the producer of `key` published `value`: the value is
    /// in memory and the slot is resolved with it.
    pub open spec fn published(self, slot: usize, key: u64, value: u64) -> CacheState {
        self.written(key, value).settled(slot, key, Some(value))
    }

    /// The state after one more waiter took the slot of the production of
    /// `key`.
    pub open spec fn joined(self, key: u64) -> CacheState {
        CacheState { registry: self.registry.joined(key), ..self }
    }

    /// The state after a production for `key` was opened at `slot`.
    pub open spec fn opened(self, key: u64, slot: usize) -> CacheState {
        CacheState { registry: self.registry.opened(key, slot), ..self }
    }

    /// `get_dedup(key)` may end in `after` with `handle`: the caller waits
    /// where a production is in flight; else it gets the value that memory
    /// holds; else it becomes the producer, with a slot that was free.
    pub open spec fn dedup_gives(self, key: u64, handle: Handle, after: CacheState) -> bool {
        if self.registry.in_flight(key) {
            &&& handle == (Handle::Waiter { slot: self.registry.index[key] })
            &&& after == self.joined(key)
        } else {
            match lookup(self.memory, key) {
                Some(value) => handle == Handle::Value(value) && after == self.read(key),
                None => match handle {
                    Handle::Producer { key: owned, slot } => {
                        &&& owned == key
                        &&& self.registry.is_free(slot)
                        &&& after == self.opened(key, slot)
                    },
                    _ => false,
                },
            }
        }
    }

    /// `get(key)` may end in `after` with `handle`: the value where memory
    /// holds it, and otherwise what `dedup` gives.
    pub open spec fn get_gives(self, key: u64, handle: Handle, after: CacheState) -> bool {
        match lookup(self.memory, key) {
            Some(value) => handle == Handle::Value(value) && after == self.read(key),
            None => self.dedup_gives(key, handle, after),
        }
    }

    /// The state after the remote tier answered the producer's question, and
    /// what the producer holds then. A value that was found is written to
    /// memory and published through the slot, and the production is over.
    /// A miss or a failure changes nothing.
    pub open spec fn answered(self, handle: Handle, reply: RemoteReply) -> (CacheState, Handle) {
        match (handle, reply.value()) {
            (Handle::Producer { key, slot }, Some(value)) => (
                self.published(slot, key, value),
                Handle::Value(value),
            ),
            _ => (self, handle),
        }
    }

    /// The state after a handle was given up unused: a production is
    /// abandoned, a waiter lets go of its slot.
    pub open spec fn dropped(self, handle: Handle) -> CacheState {
        match handle {
            Handle::Producer { key, slot } => self.settled(slot, key, None),
            Handle::Waiter { slot } => CacheState { registry: self.registry.left(slot), ..self },
            Handle::Value(_) => self,
        }
    }

    /// The state after `value` was inserted through a handle. Only a
    /// producer publishes; any other handle is given up.
    pub open spec fn inserted(self, handle: Handle, value: u64) -> CacheState {
        match handle {
            Handle::Producer { key, slot } => self.published(slot, key, value),
            _ => self.dropped(handle),
        }
    }

    /// The state after `value` was sent through a handle: a producer resolves
    /// its slot and leaves memory as it is; any other handle is given up.
    pub open spec fn sent(self, handle: Handle, value: u64) -> CacheState {
        match handle {
            Handle::Producer { key, slot } => self.settled(slot, key, Some(value)),
            _ => self.dropped(handle),
        }
    }

    /// What reading through a handle returns.
    pub open spec fn read_through(self, handle: Handle) -> Result<u64, EntryError> {
        match handle {
            Handle::Value(value) => Ok(value),
            Handle::Producer { .. } => Err(EntryError::IsFirst),
            Handle::Waiter { slot } => match self.registry.slots[slot as int].outcome() {
                Some(value) => Ok(value),
                None => Err(EntryError::NoValue),
            },
        }
    }

    /// A handle can be read: a waiter's slot has settled.
    pub open spec fn ready(self, handle: Handle) -> bool {
        match handle {
            Handle::Waiter { slot } => self.registry.is_settled(slot),
            _ => true,
        }
    }
}

/// Cache with deduplication of the work that fills it.
pub struct DeduplicatingCache {
    wait_map: WaitMap,
    caller: String,
    storage: CacheStorage,
}

impl View for DeduplicatingCache {
    type V = CacheState;

    closed spec fn view(&self) -> CacheState {
        CacheState {
            memory: self.storage@.memory,
            capacity: self.storage@.capacity,
            remote: self.storage@.remote,
            registry: self.wait_map@,
        }
    }
}

impl DeduplicatingCache {
    pub open spec fn wf(&self) -> bool {
        self@.wf()
    }

    /// The label under which this cache reports.
    pub closed spec fn caller_name(&self) -> Seq<char> {
        self.caller@
    }

    /// The endpoints of the remote tier, where there is one.
    pub closed spec fn endpoints(&self) -> Option<Seq<String>> {
        self.storage.endpoints()
    }

    /// What stays as it is through every operation: the capacity, the
    /// endpoints and the label.
    pub open spec fn same_setup(&self, other: &DeduplicatingCache) -> bool {
        &&& self@.capacity == other@.capacity
        &&& self@.remote == other@.remote
        &&& self.endpoints() == other.endpoints()
        &&& self.caller_name() == other.caller_name()
    }

    /// An empty cache of the given capacity, with a remote tier exactly when
    /// endpoints are given.
    pub fn with_capacity(capacity: usize, redis_urls: Option<Vec<String>>, caller: &str) -> (cache:
        Self)
        requires
            0 < capacity,
        ensures
            cache.wf(),
            cache@ == CacheState::empty(capacity as nat, redis_urls is Some),
            cache.endpoints() == endpoints_of(redis_urls),
            cache.caller_name() == caller@,
    {
        DeduplicatingCache {
            wait_map: WaitMap::new(),
            caller: caller.to_owned(),
            storage: CacheStorage::new(capacity, redis_urls, caller),
        }
    }

    /// An empty cache as `config` describes it: its capacity is the limit of
    /// the in-memory tier, and it has a remote tier exactly when one is
    /// configured.
    pub fn from_configuration(config: &Cache, caller: &str) -> (cache: Self)
        requires
            config.wf(),
        ensures
            cache.wf(),
            cache@ == CacheState::empty(config.in_memory.limit as nat, config.redis is Some),
            cache.endpoints() == config.endpoints(),
            cache.caller_name() == caller@,
    {
        let redis_urls = match &config.redis {
            Some(redis) => {
                let urls = redis.urls.clone();
                assert(urls@ =~= redis.urls@);
                Some(urls)
            },
            None => None,
        };
        Self::with_capacity(config.in_memory.limit, redis_urls, caller)
    }

    /// Asks for `key`. The value is returned where memory holds it, and the
    /// read makes its entry the most recently used one. Otherwise the caller
    /// joins the production in flight, or starts one.
    ///
    /// A producer of a cache with a remote tier asks that tier before it
    /// sets to work, and hands the answer to [`Self::answer`].
    pub fn get(&mut self, key: u64) -> (entry: Entry)
        requires
            old(self).wf(),
        ensures
            final(self).wf(),
            final(self).same_setup(old(self)),
            old(self)@.get_gives(key, entry@, final(self)@),
    {
        match self.get_in_memory(key) {
            Some(value) => Entry { inner: Handle::Value(value) },
            None => {
                assert(self@ == old(self)@);
                self.get_dedup(key)
            },
        }
    }

    /// Reads `key` from memory. A hit makes the entry the most recently used
    /// one.
    pub fn get_in_memory(&mut self, key: u64) -> (found: Option<u64>)
        requires
            old(self).wf(),
        ensures
            final(self).wf(),
            final(self).same_setup(old(self)),
            found == lookup(old(self)@.memory, key),
            final(self)@ == old(self)@.read(key),
    {
        self.storage.get_in_memory(key)
    }

    /// Registers interest in `key`, whatever memory holds: the caller waits
    /// where a production is in flight. Where none is, memory is read once
    /// more, and only a miss makes the caller the producer.
    pub fn get_dedup(&mut self, key: u64) -> (entry: Entry)
        requires
            old(self).wf(),
        ensures
            final(self).wf(),
            final(self).same_setup(old(self)),
            old(self)@.dedup_gives(key, entry@, final(self)@),
    {
        if !self.wait_map.contains(key) {
            // Nobody can wait on a slot that is opened in this very step, so
            // memory is read before the slot is opened rather than after.
            match self.storage.get_in_memory(key) {
                Some(value) => {
                    return Entry { inner: Handle::Value(value) };
                },
                None => {},
            }
        }
        match self.get_or_insert_wait_map(key) {
            Err(slot) => Entry { inner: Handle::Waiter { slot } },
            Ok(slot) => Entry { inner: Handle::Producer { key, slot } },
        }
    }

    /// Looks `key` up in the registry. `Err` carries the slot of the
    /// production in flight, which the caller has joined as a waiter. `Ok`
    /// carries the slot of a production that was opened for the caller.
    pub fn get_or_insert_wait_map(&mut self, key: u64) -> (ticket: Result<usize, usize>)
        requires
            old(self).wf(),
        ensures
            final(self).wf(),
            final(self).same_setup(old(self)),
            match ticket {
                Ok(slot) => {
                    &&& !old(self)@.registry.in_flight(key)
                    &&& old(self)@.registry.is_free(slot)
                    &&& final(self)@ == old(self)@.opened(key, slot)
                },
                Err(slot) => {
                    &&& old(self)@.registry.in_flight(key)
                    &&& slot == old(self)@.registry.index[key]
                    &&& final(self)@ == old(self)@.joined(key)
                },
            },
    {
        self.wait_map.get_or_insert(key)
    }

    /// Takes the production of `key` at `slot` out of the registry and
    /// leaves the slot abandoned. Where `slot` is not pending for `key`,
    /// nothing happens.
    pub fn remove_from_wait_map(&mut self, key: u64, slot: usize)
        requires
            old(self).wf(),
        ensures
            final(self).wf(),
            final(self).same_setup(old(self)),
            final(self)@ == old(self)@.settled(slot, key, None),
    {
        self.wait_map.settle(slot, key, None);
    }

    /// Writes `value` under `key` to memory. Nothing in flight is touched.
    /// Returns whether the pair is to be written to the remote tier as well.
    pub fn insert(&mut self, key: u64, value: u64) -> (write_remote: bool)
        requires
            old(self).wf(),
        ensures
            final(self).wf(),
            final(self).same_setup(old(self)),
            final(self)@ == old(self)@.written(key, value),
            write_remote == old(self)@.remote,
    {
        self.insert_in_memory(key, value);
        self.storage.has_remote()
    }

    /// Writes `value` under `key` to memory and returns the number of
    /// entries that memory holds then.
    pub fn insert_in_memory(&mut self, key: u64, value: u64) -> (size: usize)
        requires
            old(self).wf(),
        ensures
            final(self).wf(),
            final(self).same_setup(old(self)),
            final(self)@ == old(self)@.written(key, value),
            size == final(self)@.memory.len(),
    {
        self.storage.insert(key, value);
        self.storage.len()
    }

    /// Resolves the production of `key` at `slot` with `value` and takes it
    /// out of the registry. Memory stays as it is. Where `slot` is not
    /// pending for `key`, nothing happens.
    pub fn send(&mut self, slot: usize, key: u64, value: u64)
        requires
            old(self).wf(),
        ensures
            final(self).wf(),
            final(self).same_setup(old(self)),
            final(self)@ == old(self)@.settled(slot, key, Some(value)),
    {
        self.wait_map.settle(slot, key, Some(value));
    }

    /// Takes the remote tier's answer to the question of the producer that
    /// holds `entry`. A value that was found is written to memory and
    /// published to the waiters, and the caller holds it. After a miss or a
    /// failure the caller is still the producer. An entry that is not a
    /// producer's comes back as it is.
    pub fn answer(&mut self, entry: Entry, reply: RemoteReply) -> (next: Entry)
        requires
            old(self).wf(),
        ensures
            final(self).wf(),
            final(self).same_setup(old(self)),
            (final(self)@, next@) == old(self)@.answered(entry@, reply),
    {
        match entry.inner {
            Handle::Producer { key, slot } => match reply.into_value() {
                Some(value) => {
                    self.storage.backfill(key, RemoteReply::Found(value));
                    self.send(slot, key, value);
                    Entry { inner: Handle::Value(value) }
                },
                None => entry,
            },
            _ => entry,
        }
    }

    /// The keys in memory, most recently used first.
    pub fn in_memory_keys(&self) -> (keys: Vec<u64>)
        ensures
            keys@ == keys_of(self@.memory),
    {
        self.storage.in_memory_keys()
    }

    /// The storage behind the cache.
    pub fn storage(&self) -> (storage: &CacheStorage)
        ensures
            storage@ == (StorageState {
                memory: self@.memory,
                capacity: self@.capacity,
                remote: self@.remote,
            }),
            storage.endpoints() == self.endpoints(),
    {
        &self.storage
    }

    /// Whether a remote tier stands behind the memory.
    pub fn has_remote(&self) -> (remote: bool)
        ensures
            remote == self@.remote,
    {
        self.storage.has_remote()
    }

    /// The number of productions in flight.
    pub fn in_flight(&self) -> (n: usize)
        ensures
            n == self@.registry.index.len(),
    {
        self.wait_map.len()
    }

    /// The label under which this cache reports.
    pub fn caller(&self) -> (caller: &str)
        ensures
            caller@ == self.caller_name(),
    {
        self.caller.as_str()
    }
}

/// What [`DeduplicatingCache::get`] hands out. An entry is used once: it is
/// read, or a value is inserted or sent through it, or it is abandoned. It
/// cannot be copied, and only the cache makes one. A producer's entry that is
/// lost without any of these leaves its production pending for good: whoever
/// holds entries for callers that may go away abandons them on their behalf.
#[derive(Debug)]
pub struct Entry {
    inner: Handle,
}

impl View for Entry {
    type V = Handle;

    closed spec fn view(&self) -> Handle {
        self.inner
    }
}

impl Entry {
    /// Whether the holder is the producer.
    pub fn is_first(&self) -> (first: bool)
        ensures
            first == (self@ is Producer),
    {
        match self.inner {
            Handle::Producer { .. } => true,
            _ => false,
        }
    }

    /// Whether the cache held the value.
    pub fn is_hit(&self) -> (hit: bool)
        ensures
            hit == (self@ is Value),
    {
        match self.inner {
            Handle::Value(_) => true,
            _ => false,
        }
    }

    /// Whether the holder is to ask the remote tier before anything else: it
    /// is the producer, and the cache has a remote tier.
    pub fn asks_remote(&self, cache: &DeduplicatingCache) -> (asks: bool)
        ensures
            asks == (self@ is Producer && cache@.remote),
    {
        self.is_first() && cache.has_remote()
    }

    /// Whether [`Self::get`] may be called: a waiter's slot has settled.
    pub fn is_ready(&self, cache: &DeduplicatingCache) -> (ready: bool)
        ensures
            ready == cache@.ready(self@),
    {
        match self.inner {
            Handle::Waiter { slot } => cache.wait_map.is_settled(slot),
            _ => true,
        }
    }

    /// Reads the entry and gives it up. A value that the cache held is
    /// returned. A waiter gets the value that the producer published, or
    /// `NoValue` where the production was abandoned. A producer has nothing
    /// to read: it gets `IsFirst`, and its production is abandoned.
    pub fn get(self, cache: &mut DeduplicatingCache) -> (value: Result<u64, EntryError>)
        requires
            old(cache).wf(),
            old(cache)@.ready(self@),
        ensures
            final(cache).wf(),
            final(cache).same_setup(old(cache)),
            value == old(cache)@.read_through(self@),
            final(cache)@ == old(cache)@.dropped(self@),
    {
        match self.inner {
            Handle::Value(value) => Ok(value),
            Handle::Waiter { slot } => {
                let outcome = cache.wait_map.outcome(slot);
                cache.wait_map.leave(slot);
                match outcome {
                    Some(value) => Ok(value),
                    None => Err(EntryError::NoValue),
                }
            },
            Handle::Producer { key, slot } => {
                cache.remove_from_wait_map(key, slot);
                Err(EntryError::IsFirst)
            },
        }
    }

    /// Publishes `value`: it is written to memory, then the slot is
    /// resolved with it, then the production leaves the registry. Returns
    /// whether the pair is to be written to the remote tier as well. An entry
    /// that is not a producer's is given up and nothing is written.
    pub fn insert(self, cache: &mut DeduplicatingCache, value: u64) -> (write_remote: bool)
        requires
            old(cache).wf(),
        ensures
            final(cache).wf(),
            final(cache).same_setup(old(cache)),
            final(cache)@ == old(cache)@.inserted(self@, value),
            write_remote == (self@ is Producer && old(cache)@.remote),
    {
        match self.inner {
            Handle::Producer { key, slot } => {
                let write_remote = cache.insert(key, value);
                cache.send(slot, key, value);
                write_remote
            },
            _ => {
                self.abandon(cache);
                false
            },
        }
    }

    /// Sends `value` to the waiters without storing it in the cache.
    /// An entry that is not a producer's is given up.
    pub fn send(self, cache: &mut DeduplicatingCache, value: u64)
        requires
            old(cache).wf(),
        ensures
            final(cache).wf(),
            final(cache).same_setup(old(cache)),
            final(cache)@ == old(cache)@.sent(self@, value),
    {
        match self.inner {
            Handle::Producer { key, slot } => {
                cache.send(slot, key, value);
            },
            _ => {
                self.abandon(cache);
            },
        }
    }

    /// Gives the entry up unused. A producer's slot is left abandoned and
    /// its production leaves the registry; a waiter lets go of its slot.
    pub fn abandon(self, cache: &mut DeduplicatingCache)
        requires
            old(cache).wf(),
        ensures
            final(cache).wf(),
            final(cache).same_setup(old(cache)),
            final(cache)@ == old(cache)@.dropped(self@),
    {
        match self.inner {
            Handle::Producer { key, slot } => {
                cache.remove_from_wait_map(key, slot);
            },
            Handle::Waiter { slot } => {
                cache.wait_map.leave(slot);
            },
            Handle::Value(_) => {},
        }
    }

    /// The key that the holder is to produce, where the holder is the
    /// producer.
    pub fn key(&self) -> (key: Option<u64>)
        ensures
            key == match self@ {
                Handle::Producer { key, .. } => Some(key),
                _ => None::<u64>,
            },
    {
        match self.inner {
            Handle::Producer { key, .. } => Some(key),
            _ => None,
        }
    }

    /// The slot that the entry refers to, where it refers to one.
    pub fn slot(&self) -> (slot: Option<usize>)
        ensures
            slot == match self@ {
                Handle::Producer { slot, .. } => Some(slot),
                Handle::Waiter { slot } => Some(slot),
                Handle::Value(_) => None::<usize>,
            },
    {
        match self.inner {
            Handle::Producer { slot, .. } => Some(slot),
            Handle::Waiter { slot } => Some(slot),
            Handle::Value(_) => None,
        }
    }
}

} // verus!
