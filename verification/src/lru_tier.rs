//! The bounded in-memory tier: a least-recently-used mapping of fixed capacity.
//!
//! The entries live in an [`lru::LruCache`]. Its contents are modelled as a
//! sequence of `(key, value)` pairs ordered from the most recently used entry
//! to the least recently used one.

use lru::LruCache;
use std::num::NonZeroUsize;
use vstd::prelude::*;

verus! {

/// Whether some entry of `entries` has the key `key`.
pub open spec fn holds_key(entries: Seq<(u64, u64)>, key: u64) -> bool {
    exists|i: int| 0 <= i < entries.len() && (#[trigger] entries[i]).0 == key
}

/// The place of the entry with key `key`, where there is one.
pub open spec fn position(entries: Seq<(u64, u64)>, key: u64) -> int {
    choose|i: int| 0 <= i < entries.len() && (#[trigger] entries[i]).0 == key
}

/// No two entries share a key.
pub open spec fn distinct_keys(entries: Seq<(u64, u64)>) -> bool {
    forall|i: int, j: int|
        0 <= i < j < entries.len() ==> (#[trigger] entries[i]).0 != (#[trigger] entries[j]).0
}

/// The entries are a valid content for a tier of the given capacity.
pub open spec fn fits(entries: Seq<(u64, u64)>, capacity: nat) -> bool {
    &&& 0 < capacity
    &&& entries.len() <= capacity
    &&& distinct_keys(entries)
}

/// The value stored under `key`, if any.
pub open spec fn lookup(entries: Seq<(u64, u64)>, key: u64) -> Option<u64> {
    if holds_key(entries, key) {
        Some(entries[position(entries, key)].1)
    } else {
        None
    }
}

/// The entries after `key` was read: its entry, if there is one, moves to the
/// front; nothing else changes.
pub open spec fn touched(entries: Seq<(u64, u64)>, key: u64) -> Seq<(u64, u64)> {
    if holds_key(entries, key) {
        let at = position(entries, key);
        seq![entries[at]] + entries.remove(at)
    } else {
        entries
    }
}

/// The entries after `(key, value)` was stored: the pair stands at the front;
/// an older entry for `key` is replaced; a new key in a full tier pushes the
/// last entry out.
pub open spec fn stored(entries: Seq<(u64, u64)>, capacity: nat, key: u64, value: u64) -> Seq<
    (u64, u64),
> {
    if holds_key(entries, key) {
        seq![(key, value)] + entries.remove(position(entries, key))
    } else if entries.len() >= capacity {
        seq![(key, value)] + entries.drop_last()
    } else {
        seq![(key, value)] + entries
    }
}

/// The keys, most recently used first.
pub open spec fn keys_of(entries: Seq<(u64, u64)>) -> Seq<u64> {
    entries.map_values(|e: (u64, u64)| e.0)
}

/// With distinct keys, an entry's key determines its place.
pub proof fn lemma_position(entries: Seq<(u64, u64)>, key: u64, at: int)
    requires
        distinct_keys(entries),
        0 <= at < entries.len(),
        entries[at].0 == key,
    ensures
        holds_key(entries, key),
        position(entries, key) == at,
        lookup(entries, key) == Some(entries[at].1),
{
    let found = position(entries, key);
    assert(0 <= found < entries.len() && entries[found].0 == key);
    if found < at {
        assert(entries[found].0 != entries[at].0);
    } else if at < found {
        assert(entries[at].0 != entries[found].0);
    }
}

/// A key that is held has a place, and that place holds the key.
pub proof fn lemma_position_valid(entries: Seq<(u64, u64)>, key: u64)
    requires
        holds_key(entries, key),
    ensures
        0 <= position(entries, key) < entries.len(),
        entries[position(entries, key)].0 == key,
{
}

/// Reading a key keeps the content valid, and changes no key's value.
pub proof fn lemma_touched(entries: Seq<(u64, u64)>, capacity: nat, key: u64)
    requires
        fits(entries, capacity),
    ensures
        fits(touched(entries, key), capacity),
        touched(entries, key).len() == entries.len(),
        forall|other: u64| #[trigger]
            lookup(touched(entries, key), other) == lookup(entries, other),
{
    let after = touched(entries, key);
    if holds_key(entries, key) {
        let at = position(entries, key);
        lemma_position_valid(entries, key);
        let rest = entries.remove(at);
        assert(forall|i: int| 0 <= i < at ==> rest[i] == entries[i]);
        assert(forall|i: int| at <= i < rest.len() ==> rest[i] == entries[i + 1]);
        assert(forall|i: int| 1 <= i < after.len() ==> after[i] == rest[i - 1]);
        assert(after[0] == entries[at]);
        assert forall|i: int, j: int| 0 <= i < j < after.len() implies (#[trigger] after[i]).0 != (
        #[trigger] after[j]).0 by {
            let src_j = if j - 1 < at {
                j - 1
            } else {
                j
            };
            assert(after[j] == entries[src_j]);
            if i == 0 {
                if src_j < at {
                    assert(entries[src_j].0 != entries[at].0);
                } else {
                    assert(entries[at].0 != entries[src_j].0);
                }
            } else {
                let src_i = if i - 1 < at {
                    i - 1
                } else {
                    i
                };
                assert(after[i] == entries[src_i]);
                assert(entries[src_i].0 != entries[src_j].0);
            }
        }
        assert forall|other: u64| #[trigger]
            lookup(after, other) == lookup(entries, other) by {
            if holds_key(entries, other) {
                let src = position(entries, other);
                lemma_position_valid(entries, other);
                let dst = if src == at {
                    0
                } else if src < at {
                    src + 1
                } else {
                    src
                };
                assert(after[dst] == entries[src]);
                lemma_position(after, other, dst);
            } else if holds_key(after, other) {
                let dst = position(after, other);
                lemma_position_valid(after, other);
                let src = if dst == 0 {
                    at
                } else if dst - 1 < at {
                    dst - 1
                } else {
                    dst
                };
                assert(after[dst] == entries[src]);
                assert(entries[src].0 == other);
            }
        }
    }
}

/// Storing a pair keeps the content valid and makes the pair readable.
pub proof fn lemma_stored(entries: Seq<(u64, u64)>, capacity: nat, key: u64, value: u64)
    requires
        fits(entries, capacity),
    ensures
        fits(stored(entries, capacity, key, value), capacity),
        stored(entries, capacity, key, value)[0] == (key, value),
        lookup(stored(entries, capacity, key, value), key) == Some(value),
        stored(entries, capacity, key, value).len() == if holds_key(entries, key) {
            entries.len()
        } else if entries.len() >= capacity {
            capacity
        } else {
            entries.len() + 1
        },
{
    let after = stored(entries, capacity, key, value);
    let rest = after.subrange(1, after.len() as int);
    if holds_key(entries, key) {
        let at = position(entries, key);
        lemma_position_valid(entries, key);
        assert(rest =~= entries.remove(at));
        assert forall|i: int| 0 <= i < rest.len() implies (#[trigger] rest[i]).0 != key by {
            let s = if i < at {
                i
            } else {
                i + 1
            };
            assert(rest[i] == entries[s]);
            if s < at {
                assert(entries[s].0 != entries[at].0);
            } else {
                assert(entries[at].0 != entries[s].0);
            }
        }
        assert forall|i: int, j: int| 0 <= i < j < rest.len() implies (#[trigger] rest[i]).0 != (
        #[trigger] rest[j]).0 by {
            let si = if i < at {
                i
            } else {
                i + 1
            };
            let sj = if j < at {
                j
            } else {
                j + 1
            };
            assert(rest[i] == entries[si]);
            assert(rest[j] == entries[sj]);
            assert(entries[si].0 != entries[sj].0);
        }
    } else if entries.len() >= capacity {
        assert(rest =~= entries.drop_last());
        assert forall|i: int| 0 <= i < rest.len() implies (#[trigger] rest[i]).0 != key by {
            assert(rest[i] == entries[i]);
        }
        assert forall|i: int, j: int| 0 <= i < j < rest.len() implies (#[trigger] rest[i]).0 != (
        #[trigger] rest[j]).0 by {
            assert(rest[i] == entries[i]);
            assert(rest[j] == entries[j]);
        }
    } else {
        assert(rest =~= entries);
        assert forall|i: int| 0 <= i < rest.len() implies (#[trigger] rest[i]).0 != key by {
            assert(rest[i] == entries[i]);
        }
    }
    assert(after[0] == (key, value));
    assert(forall|i: int| 1 <= i < after.len() ==> after[i] == rest[i - 1]);
    assert forall|i: int, j: int| 0 <= i < j < after.len() implies (#[trigger] after[i]).0 != (
    #[trigger] after[j]).0 by {
        assert(after[j] == rest[j - 1]);
        if i > 0 {
            assert(after[i] == rest[i - 1]);
        }
    }
    lemma_position(after, key, 0);
}

/// Storing a key that is held a second time leaves what storing it once
/// with the later value leaves.
pub proof fn lemma_stored_twice(
    entries: Seq<(u64, u64)>,
    capacity: nat,
    key: u64,
    first: u64,
    second: u64,
)
    requires
        fits(entries, capacity),
    ensures
        stored(stored(entries, capacity, key, first), capacity, key, second) == stored(
            entries,
            capacity,
            key,
            second,
        ),
{
    let once = stored(entries, capacity, key, first);
    lemma_stored(entries, capacity, key, first);
    lemma_position(once, key, 0);
    assert(stored(once, capacity, key, second) =~= stored(entries, capacity, key, second));
}

/// A key that the tier does not hold goes to the front, and the entries
/// behind it keep their order; the last one leaves if the tier was full.
pub proof fn lemma_stored_new(entries: Seq<(u64, u64)>, capacity: nat, key: u64, value: u64)
    requires
        fits(entries, capacity),
        !holds_key(entries, key),
    ensures
        stored(entries, capacity, key, value) == (seq![(key, value)] + entries).take(
            least(entries.len() + 1, capacity) as int,
        ),
{
    let front = seq![(key, value)] + entries;
    if entries.len() < capacity {
        assert(front.take(entries.len() + 1 as int) =~= front);
    } else {
        assert(front.take(capacity as int) =~= seq![(key, value)] + entries.drop_last());
    }
}

/// The entries after the pairs of `items` were stored one after another, the
/// first pair first.
pub open spec fn stored_all(entries: Seq<(u64, u64)>, capacity: nat, items: Seq<(u64, u64)>) -> Seq<
    (u64, u64),
>
    decreases items.len(),
{
    if items.len() == 0 {
        entries
    } else {
        let last = items.last();
        stored(stored_all(entries, capacity, items.drop_last()), capacity, last.0, last.1)
    }
}

/// The smaller of two numbers.
pub open spec fn least(a: nat, b: nat) -> nat {
    if a <= b {
        a
    } else {
        b
    }
}

/// After pairs with keys that are new and differ from one another were
/// stored, the tier holds the pairs stored last, the latest first, followed by
/// what it held before, cut at its capacity.
pub proof fn lemma_stored_all(entries: Seq<(u64, u64)>, capacity: nat, items: Seq<(u64, u64)>)
    requires
        fits(entries, capacity),
        distinct_keys(items),
        forall|i: int| 0 <= i < items.len() ==> !holds_key(entries, (#[trigger] items[i]).0),
    ensures
        fits(stored_all(entries, capacity, items), capacity),
        stored_all(entries, capacity, items) == (items.reverse() + entries).take(
            least(items.len() + entries.len(), capacity) as int,
        ),
    decreases items.len(),
{
    if items.len() == 0 {
        assert((items.reverse() + entries).take(entries.len() as int) =~= entries);
        assert(least(items.len() + entries.len(), capacity) == entries.len());
    } else {
        let earlier = items.drop_last();
        let last = items.last();
        lemma_stored_all(entries, capacity, earlier);
        let held = stored_all(entries, capacity, earlier);
        let all = earlier.reverse() + entries;
        assert(held == all.take(least(all.len(), capacity) as int));
        if holds_key(held, last.0) {
            let at = position(held, last.0);
            assert(held[at] == all[at]);
            if at < earlier.len() {
                let from = earlier.len() - 1 - at;
                assert(all[at] == earlier[from]);
                assert(items[from] == earlier[from]);
                assert(items[from].0 != items[items.len() - 1].0);
            } else {
                assert(all[at] == entries[at - earlier.len()]);
                assert(!holds_key(entries, items[items.len() - 1].0));
            }
            assert(false);
        }
        lemma_stored_new(held, capacity, last.0, last.1);
        lemma_stored(held, capacity, last.0, last.1);
        let now = seq![last] + all;
        assert(now =~= items.reverse() + entries);
        assert(stored_all(entries, capacity, items) =~= now.take(
            least(items.len() + entries.len(), capacity) as int,
        ));
    }
}

/// After `items.len()` pairs with distinct keys were stored in an empty tier
/// of capacity `capacity`, the tier holds the smaller of the two numbers of
/// entries: the pairs stored last, the latest first.
pub proof fn lemma_bounded(capacity: nat, items: Seq<(u64, u64)>)
    requires
        0 < capacity,
        distinct_keys(items),
    ensures
        stored_all(Seq::empty(), capacity, items) == items.reverse().take(
            least(items.len(), capacity) as int,
        ),
        stored_all(Seq::empty(), capacity, items).len() == least(items.len(), capacity),
{
    let none = Seq::<(u64, u64)>::empty();
    lemma_stored_all(none, capacity, items);
    assert(items.reverse() + none =~= items.reverse());
}

/// `lru::LruCache`, a map that keeps its entries in the order of their last
/// use. Nothing is known of a value of this type but what the functions
/// below state.
#[verifier::external_type_specification]
#[verifier::external_body]
#[verifier::reject_recursive_types(K)]
#[verifier::reject_recursive_types(V)]
#[verifier::reject_recursive_types(S)]
pub struct ExLruCache<K, V, S>(LruCache<K, V, S>);

/// `lru::DefaultHasher`, the builder of the hashers of an `LruCache` that
/// is made without one. It is named in the cache's type and never used here.
#[verifier::external_type_specification]
#[verifier::external_body]
pub struct ExDefaultHasher(lru::DefaultHasher);

/// The entries that an `LruCache` holds, from the most recently used to the
/// least recently used.
pub uninterp spec fn lru_entries(cache: LruCache<u64, u64>) -> Seq<(u64, u64)>;

/// The number of entries that an `LruCache` holds at most.
pub uninterp spec fn lru_capacity(cache: LruCache<u64, u64>) -> nat;

/// `LruCache::unbounded`: an empty cache whose capacity is `usize::MAX`.
/// Nothing is allocated for entries that have not arrived.
#[verifier::external_body]
fn lru_unbounded() -> (cache: LruCache<u64, u64>)
    ensures
        lru_entries(cache) == Seq::<(u64, u64)>::empty(),
        lru_capacity(cache) == usize::MAX,
{
    LruCache::unbounded()
}

/// `LruCache::resize`, called on a cache that holds no more than `capacity`
/// entries: the capacity becomes `capacity` and every entry stays in place.
#[verifier::external_body]
fn lru_resize(cache: &mut LruCache<u64, u64>, capacity: usize)
    requires
        0 < capacity,
        lru_entries(*old(cache)).len() <= capacity,
    ensures
        lru_entries(*final(cache)) == lru_entries(*old(cache)),
        lru_capacity(*final(cache)) == capacity,
{
    cache.resize(NonZeroUsize::new(capacity).unwrap())
}

/// `LruCache::get`: returns the value under `key`, if there is one, and moves
/// that entry to the most recently used place.
#[verifier::external_body]
fn lru_get(cache: &mut LruCache<u64, u64>, key: u64) -> (found: Option<u64>)
    ensures
        found == lookup(lru_entries(*old(cache)), key),
        lru_entries(*final(cache)) == touched(lru_entries(*old(cache)), key),
        lru_capacity(*final(cache)) == lru_capacity(*old(cache)),
{
    cache.get(&key).copied()
}

/// `LruCache::put`: stores the pair as the most recently used entry. An entry
/// with the same key is replaced and its value returned; otherwise, when the
/// cache is full, the least recently used entry is dropped.
#[verifier::external_body]
fn lru_put(cache: &mut LruCache<u64, u64>, key: u64, value: u64) -> (previous: Option<u64>)
    ensures
        previous == lookup(lru_entries(*old(cache)), key),
        lru_entries(*final(cache)) == stored(
            lru_entries(*old(cache)),
            lru_capacity(*old(cache)),
            key,
            value,
        ),
        lru_capacity(*final(cache)) == lru_capacity(*old(cache)),
{
    cache.put(key, value)
}

/// `LruCache::len`: the number of entries held.
#[verifier::external_body]
fn lru_len(cache: &LruCache<u64, u64>) -> (n: usize)
    ensures
        n == lru_entries(*cache).len(),
{
    cache.len()
}

/// `LruCache::iter`: visits the entries from the most recently used to the
/// least recently used; the keys are collected in that order.
#[verifier::external_body]
fn lru_keys(cache: &LruCache<u64, u64>) -> (keys: Vec<u64>)
    ensures
        keys@ == keys_of(lru_entries(*cache)),
{
    cache.iter().map(|(k, _)| *k).collect()
}

/// The in-memory tier of the cache.
pub struct LruTier {
    cache: LruCache<u64, u64>,
}

impl View for LruTier {
    type V = Seq<(u64, u64)>;

    /// The entries, most recently used first.
    closed spec fn view(&self) -> Seq<(u64, u64)> {
        lru_entries(self.cache)
    }
}

impl LruTier {
    /// The number of entries that the tier holds at most.
    pub closed spec fn capacity(&self) -> nat {
        lru_capacity(self.cache)
    }

    /// The tier holds distinct keys, and no more entries than its capacity.
    pub open spec fn wf(&self) -> bool {
        fits(self@, self.capacity())
    }

    /// An empty tier that holds at most `capacity` entries. The cache is
    /// made without a bound and then bounded, so that no room is set aside
    /// before entries arrive, however large the capacity.
    pub fn new(capacity: usize) -> (tier: Self)
        requires
            0 < capacity,
        ensures
            tier.wf(),
            tier@ == Seq::<(u64, u64)>::empty(),
            tier.capacity() == capacity,
    {
        let mut cache = lru_unbounded();
        lru_resize(&mut cache, capacity);
        LruTier { cache }
    }

    /// Looks `key` up. A hit makes the entry the most recently used one.
    pub fn get(&mut self, key: u64) -> (found: Option<u64>)
        requires
            old(self).wf(),
        ensures
            final(self).wf(),
            final(self).capacity() == old(self).capacity(),
            found == lookup(old(self)@, key),
            final(self)@ == touched(old(self)@, key),
    {
        proof {
            lemma_touched(self@, self.capacity(), key);
        }
        lru_get(&mut self.cache, key)
    }

    /// Stores `value` under `key` as the most recently used entry and returns
    /// the value that `key` had before.
    pub fn put(&mut self, key: u64, value: u64) -> (previous: Option<u64>)
        requires
            old(self).wf(),
        ensures
            final(self).wf(),
            final(self).capacity() == old(self).capacity(),
            previous == lookup(old(self)@, key),
            final(self)@ == stored(old(self)@, old(self).capacity(), key, value),
    {
        proof {
            lemma_stored(self@, self.capacity(), key, value);
        }
        lru_put(&mut self.cache, key, value)
    }

    /// The number of entries held.
    pub fn len(&self) -> (n: usize)
        ensures
            n == self@.len(),
    {
        lru_len(&self.cache)
    }

    /// The keys held, most recently used first.
    pub fn keys(&self) -> (keys: Vec<u64>)
        ensures
            keys@ == keys_of(self@),
    {
        lru_keys(&self.cache)
    }
}

} // verus!
