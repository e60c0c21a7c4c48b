//! The cache together with the handles that its callers hold.
//!
//! A handle is used once. Under that rule the cache and the handles in the
//! callers' hands stay in step, whatever the order in which the callers take
//! their steps: a key has a producer exactly while its production is in
//! flight, and never two; a slot counts exactly the waiters that hold it; and
//! nobody waits on a slot that no producer is going to settle.

use crate::cache::{CacheState, Handle};
use crate::laws::{lemma_registered_iff_pending, lemma_step_keeps_wf, Step};
use crate::wait_map::SlotState;
use vstd::multiset::Multiset;
use vstd::prelude::*;

verus! {

broadcast use vstd::multiset::group_multiset_axioms;

/// The cache and the handles that are out.
pub ghost struct World {
    pub cache: CacheState,
    pub held: Multiset<Handle>,
}

impl World {
    /// A cache that holds nothing, and no handle out.
    pub open spec fn initial(capacity: nat, remote: bool) -> World {
        World { cache: CacheState::empty(capacity, remote), held: Multiset::empty() }
    }

    /// The number of waiters that the cache counts on `slot`.
    pub open spec fn counted(self, slot: usize) -> nat {
        if slot < self.cache.registry.slots.len() {
            self.cache.registry.slots[slot as int].waiters as nat
        } else {
            0
        }
    }

    /// The number of handles out for the production of `key` at `slot`.
    pub open spec fn producers(self, key: u64, slot: usize) -> nat {
        self.held.count(Handle::Producer { key, slot })
    }

    /// The number of handles out for waiting on `slot`.
    pub open spec fn waiters(self, slot: usize) -> nat {
        self.held.count(Handle::Waiter { slot })
    }

    /// The cache and the handles are in step.
    pub open spec fn inv(self) -> bool {
        &&& self.cache.wf()
        &&& forall|key: u64, slot: usize|
            #[trigger] self.producers(key, slot) == if self.cache.registry.pending_for(
                slot,
                key,
            ) {
                1nat
            } else {
                0nat
            }
        &&& forall|slot: usize|
            #[trigger] self.waiters(slot) == self.counted(slot)
                && self.counted(slot) < usize::MAX
    }

    /// The handles after `step`: the one that the step takes is gone, the
    /// one that it hands out is there.
    pub open spec fn exchanged(self, step: Step) -> Multiset<Handle> {
        match step {
            Step::Get { handle, .. } => self.held.insert(handle),
            Step::Dedup { handle, .. } => self.held.insert(handle),
            Step::Write { .. } => self.held,
            Step::Answer { handle, reply } => self.held.remove(handle).insert(
                self.cache.answered(handle, reply).1,
            ),
            Step::Read { handle } => self.held.remove(handle),
            Step::Insert { handle, .. } => self.held.remove(handle),
            Step::Send { handle, .. } => self.held.remove(handle),
            Step::Abandon { handle } => self.held.remove(handle),
        }
    }

    /// `step` may lead from this world to `after`: the cache takes the step;
    /// a handle that the step takes was out; and no slot's count of waiters
    /// is at its limit afterwards.
    pub open spec fn next(self, step: Step, after: World) -> bool {
        &&& step.gives(self.cache, after.cache)
        &&& match step.takes() {
            Some(handle) => self.held.count(handle) > 0,
            None => true,
        }
        &&& after.held == self.exchanged(step)
        &&& forall|slot: usize| #[trigger] after.counted(slot) < usize::MAX
    }
}

/// At the beginning the cache and the handles are in step.
pub proof fn lemma_initial(capacity: nat, remote: bool)
    requires
        0 < capacity,
    ensures
        World::initial(capacity, remote).inv(),
{
}

/// Settling a production leaves every other slot's state and count as they
/// were, and every count of waiters as it was.
proof fn lemma_settle_frame(w: World, slot: usize, key: u64, outcome: Option<u64>)
    requires
        w.inv(),
        w.cache.registry.pending_for(slot, key),
    ensures
        ({
            let after = World { cache: w.cache.settled(slot, key, outcome), held: w.held };
            &&& forall|other: usize| #[trigger] after.counted(other) == w.counted(other)
            &&& forall|k: u64, s: usize| #[trigger]
                after.cache.registry.pending_for(s, k) == (w.cache.registry.pending_for(s, k) && !(s
                    == slot && k == key))
        }),
{
    let registry = w.cache.registry;
    let settled = registry.settled(slot, key, outcome);
    assert(registry.slots[slot as int].state == (SlotState::Pending { key }));
    assert forall|k: u64, s: usize| #[trigger]
        settled.pending_for(s, k) == (registry.pending_for(s, k) && !(s == slot && k == key)) by {
        if s == slot {
            if registry.pending_for(s, k) {
                assert(registry.slots[s as int].state == (SlotState::Pending { key: k }));
            }
        }
    }
}

/// A waiter that lets go leaves every pending slot pending and takes one
/// from the count of its slot.
proof fn lemma_leave_frame(w: World, slot: usize)
    requires
        w.inv(),
        w.held.count(Handle::Waiter { slot }) > 0,
    ensures
        ({
            let after = World {
                cache: w.cache.dropped(Handle::Waiter { slot }),
                held: w.held.remove(Handle::Waiter { slot }),
            };
            &&& forall|other: usize| #[trigger]
                after.counted(other) == if other == slot {
                    (w.counted(other) - 1) as nat
                } else {
                    w.counted(other)
                }
            &&& forall|k: u64, s: usize| #[trigger]
                after.cache.registry.pending_for(s, k) == w.cache.registry.pending_for(s, k)
        }),
{
    let registry = w.cache.registry;
    assert(w.waiters(slot) == w.counted(slot));
    assert(slot < registry.slots.len());
    let left = registry.left(slot);
    assert forall|k: u64, s: usize| #[trigger]
        left.pending_for(s, k) == registry.pending_for(s, k) by {
        if s == slot {
            if registry.pending_for(s, k) {
                assert(registry.slots[s as int].state == (SlotState::Pending { key: k }));
            }
        }
    }
}

/// Giving up a handle that was out keeps the cache and the handles in step.
proof fn lemma_given_up(w: World, handle: Handle)
    requires
        w.inv(),
        w.held.count(handle) > 0,
    ensures
        (World { cache: w.cache.dropped(handle), held: w.held.remove(handle) }).inv(),
{
    let after = World { cache: w.cache.dropped(handle), held: w.held.remove(handle) };
    crate::laws::lemma_handle_given_up(w.cache, handle);
    match handle {
        Handle::Producer { key, slot } => {
            assert(w.producers(key, slot) > 0);
            assert(w.cache.registry.pending_for(slot, key));
            lemma_settle_frame(w, slot, key, None);
            assert forall|k: u64, s: usize|
                #[trigger] after.producers(k, s)
                    == if after.cache.registry.pending_for(s, k) {
                    1nat
                } else {
                    0nat
                } by {
                assert(w.producers(k, s)
                    == if w.cache.registry.pending_for(s, k) {
                    1nat
                } else {
                    0nat
                });
            }
            assert forall|s: usize|
                #[trigger] after.waiters(s) == after.counted(s)
                    && after.counted(s) < usize::MAX by {
                assert(w.waiters(s) == w.counted(s));
                assert(World { cache: after.cache, held: w.held }.counted(s) == w.counted(s));
            }
            assert(after.inv());
        },
        Handle::Waiter { slot } => {
            lemma_leave_frame(w, slot);
            assert forall|k: u64, s: usize|
                #[trigger] after.producers(k, s)
                    == if after.cache.registry.pending_for(s, k) {
                    1nat
                } else {
                    0nat
                } by {
                assert(w.producers(k, s)
                    == if w.cache.registry.pending_for(s, k) {
                    1nat
                } else {
                    0nat
                });
            }
            assert forall|s: usize|
                #[trigger] after.waiters(s) == after.counted(s)
                    && after.counted(s) < usize::MAX by {
                assert(w.waiters(s) == w.counted(s));
            }
        },
        Handle::Value(_) => {
            assert forall|k: u64, s: usize|
                #[trigger] after.producers(k, s)
                    == if after.cache.registry.pending_for(s, k) {
                    1nat
                } else {
                    0nat
                } by {
                assert(w.producers(k, s)
                    == if w.cache.registry.pending_for(s, k) {
                    1nat
                } else {
                    0nat
                });
            }
            assert forall|s: usize|
                #[trigger] after.waiters(s) == after.counted(s)
                    && after.counted(s) < usize::MAX by {
                assert(w.waiters(s) == w.counted(s));
            }
        },
    }
}

/// Changing what memory holds keeps the cache and the handles in step.
proof fn lemma_memory_apart(w: World, memory: Seq<(u64, u64)>)
    requires
        w.inv(),
        crate::lru_tier::fits(memory, w.cache.capacity),
    ensures
        (World { cache: CacheState { memory, ..w.cache }, held: w.held }).inv(),
{
    let after = World { cache: CacheState { memory, ..w.cache }, held: w.held };
    assert forall|k: u64, s: usize|
        #[trigger] after.producers(k, s)
            == if after.cache.registry.pending_for(s, k) {
            1nat
        } else {
            0nat
        } by {
        assert(w.producers(k, s) == if w.cache.registry.pending_for(
            s,
            k,
        ) {
            1nat
        } else {
            0nat
        });
    }
    assert forall|s: usize|
        #[trigger] after.waiters(s) == after.counted(s)
            && after.counted(s) < usize::MAX by {
        assert(w.waiters(s) == w.counted(s));
    }
}

/// Handing out what `get` or `get_dedup` gives keeps the cache and the
/// handles in step.
proof fn lemma_handed_out(w: World, key: u64, handle: Handle, after: World)
    requires
        w.inv(),
        w.cache.get_gives(key, handle, after.cache) || w.cache.dedup_gives(
            key,
            handle,
            after.cache,
        ),
        after.held == w.held.insert(handle),
        forall|slot: usize| #[trigger] after.counted(slot) < usize::MAX,
    ensures
        after.inv(),
{
    let registry = w.cache.registry;
    crate::lru_tier::lemma_touched(w.cache.memory, w.cache.capacity, key);
    match handle {
        Handle::Value(value) => {
            lemma_memory_apart(w, after.cache.memory);
            let between = World { cache: after.cache, held: w.held };
            assert(between.inv());
            assert forall|k: u64, s: usize|
                #[trigger] after.producers(k, s)
                    == if after.cache.registry.pending_for(s, k) {
                    1nat
                } else {
                    0nat
                } by {
                assert(between.producers(k, s)
                    == if between.cache.registry.pending_for(s, k) {
                    1nat
                } else {
                    0nat
                });
            }
            assert forall|s: usize|
                #[trigger] after.waiters(s) == after.counted(s)
                    && after.counted(s) < usize::MAX by {
                assert(between.waiters(s) == between.counted(s));
            }
        },
        Handle::Waiter { slot } => {
            assert(registry.in_flight(key));
            assert(after.cache == w.cache.joined(key));
            registry.lemma_joined(key);
            assert(registry.pending_for(slot, key));
            let joined = registry.joined(key);
            assert forall|k: u64, s: usize| #[trigger]
                joined.pending_for(s, k) == registry.pending_for(s, k) by {}
            assert forall|k: u64, s: usize|
                #[trigger] after.producers(k, s)
                    == if after.cache.registry.pending_for(s, k) {
                    1nat
                } else {
                    0nat
                } by {
                assert(w.producers(k, s)
                    == if w.cache.registry.pending_for(s, k) {
                    1nat
                } else {
                    0nat
                });
            }
            assert forall|s: usize|
                #[trigger] after.waiters(s) == after.counted(s)
                    && after.counted(s) < usize::MAX by {
                assert(w.waiters(s) == w.counted(s));
                assert(after.counted(slot) < usize::MAX);
            }
        },
        Handle::Producer { key: owned, slot } => {
            assert(!registry.in_flight(key));
            assert(after.cache == w.cache.opened(key, slot));
            registry.lemma_opened(key, slot);
            let opened = registry.opened(key, slot);
            lemma_registered_iff_pending(registry, key, slot);
            assert forall|k: u64, s: usize| #[trigger]
                opened.pending_for(s, k) == (registry.pending_for(s, k) || (s == slot && k
                    == key)) by {
                if s == slot && registry.pending_for(s, k) {
                    assert(registry.slots[s as int].state == (SlotState::Pending { key: k }));
                }
            }
            assert forall|k: u64, s: usize|
                #[trigger] after.producers(k, s)
                    == if after.cache.registry.pending_for(s, k) {
                    1nat
                } else {
                    0nat
                } by {
                assert(w.producers(k, s)
                    == if w.cache.registry.pending_for(s, k) {
                    1nat
                } else {
                    0nat
                });
            }
            assert forall|s: usize|
                #[trigger] after.waiters(s) == after.counted(s)
                    && after.counted(s) < usize::MAX by {
                assert(w.waiters(s) == w.counted(s));
                if s == slot {
                    assert(w.counted(s) == 0) by {
                        if s < registry.slots.len() {
                            assert(registry.slots[s as int].wf());
                        }
                    }
                }
            }
        },
    }
}

/// Ending a production with a value, with or without writing it to memory,
/// keeps the cache and the handles in step once the producer's handle is
/// gone.
proof fn lemma_produced(w: World, key: u64, slot: usize, value: u64, write: bool)
    requires
        w.inv(),
        w.held.count(Handle::Producer { key, slot }) > 0,
    ensures
        (World {
            cache: if write {
                w.cache.published(slot, key, value)
            } else {
                w.cache.settled(slot, key, Some(value))
            },
            held: w.held.remove(Handle::Producer { key, slot }),
        }).inv(),
{
    let handle = Handle::Producer { key, slot };
    assert(w.producers(key, slot) > 0);
    assert(w.cache.registry.pending_for(slot, key));
    let base = if write {
        crate::lru_tier::lemma_stored(w.cache.memory, w.cache.capacity, key, value);
        lemma_memory_apart(w, w.cache.written(key, value).memory);
        World { cache: w.cache.written(key, value), held: w.held }
    } else {
        w
    };
    assert(base.inv());
    let after = World { cache: base.cache.settled(slot, key, Some(value)), held: w.held.remove(handle) };
    base.cache.registry.lemma_settled(slot, key, Some(value));
    lemma_settle_frame(base, slot, key, Some(value));
    assert forall|k: u64, s: usize|
        #[trigger] after.producers(k, s)
            == if after.cache.registry.pending_for(s, k) {
            1nat
        } else {
            0nat
        } by {
        assert(base.producers(k, s)
            == if base.cache.registry.pending_for(s, k) {
            1nat
        } else {
            0nat
        });
    }
    assert forall|s: usize|
        #[trigger] after.waiters(s) == after.counted(s)
            && after.counted(s) < usize::MAX by {
        assert(base.waiters(s) == base.counted(s));
        assert(World { cache: after.cache, held: base.held }.counted(s) == base.counted(s));
    }
    assert(after.cache == if write {
        w.cache.published(slot, key, value)
    } else {
        w.cache.settled(slot, key, Some(value))
    });
    assert(after.inv());
}

/// Whatever step is taken, by whomever, the cache and the handles stay in
/// step.
pub proof fn lemma_next(w: World, step: Step, after: World)
    requires
        w.inv(),
        w.next(step, after),
    ensures
        after.inv(),
{
    lemma_step_keeps_wf(w.cache, step, after.cache);
    match step {
        Step::Get { key, handle } => {
            lemma_handed_out(w, key, handle, after);
        },
        Step::Dedup { key, handle } => {
            lemma_handed_out(w, key, handle, after);
        },
        Step::Write { key, value } => {
            lemma_memory_apart(w, after.cache.memory);
        },
        Step::Read { handle } => {
            lemma_given_up(w, handle);
        },
        Step::Abandon { handle } => {
            lemma_given_up(w, handle);
        },
        Step::Insert { handle, value } => {
            match handle {
                Handle::Producer { key, slot } => {
                    lemma_produced(w, key, slot, value, true);
                },
                _ => {
                    lemma_given_up(w, handle);
                },
            }
        },
        Step::Send { handle, value } => {
            match handle {
                Handle::Producer { key, slot } => {
                    lemma_produced(w, key, slot, value, false);
                },
                _ => {
                    lemma_given_up(w, handle);
                },
            }
        },
        Step::Answer { handle, reply } => {
            match (handle, reply.value()) {
                (Handle::Producer { key, slot }, Some(value)) => {
                    lemma_produced(w, key, slot, value, true);
                    let between = World {
                        cache: after.cache,
                        held: w.held.remove(handle),
                    };
                    assert(between.inv());
                    assert forall|k: u64, s: usize|
                        #[trigger] after.producers(k, s)
                            == if after.cache.registry.pending_for(s, k) {
                            1nat
                        } else {
                            0nat
                        } by {
                        assert(between.producers(k, s)
                            == if between.cache.registry.pending_for(s, k) {
                            1nat
                        } else {
                            0nat
                        });
                    }
                    assert forall|s: usize|
                        #[trigger] after.waiters(s)
                            == after.counted(s) && after.counted(s) < usize::MAX by {
                        assert(between.waiters(s)
                            == between.counted(s));
                    }
                },
                _ => {
                    assert(after.held =~= w.held);
                },
            }
        },
    }
}

/// Single flight, whatever the order of the steps: two producers' handles
/// for one key are one handle, and it is out once.
pub proof fn lemma_one_producer_out(w: World, key: u64, a: usize, b: usize)
    requires
        w.inv(),
        w.held.count(Handle::Producer { key, slot: a }) > 0,
        w.held.count(Handle::Producer { key, slot: b }) > 0,
    ensures
        a == b,
        w.held.count(Handle::Producer { key, slot: a }) == 1,
        w.cache.registry.in_flight(key),
        w.cache.registry.index[key] == a,
{
    assert(w.producers(key, a) > 0);
    assert(w.producers(key, b) > 0);
    assert(w.cache.registry.pending_for(a, key));
    assert(w.cache.registry.pending_for(b, key));
    crate::laws::lemma_one_producer(w.cache.registry, key, a, b);
}

/// A production in flight has its producer: exactly one handle is out that
/// can end it.
pub proof fn lemma_production_has_producer(w: World, key: u64)
    requires
        w.inv(),
        w.cache.registry.in_flight(key),
    ensures
        w.held.count(Handle::Producer { key, slot: w.cache.registry.index[key] }) == 1,
{
    let slot = w.cache.registry.index[key];
    assert(w.cache.registry.pending_for(slot, key));
    assert(w.producers(key, slot) == 1);
}

/// No waiter is stranded. The slot of a waiter's handle has settled, so that
/// the waiter can read it; or it is pending for a key whose producer holds
/// the one handle that will settle it.
pub proof fn lemma_no_stranded_waiter(w: World, slot: usize)
    requires
        w.inv(),
        w.held.count(Handle::Waiter { slot }) > 0,
    ensures
        slot < w.cache.registry.slots.len(),
        w.cache.ready(Handle::Waiter { slot }) || exists|key: u64|
            w.cache.registry.pending_for(slot, key) && #[trigger] w.producers(key, slot) == 1,
{
    assert(w.waiters(slot) == w.counted(slot));
    let held = w.cache.registry.slots[slot as int];
    match held.state {
        SlotState::Pending { key } => {
            assert(w.cache.registry.pending_for(slot, key));
            assert(w.producers(key, slot) == 1);
        },
        SlotState::Vacant => {
            assert(held.wf());
        },
        _ => {},
    }
}

} // verus!
