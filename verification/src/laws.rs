//! What holds of the cache over several steps.
//!
//! Each law is stated over the cache as a value: the state that one step
//! leaves is the state in which the next step begins, whoever takes it.

use crate::cache::{CacheState, EntryError, Handle};
use crate::lru_tier::{lemma_stored, lemma_stored_twice, lemma_touched, lookup};
use crate::storage::RemoteReply;
use crate::wait_map::{Registry, SlotState, WaitSlot};
use vstd::prelude::*;

verus! {

/// The state after `n` callers registered interest in `key` one after
/// another, where the first of them opened the production at `slot`.
pub open spec fn arrivals(s: CacheState, key: u64, slot: usize, n: nat) -> CacheState
    decreases n,
{
    if n == 0 {
        s
    } else if n == 1 {
        s.opened(key, slot)
    } else {
        arrivals(s, key, slot, (n - 1) as nat).joined(key)
    }
}

/// What the caller number `i` of such a row holds, counted from zero: the
/// first is the producer and all others wait on its slot.
pub open spec fn arrival(key: u64, slot: usize, i: nat) -> Handle {
    if i == 0 {
        Handle::Producer { key, slot }
    } else {
        Handle::Waiter { slot }
    }
}

/// The state after `n` waiters read or gave up the slot at `slot` one after
/// another.
pub open spec fn departures(s: CacheState, slot: usize, n: nat) -> CacheState
    decreases n,
{
    if n == 0 {
        s
    } else {
        departures(s, slot, (n - 1) as nat).dropped(Handle::Waiter { slot })
    }
}

/// What a waiter reads after a production ended with `outcome`.
pub open spec fn observed(outcome: Option<u64>) -> Result<u64, EntryError> {
    match outcome {
        Some(value) => Ok(value),
        None => Err(EntryError::NoValue),
    }
}

/// At most one production is in flight for a key: two pending slots for the
/// same key are one slot, and the registry knows the key under it.
pub proof fn lemma_one_producer(registry: Registry, key: u64, a: usize, b: usize)
    requires
        registry.wf(),
        registry.pending_for(a, key),
        registry.pending_for(b, key),
    ensures
        a == b,
        registry.in_flight(key),
        registry.index[key] == a,
{
    assert(registry.slots[a as int].state == (SlotState::Pending { key }));
    assert(registry.slots[b as int].state == (SlotState::Pending { key }));
}

/// A slot is in the registry exactly while it is pending: a key in flight
/// has a pending slot, and a vacant or settled slot belongs to no key.
pub proof fn lemma_registered_iff_pending(registry: Registry, key: u64, slot: usize)
    requires
        registry.wf(),
    ensures
        registry.pending_for(slot, key) <==> registry.in_flight(key) && registry.index[key]
            == slot,
{
    if registry.pending_for(slot, key) {
        assert(registry.slots[slot as int].state == (SlotState::Pending { key }));
    }
    if registry.in_flight(key) {
        assert(registry.pending_for(registry.index[key], key));
    }
}

/// One step that some caller takes on the cache.
pub ghost enum Step {
    /// `get(key)` returned `handle`.
    Get { key: u64, handle: Handle },
    /// `get_dedup(key)` returned `handle`.
    Dedup { key: u64, handle: Handle },
    /// `value` was written under `key` through no handle.
    Write { key: u64, value: u64 },
    /// `handle` was read.
    Read { handle: Handle },
    /// `value` was inserted through `handle`.
    Insert { handle: Handle, value: u64 },
    /// `value` was sent through `handle`.
    Send { handle: Handle, value: u64 },
    /// `handle` was abandoned.
    Abandon { handle: Handle },
    /// The remote tier's `reply` was handed in with `handle`.
    Answer { handle: Handle, reply: RemoteReply },
}

impl Step {
    /// The step may lead from `s` to `t`.
    pub open spec fn gives(self, s: CacheState, t: CacheState) -> bool {
        match self {
            Step::Get { key, handle } => s.get_gives(key, handle, t),
            Step::Dedup { key, handle } => s.dedup_gives(key, handle, t),
            Step::Write { key, value } => t == s.written(key, value),
            Step::Read { handle } => s.ready(handle) && t == s.dropped(handle),
            Step::Insert { handle, value } => t == s.inserted(handle, value),
            Step::Send { handle, value } => t == s.sent(handle, value),
            Step::Abandon { handle } => t == s.dropped(handle),
            Step::Answer { handle, reply } => t == s.answered(handle, reply).0,
        }
    }

    /// The handle that the step takes from its caller, where it takes one.
    pub open spec fn takes(self) -> Option<Handle> {
        match self {
            Step::Get { .. } => None,
            Step::Dedup { .. } => None,
            Step::Write { .. } => None,
            Step::Read { handle } => Some(handle),
            Step::Insert { handle, .. } => Some(handle),
            Step::Send { handle, .. } => Some(handle),
            Step::Abandon { handle } => Some(handle),
            Step::Answer { handle, .. } => Some(handle),
        }
    }

    /// The handle that the step hands to its caller, where it hands one out.
    pub open spec fn hands_out(self) -> Option<Handle> {
        match self {
            Step::Get { handle, .. } => Some(handle),
            Step::Dedup { handle, .. } => Some(handle),
            _ => None,
        }
    }
}

/// Every step leaves the cache well formed, with the capacity it had.
pub proof fn lemma_step_keeps_wf(s: CacheState, step: Step, t: CacheState)
    requires
        s.wf(),
        step.gives(s, t),
    ensures
        t.wf(),
        t.capacity == s.capacity,
        t.remote == s.remote,
{
    match step {
        Step::Get { key, handle } => {
            lemma_touched(s.memory, s.capacity, key);
            if s.registry.in_flight(key) {
                s.registry.lemma_joined(key);
            }
            if let Handle::Producer { key: owned, slot } = handle {
                if !s.registry.in_flight(key) && s.registry.is_free(slot) {
                    s.registry.lemma_opened(key, slot);
                }
            }
        },
        Step::Dedup { key, handle } => {
            lemma_touched(s.memory, s.capacity, key);
            if s.registry.in_flight(key) {
                s.registry.lemma_joined(key);
            }
            if let Handle::Producer { key: owned, slot } = handle {
                if !s.registry.in_flight(key) && s.registry.is_free(slot) {
                    s.registry.lemma_opened(key, slot);
                }
            }
        },
        Step::Write { key, value } => {
            lemma_stored(s.memory, s.capacity, key, value);
        },
        Step::Read { handle } => {
            lemma_handle_given_up(s, handle);
        },
        Step::Abandon { handle } => {
            lemma_handle_given_up(s, handle);
        },
        Step::Insert { handle, value } => {
            lemma_handle_given_up(s, handle);
            if let Handle::Producer { key, slot } = handle {
                lemma_stored(s.memory, s.capacity, key, value);
                s.written(key, value).registry.lemma_settled(slot, key, Some(value));
            }
        },
        Step::Send { handle, value } => {
            lemma_handle_given_up(s, handle);
            if let Handle::Producer { key, slot } = handle {
                s.registry.lemma_settled(slot, key, Some(value));
            }
        },
        Step::Answer { handle, reply } => {
            if let Handle::Producer { key, slot } = handle {
                if let Some(value) = reply.value() {
                    lemma_stored(s.memory, s.capacity, key, value);
                    s.written(key, value).registry.lemma_settled(slot, key, Some(value));
                }
            }
        },
    }
}

/// Giving a handle up leaves the cache well formed.
pub proof fn lemma_handle_given_up(s: CacheState, handle: Handle)
    requires
        s.wf(),
    ensures
        s.dropped(handle).wf(),
        s.dropped(handle).memory == s.memory,
{
    match handle {
        Handle::Producer { key, slot } => {
            s.registry.lemma_settled(slot, key, None);
        },
        Handle::Waiter { slot } => {
            s.registry.lemma_left(slot);
        },
        Handle::Value(_) => {},
    }
}

/// Who is elected holds a pending slot that nobody waits on yet, and the
/// key was neither in memory nor in flight.
pub proof fn lemma_elected(s: CacheState, step: Step, t: CacheState, key: u64, slot: usize)
    requires
        s.wf(),
        step.gives(s, t),
        step.hands_out() == Some(Handle::Producer { key, slot }),
    ensures
        s.cold(key),
        t.registry.pending_for(slot, key),
        t.registry.slots[slot as int].waiters == 0,
        t.memory == s.memory,
{
    s.registry.lemma_opened(key, slot);
}

/// While a production is in flight for a key, nobody who asks for that key
/// is elected: the caller waits on the slot of the production, or gets the
/// value from memory.
pub proof fn lemma_no_second_producer(s: CacheState, step: Step, t: CacheState, key: u64)
    requires
        s.wf(),
        s.registry.in_flight(key),
        step.gives(s, t),
        step.hands_out() is Some,
        step is Get ==> step->Get_key == key,
        step is Dedup ==> step->Dedup_key == key,
    ensures
        match step.hands_out().unwrap() {
            Handle::Producer { .. } => false,
            Handle::Waiter { slot } => slot == s.registry.index[key],
            Handle::Value(value) => lookup(s.memory, key) == Some(value),
        },
        t.registry.in_flight(key),
        t.registry.index[key] == s.registry.index[key],
{
}

/// A production lasts until its own producer ends it. No step that takes
/// another handle, or none, takes the production out of the registry or
/// changes the key that its slot is pending for.
pub proof fn lemma_production_lasts(s: CacheState, step: Step, t: CacheState, key: u64, slot: usize)
    requires
        s.wf(),
        s.registry.pending_for(slot, key),
        step.gives(s, t),
        step.takes() != Some(Handle::Producer { key, slot }),
    ensures
        t.registry.pending_for(slot, key),
        t.registry.in_flight(key),
        t.registry.index[key] == slot,
        step.hands_out() != Some(Handle::Producer { key, slot }),
{
    lemma_registered_iff_pending(s.registry, key, slot);
    lemma_step_keeps_wf(s, step, t);
    assert(s.registry.slots[slot as int].state == (SlotState::Pending { key }));
    match step {
        Step::Get { key: asked, handle } => {
            if asked != key && s.registry.in_flight(asked) {
                assert(s.registry.pending_for(s.registry.index[asked], asked));
            }
        },
        Step::Dedup { key: asked, handle } => {
            if asked != key && s.registry.in_flight(asked) {
                assert(s.registry.pending_for(s.registry.index[asked], asked));
            }
        },
        _ => {},
    }
    lemma_registered_iff_pending(t.registry, key, slot);
}

/// What memory holds changes only by a write: a step that reads, registers,
/// abandons or sends leaves every key's value as it was.
pub proof fn lemma_memory_changes_by_writes(s: CacheState, step: Step, t: CacheState, key: u64)
    requires
        s.wf(),
        step.gives(s, t),
        step is Get || step is Dedup || step is Read || step is Send || step is Abandon,
    ensures
        lookup(t.memory, key) == lookup(s.memory, key),
{
    match step {
        Step::Get { key: asked, handle } => {
            lemma_touched(s.memory, s.capacity, asked);
        },
        Step::Dedup { key: asked, handle } => {
            lemma_touched(s.memory, s.capacity, asked);
        },
        Step::Read { handle } => {
            lemma_handle_given_up(s, handle);
        },
        Step::Send { handle, value } => {
            lemma_handle_given_up(s, handle);
        },
        Step::Abandon { handle } => {
            lemma_handle_given_up(s, handle);
        },
        _ => {},
    }
}

/// After `n` callers in a row asked for a key that was not in flight, one
/// production is open for it, `n - 1` waiters hold its slot, and nothing else
/// has changed.
pub proof fn lemma_arrivals(s: CacheState, key: u64, slot: usize, n: nat)
    requires
        s.wf(),
        !s.registry.in_flight(key),
        s.registry.is_free(slot),
        1 <= n <= usize::MAX,
    ensures
        arrivals(s, key, slot, n).wf(),
        arrivals(s, key, slot, n) == (CacheState {
            registry: Registry {
                index: s.registry.index.insert(key, slot),
                slots: s.registry.opened(key, slot).slots.update(
                    slot as int,
                    WaitSlot { state: SlotState::Pending { key }, waiters: (n - 1) as usize },
                ),
            },
            ..s
        }),
    decreases n,
{
    let opened = s.registry.opened(key, slot);
    s.registry.lemma_opened(key, slot);
    if n == 1 {
        assert(arrivals(s, key, slot, 0) == s);
        assert(opened.slots.update(slot as int, WaitSlot::opened(key)) =~= opened.slots);
    } else {
        lemma_arrivals(s, key, slot, (n - 1) as nat);
        let before = arrivals(s, key, slot, (n - 1) as nat);
        before.registry.lemma_joined(key);
        assert(before.registry.joined(key).slots =~= opened.slots.update(
            slot as int,
            WaitSlot { state: SlotState::Pending { key }, waiters: (n - 1) as usize },
        ));
    }
}

/// Single flight. Of the callers that ask one after another for a key that
/// the cache does not hold and nobody produces, the first becomes the
/// producer and every later one a waiter on the producer's slot: no second
/// producer is elected while the production lasts.
pub proof fn lemma_single_flight(s: CacheState, key: u64, slot: usize, i: nat)
    requires
        s.wf(),
        s.cold(key),
        s.registry.is_free(slot),
        i < usize::MAX,
    ensures
        arrivals(s, key, slot, i).wf(),
        arrivals(s, key, slot, i).get_gives(
            key,
            arrival(key, slot, i),
            arrivals(s, key, slot, i + 1),
        ),
        forall|h: Handle, t: CacheState| #[trigger]
            arrivals(s, key, slot, i).get_gives(key, h, t) ==> (h is Producer <==> i == 0),
        forall|h: Handle, t: CacheState| #[trigger]
            arrivals(s, key, slot, i).get_gives(key, h, t) && i > 0 ==> h == arrival(key, slot, i)
                && t == arrivals(s, key, slot, i + 1),
{
    lemma_arrivals(s, key, slot, i + 1);
    if i > 0 {
        lemma_arrivals(s, key, slot, i);
    }
}

/// Once a production has ended, every waiter that held its slot reads the
/// same outcome, whatever the order in which the waiters come; memory is as
/// the producer left it; and when the last waiter has read, the slot is free
/// again.
pub proof fn lemma_waiters_observe(
    s: CacheState,
    key: u64,
    slot: usize,
    outcome: Option<u64>,
    j: nat,
)
    requires
        s.wf(),
        s.registry.pending_for(slot, key),
        s.registry.slots[slot as int].waiters < usize::MAX,
        j <= s.registry.slots[slot as int].waiters,
    ensures
        ({
            let after = departures(s.settled(slot, key, outcome), slot, j);
            let waiting = s.registry.slots[slot as int].waiters;
            &&& after.wf()
            &&& after.memory == s.memory
            &&& !after.registry.in_flight(key)
            &&& j < waiting ==> after.ready(Handle::Waiter { slot }) && after.read_through(
                Handle::Waiter { slot },
            ) == observed(outcome) && after.registry.slots[slot as int].waiters == waiting - j
            &&& j == waiting ==> after.registry.is_free(slot)
        }),
    decreases j,
{
    let settled = s.settled(slot, key, outcome);
    s.registry.lemma_settled(slot, key, outcome);
    if j > 0 {
        lemma_waiters_observe(s, key, slot, outcome, (j - 1) as nat);
        let before = departures(settled, slot, (j - 1) as nat);
        before.registry.lemma_left(slot);
    }
}

/// Single flight, to the end. `n` callers ask in a row for a key that the
/// cache does not hold and nobody produces, and the producer publishes
/// `value`. Then each of the `n - 1` waiters reads `value`, and whoever asks
/// for the key afterwards gets `value` from memory: no second production
/// starts.
pub proof fn lemma_single_flight_published(
    s: CacheState,
    key: u64,
    slot: usize,
    n: nat,
    value: u64,
    j: nat,
)
    requires
        s.wf(),
        s.cold(key),
        s.registry.is_free(slot),
        1 <= n <= usize::MAX,
        j <= n - 1,
    ensures
        ({
            let published = arrivals(s, key, slot, n).published(slot, key, value);
            let after = departures(published, slot, j);
            &&& after.wf()
            &&& j < n - 1 ==> after.ready(Handle::Waiter { slot }) && after.read_through(
                Handle::Waiter { slot },
            ) == Ok::<u64, EntryError>(value)
            &&& forall|h: Handle, t: CacheState| #[trigger]
                after.get_gives(key, h, t) ==> h == Handle::Value(value)
        }),
{
    lemma_arrivals(s, key, slot, n);
    let gathered = arrivals(s, key, slot, n);
    let written = gathered.written(key, value);
    lemma_stored(gathered.memory, gathered.capacity, key, value);
    lemma_waiters_observe(written, key, slot, Some(value), j);
}

/// Write-through. Once a value is inserted under a key, whoever asks for the
/// key next gets that value, and nothing is registered for it: no producer
/// is elected.
pub proof fn lemma_write_through(s: CacheState, key: u64, value: u64)
    requires
        s.wf(),
    ensures
        s.written(key, value).wf(),
        s.written(key, value).registry == s.registry,
        lookup(s.written(key, value).memory, key) == Some(value),
        forall|h: Handle, t: CacheState| #[trigger]
            s.written(key, value).get_gives(key, h, t) ==> h == Handle::Value(value)
                && t.registry == s.registry,
{
    lemma_stored(s.memory, s.capacity, key, value);
}

/// Publish before notify. In the state in which a waiter can first read the
/// value that a producer published, memory holds that value under the key:
/// whoever asks for the key then gets it from memory.
pub proof fn lemma_publish_visible(s: CacheState, key: u64, slot: usize, value: u64)
    requires
        s.wf(),
        s.registry.pending_for(slot, key),
        s.registry.slots[slot as int].waiters > 0,
    ensures
        ({
            let published = s.published(slot, key, value);
            &&& published.wf()
            &&& published.ready(Handle::Waiter { slot })
            &&& published.read_through(Handle::Waiter { slot }) == Ok::<u64, EntryError>(value)
            &&& lookup(published.memory, key) == Some(value)
            &&& !published.registry.in_flight(key)
            &&& forall|h: Handle, t: CacheState| #[trigger]
                published.get_gives(key, h, t) ==> h == Handle::Value(value)
        }),
{
    lemma_stored(s.memory, s.capacity, key, value);
    s.written(key, value).registry.lemma_settled(slot, key, Some(value));
}

/// Abandonment. When a producer gives its entry up, its key is no longer in
/// flight, and a waiter on its slot reads `NoValue`. Where memory does not
/// hold the key, whoever asks for it next becomes the producer of a new
/// production.
pub proof fn lemma_abandoned(s: CacheState, key: u64, slot: usize)
    requires
        s.wf(),
        s.registry.pending_for(slot, key),
    ensures
        ({
            let abandoned = s.dropped(Handle::Producer { key, slot });
            &&& abandoned.wf()
            &&& abandoned.memory == s.memory
            &&& !abandoned.registry.in_flight(key)
            &&& s.registry.slots[slot as int].waiters > 0 ==> abandoned.ready(
                Handle::Waiter { slot },
            ) && abandoned.read_through(Handle::Waiter { slot }) == Err::<u64, EntryError>(
                EntryError::NoValue,
            )
            &&& lookup(s.memory, key) is None ==> forall|h: Handle, t: CacheState| #[trigger]
                abandoned.get_gives(key, h, t) ==> h is Producer
        }),
{
    s.registry.lemma_settled(slot, key, None);
}

/// Inserting twice under one key leaves what inserting the later value once
/// leaves, and touches nothing that is in flight.
pub proof fn lemma_insert_twice(s: CacheState, key: u64, first: u64, second: u64)
    requires
        s.wf(),
    ensures
        s.written(key, first).written(key, second) == s.written(key, second),
        s.written(key, first).written(key, second).registry == s.registry,
        lookup(s.written(key, first).written(key, second).memory, key) == Some(second),
{
    lemma_stored_twice(s.memory, s.capacity, key, first, second);
    lemma_stored(s.memory, s.capacity, key, second);
}

} // verus!
