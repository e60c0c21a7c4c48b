//! The wait registry: the productions that are in flight, one slot for each.
//!
//! A slot is the rendezvous between the producer of a key and the callers that
//! wait for its value. It is opened `Pending` for one key, and settles once, as
//! `Resolved` or as `Abandoned`. The registry maps a key to its slot for as long
//! as the production lasts. A settled slot stays until the last waiter that
//! holds it has read it; then its place is free for another production.

use std::collections::HashMap;
use vstd::prelude::*;

verus! {

broadcast use vstd::std_specs::hash::group_hash_axioms;

/// The state of one slot.
#[derive(Clone, Copy, Debug, PartialEq, Eq, Structural)]
pub enum SlotState {
    /// The place holds no production and no waiter.
    Vacant,
    /// A producer is at work for `key`.
    Pending { key: u64 },
    /// The producer has published `value`.
    Resolved { value: u64 },
    /// The producer has gone without a value.
    Abandoned,
}

/// A slot and the number of waiters that hold it.
#[derive(Clone, Copy, Debug, PartialEq, Eq, Structural)]
pub struct WaitSlot {
    pub state: SlotState,
    pub waiters: usize,
}

impl WaitSlot {
    pub open spec fn vacant() -> WaitSlot {
        WaitSlot { state: SlotState::Vacant, waiters: 0 }
    }

    /// The slot of a production that has just begun.
    pub open spec fn opened(key: u64) -> WaitSlot {
        WaitSlot { state: SlotState::Pending { key }, waiters: 0 }
    }

    /// The slot has reached one of its two final states.
    pub open spec fn is_settled(self) -> bool {
        self.state is Resolved || self.state is Abandoned
    }

    /// `Vacant` goes with no waiter, a settled slot with at least one.
    pub open spec fn wf(self) -> bool {
        &&& self.state is Vacant ==> self.waiters == 0
        &&& self.is_settled() ==> self.waiters > 0
    }

    /// One more waiter holds the slot. The count stops at `usize::MAX`.
    pub open spec fn join(self) -> WaitSlot {
        WaitSlot {
            state: self.state,
            waiters: if self.waiters < usize::MAX {
                (self.waiters + 1) as usize
            } else {
                self.waiters
            },
        }
    }

    /// The producer is done, with a value or without. A slot that nobody
    /// waits on is vacant at once.
    pub open spec fn settle(self, outcome: Option<u64>) -> WaitSlot {
        if self.waiters == 0 {
            WaitSlot::vacant()
        } else {
            WaitSlot {
                state: match outcome {
                    Some(value) => SlotState::Resolved { value },
                    None => SlotState::Abandoned,
                },
                waiters: self.waiters,
            }
        }
    }

    /// One waiter lets go of the slot. A count that has reached `usize::MAX`
    /// stays there. A settled slot that the last waiter leaves is vacant.
    pub open spec fn leave(self) -> WaitSlot {
        let waiters = if 0 < self.waiters < usize::MAX {
            (self.waiters - 1) as usize
        } else {
            self.waiters
        };
        if waiters == 0 && self.is_settled() {
            WaitSlot::vacant()
        } else {
            WaitSlot { state: self.state, waiters }
        }
    }

    /// What a waiter reads from a settled slot.
    pub open spec fn outcome(self) -> Option<u64> {
        match self.state {
            SlotState::Resolved { value } => Some(value),
            _ => None,
        }
    }
}

/// The registry as a value: the slot of each key in flight, and all slots.
pub ghost struct Registry {
    pub index: Map<u64, usize>,
    pub slots: Seq<WaitSlot>,
}

impl Registry {
    pub open spec fn empty() -> Registry {
        Registry { index: Map::empty(), slots: Seq::empty() }
    }

    /// A production for `key` is in flight.
    pub open spec fn in_flight(self, key: u64) -> bool {
        self.index.contains_key(key)
    }

    /// The slot at `slot` is pending for `key`.
    pub open spec fn pending_for(self, slot: usize, key: u64) -> bool {
        slot < self.slots.len() && self.slots[slot as int].state == (SlotState::Pending { key })
    }

    /// The slot at `slot` has settled.
    pub open spec fn is_settled(self, slot: usize) -> bool {
        slot < self.slots.len() && self.slots[slot as int].is_settled()
    }

    /// A new production may take the place `slot`: it is vacant, or it is the
    /// next place after the last.
    pub open spec fn is_free(self, slot: usize) -> bool {
        slot <= self.slots.len() && (slot < self.slots.len() ==> self.slots[slot as int].state
            is Vacant)
    }

    /// The keys in flight and the pending slots correspond one to one, and
    /// every slot is well formed.
    pub open spec fn wf(self) -> bool {
        &&& self.index.dom().finite()
        &&& forall|key: u64| #[trigger]
            self.index.contains_key(key) ==> self.pending_for(self.index[key], key)
        &&& forall|slot: int|
            0 <= slot < self.slots.len() ==> match (#[trigger] self.slots[slot]).state {
                SlotState::Pending { key } => self.index.contains_key(key) && self.index[key]
                    == slot,
                _ => self.slots[slot].wf(),
            }
    }

    /// The registry after a production for `key` was opened at `slot`.
    pub open spec fn opened(self, key: u64, slot: usize) -> Registry {
        Registry {
            index: self.index.insert(key, slot),
            slots: if slot < self.slots.len() {
                self.slots.update(slot as int, WaitSlot::opened(key))
            } else {
                self.slots.push(WaitSlot::opened(key))
            },
        }
    }

    /// The registry after one more waiter took the slot of `key`.
    pub open spec fn joined(self, key: u64) -> Registry {
        let slot = self.index[key] as int;
        Registry { index: self.index, slots: self.slots.update(slot, self.slots[slot].join()) }
    }

    /// The registry after the production of `key` at `slot` ended with
    /// `outcome`. Where `slot` is not pending for `key`, nothing changes.
    pub open spec fn settled(self, slot: usize, key: u64, outcome: Option<u64>) -> Registry {
        if self.pending_for(slot, key) {
            Registry {
                index: self.index.remove(key),
                slots: self.slots.update(slot as int, self.slots[slot as int].settle(outcome)),
            }
        } else {
            self
        }
    }

    /// The registry after one waiter let go of `slot`.
    pub open spec fn left(self, slot: usize) -> Registry {
        if slot < self.slots.len() {
            Registry {
                index: self.index,
                slots: self.slots.update(slot as int, self.slots[slot as int].leave()),
            }
        } else {
            self
        }
    }

    /// Opening a production for a key that is not in flight, at a free place,
    /// keeps the registry well formed.
    pub proof fn lemma_opened(self, key: u64, slot: usize)
        requires
            self.wf(),
            !self.in_flight(key),
            self.is_free(slot),
        ensures
            self.opened(key, slot).wf(),
            self.opened(key, slot).pending_for(slot, key),
            self.opened(key, slot).in_flight(key),
    {
        let after = self.opened(key, slot);
        assert forall|k: u64| #[trigger] after.index.contains_key(k) implies after.pending_for(
            after.index[k],
            k,
        ) by {
            if k != key {
                assert(self.index.contains_key(k));
                assert(self.pending_for(self.index[k], k));
            }
        }
        assert forall|i: int| 0 <= i < after.slots.len() implies match (
        #[trigger] after.slots[i]).state {
            SlotState::Pending { key } => after.index.contains_key(key) && after.index[key] == i,
            _ => after.slots[i].wf(),
        } by {
            if i != slot {
                assert(after.slots[i] == self.slots[i]);
            }
        }
    }

    /// A waiter that joins a production in flight keeps the registry well
    /// formed.
    pub proof fn lemma_joined(self, key: u64)
        requires
            self.wf(),
            self.in_flight(key),
        ensures
            self.joined(key).wf(),
            self.joined(key).pending_for(self.index[key], key),
    {
        let after = self.joined(key);
        let slot = self.index[key] as int;
        assert(self.pending_for(self.index[key], key));
        assert forall|k: u64| #[trigger] after.index.contains_key(k) implies after.pending_for(
            after.index[k],
            k,
        ) by {
            assert(self.pending_for(self.index[k], k));
        }
        assert forall|i: int| 0 <= i < after.slots.len() implies match (
        #[trigger] after.slots[i]).state {
            SlotState::Pending { key } => after.index.contains_key(key) && after.index[key] == i,
            _ => after.slots[i].wf(),
        } by {
            if i != slot {
                assert(after.slots[i] == self.slots[i]);
            } else {
                assert(self.slots[i].state == after.slots[i].state);
            }
        }
    }

    /// Ending a production keeps the registry well formed and takes its key
    /// out of flight.
    pub proof fn lemma_settled(self, slot: usize, key: u64, outcome: Option<u64>)
        requires
            self.wf(),
        ensures
            self.settled(slot, key, outcome).wf(),
            self.pending_for(slot, key) ==> !self.settled(slot, key, outcome).in_flight(key),
            self.pending_for(slot, key) ==> self.in_flight(key) && self.index[key] == slot,
    {
        let after = self.settled(slot, key, outcome);
        if self.pending_for(slot, key) {
            assert(self.slots[slot as int].state == (SlotState::Pending { key }));
            assert(self.index.contains_key(key) && self.index[key] == slot);
            assert forall|k: u64| #[trigger] after.index.contains_key(k) implies after.pending_for(
                after.index[k],
                k,
            ) by {
                assert(self.pending_for(self.index[k], k));
            }
            assert forall|i: int| 0 <= i < after.slots.len() implies match (
            #[trigger] after.slots[i]).state {
                SlotState::Pending { key } => after.index.contains_key(key) && after.index[key]
                    == i,
                _ => after.slots[i].wf(),
            } by {
                if i != slot {
                    assert(after.slots[i] == self.slots[i]);
                }
            }
        }
    }

    /// A waiter that lets go keeps the registry well formed.
    pub proof fn lemma_left(self, slot: usize)
        requires
            self.wf(),
        ensures
            self.left(slot).wf(),
    {
        let after = self.left(slot);
        if slot < self.slots.len() {
            assert forall|k: u64| #[trigger] after.index.contains_key(k) implies after.pending_for(
                after.index[k],
                k,
            ) by {
                assert(self.pending_for(self.index[k], k));
            }
            assert forall|i: int| 0 <= i < after.slots.len() implies match (
            #[trigger] after.slots[i]).state {
                SlotState::Pending { key } => after.index.contains_key(key) && after.index[key]
                    == i,
                _ => after.slots[i].wf(),
            } by {
                if i != slot {
                    assert(after.slots[i] == self.slots[i]);
                } else {
                    assert(self.slots[i].state is Pending ==> after.slots[i].state
                        == self.slots[i].state);
                }
            }
        }
    }
}

/// The wait registry.
pub struct WaitMap {
    index: HashMap<u64, usize>,
    slots: Vec<WaitSlot>,
}

impl View for WaitMap {
    type V = Registry;

    closed spec fn view(&self) -> Registry {
        Registry { index: self.index@, slots: self.slots@ }
    }
}

impl WaitMap {
    pub open spec fn wf(&self) -> bool {
        self@.wf()
    }

    /// A registry with nothing in flight.
    pub fn new() -> (map: Self)
        ensures
            map.wf(),
            map@ == Registry::empty(),
    {
        WaitMap { index: HashMap::new(), slots: Vec::new() }
    }

    /// The first vacant place, or the place after the last.
    fn free_slot(&self) -> (slot: usize)
        ensures
            self@.is_free(slot),
    {
        let mut at: usize = 0;
        while at < self.slots.len()
            invariant
                at <= self.slots.len(),
            decreases self.slots.len() - at,
        {
            match self.slots[at].state {
                SlotState::Vacant => {
                    return at;
                },
                _ => {},
            }
            at += 1;
        }
        at
    }

    /// Registers interest in `key`. Where a production is in flight, the
    /// caller joins its slot as a waiter and gets `Err` with the slot.
    /// Otherwise a pending slot is opened for the caller, who gets `Ok` with it
    /// and is from now on the one producer of `key`.
    pub fn get_or_insert(&mut self, key: u64) -> (ticket: Result<usize, usize>)
        requires
            old(self).wf(),
        ensures
            final(self).wf(),
            match ticket {
                Ok(slot) => {
                    &&& !old(self)@.in_flight(key)
                    &&& old(self)@.is_free(slot)
                    &&& final(self)@ == old(self)@.opened(key, slot)
                },
                Err(slot) => {
                    &&& old(self)@.in_flight(key)
                    &&& slot == old(self)@.index[key]
                    &&& final(self)@ == old(self)@.joined(key)
                },
            },
    {
        let found = match self.index.get(&key) {
            Some(slot) => Some(*slot),
            None => None,
        };
        match found {
            Some(slot) => {
                proof {
                    self@.lemma_joined(key);
                    assert(self@.pending_for(slot, key));
                }
                let held = self.slots[slot];
                let waiters: usize = if held.waiters < usize::MAX {
                    held.waiters + 1
                } else {
                    held.waiters
                };
                self.slots[slot] = WaitSlot { state: held.state, waiters };
                Err(slot)
            },
            None => {
                let slot: usize = self.free_slot();
                proof {
                    self@.lemma_opened(key, slot);
                }
                let fresh = WaitSlot { state: SlotState::Pending { key }, waiters: 0 };
                if slot < self.slots.len() {
                    self.slots[slot] = fresh;
                } else {
                    self.slots.push(fresh);
                }
                self.index.insert(key, slot);
                Ok(slot)
            },
        }
    }

    /// Ends the production of `key` at `slot`: with `Some(value)` the slot is
    /// resolved, with `None` it is abandoned, and either way the key is no
    /// longer in flight. Where `slot` is not pending for `key`, nothing
    /// happens. Returns whether the production was ended by this call.
    pub fn settle(&mut self, slot: usize, key: u64, outcome: Option<u64>) -> (done: bool)
        requires
            old(self).wf(),
        ensures
            final(self).wf(),
            done == old(self)@.pending_for(slot, key),
            final(self)@ == old(self)@.settled(slot, key, outcome),
    {
        proof {
            self@.lemma_settled(slot, key, outcome);
        }
        if slot >= self.slots.len() {
            return false;
        }
        let held = self.slots[slot];
        let pending = match held.state {
            SlotState::Pending { key: owner } => owner == key,
            _ => false,
        };
        if !pending {
            return false;
        }
        let next = if held.waiters == 0 {
            WaitSlot { state: SlotState::Vacant, waiters: 0 }
        } else {
            WaitSlot {
                state: match outcome {
                    Some(value) => SlotState::Resolved { value },
                    None => SlotState::Abandoned,
                },
                waiters: held.waiters,
            }
        };
        self.slots[slot] = next;
        self.index.remove(&key);
        true
    }

    /// Whether the slot has settled, so that a waiter may read it.
    pub fn is_settled(&self, slot: usize) -> (settled: bool)
        ensures
            settled == self@.is_settled(slot),
    {
        if slot < self.slots.len() {
            match self.slots[slot].state {
                SlotState::Resolved { .. } => true,
                SlotState::Abandoned => true,
                _ => false,
            }
        } else {
            false
        }
    }

    /// What the slot holds for its waiters: the value of a resolved slot, and
    /// nothing otherwise.
    pub fn outcome(&self, slot: usize) -> (outcome: Option<u64>)
        ensures
            outcome == if slot < self@.slots.len() {
                self@.slots[slot as int].outcome()
            } else {
                None
            },
    {
        if slot < self.slots.len() {
            match self.slots[slot].state {
                SlotState::Resolved { value } => Some(value),
                _ => None,
            }
        } else {
            None
        }
    }

    /// One waiter lets go of `slot`.
    pub fn leave(&mut self, slot: usize)
        requires
            old(self).wf(),
        ensures
            final(self).wf(),
            final(self)@ == old(self)@.left(slot),
    {
        proof {
            self@.lemma_left(slot);
        }
        if slot < self.slots.len() {
            let held = self.slots[slot];
            let waiters: usize = if 0 < held.waiters && held.waiters < usize::MAX {
                held.waiters - 1
            } else {
                held.waiters
            };
            let settled = match held.state {
                SlotState::Resolved { .. } => true,
                SlotState::Abandoned => true,
                _ => false,
            };
            let next = if waiters == 0 && settled {
                WaitSlot { state: SlotState::Vacant, waiters: 0 }
            } else {
                WaitSlot { state: held.state, waiters }
            };
            self.slots[slot] = next;
            assert(self@.slots =~= old(self)@.left(slot).slots);
        }
    }

    /// Whether a production for `key` is in flight.
    pub fn contains(&self, key: u64) -> (found: bool)
        ensures
            found == self@.in_flight(key),
    {
        self.index.contains_key(&key)
    }

    /// The number of productions in flight.
    pub fn len(&self) -> (n: usize)
        ensures
            n == self@.index.len(),
    {
        self.index.len()
    }
}

} // verus!
