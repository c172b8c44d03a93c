//! Entity identifiers and the registry that allocates and recycles them.
//!
//! An `Entity` is an opaque identifier: an index into the registry's slots
//! plus a generation counter. Destroying an entity bumps the generation of
//! its slot, so stale identifiers held by callers no longer validate, and the
//! index is returned to a free list for reuse under the new generation.

use vstd::prelude::*;

verus! {

/// An opaque entity identifier: slot index plus generation.
#[derive(Clone, Copy, Debug, PartialEq, Eq, Structural)]
pub struct Entity {
    pub index: usize,
    pub generation: u64,
}

/// Allocates and recycles entity identifiers.
///
/// A slot's generation counts how many times the slot has been retired; an
/// identifier is valid only while its generation matches the slot's current
/// generation and the slot is alive.
pub struct Registry {
    pub generations: Vec<u64>,
    pub alive: Vec<bool>,
    pub free: Vec<usize>,
}

impl Registry {
    /// Structural invariant: the two slot tables have equal length and the
    /// free list holds distinct, dead, in-range slot indices.
    pub open spec fn wf(self) -> bool {
        &&& self.alive@.len() == self.generations@.len()
        &&& forall|k: int|
            0 <= k < self.free@.len() ==> (#[trigger] self.free@[k]) < self.generations@.len()
                && !self.alive@[self.free@[k] as int]
        &&& forall|k1: int, k2: int|
            0 <= k1 < k2 < self.free@.len() ==> self.free@[k1] != self.free@[k2]
    }

    /// Number of slots ever allocated.
    pub open spec fn num_slots(self) -> nat {
        self.generations@.len()
    }

    /// Whether slot `i` currently hosts a live entity.
    pub open spec fn index_live(self, i: int) -> bool {
        0 <= i < self.alive@.len() && self.alive@[i]
    }

    /// Whether `e` is a currently valid identifier: its slot is alive and its
    /// generation matches the slot's current generation.
    pub open spec fn is_valid(self, e: Entity) -> bool {
        &&& e.index < self.generations@.len()
        &&& self.alive@[e.index as int]
        &&& self.generations@[e.index as int] == e.generation
    }

    /// Whether `e` is retired: invalid now and for all future use. Either
    /// its slot's generation has moved past `e`'s, and generations never
    /// decrease, or the slot sits at the final generation, dead and off the
    /// free list, so nothing revives it. `destroy` retires the identifier it
    /// invalidates, and every `create` and `destroy` preserves retirement,
    /// so no later `create` can return an identifier equal to a destroyed
    /// one.
    pub open spec fn retired(self, e: Entity) -> bool {
        &&& e.index < self.generations@.len()
        &&& (self.generations@[e.index as int] > e.generation || (self.generations@[e.index as int]
            == e.generation && !self.alive@[e.index as int] && !self.free@.contains(e.index)))
    }

    /// A retired identifier is not a valid one.
    pub proof fn lemma_retired_is_invalid(self, e: Entity)
        requires
            self.retired(e),
        ensures
            !self.is_valid(e),
    {
    }

    /// An empty registry: no slots, nothing valid.
    pub fn new() -> (r: Registry)
        ensures
            r.wf(),
            r.num_slots() == 0,
            forall|e: Entity| !r.is_valid(e),
            forall|i: int| !r.index_live(i),
    {
        Registry { generations: Vec::new(), alive: Vec::new(), free: Vec::new() }
    }

    /// Allocates a fresh identifier, reusing a retired slot under its bumped
    /// generation when one is available, else opening a new slot.
    ///
    /// The result never validates as any identifier that was valid before the
    /// call, and every previously valid identifier stays valid.
    pub fn create(&mut self) -> (e: Entity)
        requires
            old(self).wf(),
        ensures
            final(self).wf(),
            final(self).is_valid(e),
            !old(self).is_valid(e),
            !old(self).index_live(e.index as int),
            final(self).index_live(e.index as int),
            forall|i: int| i != e.index ==> final(self).index_live(i) == old(self).index_live(i),
            forall|e2: Entity| old(self).is_valid(e2) ==> final(self).is_valid(e2) && e2 != e,
            forall|e2: Entity| final(self).is_valid(e2) && e2 != e ==> old(self).is_valid(e2),
            forall|e2: Entity| old(self).retired(e2) ==> final(self).retired(e2) && e2 != e,
            final(self).generations@ == old(self).generations@
                || final(self).generations@ == old(self).generations@.push(0u64),
    {
        match self.free.pop() {
            Some(i) => {
                self.alive[i] = true;
                Entity { index: i, generation: self.generations[i] }
            },
            None => {
                let i = self.generations.len();
                self.generations.push(0);
                self.alive.push(true);
                Entity { index: i, generation: 0 }
            },
        }
    }

    /// Invalidates `e` for all future use; a no-op on an identifier that is
    /// already invalid. Returns whether `e` was valid. The caller owning the
    /// component storages is responsible for cascading the removal.
    pub fn destroy(&mut self, e: Entity) -> (was_valid: bool)
        requires
            old(self).wf(),
        ensures
            final(self).wf(),
            was_valid == old(self).is_valid(e),
            !final(self).is_valid(e),
            old(self).is_valid(e) ==> final(self).retired(e),
            forall|e2: Entity| old(self).retired(e2) ==> final(self).retired(e2),
            !old(self).is_valid(e) ==> *final(self) == *old(self),
            forall|i: int| i != e.index ==> final(self).index_live(i) == old(self).index_live(i),
            old(self).is_valid(e) ==> !final(self).index_live(e.index as int),
            forall|e2: Entity| e2 != e && old(self).is_valid(e2) ==> final(self).is_valid(e2),
            forall|e2: Entity| final(self).is_valid(e2) ==> old(self).is_valid(e2) && e2 != e,
            final(self).num_slots() == old(self).num_slots(),
    {
        if e.index < self.generations.len() && self.alive[e.index] && self.generations[e.index]
            == e.generation {
            self.alive[e.index] = false;
            if self.generations[e.index] < u64::MAX {
                self.generations[e.index] = self.generations[e.index] + 1;
                self.free.push(e.index);
            }
            true
        } else {
            false
        }
    }

    /// Whether `e` is currently a valid identifier.
    pub fn is_alive(&self, e: Entity) -> (b: bool)
        requires
            self.wf(),
        ensures
            b == self.is_valid(e),
    {
        e.index < self.generations.len() && self.alive[e.index] && self.generations[e.index]
            == e.generation
    }
}

} // verus!
