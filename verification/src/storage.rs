//! Per-component-type storages.
//!
//! `DenseStorage` keeps value-bearing components tightly packed: a sparse
//! slot table maps an entity index to a slot in two parallel dense vectors
//! (entity indices and values), and removal compacts by swapping the last
//! slot into the hole. `FlagStorage` keeps zero-sized marker components as a
//! set of entity indices with the same sparse/dense layout, minus the values.
//!
//! Both storages are keyed by the entity's slot index alone; the world layer
//! checks generations so that stale identifiers read as absent.

use vstd::prelude::*;

verus! {

/// Dense storage for one value-bearing component type.
///
/// `slots[e]` holds the dense slot of entity index `e`, if any;
/// `entities[s]` and `values[s]` give the entity index and component value
/// stored in dense slot `s`.
pub struct DenseStorage<T> {
    pub slots: Vec<Option<usize>>,
    pub entities: Vec<usize>,
    pub values: Vec<T>,
}

impl<T> DenseStorage<T> {
    /// Structural invariant: the dense vectors run in parallel, and the
    /// sparse and dense tables are inverse to one another.
    pub open spec fn wf(self) -> bool {
        &&& self.values@.len() == self.entities@.len()
        &&& forall|s: int|
            0 <= s < self.entities@.len() ==> (#[trigger] self.entities@[s]) < self.slots@.len()
                && self.slots@[self.entities@[s] as int] is Some
                && self.slots@[self.entities@[s] as int]->Some_0 == s
        &&& forall|i: int|
            0 <= i < self.slots@.len() && (#[trigger] self.slots@[i]) is Some
                ==> self.slots@[i]->Some_0 < self.entities@.len()
                && self.entities@[self.slots@[i]->Some_0 as int] == i
    }

    /// Whether entity index `i` has a component here.
    pub open spec fn has(self, i: int) -> bool {
        0 <= i < self.slots@.len() && self.slots@[i] is Some
    }

    /// The component of entity index `i`, if present.
    pub open spec fn spec_get(self, i: int) -> Option<T> {
        if self.has(i) {
            Some(self.values@[self.slots@[i]->Some_0 as int])
        } else {
            None
        }
    }

    /// The storage's contents as a map from entity index to value.
    pub open spec fn contents(self) -> Map<int, T> {
        Map::new(|i: int| self.has(i), |i: int| self.spec_get(i)->Some_0)
    }

    /// The dense iteration order: entity indices by slot.
    pub open spec fn order(self) -> Seq<usize> {
        self.entities@
    }

    /// An empty storage.
    pub fn new() -> (s: Self)
        ensures
            s.wf(),
            forall|i: int| !s.has(i),
            s.order() == Seq::<usize>::empty(),
    {
        DenseStorage { slots: Vec::new(), entities: Vec::new(), values: Vec::new() }
    }

    /// Associates `v` with entity index `e`, overwriting any prior value.
    ///
    /// Presence of every other entity index, and the iteration order of the
    /// already-present ones, are untouched; a newly present index joins the
    /// order at the end.
    pub fn insert(&mut self, e: usize, v: T)
        requires
            old(self).wf(),
        ensures
            final(self).wf(),
            final(self).has(e as int),
            final(self).spec_get(e as int) == Some(v),
            forall|i: int| i != e ==> final(self).has(i) == old(self).has(i),
            forall|i: int| i != e ==> final(self).spec_get(i) == old(self).spec_get(i),
            old(self).has(e as int) ==> final(self).order() == old(self).order(),
            !old(self).has(e as int) ==> final(self).order() == old(self).order().push(e),
    {
        while self.slots.len() <= e
            invariant
                self.wf(),
                self.entities@ == old(self).entities@,
                self.values@ == old(self).values@,
                old(self).slots@.len() <= self.slots@.len(),
                forall|i: int|
                    0 <= i < self.slots@.len() ==> #[trigger] self.slots@[i] == (
                    if i < old(self).slots@.len() {
                        old(self).slots@[i]
                    } else {
                        None
                    }),
            decreases e + 1 - self.slots.len(),
        {
            self.slots.push(None);
        }
        let slot_e = self.slots[e];
        match slot_e {
            Some(s) => {
                self.values[s] = v;
                proof {
                    assert forall|i: int| i != e && #[trigger] old(self).has(i) implies self
                        .spec_get(i) == old(self).spec_get(i) by {
                        let t = self.slots@[i]->Some_0;
                        assert(self.entities@[t as int] as int == i);
                    }
                }
            },
            None => {
                let n = self.entities.len();
                self.slots[e] = Some(n);
                self.entities.push(e);
                self.values.push(v);
                proof {
                    assert forall|s: int| 0 <= s < self.entities@.len() implies (
                    #[trigger] self.entities@[s]) < self.slots@.len()
                        && self.slots@[self.entities@[s] as int] is Some
                        && self.slots@[self.entities@[s] as int]->Some_0 == s by {
                        if s < old(self).entities@.len() {
                            assert(old(self).slots@[old(self).entities@[s] as int] is Some);
                            assert(self.entities@[s] != e);
                        }
                    }
                }
            },
        }
    }

    /// Detaches the value of entity index `e`; a no-op if absent.
    ///
    /// Compacts by moving the last dense slot into the vacated one, so every
    /// other entity index keeps its presence and value.
    pub fn remove(&mut self, e: usize)
        requires
            old(self).wf(),
        ensures
            final(self).wf(),
            !final(self).has(e as int),
            forall|i: int| i != e ==> final(self).has(i) == old(self).has(i),
            forall|i: int| i != e ==> final(self).spec_get(i) == old(self).spec_get(i),
            !old(self).has(e as int) ==> *final(self) == *old(self),
            old(self).has(e as int) ==> final(self).order().len() == old(self).order().len() - 1,
    {
        if e < self.slots.len() {
            let slot_e = self.slots[e];
            match slot_e {
                Some(s) => {
                    let last = self.entities.len() - 1;
                    let moved = self.entities[last];
                    self.values.swap_remove(s);
                    self.entities.swap_remove(s);
                    self.slots[e] = None;
                    if s < last {
                        proof {
                            assert(old(self).entities@[s as int] == e);
                            assert(moved != e);
                        }
                        self.slots[moved] = Some(s);
                    }
                    proof {
                        lemma_dense_remove_wf(*old(self), *self, e, s, last, moved);
                    }
                },
                None => {},
            }
        }
    }

    /// Reads the component of entity index `e`.
    pub fn get(&self, e: usize) -> (r: Option<&T>)
        requires
            self.wf(),
        ensures
            r is Some <==> self.has(e as int),
            r is Some ==> Some(*r->Some_0) == self.spec_get(e as int),
    {
        if e < self.slots.len() {
            let slot_e = self.slots[e];
            match slot_e {
                Some(s) => Some(&self.values[s]),
                None => None,
            }
        } else {
            None
        }
    }

    /// Whether entity index `e` has a component here.
    pub fn contains_index(&self, e: usize) -> (b: bool)
        ensures
            b == self.has(e as int),
    {
        if e < self.slots.len() {
            self.slots[e].is_some()
        } else {
            false
        }
    }

    /// Number of stored components.
    pub fn num(&self) -> (n: usize)
        ensures
            n == self.order().len(),
    {
        self.entities.len()
    }

    /// The entity index stored in dense slot `k`.
    pub fn entity_at(&self, k: usize) -> (e: usize)
        requires
            self.wf(),
            k < self.order().len(),
        ensures
            e == self.order()[k as int],
            self.has(e as int),
            self.spec_get(e as int) == Some(self.values@[k as int]),
    {
        self.entities[k]
    }

    /// The value stored in dense slot `k`.
    pub fn value_at(&self, k: usize) -> (v: &T)
        requires
            self.wf(),
            k < self.order().len(),
        ensures
            *v == self.values@[k as int],
            self.spec_get(self.order()[k as int] as int) == Some(*v),
    {
        &self.values[k]
    }

    /// The dense order lists exactly the present entity indices, without
    /// repetition.
    pub proof fn lemma_order_characterizes_presence(self)
        requires
            self.wf(),
        ensures
            forall|k: int|
                0 <= k < self.order().len() ==> self.has(#[trigger] self.order()[k] as int),
            forall|i: int| #[trigger] self.has(i) ==> self.order().contains(i as usize),
            forall|k1: int, k2: int|
                0 <= k1 < k2 < self.order().len() ==> self.order()[k1] != self.order()[k2],
    {
        assert forall|i: int| #[trigger] self.has(i) implies self.order().contains(
            i as usize,
        ) by {
            let s = self.slots@[i]->Some_0;
            assert(self.order()[s as int] == i);
        }
        assert forall|k1: int, k2: int|
            0 <= k1 < k2 < self.order().len() implies self.order()[k1] != self.order()[k2] by {
            assert(self.slots@[self.entities@[k1] as int]->Some_0 == k1);
            assert(self.slots@[self.entities@[k2] as int]->Some_0 == k2);
        }
    }

    /// Compaction is invisible to lookups: what `get` answers is fully
    /// determined by the contents map, never by slot layout. Since `insert`
    /// and `remove` update presence and values pointwise, any sequence of
    /// insertions and removals, in any order, leaves every remaining entity
    /// index answering its own value.
    pub proof fn lemma_contents_characterize_lookup(self)
        requires
            self.wf(),
        ensures
            forall|i: int| self.contents().dom().contains(i) <==> #[trigger] self.has(i),
            forall|i: int|
                #[trigger] self.has(i) ==> self.spec_get(i) == Some(self.contents()[i]),
            forall|i: int| !(#[trigger] self.has(i)) ==> self.spec_get(i) is None,
    {
    }
}

/// Flag storage for one zero-sized marker component type: a set of entity
/// indices. Presence is the only information; there is no value payload.
pub struct FlagStorage {
    pub slots: Vec<Option<usize>>,
    pub entities: Vec<usize>,
}

impl FlagStorage {
    /// Structural invariant: the sparse and dense tables are inverse to one
    /// another.
    pub open spec fn wf(self) -> bool {
        &&& forall|s: int|
            0 <= s < self.entities@.len() ==> (#[trigger] self.entities@[s]) < self.slots@.len()
                && self.slots@[self.entities@[s] as int] is Some
                && self.slots@[self.entities@[s] as int]->Some_0 == s
        &&& forall|i: int|
            0 <= i < self.slots@.len() && (#[trigger] self.slots@[i]) is Some
                ==> self.slots@[i]->Some_0 < self.entities@.len()
                && self.entities@[self.slots@[i]->Some_0 as int] == i
    }

    /// Whether entity index `i` carries the marker.
    pub open spec fn has(self, i: int) -> bool {
        0 <= i < self.slots@.len() && self.slots@[i] is Some
    }

    /// The marked entity indices as a set.
    pub open spec fn index_set(self) -> Set<int> {
        Set::new(|i: int| self.has(i))
    }

    /// The dense iteration order: marked entity indices by slot.
    pub open spec fn order(self) -> Seq<usize> {
        self.entities@
    }

    /// An empty storage.
    pub fn new() -> (s: Self)
        ensures
            s.wf(),
            forall|i: int| !s.has(i),
            s.order() == Seq::<usize>::empty(),
    {
        FlagStorage { slots: Vec::new(), entities: Vec::new() }
    }

    /// Marks entity index `e`; a no-op if already marked.
    pub fn insert(&mut self, e: usize)
        requires
            old(self).wf(),
        ensures
            final(self).wf(),
            final(self).has(e as int),
            forall|i: int| i != e ==> final(self).has(i) == old(self).has(i),
            old(self).has(e as int) ==> *final(self) == *old(self),
    {
        while self.slots.len() <= e
            invariant
                self.wf(),
                self.entities == old(self).entities,
                old(self).slots@.len() <= self.slots@.len(),
                old(self).slots@.len() <= e || self.slots == old(self).slots,
                forall|i: int|
                    0 <= i < self.slots@.len() ==> #[trigger] self.slots@[i] == (
                    if i < old(self).slots@.len() {
                        old(self).slots@[i]
                    } else {
                        None
                    }),
            decreases e + 1 - self.slots.len(),
        {
            self.slots.push(None);
        }
        let slot_e = self.slots[e];
        match slot_e {
            Some(_) => {},
            None => {
                let n = self.entities.len();
                self.slots[e] = Some(n);
                self.entities.push(e);
                proof {
                    assert forall|s: int| 0 <= s < self.entities@.len() implies (
                    #[trigger] self.entities@[s]) < self.slots@.len()
                        && self.slots@[self.entities@[s] as int] is Some
                        && self.slots@[self.entities@[s] as int]->Some_0 == s by {
                        if s < old(self).entities@.len() {
                            assert(old(self).slots@[old(self).entities@[s] as int] is Some);
                            assert(self.entities@[s] != e);
                        }
                    }
                }
            },
        }
    }

    /// Unmarks entity index `e`; a no-op if absent.
    pub fn remove(&mut self, e: usize)
        requires
            old(self).wf(),
        ensures
            final(self).wf(),
            !final(self).has(e as int),
            forall|i: int| i != e ==> final(self).has(i) == old(self).has(i),
            !old(self).has(e as int) ==> *final(self) == *old(self),
    {
        if e < self.slots.len() {
            let slot_e = self.slots[e];
            match slot_e {
                Some(s) => {
                    let last = self.entities.len() - 1;
                    let moved = self.entities[last];
                    self.entities.swap_remove(s);
                    self.slots[e] = None;
                    if s < last {
                        proof {
                            assert(old(self).entities@[s as int] == e);
                            assert(moved != e);
                        }
                        self.slots[moved] = Some(s);
                    }
                    proof {
                        lemma_flag_remove_wf(*old(self), *self, e, s, last, moved);
                    }
                },
                None => {},
            }
        }
    }

    /// Whether entity index `e` carries the marker.
    pub fn contains_index(&self, e: usize) -> (b: bool)
        ensures
            b == self.has(e as int),
    {
        if e < self.slots.len() {
            self.slots[e].is_some()
        } else {
            false
        }
    }

    /// Number of marked entity indices.
    pub fn num(&self) -> (n: usize)
        ensures
            n == self.order().len(),
    {
        self.entities.len()
    }

    /// The entity index stored in dense slot `k`.
    pub fn entity_at(&self, k: usize) -> (e: usize)
        requires
            self.wf(),
            k < self.order().len(),
        ensures
            e == self.order()[k as int],
            self.has(e as int),
    {
        self.entities[k]
    }

    /// The dense order lists exactly the marked entity indices, without
    /// repetition.
    pub proof fn lemma_order_characterizes_presence(self)
        requires
            self.wf(),
        ensures
            forall|k: int|
                0 <= k < self.order().len() ==> self.has(#[trigger] self.order()[k] as int),
            forall|i: int| #[trigger] self.has(i) ==> self.order().contains(i as usize),
            forall|k1: int, k2: int|
                0 <= k1 < k2 < self.order().len() ==> self.order()[k1] != self.order()[k2],
    {
        assert forall|i: int| #[trigger] self.has(i) implies self.order().contains(
            i as usize,
        ) by {
            let s = self.slots@[i]->Some_0;
            assert(self.order()[s as int] == i);
        }
        assert forall|k1: int, k2: int|
            0 <= k1 < k2 < self.order().len() implies self.order()[k1] != self.order()[k2] by {
            assert(self.slots@[self.entities@[k1] as int]->Some_0 == k1);
            assert(self.slots@[self.entities@[k2] as int]->Some_0 == k2);
        }
    }
}

/// The sparse and dense tables of a flag storage remain inverse after a
/// swap-remove of slot `s`, which held entity index `e`, with `moved` the
/// entity index that was in the last slot.
proof fn lemma_flag_remove_wf(
    pre: FlagStorage,
    post: FlagStorage,
    e: usize,
    s: usize,
    last: usize,
    moved: usize,
)
    requires
        pre.wf(),
        pre.has(e as int),
        s == pre.slots@[e as int]->Some_0,
        last == pre.entities@.len() - 1,
        moved == pre.entities@[last as int],
        post.entities@ == pre.entities@.update(s as int, pre.entities@.last()).drop_last(),
        post.slots@ == (if s < last {
            pre.slots@.update(e as int, None).update(moved as int, Some(s))
        } else {
            pre.slots@.update(e as int, None)
        }),
    ensures
        post.wf(),
        !post.has(e as int),
        forall|i: int| i != e ==> post.has(i) == pre.has(i),
{
    assert(pre.entities@[s as int] == e);
    assert forall|t: int| 0 <= t < post.entities@.len() implies (#[trigger] post.entities@[t])
        < post.slots@.len() && post.slots@[post.entities@[t] as int] is Some
        && post.slots@[post.entities@[t] as int]->Some_0 == t by {
        if t == s {
            assert(post.entities@[t] == moved);
        } else {
            assert(post.entities@[t] == pre.entities@[t]);
            assert(pre.slots@[pre.entities@[t] as int]->Some_0 == t);
            assert(pre.entities@[t] != e);
            assert(pre.entities@[t] != moved || t == last);
        }
    }
    assert forall|i: int|
        0 <= i < post.slots@.len() && (#[trigger] post.slots@[i]) is Some implies post.slots@[i]->Some_0
        < post.entities@.len() && post.entities@[post.slots@[i]->Some_0 as int] == i by {
        if s < last && i == moved {
            assert(post.entities@[s as int] == moved);
        } else {
            assert(post.slots@[i] == pre.slots@[i]);
            let t = pre.slots@[i]->Some_0;
            assert(pre.entities@[t as int] == i);
            assert(t != s);
            assert(t != last) by {
                if t == last {
                    assert(i == moved);
                    assert(s == last || i != moved);
                }
            }
        }
    }
}

/// The sparse and dense tables remain inverse after a swap-remove of slot
/// `s`, which held entity index `e`, with `moved` the entity index that was
/// in the last slot.
proof fn lemma_dense_remove_wf<T>(
    pre: DenseStorage<T>,
    post: DenseStorage<T>,
    e: usize,
    s: usize,
    last: usize,
    moved: usize,
)
    requires
        pre.wf(),
        pre.has(e as int),
        s == pre.slots@[e as int]->Some_0,
        last == pre.entities@.len() - 1,
        moved == pre.entities@[last as int],
        post.entities@ == pre.entities@.update(s as int, pre.entities@.last()).drop_last(),
        post.values@ == pre.values@.update(s as int, pre.values@.last()).drop_last(),
        post.slots@ == (if s < last {
            pre.slots@.update(e as int, None).update(moved as int, Some(s))
        } else {
            pre.slots@.update(e as int, None)
        }),
    ensures
        post.wf(),
        !post.has(e as int),
        forall|i: int| i != e ==> post.has(i) == pre.has(i),
        forall|i: int| i != e ==> post.spec_get(i) == pre.spec_get(i),
{
    assert(pre.entities@[s as int] == e);
    assert forall|t: int| 0 <= t < post.entities@.len() implies (#[trigger] post.entities@[t])
        < post.slots@.len() && post.slots@[post.entities@[t] as int] is Some
        && post.slots@[post.entities@[t] as int]->Some_0 == t by {
        if t == s {
            assert(post.entities@[t] == moved);
        } else {
            assert(post.entities@[t] == pre.entities@[t]);
            assert(pre.slots@[pre.entities@[t] as int]->Some_0 == t);
            assert(pre.entities@[t] != e);
            assert(pre.entities@[t] != moved || t == last);
        }
    }
    assert forall|i: int|
        0 <= i < post.slots@.len() && (#[trigger] post.slots@[i]) is Some implies post.slots@[i]->Some_0
        < post.entities@.len() && post.entities@[post.slots@[i]->Some_0 as int] == i by {
        if s < last && i == moved {
            assert(post.entities@[s as int] == moved);
        } else {
            assert(post.slots@[i] == pre.slots@[i]);
            let t = pre.slots@[i]->Some_0;
            assert(pre.entities@[t as int] == i);
            assert(t != s);
            assert(t != last) by {
                if t == last {
                    assert(i == moved);
                    assert(s == last || i != moved);
                }
            }
        }
    }
    assert forall|i: int| i != e implies post.spec_get(i) == pre.spec_get(i) by {
        if pre.has(i) {
            let t = pre.slots@[i]->Some_0;
            assert(pre.entities@[t as int] == i);
            if s < last && i == moved {
                assert(post.spec_get(i) == Some(post.values@[s as int]));
            } else {
                assert(t != s);
            }
        }
    }
}

} // verus!
