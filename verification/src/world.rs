//! The world: the entity registry plus one storage per component type.
//!
//! All component access by entity identifier goes through the registry's
//! generation check, so operations on a destroyed or never-created
//! identifier read as absent and mutate nothing. Destroying an entity
//! cascades into every storage: no storage retains an entry for a dead
//! entity index.

use vstd::prelude::*;
use crate::components::CharacterGlyph;
use crate::components::PlayerController;
use crate::components::Position;
use crate::components::PrintMeTag;
use crate::entity::Entity;
use crate::entity::Registry;
use crate::storage::DenseStorage;
use crate::storage::FlagStorage;

verus! {

/// The per-tick view of the world's component state: each storage's
/// contents keyed by entity index, with the dense orders of the
/// value-bearing storages, which joins walk.
#[verifier::ext_equal]
pub struct WorldModel {
    pub pos_order: Seq<usize>,
    pub pos: Map<int, Position>,
    pub glyph_order: Seq<usize>,
    pub glyph: Map<int, CharacterGlyph>,
    pub print: Set<int>,
    pub controlled: Set<int>,
}

/// The component database: registry plus per-type storages.
pub struct World {
    pub registry: Registry,
    pub positions: DenseStorage<Position>,
    pub glyphs: DenseStorage<CharacterGlyph>,
    pub print_tags: DenseStorage<PrintMeTag>,
    pub controllers: FlagStorage,
}

impl World {
    /// Structural invariant: registry and storages are well formed and no
    /// storage holds an entry for a dead entity index.
    pub open spec fn wf(self) -> bool {
        &&& self.registry.wf()
        &&& self.positions.wf()
        &&& self.glyphs.wf()
        &&& self.print_tags.wf()
        &&& self.controllers.wf()
        &&& forall|i: int| #[trigger] self.positions.has(i) ==> self.registry.index_live(i)
        &&& forall|i: int| #[trigger] self.glyphs.has(i) ==> self.registry.index_live(i)
        &&& forall|i: int| #[trigger] self.print_tags.has(i) ==> self.registry.index_live(i)
        &&& forall|i: int| #[trigger] self.controllers.has(i) ==> self.registry.index_live(i)
    }

    /// Whether `e` is a currently valid identifier.
    pub open spec fn is_valid(self, e: Entity) -> bool {
        self.registry.is_valid(e)
    }

    /// Whether `e` is retired: invalid now and for all future use. Destroy
    /// retires the identifier it invalidates; creating and destroying other
    /// entities preserves retirement, and the component operations leave
    /// the registry untouched, so a destroyed identifier can never again
    /// name an entity.
    pub open spec fn retired(self, e: Entity) -> bool {
        self.registry.retired(e)
    }

    /// The component state the systems of one tick read and write.
    pub open spec fn tick_model(self) -> WorldModel {
        WorldModel {
            pos_order: self.positions.order(),
            pos: self.positions.contents(),
            glyph_order: self.glyphs.order(),
            glyph: self.glyphs.contents(),
            print: Set::new(|i: int| self.print_tags.has(i)),
            controlled: Set::new(|i: int| self.controllers.has(i)),
        }
    }

    /// The position of `e`, absent when `e` is stale or has none.
    pub open spec fn position_of(self, e: Entity) -> Option<Position> {
        if self.is_valid(e) {
            self.positions.spec_get(e.index as int)
        } else {
            None
        }
    }

    /// The glyph of `e`, absent when `e` is stale or has none.
    pub open spec fn glyph_of(self, e: Entity) -> Option<CharacterGlyph> {
        if self.is_valid(e) {
            self.glyphs.spec_get(e.index as int)
        } else {
            None
        }
    }

    /// Whether valid `e` carries the print marker.
    pub open spec fn has_print_tag_spec(self, e: Entity) -> bool {
        self.is_valid(e) && self.print_tags.has(e.index as int)
    }

    /// Whether valid `e` carries the player-controller marker.
    pub open spec fn has_controller_spec(self, e: Entity) -> bool {
        self.is_valid(e) && self.controllers.has(e.index as int)
    }

    /// An empty world.
    pub fn new() -> (w: World)
        ensures
            w.wf(),
            forall|e: Entity| !w.is_valid(e),
            forall|i: int| !w.positions.has(i),
            forall|i: int| !w.glyphs.has(i),
            forall|i: int| !w.print_tags.has(i),
            forall|i: int| !w.controllers.has(i),
    {
        World {
            registry: Registry::new(),
            positions: DenseStorage::new(),
            glyphs: DenseStorage::new(),
            print_tags: DenseStorage::new(),
            controllers: FlagStorage::new(),
        }
    }

    /// Allocates a fresh entity with no components.
    ///
    /// The result never validates as any identifier that was valid before
    /// the call, previously valid identifiers stay valid, and the storages
    /// are untouched — in particular the fresh entity starts bare.
    pub fn create_entity(&mut self) -> (e: Entity)
        requires
            old(self).wf(),
        ensures
            final(self).wf(),
            final(self).is_valid(e),
            !old(self).is_valid(e),
            forall|e2: Entity| old(self).is_valid(e2) ==> final(self).is_valid(e2) && e2 != e,
            forall|e2: Entity| final(self).is_valid(e2) && e2 != e ==> old(self).is_valid(e2),
            forall|e2: Entity| old(self).retired(e2) ==> final(self).retired(e2) && e2 != e,
            final(self).positions == old(self).positions,
            final(self).glyphs == old(self).glyphs,
            final(self).print_tags == old(self).print_tags,
            final(self).controllers == old(self).controllers,
            final(self).tick_model() == old(self).tick_model(),
            final(self).position_of(e) is None,
            final(self).glyph_of(e) is None,
            !final(self).has_print_tag_spec(e),
            !final(self).has_controller_spec(e),
    {
        let e = self.registry.create();
        e
    }

    /// Invalidates `e` and drops its components from every storage; a no-op
    /// returning `false` when `e` is already invalid, so a double destroy
    /// changes nothing. Returns whether `e` was valid.
    ///
    /// Afterwards every storage reads absent for `e`, identifiers other
    /// than `e` keep their validity and components, and no identifier
    /// becomes valid.
    pub fn destroy(&mut self, e: Entity) -> (was_valid: bool)
        requires
            old(self).wf(),
        ensures
            final(self).wf(),
            was_valid == old(self).is_valid(e),
            !final(self).is_valid(e),
            old(self).is_valid(e) ==> final(self).retired(e),
            forall|e2: Entity| old(self).retired(e2) ==> final(self).retired(e2),
            !old(self).is_valid(e) ==> *final(self) == *old(self),
            final(self).position_of(e) is None,
            final(self).glyph_of(e) is None,
            !final(self).has_print_tag_spec(e),
            !final(self).has_controller_spec(e),
            !final(self).positions.has(e.index as int) || !old(self).is_valid(e),
            !final(self).glyphs.has(e.index as int) || !old(self).is_valid(e),
            !final(self).print_tags.has(e.index as int) || !old(self).is_valid(e),
            !final(self).controllers.has(e.index as int) || !old(self).is_valid(e),
            forall|e2: Entity| e2 != e && old(self).is_valid(e2) ==> final(self).is_valid(e2),
            forall|e2: Entity| final(self).is_valid(e2) ==> old(self).is_valid(e2) && e2 != e,
            forall|e2: Entity|
                e2 != e && old(self).is_valid(e2) ==> final(self).position_of(e2) == old(self).position_of(e2) && final(self).glyph_of(e2) == old(self).glyph_of(e2) && final(self).has_print_tag_spec(e2) == old(self).has_print_tag_spec(e2) && final(self).has_controller_spec(e2) == old(self).has_controller_spec(e2),
    {
        let was_valid = self.registry.destroy(e);
        if was_valid {
            self.positions.remove(e.index);
            self.glyphs.remove(e.index);
            self.print_tags.remove(e.index);
            self.controllers.remove(e.index);
        }
        was_valid
    }

    /// Whether `e` is currently a valid identifier.
    pub fn is_alive(&self, e: Entity) -> (b: bool)
        requires
            self.wf(),
        ensures
            b == self.is_valid(e),
    {
        self.registry.is_alive(e)
    }

    /// Associates `p` with `e`, overwriting any prior position; a no-op
    /// when `e` is stale.
    pub fn insert_position(&mut self, e: Entity, p: Position)
        requires
            old(self).wf(),
        ensures
            final(self).wf(),
            !old(self).is_valid(e) ==> *final(self) == *old(self),
            final(self).registry == old(self).registry,
            final(self).glyphs == old(self).glyphs,
            final(self).print_tags == old(self).print_tags,
            final(self).controllers == old(self).controllers,
            old(self).is_valid(e) ==> final(self).position_of(e) == Some(p),
            forall|i: int|
                i != e.index ==> final(self).positions.spec_get(i) == old(self).positions.spec_get(i) && final(self).positions.has(i) == old(self).positions.has(i),
            forall|e2: Entity|
                e2.index != e.index ==> final(self).position_of(e2) == old(self).position_of(e2),
    {
        if self.registry.is_alive(e) {
            self.positions.insert(e.index, p);
        }
    }

    /// Reads the position of `e`; absent when `e` is stale or has none.
    pub fn get_position(&self, e: Entity) -> (r: Option<Position>)
        requires
            self.wf(),
        ensures
            r == self.position_of(e),
    {
        if self.registry.is_alive(e) {
            match self.positions.get(e.index) {
                Some(p) => Some(*p),
                None => None,
            }
        } else {
            None
        }
    }

    /// Detaches the position of `e`; a no-op when `e` is stale or has none.
    pub fn remove_position(&mut self, e: Entity)
        requires
            old(self).wf(),
        ensures
            final(self).wf(),
            !old(self).is_valid(e) ==> *final(self) == *old(self),
            final(self).registry == old(self).registry,
            final(self).glyphs == old(self).glyphs,
            final(self).print_tags == old(self).print_tags,
            final(self).controllers == old(self).controllers,
            final(self).position_of(e) is None,
            forall|i: int|
                i != e.index ==> final(self).positions.spec_get(i) == old(self).positions.spec_get(i) && final(self).positions.has(i) == old(self).positions.has(i),
            forall|e2: Entity|
                e2.index != e.index ==> final(self).position_of(e2) == old(self).position_of(e2),
    {
        if self.registry.is_alive(e) {
            self.positions.remove(e.index);
        }
    }

    /// Associates `g` with `e`, overwriting any prior glyph; a no-op when
    /// `e` is stale.
    pub fn insert_glyph(&mut self, e: Entity, g: CharacterGlyph)
        requires
            old(self).wf(),
        ensures
            final(self).wf(),
            !old(self).is_valid(e) ==> *final(self) == *old(self),
            final(self).registry == old(self).registry,
            final(self).positions == old(self).positions,
            final(self).print_tags == old(self).print_tags,
            final(self).controllers == old(self).controllers,
            old(self).is_valid(e) ==> final(self).glyph_of(e) == Some(g),
            forall|i: int|
                i != e.index ==> final(self).glyphs.spec_get(i) == old(self).glyphs.spec_get(i)
                    && final(self).glyphs.has(i) == old(self).glyphs.has(i),
            forall|e2: Entity|
                e2.index != e.index ==> final(self).glyph_of(e2) == old(self).glyph_of(e2),
    {
        if self.registry.is_alive(e) {
            self.glyphs.insert(e.index, g);
        }
    }

    /// Reads the glyph of `e`; absent when `e` is stale or has none.
    pub fn get_glyph(&self, e: Entity) -> (r: Option<CharacterGlyph>)
        requires
            self.wf(),
        ensures
            r == self.glyph_of(e),
    {
        if self.registry.is_alive(e) {
            match self.glyphs.get(e.index) {
                Some(g) => Some(*g),
                None => None,
            }
        } else {
            None
        }
    }

    /// Marks `e` for the printing system; a no-op when `e` is stale.
    pub fn insert_print_tag(&mut self, e: Entity, t: PrintMeTag)
        requires
            old(self).wf(),
        ensures
            final(self).wf(),
            !old(self).is_valid(e) ==> *final(self) == *old(self),
            final(self).registry == old(self).registry,
            final(self).positions == old(self).positions,
            final(self).glyphs == old(self).glyphs,
            final(self).controllers == old(self).controllers,
            old(self).is_valid(e) ==> final(self).has_print_tag_spec(e),
            forall|i: int|
                i != e.index ==> final(self).print_tags.has(i) == old(self).print_tags.has(i),
            forall|e2: Entity|
                e2.index != e.index ==> final(self).has_print_tag_spec(e2) == old(self).has_print_tag_spec(e2),
    {
        if self.registry.is_alive(e) {
            self.print_tags.insert(e.index, t);
        }
    }

    /// Whether `e` is valid and marked for printing.
    pub fn has_print_tag(&self, e: Entity) -> (b: bool)
        requires
            self.wf(),
        ensures
            b == self.has_print_tag_spec(e),
    {
        self.registry.is_alive(e) && self.print_tags.contains_index(e.index)
    }

    /// Marks `e` as player controlled; a no-op when `e` is stale.
    pub fn insert_controller(&mut self, e: Entity, c: PlayerController)
        requires
            old(self).wf(),
        ensures
            final(self).wf(),
            !old(self).is_valid(e) ==> *final(self) == *old(self),
            final(self).registry == old(self).registry,
            final(self).positions == old(self).positions,
            final(self).glyphs == old(self).glyphs,
            final(self).print_tags == old(self).print_tags,
            old(self).is_valid(e) ==> final(self).has_controller_spec(e),
            forall|i: int|
                i != e.index ==> final(self).controllers.has(i) == old(self).controllers.has(i),
            forall|e2: Entity|
                e2.index != e.index ==> final(self).has_controller_spec(e2) == old(self).has_controller_spec(e2),
    {
        if self.registry.is_alive(e) {
            self.controllers.insert(e.index);
        }
    }

    /// Whether `e` is valid and player controlled.
    pub fn has_controller(&self, e: Entity) -> (b: bool)
        requires
            self.wf(),
        ensures
            b == self.has_controller_spec(e),
    {
        self.registry.is_alive(e) && self.controllers.contains_index(e.index)
    }
}

} // verus!
