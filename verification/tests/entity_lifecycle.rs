use ecs_core::components::CharacterGlyph;
use ecs_core::components::PlayerController;
use ecs_core::components::Position;
use ecs_core::components::PrintMeTag;
use ecs_core::entity::Registry;
use ecs_core::world::World;

#[test]
fn create_returns_distinct_live_entities() {
    let mut reg = Registry::new();
    let a = reg.create();
    let b = reg.create();
    let c = reg.create();
    assert_ne!(a, b);
    assert_ne!(a, c);
    assert_ne!(b, c);
    assert!(reg.is_alive(a));
    assert!(reg.is_alive(b));
    assert!(reg.is_alive(c));
}

#[test]
fn destroy_invalidates_and_recycles_with_new_generation() {
    let mut reg = Registry::new();
    let a = reg.create();
    let b = reg.create();
    assert!(reg.destroy(a));
    assert!(!reg.is_alive(a));
    assert!(reg.is_alive(b));
    // The retired slot comes back under a new generation: the old handle
    // stays dead.
    let c = reg.create();
    assert_ne!(a, c);
    assert!(reg.is_alive(c));
    assert!(!reg.is_alive(a));
}

#[test]
fn destroy_cascades_into_every_storage() {
    let mut w = World::new();
    let e = w.create_entity();
    let other = w.create_entity();
    w.insert_position(e, Position { x: 1, y: 2 });
    w.insert_glyph(e, CharacterGlyph { glyph: 'x' });
    w.insert_print_tag(e, PrintMeTag);
    w.insert_controller(e, PlayerController);
    w.insert_position(other, Position { x: 7, y: 8 });

    assert!(w.destroy(e));
    assert_eq!(w.get_position(e), None);
    assert_eq!(w.get_glyph(e), None);
    assert!(!w.has_print_tag(e));
    assert!(!w.has_controller(e));
    // The surviving entity is untouched.
    assert_eq!(w.get_position(other), Some(Position { x: 7, y: 8 }));
}

#[test]
fn create_never_matches_an_outstanding_identifier() {
    let mut w = World::new();
    let a = w.create_entity();
    let b = w.create_entity();
    w.insert_position(b, Position { x: 5, y: 5 });
    w.destroy(a);
    let c = w.create_entity();
    // The fresh identifier differs from every outstanding one, stale or
    // live, and starts bare.
    assert_ne!(c, a);
    assert_ne!(c, b);
    assert_eq!(w.get_position(c), None);
    // Writing through the fresh identifier never reaches the stale one.
    w.insert_position(c, Position { x: 9, y: 9 });
    assert_eq!(w.get_position(a), None);
    assert_eq!(w.get_position(b), Some(Position { x: 5, y: 5 }));
}

#[test]
fn double_destroy_is_a_silent_no_op() {
    let mut w = World::new();
    let e = w.create_entity();
    let keeper = w.create_entity();
    w.insert_position(e, Position { x: 1, y: 1 });
    w.insert_position(keeper, Position { x: 2, y: 2 });
    w.insert_glyph(keeper, CharacterGlyph { glyph: 'k' });

    assert!(w.destroy(e));
    assert!(!w.destroy(e));
    assert!(!w.destroy(e));
    // Nothing changed on the second and third calls.
    assert_eq!(w.get_position(keeper), Some(Position { x: 2, y: 2 }));
    assert_eq!(w.get_glyph(keeper), Some(CharacterGlyph { glyph: 'k' }));
    assert_eq!(w.get_position(e), None);
}

#[test]
fn destroyed_identifier_never_validates_again() {
    // Once destroyed, a handle stays dead through any number of later
    // recycling cycles: no create ever hands the same (index, generation)
    // pair out again.
    let mut w = World::new();
    let stale = w.create_entity();
    w.insert_position(stale, Position { x: 1, y: 1 });
    w.destroy(stale);
    let mut cycle: u32 = 0;
    while cycle < 8 {
        let tenant = w.create_entity();
        assert_ne!(tenant, stale);
        w.insert_position(tenant, Position { x: 2, y: 2 });
        assert!(!w.is_alive(stale));
        assert_eq!(w.get_position(stale), None);
        w.destroy(tenant);
        cycle += 1;
    }
}

#[test]
fn stale_identifier_reads_as_never_created() {
    let mut w = World::new();
    let e = w.create_entity();
    w.insert_position(e, Position { x: 3, y: 4 });
    w.destroy(e);
    // Reuse the slot; the stale handle must not see the new tenant.
    let tenant = w.create_entity();
    w.insert_position(tenant, Position { x: 30, y: 40 });
    assert_eq!(w.get_position(e), None);
    assert!(!w.is_alive(e));
    // Inserting through the stale handle is a no-op.
    w.insert_position(e, Position { x: 99, y: 99 });
    assert_eq!(w.get_position(tenant), Some(Position { x: 30, y: 40 }));
    assert_eq!(w.get_position(e), None);
}
