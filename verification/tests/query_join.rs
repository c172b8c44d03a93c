use ecs_core::components::CharacterGlyph;
use ecs_core::components::PlayerController;
use ecs_core::components::Position;
use ecs_core::components::PrintMeTag;
use ecs_core::systems::DrawCommand;
use ecs_core::systems::Render;
use ecs_core::query::join_where;
use ecs_core::systems::NotPrintingSystem;
use ecs_core::systems::PrintingSystem;
use ecs_core::world::World;

#[test]
fn join_on_presence_and_absence() {
    let mut w = World::new();
    let a = w.create_entity();
    let b = w.create_entity();
    let c = w.create_entity();
    w.insert_position(a, Position { x: 1, y: 0 });
    w.insert_position(b, Position { x: 2, y: 0 });
    w.insert_position(c, Position { x: 3, y: 0 });
    w.insert_print_tag(a, PrintMeTag);
    w.insert_print_tag(c, PrintMeTag);

    let tagged = PrintingSystem::run(&w);
    assert_eq!(tagged.len(), 2);
    assert!(tagged.contains(&Position { x: 1, y: 0 }));
    assert!(tagged.contains(&Position { x: 3, y: 0 }));

    let untagged = NotPrintingSystem::run(&w);
    assert_eq!(untagged, vec![Position { x: 2, y: 0 }]);
}

#[test]
fn join_membership_ignores_insertion_order() {
    // The same component sets built in two different insertion orders
    // produce the same join membership.
    let mut w1 = World::new();
    let a1 = w1.create_entity();
    let b1 = w1.create_entity();
    w1.insert_position(a1, Position { x: 1, y: 1 });
    w1.insert_position(b1, Position { x: 2, y: 2 });
    w1.insert_print_tag(a1, PrintMeTag);

    let mut w2 = World::new();
    let a2 = w2.create_entity();
    let b2 = w2.create_entity();
    w2.insert_position(b2, Position { x: 2, y: 2 });
    w2.insert_print_tag(a2, PrintMeTag);
    w2.insert_position(a2, Position { x: 1, y: 1 });

    let mut r1 = PrintingSystem::run(&w1);
    let mut r2 = PrintingSystem::run(&w2);
    r1.sort_by_key(|p| (p.x, p.y));
    r2.sort_by_key(|p| (p.x, p.y));
    assert_eq!(r1, r2);

    let mut n1 = NotPrintingSystem::run(&w1);
    let mut n2 = NotPrintingSystem::run(&w2);
    n1.sort_by_key(|p| (p.x, p.y));
    n2.sort_by_key(|p| (p.x, p.y));
    assert_eq!(n1, n2);
}

#[test]
fn join_yields_entity_indices_of_all_matches() {
    let mut w = World::new();
    let a = w.create_entity();
    let b = w.create_entity();
    let c = w.create_entity();
    w.insert_position(a, Position { x: 0, y: 0 });
    w.insert_position(b, Position { x: 0, y: 1 });
    w.insert_position(c, Position { x: 0, y: 2 });
    w.insert_controller(b, PlayerController);

    let with_controller = join_where(&w.positions, &w.controllers, true);
    assert_eq!(with_controller, vec![b.index]);

    let without_controller = join_where(&w.positions, &w.controllers, false);
    assert_eq!(without_controller.len(), 2);
    assert!(without_controller.contains(&a.index));
    assert!(without_controller.contains(&c.index));
}

#[test]
fn join_is_restartable_against_frozen_storages() {
    let mut w = World::new();
    let a = w.create_entity();
    w.insert_position(a, Position { x: 4, y: 4 });
    w.insert_print_tag(a, PrintMeTag);
    let first = PrintingSystem::run(&w);
    let second = PrintingSystem::run(&w);
    assert_eq!(first, second);
}

#[test]
fn render_draws_only_fully_equipped_entities() {
    let mut w = World::new();
    let drawn_one = w.create_entity();
    w.insert_position(drawn_one, Position { x: 5, y: 6 });
    w.insert_glyph(drawn_one, CharacterGlyph { glyph: '@' });
    let position_only = w.create_entity();
    w.insert_position(position_only, Position { x: 7, y: 8 });
    let glyph_only = w.create_entity();
    w.insert_glyph(glyph_only, CharacterGlyph { glyph: '#' });

    let commands = Render::run(&w);
    assert_eq!(commands, vec![DrawCommand { x: 5, y: 6, glyph: '@' }]);
}

#[test]
fn join_over_empty_world_is_empty() {
    let w = World::new();
    assert_eq!(PrintingSystem::run(&w), vec![]);
    assert_eq!(NotPrintingSystem::run(&w), vec![]);
}
