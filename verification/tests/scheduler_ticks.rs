use ecs_core::components::CharacterGlyph;
use ecs_core::components::PlayerController;
use ecs_core::components::Position;
use ecs_core::components::PrintMeTag;
use ecs_core::resources::GameState;
use ecs_core::resources::Key;
use ecs_core::resources::ResourceTable;
use ecs_core::scheduler::Scheduler;
use ecs_core::scheduler::SystemId;
use ecs_core::scheduler::conflicts;
use ecs_core::scheduler::run_ticks;
use ecs_core::systems::DrawCommand;
use ecs_core::systems::process_input;
use ecs_core::world::World;

fn roguelike_world() -> (World, ecs_core::entity::Entity) {
    let mut w = World::new();
    let player = w.create_entity();
    w.insert_position(player, Position { x: 10, y: 10 });
    w.insert_glyph(player, CharacterGlyph { glyph: 'y' });
    w.insert_print_tag(player, PrintMeTag);
    w.insert_controller(player, PlayerController);
    let o = w.create_entity();
    w.insert_position(o, Position { x: 20, y: 10 });
    w.insert_glyph(o, CharacterGlyph { glyph: 'o' });
    let t = w.create_entity();
    w.insert_position(t, Position { x: 30, y: 10 });
    w.insert_glyph(t, CharacterGlyph { glyph: 'T' });
    (w, player)
}

#[test]
fn one_tick_with_move_right_moves_only_the_player() {
    let (mut w, player) = roguelike_world();
    let mut sched = Scheduler::new();
    assert!(sched.with(SystemId::PlayerMove, Vec::new()));
    assert!(sched.with_thread_local(SystemId::Render));
    let mut rt = ResourceTable::new();
    sched.setup(&mut rt);
    // A "move right" key is already pending in the game state.
    rt.write_game_state(GameState { end: false, key_press: Some(Key::Right) });

    let out = sched.dispatch(&mut w, &mut rt, None);

    assert_eq!(w.get_position(player), Some(Position { x: 11, y: 10 }));
    assert_eq!(out.drawn.len(), 3);
    assert!(out.drawn.contains(&DrawCommand { x: 11, y: 10, glyph: 'y' }));
    assert!(out.drawn.contains(&DrawCommand { x: 20, y: 10, glyph: 'o' }));
    assert!(out.drawn.contains(&DrawCommand { x: 30, y: 10, glyph: 'T' }));
    assert!(!rt.read_game_state().end);
}

#[test]
fn escape_stops_the_host_loop_before_the_next_tick() {
    let (mut w, player) = roguelike_world();
    let mut sched = Scheduler::new();
    assert!(sched.with(SystemId::PlayerMove, Vec::new()));
    assert!(sched.with_thread_local(SystemId::Render));
    let mut rt = ResourceTable::new();
    sched.setup(&mut rt);

    // Tick one receives "right" (stored for the next tick), tick two
    // receives "escape": the loop stops there and the third event is
    // never dispatched.
    let inputs = vec![Some(Key::Right), Some(Key::Escape), Some(Key::Left)];
    let frames = run_ticks(&sched, &mut w, &mut rt, &inputs);

    assert_eq!(frames.len(), 2);
    assert!(rt.read_game_state().end);
    // The pending "right" was applied on tick two; "left" never ran.
    assert_eq!(w.get_position(player), Some(Position { x: 11, y: 10 }));
    // Each frame carries its own tick's draw list: the player moved
    // between the first and the second render pass.
    assert!(frames[0].drawn.contains(&DrawCommand { x: 10, y: 10, glyph: 'y' }));
    assert!(frames[1].drawn.contains(&DrawCommand { x: 11, y: 10, glyph: 'y' }));
    assert_eq!(frames[0].drawn.len(), 3);
    assert_eq!(frames[1].drawn.len(), 3);
}

#[test]
fn loop_without_escape_runs_every_scripted_tick() {
    let (mut w, player) = roguelike_world();
    let mut sched = Scheduler::new();
    assert!(sched.with(SystemId::PlayerMove, Vec::new()));
    assert!(sched.with_thread_local(SystemId::Render));
    let mut rt = ResourceTable::new();
    sched.setup(&mut rt);

    let inputs = vec![Some(Key::Down), Some(Key::Down), None];
    let frames = run_ticks(&sched, &mut w, &mut rt, &inputs);

    assert_eq!(frames.len(), 3);
    assert!(!rt.read_game_state().end);
    // The first "down" is stored on tick one and applied on tick two; the
    // second on tick three.
    assert_eq!(w.get_position(player), Some(Position { x: 10, y: 12 }));
}

#[test]
fn independent_systems_commute_between_schedules() {
    // Printing and Render declare disjoint write sets (none, and the game
    // resource): running them in either order gives the same end-of-tick
    // state and the same outputs.
    assert!(!conflicts(SystemId::Printing, SystemId::Render));

    let (mut w1, player1) = roguelike_world();
    let mut s1 = Scheduler::new();
    assert!(s1.with(SystemId::Printing, Vec::new()));
    assert!(s1.with(SystemId::Render, Vec::new()));
    let mut rt1 = ResourceTable::new();
    s1.setup(&mut rt1);
    let out1 = s1.dispatch(&mut w1, &mut rt1, Some(Key::Up));

    let (mut w2, player2) = roguelike_world();
    let mut s2 = Scheduler::new();
    assert!(s2.with(SystemId::Render, Vec::new()));
    assert!(s2.with(SystemId::Printing, Vec::new()));
    let mut rt2 = ResourceTable::new();
    s2.setup(&mut rt2);
    let out2 = s2.dispatch(&mut w2, &mut rt2, Some(Key::Up));

    assert_eq!(rt1.read_game_state(), rt2.read_game_state());
    assert_eq!(w1.get_position(player1), w2.get_position(player2));
    assert_eq!(out1.printed, out2.printed);
    assert_eq!(out1.drawn, out2.drawn);
}

#[test]
fn conflicting_systems_are_detected() {
    assert!(conflicts(SystemId::PlayerMove, SystemId::Printing));
    assert!(conflicts(SystemId::Printing, SystemId::PlayerMove));
    assert!(conflicts(SystemId::PlayerMove, SystemId::Render));
    assert!(conflicts(SystemId::PlayerMove, SystemId::PlayerMove));
    assert!(conflicts(SystemId::Render, SystemId::Render));
    assert!(!conflicts(SystemId::Printing, SystemId::NotPrinting));
    assert!(!conflicts(SystemId::NotPrinting, SystemId::Render));
}

#[test]
fn scheduler_refuses_bad_registrations() {
    let mut sched = Scheduler::new();
    assert!(sched.with(SystemId::Printing, Vec::new()));
    // Same kind twice: refused.
    assert!(!sched.with(SystemId::Printing, Vec::new()));
    assert!(!sched.with_thread_local(SystemId::Printing));
    // A predecessor index must name an earlier entry.
    assert!(!sched.with(SystemId::PlayerMove, vec![5]));
    assert!(sched.with(SystemId::PlayerMove, vec![0]));
}

#[test]
fn process_input_sets_the_terminal_flag_on_escape() {
    let g = GameState { end: false, key_press: None };
    let after_escape = process_input(Some(Key::Escape), g);
    assert!(after_escape.end);
    assert_eq!(after_escape.key_press, None);

    let after_right = process_input(Some(Key::Right), g);
    assert!(!after_right.end);
    assert_eq!(after_right.key_press, Some(Key::Right));

    let after_none = process_input(None, after_right);
    assert!(!after_none.end);
    assert_eq!(after_none.key_press, None);
}

#[test]
fn resource_table_defaults_until_written() {
    let mut rt = ResourceTable::new();
    let g = rt.read_game_state();
    assert!(!g.end);
    assert_eq!(g.key_press, None);
    rt.write_game_state(GameState { end: true, key_press: Some(Key::Other) });
    let g2 = rt.read_game_state();
    assert!(g2.end);
    assert_eq!(g2.key_press, Some(Key::Other));
}

#[test]
fn movement_covers_all_four_directions() {
    let mut w = World::new();
    let e = w.create_entity();
    w.insert_position(e, Position { x: 0, y: 0 });
    w.insert_controller(e, PlayerController);
    let mut sched = Scheduler::new();
    assert!(sched.with(SystemId::PlayerMove, Vec::new()));
    let mut rt = ResourceTable::new();
    sched.setup(&mut rt);

    for (key, expected) in [
        (Key::Right, Position { x: 1, y: 0 }),
        (Key::Down, Position { x: 1, y: 1 }),
        (Key::Left, Position { x: 0, y: 1 }),
        (Key::Up, Position { x: 0, y: 0 }),
        (Key::Other, Position { x: 0, y: 0 }),
    ] {
        let g = rt.read_game_state();
        rt.write_game_state(GameState { end: g.end, key_press: Some(key) });
        sched.dispatch(&mut w, &mut rt, None);
        assert_eq!(w.get_position(e), Some(expected));
    }
}
