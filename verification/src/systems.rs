//! The systems run each tick, as pure logic over the world.
//!
//! Each system declares what it reads and writes and does nothing else:
//! the printing systems report the positions of tagged (or untagged)
//! entities, the render system produces the draw list for the console and
//! folds the tick's key event into the shared game state, and the player
//! movement system shifts every player-controlled entity by the direction
//! of the last key. The actual console and keyboard are collaborators
//! outside the core: the host performs the printing and drawing and hands
//! the key event in as a plain value.

use vstd::prelude::*;
use crate::components::Position;
use crate::query::Candidates;
use crate::query::Presence;
use crate::query::join_spec;
use crate::query::join_where;
use crate::query::lemma_join_spec_as_present_filter;
use crate::query::lemma_join_spec_membership;
use crate::query::lemma_join_spec_nodup;
use crate::query::present_filter;
use crate::resources::GameState;
use crate::resources::Key;
use crate::world::World;
use crate::world::WorldModel;

verus! {

/// One glyph to put on the console at one position.
#[derive(Clone, Copy, Debug, PartialEq, Eq, Structural)]
pub struct DrawCommand {
    pub x: i32,
    pub y: i32,
    pub glyph: char,
}

/// Horizontal displacement of one key press.
pub open spec fn spec_key_dx(k: Key) -> int {
    match k {
        Key::Left => -1,
        Key::Right => 1,
        _ => 0,
    }
}

/// Vertical displacement of one key press.
pub open spec fn spec_key_dy(k: Key) -> int {
    match k {
        Key::Up => -1,
        Key::Down => 1,
        _ => 0,
    }
}

/// The position `p` shifted by the displacement of key `k`.
pub open spec fn spec_moved(p: Position, k: Key) -> Position {
    Position { x: (p.x + spec_key_dx(k)) as i32, y: (p.y + spec_key_dy(k)) as i32 }
}

/// What the printing system reports: the positions of entities carrying
/// the print marker, in the position storage's dense order.
pub open spec fn spec_print_output(m: WorldModel) -> Seq<Position> {
    present_filter(m.pos_order, m.print, true).map_values(|e: usize| m.pos[e as int])
}

/// What the non-printing system reports: the positions of entities not
/// carrying the print marker, in the position storage's dense order.
pub open spec fn spec_not_print_output(m: WorldModel) -> Seq<Position> {
    present_filter(m.pos_order, m.print, false).map_values(|e: usize| m.pos[e as int])
}

/// What the render system draws: one command per entity holding both a
/// glyph and a position, in the glyph storage's dense order.
pub open spec fn spec_render_output(m: WorldModel) -> Seq<DrawCommand> {
    present_filter(m.glyph_order, m.pos.dom(), true).map_values(
        |e: usize|
            DrawCommand { x: m.pos[e as int].x, y: m.pos[e as int].y, glyph: m.glyph[e as int].glyph },
    )
}

/// The game state after folding in one tick's key event: an escape
/// requests termination; any other key is stored for the movement system;
/// no key clears the stored one.
pub open spec fn spec_process_input(input: Option<Key>, g: GameState) -> GameState {
    match input {
        None => GameState { end: g.end, key_press: None },
        Some(k) => if k == Key::Escape {
            GameState { end: true, key_press: None }
        } else {
            GameState { end: g.end, key_press: Some(k) }
        },
    }
}

/// The component state after the player movement system: every entity
/// holding both a position and the player-controller marker is shifted by
/// the last key's displacement; everything else is untouched.
pub open spec fn spec_player_move(m: WorldModel, key: Option<Key>) -> WorldModel {
    match key {
        None => m,
        Some(k) => WorldModel {
            pos: Map::new(
                |i: int| m.pos.dom().contains(i),
                |i: int|
                    if m.controlled.contains(i) {
                        spec_moved(m.pos[i], k)
                    } else {
                        m.pos[i]
                    },
            ),
            ..m
        },
    }
}

/// Folds one tick's key event into the shared game state.
///
/// This is the decision half of the input collaborator: the host reads
/// the keyboard and hands the event in as a plain value.
pub fn process_input(input: Option<Key>, g: GameState) -> (r: GameState)
    ensures
        r == spec_process_input(input, g),
{
    match input {
        None => GameState { end: g.end, key_press: None },
        Some(k) => if matches!(k, Key::Escape) {
            GameState { end: true, key_press: None }
        } else {
            GameState { end: g.end, key_press: Some(k) }
        },
    }
}

/// Reports the positions of entities carrying the print marker; the host
/// prints them.
pub struct PrintingSystem;

impl PrintingSystem {
    /// Joins positions with the print marker and collects the position
    /// values in dense order.
    pub fn run(w: &World) -> (r: Vec<Position>)
        requires
            w.wf(),
        ensures
            r@ == spec_print_output(w.tick_model()),
    {
        let ghost m = w.tick_model();
        let joined = join_where(&w.positions, &w.print_tags, true);
        proof {
            lemma_join_spec_as_present_filter(w.positions.order(), &w.print_tags, true, m.print);
            lemma_join_members_have_position(w, joined@, &w.print_tags, true);
        }
        collect_positions(w, joined, Ghost(present_filter(m.pos_order, m.print, true)))
    }
}

/// Reports the positions of entities not carrying the print marker; the
/// host prints them.
pub struct NotPrintingSystem;

impl NotPrintingSystem {
    /// Joins positions against the absence of the print marker and
    /// collects the position values in dense order.
    pub fn run(w: &World) -> (r: Vec<Position>)
        requires
            w.wf(),
        ensures
            r@ == spec_not_print_output(w.tick_model()),
    {
        let ghost m = w.tick_model();
        let joined = join_where(&w.positions, &w.print_tags, false);
        proof {
            lemma_join_spec_as_present_filter(w.positions.order(), &w.print_tags, false, m.print);
            lemma_join_members_have_position(w, joined@, &w.print_tags, false);
        }
        collect_positions(w, joined, Ghost(present_filter(m.pos_order, m.print, false)))
    }
}

/// Produces the draw list for the console: one command per entity holding
/// both a glyph and a position. The host owns the console window and
/// performs the clearing, drawing and flushing.
pub struct Render;

impl Render {
    /// Joins glyphs with positions and collects the draw commands in the
    /// glyph storage's dense order.
    pub fn run(w: &World) -> (r: Vec<DrawCommand>)
        requires
            w.wf(),
        ensures
            r@ == spec_render_output(w.tick_model()),
    {
        let ghost m = w.tick_model();
        let joined = join_where(&w.glyphs, &w.positions, true);
        proof {
            assert(forall|i: int| #[trigger] m.pos.dom().contains(i) == w.positions.has(i));
            lemma_join_spec_as_present_filter(w.glyphs.order(), &w.positions, true, m.pos.dom());
            lemma_join_spec_membership(w.glyphs.order(), &w.positions, true);
            w.glyphs.lemma_order_characterizes_presence();
            assert forall|k: int| 0 <= k < joined@.len() implies w.glyphs.has(
                #[trigger] joined@[k] as int,
            ) && w.positions.has(joined@[k] as int) by {
                let e = joined@[k];
                assert(joined@.contains(e));
                assert(w.glyphs.order().contains(e));
                let j = choose|j: int|
                    0 <= j < w.glyphs.order().len() && w.glyphs.order()[j] == e;
                assert(w.glyphs.has(w.glyphs.order()[j] as int));
            }
        }
        let ghost filt = present_filter(m.glyph_order, m.pos.dom(), true);
        let mut r: Vec<DrawCommand> = Vec::new();
        let n = joined.len();
        let mut k: usize = 0;
        while k < n
            invariant
                w.wf(),
                m == w.tick_model(),
                joined@ == filt,
                forall|j: int|
                    0 <= j < filt.len() ==> w.glyphs.has(#[trigger] filt[j] as int)
                        && w.positions.has(filt[j] as int),
                n == joined@.len(),
                k <= n,
                r@.len() == k,
                forall|j: int|
                    0 <= j < k ==> r@[j] == (DrawCommand {
                        x: m.pos[#[trigger] joined@[j] as int].x,
                        y: m.pos[joined@[j] as int].y,
                        glyph: m.glyph[joined@[j] as int].glyph,
                    }),
            decreases n - k,
        {
            let e = joined[k];
            let g = w.glyphs.get(e);
            let p = w.positions.get(e);
            match (g, p) {
                (Some(gl), Some(ps)) => {
                    proof {
                        assert(m.pos.dom().contains(e as int));
                        assert(m.glyph.dom().contains(e as int));
                    }
                    r.push(DrawCommand { x: ps.x, y: ps.y, glyph: gl.glyph });
                },
                _ => {
                    proof {
                        assert(false);
                    }
                },
            }
            k = k + 1;
        }
        proof {
            assert(r@ =~= spec_render_output(m));
        }
        r
    }
}

/// Moves every player-controlled entity by the displacement of the last
/// key stored in the game state.
pub struct PlayerMove;

impl PlayerMove {
    /// Shifts the position of each entity holding both a position and the
    /// player-controller marker; with no stored key the world is left
    /// untouched. The stored key's displacement must keep every controlled
    /// position representable.
    pub fn run(w: &mut World, g: &GameState)
        requires
            old(w).wf(),
            match g.key_press {
                Some(k) => forall|i: int|
                    (#[trigger] old(w).tick_model().pos.dom().contains(i)) && old(
                        w,
                    ).tick_model().controlled.contains(i) ==> i32::MIN <= old(
                        w,
                    ).tick_model().pos[i].x + spec_key_dx(k) <= i32::MAX && i32::MIN <= old(
                        w,
                    ).tick_model().pos[i].y + spec_key_dy(k) <= i32::MAX,
                None => true,
            },
        ensures
            final(w).wf(),
            final(w).registry == old(w).registry,
            final(w).glyphs == old(w).glyphs,
            final(w).print_tags == old(w).print_tags,
            final(w).controllers == old(w).controllers,
            final(w).tick_model() == spec_player_move(old(w).tick_model(), g.key_press),
    {
        let ghost m = old(w).tick_model();
        let key = g.key_press;
        match key {
            None => {},
            Some(k) => {
                let joined = join_where(&w.positions, &w.controllers, true);
                proof {
                    lemma_join_members_have_position(w, joined@, &w.controllers, true);
                    lemma_join_spec_membership(w.positions.order(), &w.controllers, true);
                    w.positions.lemma_order_characterizes_presence();
                    lemma_join_spec_nodup(w.positions.order(), &w.controllers, true);
                    assert forall|i: int|
                        w.positions.has(i) && w.controllers.has(i) implies joined@.contains(
                        i as usize,
                    ) by {
                        assert(w.positions.order().contains(i as usize));
                    }
                    assert forall|kk: int| 0 <= kk < joined@.len() implies w.controllers.has(
                        #[trigger] joined@[kk] as int,
                    ) by {
                        let e = joined@[kk];
                        assert(join_spec(w.positions.order(), &w.controllers, true).contains(e));
                    }
                }
                let dx = key_dx(k);
                let dy = key_dy(k);
                let n = joined.len();
                let mut j: usize = 0;
                while j < n
                    invariant
                        w.positions.wf(),
                        w.registry == old(w).registry,
                        w.glyphs == old(w).glyphs,
                        w.print_tags == old(w).print_tags,
                        w.controllers == old(w).controllers,
                        old(w).wf(),
                        m == old(w).tick_model(),
                        dx as int == spec_key_dx(k),
                        dy as int == spec_key_dy(k),
                        forall|i: int|
                            (#[trigger] m.pos.dom().contains(i)) && m.controlled.contains(i)
                                ==> i32::MIN <= m.pos[i].x + spec_key_dx(k) <= i32::MAX
                                && i32::MIN <= m.pos[i].y + spec_key_dy(k) <= i32::MAX,
                        n == joined@.len(),
                        j <= n,
                        w.positions.order() == old(w).positions.order(),
                        forall|i: int| w.positions.has(i) == old(w).positions.has(i),
                        forall|kk: int|
                            0 <= kk < n ==> old(w).positions.has(#[trigger] joined@[kk] as int)
                                && old(w).controllers.has(joined@[kk] as int),
                        forall|k1: int, k2: int|
                            0 <= k1 < k2 < n ==> joined@[k1] != joined@[k2],
                        forall|i: int|
                            old(w).positions.has(i) && old(w).controllers.has(i)
                                ==> joined@.contains(i as usize),
                        forall|i: int|
                            #[trigger] old(w).positions.has(i) ==> w.positions.spec_get(i) == (
                            if joined@.take(j as int).contains(i as usize) {
                                Some(spec_moved(m.pos[i], k))
                            } else {
                                old(w).positions.spec_get(i)
                            }),
                    decreases n - j,
                {
                    let e = joined[j];
                    proof {
                        assert(!joined@.take(j as int).contains(e)) by {
                            if joined@.take(j as int).contains(e) {
                                let t = choose|t: int|
                                    0 <= t < j && joined@.take(j as int)[t] == e;
                                assert(joined@[t] == joined@[j as int]);
                            }
                        }
                        assert(m.pos.dom().contains(e as int));
                        assert(m.controlled.contains(e as int));
                    }
                    let p = match w.positions.get(e) {
                        Some(p) => *p,
                        None => {
                            proof {
                                assert(false);
                            }
                            Position { x: 0, y: 0 }
                        },
                    };
                    proof {
                        assert(p == m.pos[e as int]);
                    }
                    let np = Position { x: p.x + dx, y: p.y + dy };
                    w.positions.insert(e, np);
                    proof {
                        assert(joined@.take(j + 1).drop_last() =~= joined@.take(j as int));
                        assert(joined@.take(j + 1).last() == e);
                        assert forall|i: int| #[trigger] old(w).positions.has(i) implies w
                            .positions.spec_get(i) == (
                        if joined@.take(j + 1).contains(i as usize) {
                            Some(spec_moved(m.pos[i], k))
                        } else {
                            old(w).positions.spec_get(i)
                        }) by {
                            if i != e {
                                assert(joined@.take(j + 1).contains(i as usize)
                                    == joined@.take(j as int).contains(i as usize)) by {
                                    let t1 = joined@.take(j as int);
                                    let t2 = joined@.take(j + 1);
                                    if t2.contains(i as usize) {
                                        let t = choose|t: int|
                                            0 <= t < t2.len() && t2[t] == i as usize;
                                        if t < j {
                                            assert(t1[t] == i as usize);
                                        }
                                    }
                                    if t1.contains(i as usize) {
                                        let t = choose|t: int|
                                            0 <= t < t1.len() && t1[t] == i as usize;
                                        assert(t2[t] == i as usize);
                                    }
                                }
                            } else {
                                assert(joined@.take(j + 1).contains(e));
                            }
                        }
                    }
                    j = j + 1;
                }
                proof {
                    assert forall|i: int|
                        old(w).positions.has(i) && old(w).controllers.has(i) implies joined@.take(
                        n as int,
                    ).contains(i as usize) by {
                        assert(joined@.take(n as int) =~= joined@);
                    }
                    assert(joined@.take(n as int) =~= joined@);
                    assert(w.tick_model() =~= spec_player_move(m, Some(k))) by {
                        assert forall|i: int|
                            #[trigger] w.tick_model().pos.dom().contains(i) implies w.tick_model()
                            .pos[i] == spec_player_move(m, Some(k)).pos[i] by {
                            if m.controlled.contains(i) {
                                assert(joined@.contains(i as usize));
                            } else {
                                assert(!joined@.contains(i as usize));
                            }
                        }
                        assert(w.tick_model().pos =~= spec_player_move(m, Some(k)).pos);
                        assert(w.tick_model().print =~= m.print);
                        assert(w.tick_model().controlled =~= m.controlled);
                    }
                }
            },
        }
    }
}

/// Decides the horizontal displacement of one key press.
fn key_dx(k: Key) -> (d: i32)
    ensures
        d as int == spec_key_dx(k),
{
    match k {
        Key::Left => -1,
        Key::Right => 1,
        _ => 0,
    }
}

/// Decides the vertical displacement of one key press.
fn key_dy(k: Key) -> (d: i32)
    ensures
        d as int == spec_key_dy(k),
{
    match k {
        Key::Up => -1,
        Key::Down => 1,
        _ => 0,
    }
}

/// Every element of a join that walks the position storage is present in
/// the position storage.
proof fn lemma_join_members_have_position<B: Presence + ?Sized>(
    w: &World,
    joined: Seq<usize>,
    b: &B,
    want: bool,
)
    requires
        w.wf(),
        joined == join_spec(w.positions.order(), b, want),
    ensures
        forall|k: int| 0 <= k < joined.len() ==> w.positions.has(#[trigger] joined[k] as int),
{
    lemma_join_spec_membership(w.positions.order(), b, want);
    w.positions.lemma_order_characterizes_presence();
    assert forall|k: int| 0 <= k < joined.len() implies w.positions.has(
        #[trigger] joined[k] as int,
    ) by {
        let e = joined[k];
        assert(joined.contains(e));
        assert(w.positions.order().contains(e));
        let j = choose|j: int|
            0 <= j < w.positions.order().len() && w.positions.order()[j] == e;
        assert(w.positions.has(w.positions.order()[j] as int));
    }
}

/// Collects the position value of each entity index in `joined`, which
/// must list only indices present in the position storage.
fn collect_positions(w: &World, joined: Vec<usize>, filt: Ghost<Seq<usize>>) -> (r: Vec<Position>)
    requires
        w.wf(),
        joined@ == filt@,
        forall|k: int| 0 <= k < filt@.len() ==> w.positions.has(#[trigger] filt@[k] as int),
    ensures
        r@ == filt@.map_values(|e: usize| w.tick_model().pos[e as int]),
{
    let ghost m = w.tick_model();
    let mut r: Vec<Position> = Vec::new();
    let n = joined.len();
    let mut k: usize = 0;
    while k < n
        invariant
            w.wf(),
            m == w.tick_model(),
            joined@ == filt@,
            forall|j: int| 0 <= j < filt@.len() ==> w.positions.has(#[trigger] filt@[j] as int),
            n == joined@.len(),
            k <= n,
            r@.len() == k,
            forall|j: int| 0 <= j < k ==> r@[j] == m.pos[#[trigger] joined@[j] as int],
        decreases n - k,
    {
        let e = joined[k];
        let v = w.positions.get(e);
        match v {
            Some(p) => {
                proof {
                    assert(m.pos.dom().contains(e as int));
                }
                r.push(*p);
            },
            None => {
                proof {
                    assert(false);
                }
            },
        }
        k = k + 1;
    }
    proof {
        assert(r@ =~= filt@.map_values(|e: usize| m.pos[e as int]));
    }
    r
}

} // verus!
