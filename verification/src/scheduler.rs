//! The system scheduler.
//!
//! A scheduler holds an ordered list of registered systems, each with its
//! declared predecessors and a thread-local flag. Every tick it runs the
//! parallel-pool systems in declaration order — a valid sequential
//! schedule, since predecessors must be declared earlier — and, after a
//! barrier, the thread-local systems in declaration order. Each system
//! declares the component types and resources it reads and writes; two
//! systems conflict when one writes something the other touches, and only
//! conflict-free systems may run concurrently. For such systems the two
//! sequential orders produce the same end-of-tick state, so a parallel
//! run is indistinguishable from the sequential schedule verified here.

use vstd::prelude::*;
use crate::components::Position;
use crate::resources::GameState;
use crate::resources::Key;
use crate::resources::ResourceTable;
use crate::systems::DrawCommand;
use crate::systems::NotPrintingSystem;
use crate::systems::PlayerMove;
use crate::systems::PrintingSystem;
use crate::systems::Render;
use crate::systems::process_input;
use crate::systems::spec_not_print_output;
use crate::systems::spec_player_move;
use crate::systems::spec_print_output;
use crate::systems::spec_process_input;
use crate::systems::spec_render_output;
use crate::world::World;
use crate::world::WorldModel;

verus! {

/// Names one of the registered system kinds.
#[derive(Clone, Copy, Debug, PartialEq, Eq, Structural)]
pub enum SystemId {
    Printing,
    NotPrinting,
    PlayerMove,
    Render,
}

/// A component storage or resource a system can declare access to.
#[derive(Clone, Copy, Debug, PartialEq, Eq, Structural)]
pub enum AccessItem {
    Positions,
    Glyphs,
    PrintTags,
    Controllers,
    GameRes,
}

/// The storages and resources a system declares read access to.
pub open spec fn spec_reads(s: SystemId) -> Set<AccessItem> {
    match s {
        SystemId::Printing => set![AccessItem::Positions, AccessItem::PrintTags],
        SystemId::NotPrinting => set![AccessItem::Positions, AccessItem::PrintTags],
        SystemId::PlayerMove => set![AccessItem::Controllers, AccessItem::GameRes],
        SystemId::Render => set![AccessItem::Glyphs, AccessItem::Positions],
    }
}

/// The storages and resources a system declares write access to.
pub open spec fn spec_writes(s: SystemId) -> Set<AccessItem> {
    match s {
        SystemId::Printing => Set::empty(),
        SystemId::NotPrinting => Set::empty(),
        SystemId::PlayerMove => set![AccessItem::Positions],
        SystemId::Render => set![AccessItem::GameRes],
    }
}

/// Two systems conflict when one's write set touches anything the other
/// reads or writes. Conflicting systems must be serialized; read-read
/// overlap is never a conflict.
pub open spec fn spec_conflicts(a: SystemId, b: SystemId) -> bool {
    ||| !spec_writes(a).disjoint(spec_writes(b).union(spec_reads(b)))
    ||| !spec_writes(b).disjoint(spec_reads(a))
}

/// Decides whether two systems conflict under their declared access sets.
pub fn conflicts(a: SystemId, b: SystemId) -> (c: bool)
    ensures
        c == spec_conflicts(a, b),
{
    let c = match (a, b) {
        (SystemId::PlayerMove, _) => true,
        (_, SystemId::PlayerMove) => true,
        (SystemId::Render, SystemId::Render) => true,
        _ => false,
    };
    proof {
        lemma_conflicts_cases(a, b);
    }
    c
}

/// Case table for the conflict relation over the four system kinds.
proof fn lemma_conflicts_cases(a: SystemId, b: SystemId)
    ensures
        spec_conflicts(a, b) == match (a, b) {
            (SystemId::PlayerMove, _) => true,
            (_, SystemId::PlayerMove) => true,
            (SystemId::Render, SystemId::Render) => true,
            _ => false,
        },
{
    match (a, b) {
        (SystemId::PlayerMove, SystemId::Printing) => {
            assert(spec_writes(a).contains(AccessItem::Positions));
            assert(spec_reads(b).contains(AccessItem::Positions));
        },
        (SystemId::PlayerMove, SystemId::NotPrinting) => {
            assert(spec_writes(a).contains(AccessItem::Positions));
            assert(spec_reads(b).contains(AccessItem::Positions));
        },
        (SystemId::PlayerMove, SystemId::PlayerMove) => {
            assert(spec_writes(a).contains(AccessItem::Positions));
            assert(spec_writes(b).contains(AccessItem::Positions));
        },
        (SystemId::PlayerMove, SystemId::Render) => {
            assert(spec_writes(a).contains(AccessItem::Positions));
            assert(spec_reads(b).contains(AccessItem::Positions));
        },
        (SystemId::Printing, SystemId::PlayerMove) => {
            assert(spec_writes(b).contains(AccessItem::Positions));
            assert(spec_reads(a).contains(AccessItem::Positions));
        },
        (SystemId::NotPrinting, SystemId::PlayerMove) => {
            assert(spec_writes(b).contains(AccessItem::Positions));
            assert(spec_reads(a).contains(AccessItem::Positions));
        },
        (SystemId::Render, SystemId::PlayerMove) => {
            assert(spec_writes(b).contains(AccessItem::Positions));
            assert(spec_reads(a).contains(AccessItem::Positions));
        },
        (SystemId::Render, SystemId::Render) => {
            assert(spec_writes(a).contains(AccessItem::GameRes));
            assert(spec_writes(b).contains(AccessItem::GameRes));
        },
        _ => {
            assert(spec_writes(a).disjoint(spec_writes(b).union(spec_reads(b))));
            assert(spec_writes(b).disjoint(spec_reads(a)));
        },
    }
}

/// The state one tick's dispatch threads through its systems: the world's
/// component model, the shared game state, and the output each reporting
/// system has produced so far.
#[verifier::ext_equal]
pub struct TickTrace {
    pub m: WorldModel,
    pub g: GameState,
    pub printed: Seq<Position>,
    pub not_printed: Seq<Position>,
    pub drawn: Seq<DrawCommand>,
}

/// The effect of running one system on the tick state. `input` is the
/// tick's key event, folded into the game state by the render system.
pub open spec fn spec_step(t: TickTrace, s: SystemId, input: Option<Key>) -> TickTrace {
    match s {
        SystemId::Printing => TickTrace { printed: t.printed + spec_print_output(t.m), ..t },
        SystemId::NotPrinting => TickTrace {
            not_printed: t.not_printed + spec_not_print_output(t.m),
            ..t
        },
        SystemId::PlayerMove => TickTrace { m: spec_player_move(t.m, t.g.key_press), ..t },
        SystemId::Render => TickTrace {
            drawn: t.drawn + spec_render_output(t.m),
            g: spec_process_input(input, t.g),
            ..t
        },
    }
}

/// The effect of running the systems `ids` in order on the tick state.
pub open spec fn spec_run(t: TickTrace, ids: Seq<SystemId>, input: Option<Key>) -> TickTrace
    decreases ids.len(),
{
    if ids.len() == 0 {
        t
    } else {
        spec_run(spec_step(t, ids[0], input), ids.drop_first(), input)
    }
}

/// Running one more system after a sequence is one more step on the
/// sequence's result.
pub proof fn lemma_spec_run_snoc(t: TickTrace, ids: Seq<SystemId>, s: SystemId, input: Option<Key>)
    ensures
        spec_run(t, ids.push(s), input) == spec_step(spec_run(t, ids, input), s, input),
    decreases ids.len(),
{
    let post = ids.push(s);
    if ids.len() == 0 {
        assert(post[0] == s);
        assert(post.drop_first() =~= Seq::<SystemId>::empty());
        assert(spec_run(t, post, input) == spec_run(spec_step(t, s, input), post.drop_first(), input));
        assert(spec_run(spec_step(t, s, input), post.drop_first(), input) == spec_step(t, s, input));
        assert(spec_run(t, ids, input) == t);
    } else {
        assert(post[0] == ids[0]);
        assert(post.drop_first() =~= ids.drop_first().push(s));
        assert(spec_run(t, post, input) == spec_run(
            spec_step(t, ids[0], input),
            ids.drop_first().push(s),
            input,
        ));
        lemma_spec_run_snoc(spec_step(t, ids[0], input), ids.drop_first(), s, input);
        assert(spec_run(t, ids, input) == spec_run(
            spec_step(t, ids[0], input),
            ids.drop_first(),
            input,
        ));
    }
}

/// Non-conflicting systems commute: running them in either order from the
/// same tick state produces the same tick state. Independent writes are
/// thus order-free, and a scheduler may run such systems concurrently
/// without changing the end-of-tick state of any storage or resource.
pub proof fn lemma_independent_systems_commute(
    t: TickTrace,
    a: SystemId,
    b: SystemId,
    input: Option<Key>,
)
    requires
        !spec_conflicts(a, b),
    ensures
        spec_step(spec_step(t, a, input), b, input) == spec_step(spec_step(t, b, input), a, input),
{
    lemma_conflicts_cases(a, b);
    match (a, b) {
        (SystemId::PlayerMove, _) => {
            assert(false);
        },
        (_, SystemId::PlayerMove) => {
            assert(false);
        },
        (SystemId::Render, SystemId::Render) => {
            assert(false);
        },
        _ => {},
    }
}

/// What a run of systems does to the shared game state: the render system
/// folds the tick's input in; every other system leaves it alone.
pub proof fn lemma_spec_run_gamestate(t: TickTrace, ids: Seq<SystemId>, input: Option<Key>)
    ensures
        spec_run(t, ids, input).g == (if ids.contains(SystemId::Render) {
            spec_process_input(input, t.g)
        } else {
            t.g
        }),
    decreases ids.len(),
{
    if ids.len() > 0 {
        let t1 = spec_step(t, ids[0], input);
        lemma_spec_run_gamestate(t1, ids.drop_first(), input);
        assert forall|s: SystemId| ids.drop_first().contains(s) implies ids.contains(s) by {
            let k = choose|k: int| 0 <= k < ids.drop_first().len() && ids.drop_first()[k] == s;
            assert(ids[k + 1] == s);
        }
        if ids.contains(SystemId::Render) && ids[0] != SystemId::Render
            && !ids.drop_first().contains(SystemId::Render) {
            let k = choose|k: int| 0 <= k < ids.len() && ids[k] == SystemId::Render;
            assert(ids.drop_first()[k - 1] == SystemId::Render);
        }
        if ids[0] == SystemId::Render {
            assert(spec_process_input(input, spec_process_input(input, t.g))
                == spec_process_input(input, t.g));
        }
    }
}

/// A run without the player movement system leaves the world model alone.
pub proof fn lemma_spec_run_model_no_move(t: TickTrace, ids: Seq<SystemId>, input: Option<Key>)
    requires
        !ids.contains(SystemId::PlayerMove),
    ensures
        spec_run(t, ids, input).m == t.m,
    decreases ids.len(),
{
    if ids.len() > 0 {
        assert(ids[0] != SystemId::PlayerMove);
        let t1 = spec_step(t, ids[0], input);
        assert(t1.m == t.m);
        assert forall|k: int| 0 <= k < ids.drop_first().len() implies ids.drop_first()[k]
            != SystemId::PlayerMove by {
            assert(ids[k + 1] == ids.drop_first()[k]);
        }
        assert(!ids.drop_first().contains(SystemId::PlayerMove));
        lemma_spec_run_model_no_move(t1, ids.drop_first(), input);
    }
}

/// What a duplicate-free run of systems does to the world model: only the
/// player movement system touches it, shifting each controlled positioned
/// entity by at most one cell while every position stays representable;
/// every set, order and unmoved component is untouched.
pub proof fn lemma_spec_run_model(t: TickTrace, ids: Seq<SystemId>, input: Option<Key>)
    requires
        forall|k1: int, k2: int| 0 <= k1 < k2 < ids.len() ==> ids[k1] != ids[k2],
        forall|i: int|
            (#[trigger] t.m.pos.dom().contains(i)) && t.m.controlled.contains(i) ==> i32::MIN
                < t.m.pos[i].x < i32::MAX && i32::MIN < t.m.pos[i].y < i32::MAX,
    ensures
        spec_run(t, ids, input).m.pos.dom() =~= t.m.pos.dom(),
        spec_run(t, ids, input).m.pos_order == t.m.pos_order,
        spec_run(t, ids, input).m.glyph_order == t.m.glyph_order,
        spec_run(t, ids, input).m.glyph == t.m.glyph,
        spec_run(t, ids, input).m.print == t.m.print,
        spec_run(t, ids, input).m.controlled == t.m.controlled,
        forall|i: int|
            #[trigger] t.m.pos.dom().contains(i) ==> -1 <= spec_run(t, ids, input).m.pos[i].x
                - t.m.pos[i].x <= 1 && -1 <= spec_run(t, ids, input).m.pos[i].y - t.m.pos[i].y
                <= 1,
        forall|i: int|
            (#[trigger] t.m.pos.dom().contains(i)) && !t.m.controlled.contains(i) ==> spec_run(
                t,
                ids,
                input,
            ).m.pos[i] == t.m.pos[i],
    decreases ids.len(),
{
    if ids.len() > 0 {
        let rest = ids.drop_first();
        let t1 = spec_step(t, ids[0], input);
        assert(forall|k1: int, k2: int| 0 <= k1 < k2 < rest.len() ==> rest[k1] != rest[k2]);
        if ids[0] == SystemId::PlayerMove {
            assert forall|i: int| #[trigger] t.m.pos.dom().contains(i) implies t1.m.pos.dom()
                .contains(i) && -1 <= t1.m.pos[i].x - t.m.pos[i].x <= 1 && -1 <= t1.m.pos[i].y
                - t.m.pos[i].y <= 1 && (!t.m.controlled.contains(i) ==> t1.m.pos[i]
                == t.m.pos[i]) by {
                match t.g.key_press {
                    None => {},
                    Some(k) => {
                        assert(-1 <= crate::systems::spec_key_dx(k) <= 1);
                        assert(-1 <= crate::systems::spec_key_dy(k) <= 1);
                    },
                }
            }
            assert(t1.m.pos.dom() =~= t.m.pos.dom());
            assert forall|k: int| 0 <= k < rest.len() implies rest[k]
                != SystemId::PlayerMove by {
                assert(ids[k + 1] == rest[k]);
            }
            assert(!rest.contains(SystemId::PlayerMove));
            lemma_spec_run_model_no_move(t1, rest, input);
        } else {
            assert(t1.m == t.m);
            lemma_spec_run_model(t1, rest, input);
        }
    }
}

/// One registered system: its kind, the indices of the earlier entries it
/// must wait for, and whether it runs thread-local after the barrier.
pub struct SystemEntry {
    pub id: SystemId,
    pub deps: Vec<usize>,
    pub thread_local: bool,
}

/// What one tick's dispatch hands back to the host: the lines the
/// printing systems reported and the draw list the render system
/// produced. The host performs the actual printing and drawing.
pub struct TickOutput {
    pub printed: Vec<Position>,
    pub not_printed: Vec<Position>,
    pub drawn: Vec<DrawCommand>,
}

/// The ids of the entries whose thread-local flag equals `locals`, in
/// declaration order.
pub open spec fn ids_of(entries: Seq<SystemEntry>, locals: bool) -> Seq<SystemId>
    decreases entries.len(),
{
    if entries.len() == 0 {
        Seq::empty()
    } else {
        let rest = ids_of(entries.drop_last(), locals);
        if entries.last().thread_local == locals {
            rest.push(entries.last().id)
        } else {
            rest
        }
    }
}

/// Every id listed by `ids_of` names an entry with that id and flag, and
/// under distinct entry ids the listing is duplicate-free.
pub proof fn lemma_ids_of_props(entries: Seq<SystemEntry>, locals: bool)
    requires
        forall|k1: int, k2: int|
            0 <= k1 < k2 < entries.len() ==> (#[trigger] entries[k1].id) != (
            #[trigger] entries[k2].id),
    ensures
        forall|id: SystemId|
            #[trigger] ids_of(entries, locals).contains(id) ==> exists|j: int|
                0 <= j < entries.len() && (#[trigger] entries[j].id) == id
                    && entries[j].thread_local == locals,
        forall|k1: int, k2: int|
            0 <= k1 < k2 < ids_of(entries, locals).len() ==> ids_of(entries, locals)[k1]
                != ids_of(entries, locals)[k2],
    decreases entries.len(),
{
    if entries.len() > 0 {
        let head = entries.drop_last();
        lemma_ids_of_props(head, locals);
        let rest = ids_of(head, locals);
        assert forall|id: SystemId| #[trigger] rest.contains(id) implies exists|j: int|
            0 <= j < entries.len() && (#[trigger] entries[j].id) == id && entries[j].thread_local
                == locals by {
            let j = choose|j: int|
                0 <= j < head.len() && (#[trigger] head[j].id) == id && head[j].thread_local
                    == locals;
            assert(entries[j].id == id);
        }
        if entries.last().thread_local == locals {
            let full = rest.push(entries.last().id);
            assert(ids_of(entries, locals) == full);
            assert forall|id: SystemId| #[trigger] full.contains(id) implies exists|j: int|
                0 <= j < entries.len() && (#[trigger] entries[j].id) == id
                    && entries[j].thread_local == locals by {
                let k = choose|k: int| 0 <= k < full.len() && full[k] == id;
                if k < full.len() - 1 {
                    assert(rest[k] == id);
                    assert(rest.contains(id));
                } else {
                    assert(entries[entries.len() - 1].id == id);
                }
            }
            assert(!rest.contains(entries.last().id)) by {
                if rest.contains(entries.last().id) {
                    let j = choose|j: int|
                        0 <= j < head.len() && (#[trigger] head[j].id) == entries.last().id
                            && head[j].thread_local == locals;
                    assert(entries[j].id == entries[entries.len() - 1].id);
                }
            }
            assert forall|k1: int, k2: int| 0 <= k1 < k2 < full.len() implies full[k1]
                != full[k2] by {
                if k2 == full.len() - 1 {
                    assert(rest[k1] == full[k1]);
                    assert(rest.contains(rest[k1]));
                }
            }
        }
    }
}

/// Holds the registered systems and runs them each tick: the parallel
/// pool in declaration order, then, after the barrier, the thread-local
/// systems in declaration order.
pub struct Scheduler {
    pub entries: Vec<SystemEntry>,
}

impl Scheduler {
    /// Structural invariant: no system kind is registered twice, and every
    /// declared predecessor is an earlier entry, so declaration order is a
    /// valid sequential schedule.
    pub open spec fn wf(self) -> bool {
        &&& forall|k1: int, k2: int|
            0 <= k1 < k2 < self.entries@.len() ==> (#[trigger] self.entries@[k1].id) != (
            #[trigger] self.entries@[k2].id)
        &&& forall|k: int, d: int|
            0 <= k < self.entries@.len() && 0 <= d < self.entries@[k].deps@.len() ==> (
            #[trigger] self.entries@[k].deps@[d]) < k
    }

    /// The order the systems run in: pool entries first, thread-local
    /// entries after the barrier, each group in declaration order.
    pub open spec fn exec_order(self) -> Seq<SystemId> {
        ids_of(self.entries@, false) + ids_of(self.entries@, true)
    }

    /// An empty scheduler.
    pub fn new() -> (s: Scheduler)
        ensures
            s.wf(),
            s.entries@ == Seq::<SystemEntry>::empty(),
    {
        Scheduler { entries: Vec::new() }
    }

    /// Registers a pool system with its predecessor entries; refused (with
    /// the scheduler unchanged) when the kind is already registered or a
    /// predecessor index does not name an earlier entry. Catching such a
    /// declaration error at construction keeps conflicting access out of
    /// every later tick.
    pub fn with(&mut self, id: SystemId, deps: Vec<usize>) -> (ok: bool)
        requires
            old(self).wf(),
        ensures
            final(self).wf(),
            ok == ((forall|d: int| 0 <= d < deps@.len() ==> (#[trigger] deps@[d]) < old(
                self,
            ).entries@.len()) && (forall|j: int|
                0 <= j < old(self).entries@.len() ==> (#[trigger] old(self).entries@[j].id)
                    != id)),
            !ok ==> *final(self) == *old(self),
            ok ==> final(self).entries@ == old(self).entries@.push(
                SystemEntry { id, deps, thread_local: false },
            ),
    {
        let n = self.entries.len();
        let mut d: usize = 0;
        while d < deps.len()
            invariant
                *self == *old(self),
                old(self).wf(),
                n == old(self).entries@.len(),
                d <= deps@.len(),
                forall|j: int| 0 <= j < d ==> (#[trigger] deps@[j]) < n,
            decreases deps@.len() - d,
        {
            if deps[d] >= n {
                return false;
            }
            d = d + 1;
        }
        let mut k: usize = 0;
        while k < n
            invariant
                *self == *old(self),
                old(self).wf(),
                n == self.entries@.len(),
                k <= n,
                forall|j: int| 0 <= j < k ==> (#[trigger] self.entries@[j].id) != id,
            decreases n - k,
        {
            if self.entries[k].id == id {
                return false;
            }
            k = k + 1;
        }
        self.entries.push(SystemEntry { id, deps, thread_local: false });
        true
    }

    /// Registers a thread-local system, run after the barrier; refused
    /// when the kind is already registered.
    pub fn with_thread_local(&mut self, id: SystemId) -> (ok: bool)
        requires
            old(self).wf(),
        ensures
            final(self).wf(),
            ok == forall|j: int|
                0 <= j < old(self).entries@.len() ==> (#[trigger] old(self).entries@[j].id) != id,
            !ok ==> *final(self) == *old(self),
            ok ==> final(self).entries@.len() == old(self).entries@.len() + 1,
            ok ==> final(self).entries@.last().id == id,
            ok ==> final(self).entries@.last().thread_local,
            ok ==> final(self).entries@.last().deps@ == Seq::<usize>::empty(),
            ok ==> forall|j: int|
                0 <= j < old(self).entries@.len() ==> final(self).entries@[j] == old(self).entries@[j],
    {
        let n = self.entries.len();
        let mut k: usize = 0;
        while k < n
            invariant
                *self == *old(self),
                old(self).wf(),
                n == self.entries@.len(),
                k <= n,
                forall|j: int| 0 <= j < k ==> (#[trigger] self.entries@[j].id) != id,
            decreases n - k,
        {
            if self.entries[k].id == id {
                return false;
            }
            k = k + 1;
        }
        let deps: Vec<usize> = Vec::new();
        proof {
            assert(deps@.len() == 0);
        }
        self.entries.push(SystemEntry { id, deps, thread_local: true });
        true
    }

    /// One-time setup before the first tick: materializes the default of
    /// every resource the registered systems touch.
    pub fn setup(&self, resources: &mut ResourceTable)
        ensures
            final(resources).spec_game_state() == old(resources).spec_game_state(),
            final(resources).game_state is Some,
    {
        resources.setup();
    }

    /// Runs one tick: every pool system in declaration order, then, after
    /// the barrier, every thread-local system in declaration order. The
    /// resulting world, game state and outputs are exactly the fold of the
    /// per-system steps over that order, starting from the incoming state.
    ///
    /// `input` is the tick's key event. Every controlled entity's position
    /// must sit strictly inside the representable range, so one key's
    /// displacement cannot leave it.
    pub fn dispatch(&self, world: &mut World, resources: &mut ResourceTable, input: Option<Key>) -> (out:
        TickOutput)
        requires
            self.wf(),
            old(world).wf(),
            forall|i: int|
                (#[trigger] old(world).tick_model().pos.dom().contains(i)) && old(
                    world,
                ).tick_model().controlled.contains(i) ==> i32::MIN < old(
                    world,
                ).tick_model().pos[i].x < i32::MAX && i32::MIN < old(world).tick_model().pos[i].y
                    < i32::MAX,
        ensures
            final(world).wf(),
            final(world).registry == old(world).registry,
            ({
                let t = spec_run(
                    TickTrace {
                        m: old(world).tick_model(),
                        g: old(resources).spec_game_state(),
                        printed: Seq::empty(),
                        not_printed: Seq::empty(),
                        drawn: Seq::empty(),
                    },
                    self.exec_order(),
                    input,
                );
                &&& final(world).tick_model() == t.m
                &&& final(resources).spec_game_state() == t.g
                &&& out.printed@ == t.printed
                &&& out.not_printed@ == t.not_printed
                &&& out.drawn@ == t.drawn
            }),
    {
        let ghost t0 = TickTrace {
            m: old(world).tick_model(),
            g: old(resources).spec_game_state(),
            printed: Seq::empty(),
            not_printed: Seq::empty(),
            drawn: Seq::empty(),
        };
        let mut out = TickOutput { printed: Vec::new(), not_printed: Vec::new(), drawn: Vec::new() };
        let n = self.entries.len();
        let mut k: usize = 0;
        while k < n
            invariant
                self.wf(),
                world.wf(),
                world.registry == old(world).registry,
                t0.m == old(world).tick_model(),
                t0.g == old(resources).spec_game_state(),
                t0.printed == Seq::<Position>::empty(),
                t0.not_printed == Seq::<Position>::empty(),
                t0.drawn == Seq::<DrawCommand>::empty(),
                forall|i: int|
                    (#[trigger] t0.m.pos.dom().contains(i)) && t0.m.controlled.contains(i)
                        ==> i32::MIN < t0.m.pos[i].x < i32::MAX && i32::MIN < t0.m.pos[i].y
                        < i32::MAX,
                n == self.entries@.len(),
                k <= n,
                ({
                    let cur = spec_run(t0, ids_of(self.entries@.take(k as int), false), input);
                    &&& world.tick_model() == cur.m
                    &&& resources.spec_game_state() == cur.g
                    &&& out.printed@ == cur.printed
                    &&& out.not_printed@ == cur.not_printed
                    &&& out.drawn@ == cur.drawn
                }),
            decreases n - k,
        {
            let ghost prefix = self.entries@.take(k as int);
            let ghost cur = spec_run(t0, ids_of(prefix, false), input);
            let entry_local = self.entries[k].thread_local;
            let id = self.entries[k].id;
            proof {
                assert(self.entries@.take(k + 1).drop_last() =~= prefix);
                assert(self.entries@.take(k + 1).last() == self.entries@[k as int]);
            }
            if !entry_local {
                proof {
                    assert(ids_of(self.entries@.take(k + 1), false) == ids_of(prefix, false).push(
                        id,
                    ));
                    lemma_spec_run_snoc(t0, ids_of(prefix, false), id, input);
                    if id == SystemId::PlayerMove {
                        lemma_prefix_excludes_current(self.entries@, k as int, false);
                        lemma_spec_run_model_no_move(t0, ids_of(prefix, false), input);
                    }
                }
                run_one(world, resources, &mut out, id, input, Ghost(cur));
            } else {
                proof {
                    assert(ids_of(self.entries@.take(k + 1), false) == ids_of(prefix, false));
                }
            }
            k = k + 1;
        }
        proof {
            assert(self.entries@.take(n as int) =~= self.entries@);
        }
        let ghost pool = ids_of(self.entries@, false);
        let mut k: usize = 0;
        while k < n
            invariant
                self.wf(),
                world.wf(),
                world.registry == old(world).registry,
                t0.m == old(world).tick_model(),
                t0.g == old(resources).spec_game_state(),
                t0.printed == Seq::<Position>::empty(),
                t0.not_printed == Seq::<Position>::empty(),
                t0.drawn == Seq::<DrawCommand>::empty(),
                forall|i: int|
                    (#[trigger] t0.m.pos.dom().contains(i)) && t0.m.controlled.contains(i)
                        ==> i32::MIN < t0.m.pos[i].x < i32::MAX && i32::MIN < t0.m.pos[i].y
                        < i32::MAX,
                n == self.entries@.len(),
                k <= n,
                pool == ids_of(self.entries@, false),
                ({
                    let cur = spec_run(
                        t0,
                        pool + ids_of(self.entries@.take(k as int), true),
                        input,
                    );
                    &&& world.tick_model() == cur.m
                    &&& resources.spec_game_state() == cur.g
                    &&& out.printed@ == cur.printed
                    &&& out.not_printed@ == cur.not_printed
                    &&& out.drawn@ == cur.drawn
                }),
            decreases n - k,
        {
            let ghost prefix = self.entries@.take(k as int);
            let ghost run_ids = pool + ids_of(prefix, true);
            let ghost cur = spec_run(t0, run_ids, input);
            let entry_local = self.entries[k].thread_local;
            let id = self.entries[k].id;
            proof {
                assert(self.entries@.take(k + 1).drop_last() =~= prefix);
                assert(self.entries@.take(k + 1).last() == self.entries@[k as int]);
            }
            if entry_local {
                proof {
                    assert(ids_of(self.entries@.take(k + 1), true) == ids_of(prefix, true).push(
                        id,
                    ));
                    assert(pool + ids_of(prefix, true).push(id) =~= run_ids.push(id));
                    lemma_spec_run_snoc(t0, run_ids, id, input);
                    if id == SystemId::PlayerMove {
                        lemma_run_ids_exclude_current(self.entries@, k as int);
                        lemma_spec_run_model_no_move(t0, run_ids, input);
                    }
                }
                run_one(world, resources, &mut out, id, input, Ghost(cur));
            } else {
                proof {
                    assert(ids_of(self.entries@.take(k + 1), true) == ids_of(prefix, true));
                }
            }
            k = k + 1;
        }
        proof {
            assert(self.entries@.take(n as int) =~= self.entries@);
        }
        out
    }
}

/// The ids of a strict prefix of the entries, restricted to one
/// thread-local flag, never include the id of the entry the prefix stops
/// at, because entry ids are distinct.
proof fn lemma_prefix_excludes_current(entries: Seq<SystemEntry>, k: int, locals: bool)
    requires
        forall|k1: int, k2: int|
            0 <= k1 < k2 < entries.len() ==> (#[trigger] entries[k1].id) != (
            #[trigger] entries[k2].id),
        0 <= k < entries.len(),
    ensures
        !ids_of(entries.take(k), locals).contains(entries[k].id),
{
    let pre = entries.take(k);
    assert forall|k1: int, k2: int| 0 <= k1 < k2 < pre.len() implies (#[trigger] pre[k1].id) != (
    #[trigger] pre[k2].id) by {
        assert(entries[k1].id == pre[k1].id);
        assert(entries[k2].id == pre[k2].id);
    }
    lemma_ids_of_props(pre, locals);
    if ids_of(pre, locals).contains(entries[k].id) {
        let j = choose|j: int|
            0 <= j < pre.len() && (#[trigger] pre[j].id) == entries[k].id && pre[j].thread_local
                == locals;
        assert(entries[j].id == entries[k].id);
    }
}

/// At a thread-local entry, neither the pool ids nor the earlier
/// thread-local ids include that entry's id.
proof fn lemma_run_ids_exclude_current(entries: Seq<SystemEntry>, k: int)
    requires
        forall|k1: int, k2: int|
            0 <= k1 < k2 < entries.len() ==> (#[trigger] entries[k1].id) != (
            #[trigger] entries[k2].id),
        0 <= k < entries.len(),
        entries[k].thread_local,
    ensures
        !(ids_of(entries, false) + ids_of(entries.take(k), true)).contains(entries[k].id),
{
    lemma_ids_of_props(entries, false);
    lemma_prefix_excludes_current(entries, k, true);
    let cat = ids_of(entries, false) + ids_of(entries.take(k), true);
    if cat.contains(entries[k].id) {
        let j = choose|j: int| 0 <= j < cat.len() && cat[j] == entries[k].id;
        if j < ids_of(entries, false).len() {
            assert(ids_of(entries, false)[j] == entries[k].id);
            assert(ids_of(entries, false).contains(entries[k].id));
            let j2 = choose|j2: int|
                0 <= j2 < entries.len() && (#[trigger] entries[j2].id) == entries[k].id
                    && entries[j2].thread_local == false;
            assert(j2 != k);
        } else {
            assert(ids_of(entries.take(k), true)[j - ids_of(entries, false).len()] == entries[k].id);
            assert(ids_of(entries.take(k), true).contains(entries[k].id));
        }
    }
}

/// Under distinct entry ids the whole execution order is duplicate-free.
proof fn lemma_exec_order_nodup(entries: Seq<SystemEntry>)
    requires
        forall|k1: int, k2: int|
            0 <= k1 < k2 < entries.len() ==> (#[trigger] entries[k1].id) != (
            #[trigger] entries[k2].id),
    ensures
        forall|k1: int, k2: int|
            0 <= k1 < k2 < (ids_of(entries, false) + ids_of(entries, true)).len() ==> (ids_of(
                entries,
                false,
            ) + ids_of(entries, true))[k1] != (ids_of(entries, false) + ids_of(entries, true))[k2],
{
    lemma_ids_of_props(entries, false);
    lemma_ids_of_props(entries, true);
    let a = ids_of(entries, false);
    let b = ids_of(entries, true);
    let cat = a + b;
    assert forall|k1: int, k2: int| 0 <= k1 < k2 < cat.len() implies cat[k1] != cat[k2] by {
        if k2 < a.len() {
        } else if k1 >= a.len() {
        } else {
            if cat[k1] == cat[k2] {
                let id = cat[k1];
                assert(a[k1] == id);
                assert(a.contains(id));
                assert(b[k2 - a.len()] == id);
                assert(b.contains(id));
                let j1 = choose|j: int|
                    0 <= j < entries.len() && (#[trigger] entries[j].id) == id
                        && entries[j].thread_local == false;
                let j2 = choose|j: int|
                    0 <= j < entries.len() && (#[trigger] entries[j].id) == id
                        && entries[j].thread_local == true;
                if j1 < j2 {
                    assert(entries[j1].id != entries[j2].id);
                } else {
                    assert(entries[j2].id != entries[j1].id);
                }
            }
        }
    }
}

/// The tick state one tick's dispatch starts from: the given world model
/// and game state, with no output yet.
pub open spec fn spec_tick_start(m: WorldModel, g: GameState) -> TickTrace {
    TickTrace { m, g, printed: Seq::empty(), not_printed: Seq::empty(), drawn: Seq::empty() }
}

/// The tick state after the first `j` ticks of a scripted run: each tick
/// folds the execution order over the world model and game state the
/// previous tick left, with fresh outputs, consuming the tick's scripted
/// key event.
pub open spec fn spec_ticks(
    order: Seq<SystemId>,
    m: WorldModel,
    g: GameState,
    inputs: Seq<Option<Key>>,
    j: int,
) -> TickTrace
    decreases j,
{
    if j <= 0 {
        spec_tick_start(m, g)
    } else {
        let prev = spec_ticks(order, m, g, inputs, j - 1);
        spec_run(spec_tick_start(prev.m, prev.g), order, inputs[j - 1])
    }
}

/// The host loop, driven by a script of key events: dispatches one tick
/// per event, in order, stopping as soon as the terminal-condition
/// resource reads true after a tick — no further tick runs — or the
/// script is exhausted. The final world and game state are the scripted
/// fold over the ticks that ran, and each returned frame holds exactly
/// its tick's outputs.
///
/// Only a registered render system folds keys into the game state, so
/// with one registered the loop runs exactly up to and including the
/// first escape; without one it never stops early. Positions of
/// controlled entities need slack for one cell of drift per scripted
/// tick.
pub fn run_ticks(
    sched: &Scheduler,
    world: &mut World,
    resources: &mut ResourceTable,
    inputs: &Vec<Option<Key>>,
) -> (frames: Vec<TickOutput>)
    requires
        sched.wf(),
        old(world).wf(),
        forall|i: int|
            (#[trigger] old(world).tick_model().pos.dom().contains(i)) && old(
                world,
            ).tick_model().controlled.contains(i) ==> i32::MIN + inputs@.len() < old(
                world,
            ).tick_model().pos[i].x < i32::MAX - inputs@.len() && i32::MIN + inputs@.len() < old(
                world,
            ).tick_model().pos[i].y < i32::MAX - inputs@.len(),
    ensures
        final(world).wf(),
        frames@.len() <= inputs@.len(),
        final(world).tick_model() == spec_ticks(
            sched.exec_order(),
            old(world).tick_model(),
            old(resources).spec_game_state(),
            inputs@,
            frames@.len() as int,
        ).m,
        final(resources).spec_game_state() == spec_ticks(
            sched.exec_order(),
            old(world).tick_model(),
            old(resources).spec_game_state(),
            inputs@,
            frames@.len() as int,
        ).g,
        forall|j: int|
            0 <= j < frames@.len() ==> ((#[trigger] frames@[j]).printed@ == spec_ticks(
                sched.exec_order(),
                old(world).tick_model(),
                old(resources).spec_game_state(),
                inputs@,
                j + 1,
            ).printed && frames@[j].not_printed@ == spec_ticks(
                sched.exec_order(),
                old(world).tick_model(),
                old(resources).spec_game_state(),
                inputs@,
                j + 1,
            ).not_printed && frames@[j].drawn@ == spec_ticks(
                sched.exec_order(),
                old(world).tick_model(),
                old(resources).spec_game_state(),
                inputs@,
                j + 1,
            ).drawn),
        old(resources).spec_game_state().end ==> frames@.len() == 0 && *final(world) == *old(world)
            && *final(resources) == *old(resources),
        !old(resources).spec_game_state().end ==> {
            &&& forall|j: int|
                0 <= j < frames@.len() - 1 ==> !(sched.exec_order().contains(SystemId::Render)
                    && inputs@[j] == Some(Key::Escape))
            &&& (final(resources).spec_game_state().end <==> (frames@.len() > 0
                && sched.exec_order().contains(SystemId::Render) && inputs@[frames@.len() - 1]
                == Some(Key::Escape)))
            &&& (frames@.len() < inputs@.len() ==> final(resources).spec_game_state().end)
        },
{
    let mut frames: Vec<TickOutput> = Vec::new();
    let n = inputs.len();
    let ghost m0 = old(world).tick_model();
    let ghost g0 = old(resources).spec_game_state();
    let start_state = resources.read_game_state();
    if start_state.end {
        return frames;
    }
    let mut t: usize = 0;
    let mut done = false;
    while t < n && !done
        invariant
            sched.wf(),
            world.wf(),
            m0 == old(world).tick_model(),
            g0 == old(resources).spec_game_state(),
            !old(resources).spec_game_state().end,
            n == inputs@.len(),
            t <= n,
            frames@.len() == t,
            done == resources.spec_game_state().end,
            world.tick_model() == spec_ticks(sched.exec_order(), m0, g0, inputs@, t as int).m,
            resources.spec_game_state() == spec_ticks(
                sched.exec_order(),
                m0,
                g0,
                inputs@,
                t as int,
            ).g,
            forall|j: int|
                0 <= j < t ==> ((#[trigger] frames@[j]).printed@ == spec_ticks(
                    sched.exec_order(),
                    m0,
                    g0,
                    inputs@,
                    j + 1,
                ).printed && frames@[j].not_printed@ == spec_ticks(
                    sched.exec_order(),
                    m0,
                    g0,
                    inputs@,
                    j + 1,
                ).not_printed && frames@[j].drawn@ == spec_ticks(
                    sched.exec_order(),
                    m0,
                    g0,
                    inputs@,
                    j + 1,
                ).drawn),
            forall|i: int|
                (#[trigger] world.tick_model().pos.dom().contains(i))
                    && world.tick_model().controlled.contains(i) ==> i32::MIN + (n - t)
                    < world.tick_model().pos[i].x < i32::MAX - (n - t) && i32::MIN + (n - t)
                    < world.tick_model().pos[i].y < i32::MAX - (n - t),
            !done ==> forall|j: int|
                0 <= j < t ==> !(sched.exec_order().contains(SystemId::Render) && inputs@[j]
                    == Some(Key::Escape)),
            done ==> forall|j: int|
                0 <= j < t - 1 ==> !(sched.exec_order().contains(SystemId::Render) && inputs@[j]
                    == Some(Key::Escape)),
            done ==> t > 0 && sched.exec_order().contains(SystemId::Render) && inputs@[t - 1]
                == Some(Key::Escape),
        decreases n - t,
    {
        let input = inputs[t];
        let ghost pre_m = world.tick_model();
        let ghost pre_g = resources.spec_game_state();
        let ghost te = TickTrace {
            m: pre_m,
            g: pre_g,
            printed: Seq::empty(),
            not_printed: Seq::empty(),
            drawn: Seq::empty(),
        };
        let out = sched.dispatch(world, resources, input);
        frames.push(out);
        proof {
            lemma_exec_order_nodup(sched.entries@);
            lemma_spec_run_model(te, sched.exec_order(), input);
            lemma_spec_run_gamestate(te, sched.exec_order(), input);
            assert(te == spec_tick_start(pre_m, pre_g));
            assert(spec_ticks(sched.exec_order(), m0, g0, inputs@, t + 1) == spec_run(
                spec_tick_start(
                    spec_ticks(sched.exec_order(), m0, g0, inputs@, t as int).m,
                    spec_ticks(sched.exec_order(), m0, g0, inputs@, t as int).g,
                ),
                sched.exec_order(),
                inputs@[t as int],
            ));
        }
        let g = resources.read_game_state();
        if g.end {
            done = true;
        }
        t = t + 1;
    }
    frames
}

/// Runs one system against the world, resources and output collector,
/// whose joint state must match the ghost trace; afterwards it matches
/// one step further. The player movement system additionally needs every
/// controlled position strictly inside the representable range.
fn run_one(
    world: &mut World,
    resources: &mut ResourceTable,
    out: &mut TickOutput,
    id: SystemId,
    input: Option<Key>,
    cur: Ghost<TickTrace>,
)
    requires
        old(world).wf(),
        old(world).tick_model() == cur@.m,
        old(resources).spec_game_state() == cur@.g,
        old(out).printed@ == cur@.printed,
        old(out).not_printed@ == cur@.not_printed,
        old(out).drawn@ == cur@.drawn,
        id == SystemId::PlayerMove ==> forall|i: int|
            (#[trigger] cur@.m.pos.dom().contains(i)) && cur@.m.controlled.contains(i)
                ==> i32::MIN < cur@.m.pos[i].x < i32::MAX && i32::MIN < cur@.m.pos[i].y
                < i32::MAX,
    ensures
        final(world).wf(),
        final(world).registry == old(world).registry,
        final(world).tick_model() == spec_step(cur@, id, input).m,
        final(resources).spec_game_state() == spec_step(cur@, id, input).g,
        final(out).printed@ == spec_step(cur@, id, input).printed,
        final(out).not_printed@ == spec_step(cur@, id, input).not_printed,
        final(out).drawn@ == spec_step(cur@, id, input).drawn,
{
    match id {
        SystemId::Printing => {
            let mut lines = PrintingSystem::run(world);
            out.printed.append(&mut lines);
        },
        SystemId::NotPrinting => {
            let mut lines = NotPrintingSystem::run(world);
            out.not_printed.append(&mut lines);
        },
        SystemId::PlayerMove => {
            let g = resources.read_game_state();
            proof {
                match g.key_press {
                    None => {},
                    Some(kk) => {
                        assert(-1 <= crate::systems::spec_key_dx(kk) <= 1);
                        assert(-1 <= crate::systems::spec_key_dy(kk) <= 1);
                    },
                }
            }
            PlayerMove::run(world, &g);
        },
        SystemId::Render => {
            let mut cmds = Render::run(world);
            out.drawn.append(&mut cmds);
            let g = resources.read_game_state();
            let g2 = process_input(input, g);
            resources.write_game_state(g2);
        },
    }
}

} // verus!
