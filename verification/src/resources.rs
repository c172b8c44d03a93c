//! Shared, non-entity-scoped state: the resource table.
//!
//! A resource is a single global value read and written by systems under
//! the same access discipline as component storages. The one resource this
//! core carries is the `GameState`: the terminal-condition flag the host
//! loop checks after every tick, and the last directional key received
//! from the input collaborator.

use vstd::prelude::*;

verus! {

/// A directional or control key, as handed in by the input collaborator.
#[derive(Clone, Copy, Debug, PartialEq, Eq, Structural)]
pub enum Key {
    Up,
    Down,
    Left,
    Right,
    Escape,
    Other,
}

/// Turn state shared across systems: whether the run should end, and the
/// key received most recently.
#[derive(Clone, Copy, Debug, PartialEq, Eq, Structural)]
pub struct GameState {
    pub end: bool,
    pub key_press: Option<Key>,
}

impl GameState {
    /// The state a run starts from: not ended, no key pressed.
    pub open spec fn initial() -> GameState {
        GameState { end: false, key_press: None }
    }
}

impl Default for GameState {
    fn default() -> (g: GameState)
        ensures
            g == GameState::initial(),
    {
        GameState { end: false, key_press: None }
    }
}

/// Holds the single instance of each resource type, defaulting it the
/// first time it is requested.
pub struct ResourceTable {
    pub game_state: Option<GameState>,
}

impl ResourceTable {
    /// The game state a reader sees: the stored value, or the initial
    /// state while none has been stored.
    pub open spec fn spec_game_state(self) -> GameState {
        match self.game_state {
            Some(g) => g,
            None => GameState::initial(),
        }
    }

    /// An empty table; every resource reads as its default.
    pub fn new() -> (t: ResourceTable)
        ensures
            t.spec_game_state() == GameState::initial(),
    {
        ResourceTable { game_state: None }
    }

    /// Materializes the default for each resource not yet written, leaving
    /// every readable value unchanged.
    pub fn setup(&mut self)
        ensures
            final(self).spec_game_state() == old(self).spec_game_state(),
            final(self).game_state is Some,
    {
        if self.game_state.is_none() {
            self.game_state = Some(GameState::default());
        }
    }

    /// Reads the shared game state, defaulting it if never written.
    pub fn read_game_state(&self) -> (g: GameState)
        ensures
            g == self.spec_game_state(),
    {
        match self.game_state {
            Some(g) => g,
            None => GameState::default(),
        }
    }

    /// Writes the shared game state.
    pub fn write_game_state(&mut self, g: GameState)
        ensures
            final(self).spec_game_state() == g,
            final(self).game_state == Some(g),
    {
        self.game_state = Some(g);
    }
}

} // verus!
