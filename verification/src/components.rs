//! Component types attached to entities.
//!
//! Each component is a plain value stored in a per-type storage. `Position`
//! and `CharacterGlyph` carry data and live in dense storages; `PrintMeTag`
//! and `PlayerController` are markers whose presence is the information.

use vstd::prelude::*;

verus! {

/// A grid position on the character console.
#[derive(Clone, Copy, Debug, PartialEq, Eq, Structural)]
pub struct Position {
    pub x: i32,
    pub y: i32,
}

/// Marker component: entities carrying it are picked up by the printing system.
#[derive(Clone, Copy, Debug, PartialEq, Eq, Structural)]
pub struct PrintMeTag;

/// The glyph drawn for an entity at its position.
#[derive(Clone, Copy, Debug, PartialEq, Eq, Structural)]
pub struct CharacterGlyph {
    pub glyph: char,
}

/// Marker component: the entity moves in response to directional key input.
#[derive(Clone, Copy, Debug, PartialEq, Eq, Structural)]
pub struct PlayerController;

} // verus!
