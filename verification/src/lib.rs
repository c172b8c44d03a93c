//! A small entity-component-system core for a character-grid roguelike.
//!
//! Entities are opaque identifiers handed out by a registry; components are
//! plain values held in per-type storages (dense vectors for value-bearing
//! components, a flag set for zero-sized markers); a query engine joins
//! storages by presence and absence; a scheduler runs the registered systems
//! each tick against the shared world and resource table, and a host loop
//! dispatches ticks until the terminal-condition resource reads true.

pub mod components;
pub mod entity;
pub mod query;
pub mod resources;
pub mod scheduler;
pub mod storage;
pub mod systems;
pub mod world;
