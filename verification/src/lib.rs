//! Core of a grid-based dungeon level: procedural map generation
//! (rooms-and-corridors or scattered walls), a row-major tile grid with
//! strict indexing invariants, and dirty-flag driven field-of-view
//! bookkeeping with persistent "revealed" and transient "visible" state.

pub mod components;
pub mod connectivity;
pub mod map;
pub mod rect;
pub mod rng;
pub mod visibility_system;
