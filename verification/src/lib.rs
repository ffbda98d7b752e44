//! Procedural layout of a tile-based dungeon level.
//!
//! A [`floor::Floor`] is filled in three phases: rectangular rooms are placed
//! without overlap, a connected graph is laid over them, and every connection
//! is routed as a corridor of axis-aligned segments that stays out of the
//! rooms. Every function carries a contract that Verus proves; the few calls
//! into the random number generators stand in `random`, behind contracts that
//! are assumed.

pub mod geometry;
pub mod random;
pub mod room;
pub mod graph;
pub mod hallway;
pub mod router;
pub mod corridors;
pub mod floor;
pub mod dungeon;
pub mod visualizer;
