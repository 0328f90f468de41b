//! Core logic of a trailing-chain arcade mechanic.
//!
//! A player drags a chain of segments behind them across a wrap-around
//! (toroidal) map.  Segments follow the player's recorded movement trail,
//! collide with the player to trigger a cascading destruction wave, and
//! merge in groups of equal kind into upgraded segments.
//!
//! All geometry is carried out over integer coordinates (one unit is one
//! world-space unit, or a caller-chosen subdivision of it) and all timers
//! over integer milliseconds, so that every rule of the mechanic is exact
//! and provable.  Rendering, input and audio live outside this crate and
//! talk to it through plain values and the event types defined here.

use vstd::prelude::*;

pub mod chain;
pub mod flight;
pub mod geometry;
pub mod merge;
pub mod reaction;
pub mod segment;
pub mod timer;
pub mod trail;

verus! {

/// Selecting an input device is handled entirely by the surrounding
/// application; no chain, trail or reaction state depends on the chosen
/// device, so the simulation core has nothing to update when it changes.
pub fn handle_input_device_selection() {
}

} // verus!
