//! Real-time state-synchronization core for a small multiplayer simulation:
//! an authoritative world model mutated by discrete action messages, a wire
//! codec for those messages, a snapshot reconciler with linear interpolation
//! for smooth rendering, and an events-per-second counter.
//!
//! All quantities are fixed-point integers: positions in milli-units (one
//! thousandth of a world unit, so the playfield `[0, 500]` is `[0, 500_000]`),
//! angles in milliradians.

use vstd::prelude::*;

pub mod trig;
pub mod world;
pub mod codec;
pub mod rate;
pub mod interp;
pub mod agent;
pub mod authority;

verus! {

/// One world unit is a thousand milli-units; scale factor shared by
/// positions, distances and the trigonometric tables.
pub const SCALE: i64 = 1000;

/// Upper bound of both position axes, in milli-units (500 world units).
pub const POS_MAX: i64 = 500_000;

} // verus!
