//! A real-time multi-agent game of tag on a bounded toroidal plane.
//!
//! Every agent moves each tick; exactly one agent is "it" and chases the
//! others, transferring the tag on contact, subject to a cooldown window.
//! A stamina ("endurance") resource dampens movement and regenerates
//! stochastically.
//!
//! All geometry is carried in fixed-point milli-units: one world unit is
//! `UNIT` (1000) milli-units, so a coordinate of `1_024_000` milli-units
//! stands for `1024.0` world units.  This keeps every quantity an integer,
//! which lets the whole simulation core be verified.

use vstd::prelude::*;

pub mod behaviours;
pub mod entities_components;
pub mod geometry;
pub mod random;
pub mod spatial_index;
pub mod systems;
pub mod world;

verus! {

/// Milli-units per world unit: the fixed-point scale of all geometry.
pub const UNIT: i64 = 1000;

/// Width of the world, in world units.
pub const WIDTH: i64 = 1024;

/// Height of the world, in world units.
pub const HEIGHT: i64 = 1024;

/// Width of the world, in milli-units.
pub const WIDTH_MILLI: i64 = 1_024_000;

/// Height of the world, in milli-units.
pub const HEIGHT_MILLI: i64 = 1_024_000;

/// Radius of a player, in milli-units.
pub const PLAYER_SIZE_MILLI: i64 = 10_000;

/// Largest squared speed a velocity may carry, in squared milli-units.
/// Generous: it admits speeds up to 4000 world units per tick, while
/// freshly initialized agents move at most about 4.3 units per tick.
pub const SPEED2_LIMIT: i64 = 16_000_000_000_000;

/// Squared arrival distance for steering behaviours: within half a world
/// unit (500 milli-units) of its target an agent is considered arrived and
/// leaves its velocity unchanged.
pub const ARRIVAL_EPS2: i64 = 250_000;

/// Chance, in parts per thousand, that a random-drift behaviour re-aims the
/// velocity on a given tick (0.5%, the one fixed drift probability used for
/// both tag states).
pub const DRIFT_PER_MILLE: u64 = 5;

/// Squared tag-transfer distance: the tag passes when the holder comes
/// within two player radii (20 000 milli-units) of the candidate.
pub const TAG_DIST2: i64 = 400_000_000;

/// How long, in milliseconds, a freshly tagged agent stays out of play as a
/// transfer target.
pub const COOLDOWN_MS: u128 = 5000;

/// Chance, in parts per thousand, that stamina regenerates on a tick while
/// the agent is "it" (5%).
pub const REGEN_IT_PER_MILLE: u64 = 50;

/// Chance, in parts per thousand, that stamina regenerates on a tick while
/// the agent is not "it" (1%).
pub const REGEN_NOT_IT_PER_MILLE: u64 = 10;

/// Stamina regeneration adds a uniformly random amount below this bound.
pub const REGEN_GAIN_BOUND: u64 = 50;

} // verus!
