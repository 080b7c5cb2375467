//! The per-agent components of the simulation and their well-formedness.
//!
//! An `Agent` bundles everything the simulation keeps per player: position,
//! velocity, tag state, the cooldown stamp, stamina, and the behaviour
//! pairing.  `agent_ok` is the invariant every pass of the tick preserves.

use vstd::prelude::*;

use crate::behaviours::it::ItBehaviour;
use crate::behaviours::not_it::NotItBehaviour;
use crate::geometry::{vel_ok, Position, Velocity};
use crate::{HEIGHT_MILLI, WIDTH_MILLI};

verus! {

/// A player can either "be it" or "not be it".
#[derive(Clone, Copy, PartialEq, Eq, Structural, Debug)]
pub enum TagState {
    NotIt,
    It,
}

impl Default for TagState {
    fn default() -> (s: Self)
        ensures
            s == TagState::NotIt,
    {
        TagState::NotIt
    }
}

/// Whether the player is "it" or "not it".
#[derive(Clone, Copy, PartialEq, Eq, Structural, Debug)]
pub struct Tagged(pub TagState);

impl Default for Tagged {
    fn default() -> (t: Self)
        ensures
            t.0 == TagState::NotIt,
    {
        Tagged(TagState::NotIt)
    }
}

/// How the player behaves, depending on its current tag state.
#[derive(Clone, Copy, Debug)]
pub struct PlayerBehaviour {
    pub it_behaviour: ItBehaviour,
    pub not_it_behaviour: NotItBehaviour,
}

impl Default for PlayerBehaviour {
    fn default() -> (b: Self)
        ensures
            b.it_behaviour is ChaseNearest,
            b.not_it_behaviour is OpposeIt,
    {
        PlayerBehaviour {
            it_behaviour: ItBehaviour::default(),
            not_it_behaviour: NotItBehaviour::default(),
        }
    }
}

/// Epoch timestamp in milliseconds, supplied externally once per tick.
#[derive(Clone, Copy, PartialEq, Eq, Debug)]
pub struct Time(pub u128);

impl Default for Time {
    fn default() -> (t: Self)
        ensures
            t.0 == 0,
    {
        Time(0)
    }
}

/// Total number of tag transfers that have happened.
#[derive(Clone, Copy, PartialEq, Eq, Structural, Debug)]
pub struct TagCount(pub u64);

impl Default for TagCount {
    fn default() -> (c: Self)
        ensures
            c.0 == 0,
    {
        TagCount(0)
    }
}

/// When this player's tag state last changed, if within the cooldown window.
#[derive(Clone, Copy, PartialEq, Eq, Debug)]
pub struct RecentlyTagged(pub Option<u128>);

impl Default for RecentlyTagged {
    fn default() -> (r: Self)
        ensures
            r.0 is None,
    {
        RecentlyTagged(None)
    }
}

/// Stamina that dampens movement and regenerates stochastically.
#[derive(Clone, Copy, PartialEq, Eq, Structural, Debug)]
pub struct Endurance {
    pub current: u16,
    pub max: u16,
}

/// Stamina every agent starts with.
pub const ENDURANCE_DEFAULT_MAX: u16 = 100;

impl Default for Endurance {
    fn default() -> (e: Self)
        ensures
            e.current == ENDURANCE_DEFAULT_MAX,
            e.max == ENDURANCE_DEFAULT_MAX,
    {
        Endurance { current: ENDURANCE_DEFAULT_MAX, max: ENDURANCE_DEFAULT_MAX }
    }
}

/// Stamina stays between 1 and its maximum, inclusive.
pub open spec fn endurance_ok(e: Endurance) -> bool {
    1 <= e.current <= e.max
}

/// One player: all per-agent simulation state.
#[derive(Clone, Copy, Debug)]
pub struct Agent {
    pub position: Position,
    pub velocity: Velocity,
    pub tagged: Tagged,
    pub recently_tagged: RecentlyTagged,
    pub endurance: Endurance,
    pub behaviour: PlayerBehaviour,
}

/// The position lies on the world plane.
pub open spec fn pos_in_world(p: Position) -> bool {
    &&& 0 <= p.x < WIDTH_MILLI
    &&& 0 <= p.y < HEIGHT_MILLI
}

/// A cooldown stamp, when present, does not lie in the future.
pub open spec fn stamp_ok(r: RecentlyTagged, now: u128) -> bool {
    match r.0 {
        Some(t) => t <= now,
        None => true,
    }
}

/// The per-agent invariant: position on the plane, speed within the limit,
/// stamina in bounds, and no cooldown stamp from the future.
pub open spec fn agent_ok(a: Agent, now: u128) -> bool {
    &&& pos_in_world(a.position)
    &&& vel_ok(a.velocity)
    &&& endurance_ok(a.endurance)
    &&& stamp_ok(a.recently_tagged, now)
}

} // verus!
