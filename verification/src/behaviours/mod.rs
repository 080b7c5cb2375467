//! Behaviour policies: how an agent revises its orientation each tick.
//!
//! Policies are variant-dispatched over the agent's tag state.  Each policy
//! takes a context — the agent's own position and velocity together with the
//! precomputed list of its nearest neighbours — and returns the agent's new
//! velocity; it touches nothing else.

pub mod it;
pub mod not_it;

use vstd::prelude::*;

use crate::geometry::{mag2_spec, steer_spec, vel_ok, Position, Velocity};
use crate::random::random_below;
use crate::spatial_index::SnapshotRecord;
use crate::DRIFT_PER_MILLE;

verus! {

/// The information a behaviour may consult when revising an agent's
/// orientation: the agent's own position and velocity, the up-to-five
/// nearest other agents (nearest first, the agent itself excluded), and the
/// advisory squared distance to the current "it" agent.
pub struct BehaviourContext {
    pub position: Position,
    pub velocity: Velocity,
    pub nearest_neighbors: Vec<SnapshotRecord>,
    pub distance2_to_it: i64,
}

/// Whether `w` can be one outcome of revising `v` by a random drift: left
/// unchanged, or re-aimed at some direction while keeping (at most) the old
/// speed.
pub open spec fn drift_step(v: Velocity, w: Velocity) -> bool {
    ||| w == v
    ||| exists|dx: int, dy: int|
        -1000 <= dx <= 1000 && -1000 <= dy <= 1000 && (w.x as int, w.y as int)
            == #[trigger] steer_spec(v, dx, dy)
}

/// One random-drift evaluation, shared by the two drifting behaviours: with
/// probability `DRIFT_PER_MILLE` per mille the velocity is re-aimed at a
/// uniformly drawn direction, keeping the current speed; otherwise it is
/// left unchanged.
pub(crate) fn drift(v: &Velocity) -> (w: Velocity)
    requires
        vel_ok(*v),
    ensures
        drift_step(*v, w),
        vel_ok(w),
        mag2_spec(w) <= mag2_spec(*v),
{
    let gate = random_below(1000);
    if gate < DRIFT_PER_MILLE {
        let dx = random_below(2001) as i64 - 1000;
        let dy = random_below(2001) as i64 - 1000;
        let dir = Velocity::new(dx, dy);
        let w = v.rotate_toward(&dir);
        proof {
            assert((w.x as int, w.y as int) == steer_spec(*v, dx as int, dy as int));
        }
        w
    } else {
        *v
    }
}

} // verus!
