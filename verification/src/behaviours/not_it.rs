//! Behaviours available to the agents that are not "it".

use vstd::prelude::*;

use super::{drift, drift_step, BehaviourContext};
use crate::entities_components::TagState;
use crate::geometry::{
    dist2_spec, mag2_spec, normalize_spec, pos_bounded, steer_spec, vel_ok, Position, Velocity,
};
use crate::spatial_index::{recs_bounded, SnapshotRecord};
use crate::ARRIVAL_EPS2;

verus! {

/// Sometimes the player adjusts its orientation randomly with this
/// behaviour.
#[derive(Clone, Copy, Debug)]
pub struct RandomBehaviour;

/// A "not it" player with this behaviour is averse to the currently tagged
/// actor and steers away from it.
#[derive(Clone, Copy, Debug)]
pub struct OpposeItBehaviour;

/// When an actor is "not it" it can behave in these ways.
#[derive(Clone, Copy, Debug)]
pub enum NotItBehaviour {
    OpposeIt(OpposeItBehaviour),
    Random(RandomBehaviour),
}

impl Default for NotItBehaviour {
    fn default() -> (b: Self)
        ensures
            b is OpposeIt,
    {
        NotItBehaviour::OpposeIt(OpposeItBehaviour)
    }
}

/// The first of the given rows whose agent is "it": the actor to flee.
pub open spec fn oppose_target(ns: Seq<SnapshotRecord>) -> Option<SnapshotRecord>
    decreases ns.len(),
{
    if ns.len() == 0 {
        None
    } else if ns[0].tagged is It {
        Some(ns[0])
    } else {
        oppose_target(ns.drop_first())
    }
}

/// With no row before `i` tagged "it", the flee target lies in the tail
/// from `i` on.
proof fn lemma_oppose_target_skip(ns: Seq<SnapshotRecord>, i: int)
    requires
        0 <= i <= ns.len(),
        forall|j: int| 0 <= j < i ==> !((#[trigger] ns[j]).tagged is It),
    ensures
        oppose_target(ns) == oppose_target(ns.subrange(i, ns.len() as int)),
    decreases i,
{
    if i > 0 {
        let tail = ns.drop_first();
        assert forall|j: int| 0 <= j < i - 1 implies !((#[trigger] tail[j]).tagged is It) by {
            assert(tail[j] == ns[j + 1]);
        }
        lemma_oppose_target_skip(tail, i - 1);
        assert(tail.subrange(i - 1, tail.len() as int) =~= ns.subrange(i, ns.len() as int));
    } else {
        assert(ns.subrange(0, ns.len() as int) =~= ns);
    }
}

/// Finds the index of the nearest row tagged "it", scanning nearest-first.
fn find_oppose_target(ns: &Vec<SnapshotRecord>) -> (r: Option<usize>)
    ensures
        match r {
            Some(i) => i < ns@.len() && oppose_target(ns@) == Some(ns@[i as int]),
            None => oppose_target(ns@) is None,
        },
{
    let mut i: usize = 0;
    while i < ns.len()
        invariant
            i <= ns@.len(),
            forall|j: int| 0 <= j < i ==> !((#[trigger] ns@[j]).tagged is It),
        decreases ns@.len() - i,
    {
        if ns[i].tagged == TagState::It {
            proof {
                lemma_oppose_target_skip(ns@, i as int);
                assert(ns@.subrange(i as int, ns@.len() as int)[0] == ns@[i as int]);
            }
            return Some(i);
        }
        i += 1;
    }
    proof {
        lemma_oppose_target_skip(ns@, ns@.len() as int);
    }
    None
}

/// What opposing does to the agent's velocity: steer to face the nearest
/// "it" agent, then negate — flee along the opposite direction, keeping
/// speed — unless already within arrival distance; with no "it" agent in
/// sight, drift randomly.
pub open spec fn oppose_step(
    pos: Position,
    v: Velocity,
    ns: Seq<SnapshotRecord>,
    w: Velocity,
) -> bool {
    match oppose_target(ns) {
        Some(t) => {
            let f = normalize_spec(t.position.x - pos.x, t.position.y - pos.y);
            let s = steer_spec(v, f.0, f.1);
            if dist2_spec(pos, t.position) > ARRIVAL_EPS2 as int {
                (w.x as int, w.y as int) == (-s.0, -s.1)
            } else {
                w == v
            }
        },
        None => drift_step(v, w),
    }
}

impl OpposeItBehaviour {
    /// Flee the nearest agent that is "it".
    pub fn revise_orientation(&self, ctx: &BehaviourContext) -> (w: Velocity)
        requires
            vel_ok(ctx.velocity),
            pos_bounded(ctx.position),
            recs_bounded(ctx.nearest_neighbors@),
        ensures
            oppose_step(ctx.position, ctx.velocity, ctx.nearest_neighbors@, w),
            vel_ok(w),
            mag2_spec(w) <= mag2_spec(ctx.velocity),
    {
        match find_oppose_target(&ctx.nearest_neighbors) {
            Some(i) => {
                let t = ctx.nearest_neighbors[i];
                let d2 = ctx.position.distance2_to(&t.position);
                if d2 > ARRIVAL_EPS2 {
                    let f = ctx.position.velocity_facing(&t.position);
                    let s = ctx.velocity.rotate_toward(&f);
                    s.negate_velocity()
                } else {
                    ctx.velocity
                }
            },
            None => drift(&ctx.velocity),
        }
    }
}

impl RandomBehaviour {
    /// Drift: occasionally re-aim the velocity at a random direction.
    pub fn revise_orientation(&self, ctx: &BehaviourContext) -> (w: Velocity)
        requires
            vel_ok(ctx.velocity),
        ensures
            drift_step(ctx.velocity, w),
            vel_ok(w),
            mag2_spec(w) <= mag2_spec(ctx.velocity),
    {
        drift(&ctx.velocity)
    }
}

impl NotItBehaviour {
    /// Revise the agent's orientation according to the selected behaviour.
    pub fn revise_orientation(&self, ctx: &BehaviourContext) -> (w: Velocity)
        requires
            vel_ok(ctx.velocity),
            pos_bounded(ctx.position),
            recs_bounded(ctx.nearest_neighbors@),
        ensures
            self is OpposeIt ==> oppose_step(ctx.position, ctx.velocity, ctx.nearest_neighbors@, w),
            self is Random ==> drift_step(ctx.velocity, w),
            vel_ok(w),
            mag2_spec(w) <= mag2_spec(ctx.velocity),
    {
        match self {
            NotItBehaviour::OpposeIt(b) => b.revise_orientation(ctx),
            NotItBehaviour::Random(b) => b.revise_orientation(ctx),
        }
    }
}

} // verus!
