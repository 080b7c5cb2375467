//! Behaviours available to the agent that is currently "it".

use vstd::prelude::*;

use super::{drift, drift_step, BehaviourContext};
use crate::geometry::{
    dist2_spec, mag2_spec, normalize_spec, pos_bounded, steer_spec, vel_ok, Position, Velocity,
};
use crate::spatial_index::{recs_bounded, SnapshotRecord};
use crate::ARRIVAL_EPS2;

verus! {

/// Sometimes the player adjusts its orientation randomly with this
/// behaviour.
#[derive(Clone, Copy, Debug)]
pub struct RandomBehaviour;

/// The tagged "it" player chases its nearest eligible neighbour.
#[derive(Clone, Copy, Debug)]
pub struct ChaseNearestBehaviour;

/// When an actor is "it" it can behave in these ways.
#[derive(Clone, Copy, Debug)]
pub enum ItBehaviour {
    RandomBehaviour(RandomBehaviour),
    ChaseNearest(ChaseNearestBehaviour),
}

impl Default for ItBehaviour {
    fn default() -> (b: Self)
        ensures
            b is ChaseNearest,
    {
        ItBehaviour::ChaseNearest(ChaseNearestBehaviour)
    }
}

/// The first of the given rows that is not recently tagged: the chase
/// target among the precomputed nearest neighbours.
pub open spec fn chase_target(ns: Seq<SnapshotRecord>) -> Option<SnapshotRecord>
    decreases ns.len(),
{
    if ns.len() == 0 {
        None
    } else if !ns[0].recently_tagged {
        Some(ns[0])
    } else {
        chase_target(ns.drop_first())
    }
}

/// With every row before `i` recently tagged, the chase target lies in the
/// tail from `i` on.
proof fn lemma_chase_target_skip(ns: Seq<SnapshotRecord>, i: int)
    requires
        0 <= i <= ns.len(),
        forall|j: int| 0 <= j < i ==> (#[trigger] ns[j]).recently_tagged,
    ensures
        chase_target(ns) == chase_target(ns.subrange(i, ns.len() as int)),
    decreases i,
{
    if i > 0 {
        let tail = ns.drop_first();
        assert forall|j: int| 0 <= j < i - 1 implies (#[trigger] tail[j]).recently_tagged by {
            assert(tail[j] == ns[j + 1]);
        }
        lemma_chase_target_skip(tail, i - 1);
        assert(tail.subrange(i - 1, tail.len() as int) =~= ns.subrange(i, ns.len() as int));
    } else {
        assert(ns.subrange(0, ns.len() as int) =~= ns);
    }
}

/// Finds the index of the chase target, scanning nearest-first.
fn find_chase_target(ns: &Vec<SnapshotRecord>) -> (r: Option<usize>)
    ensures
        match r {
            Some(i) => i < ns@.len() && chase_target(ns@) == Some(ns@[i as int]),
            None => chase_target(ns@) is None,
        },
{
    let mut i: usize = 0;
    while i < ns.len()
        invariant
            i <= ns@.len(),
            forall|j: int| 0 <= j < i ==> (#[trigger] ns@[j]).recently_tagged,
        decreases ns@.len() - i,
    {
        if !ns[i].recently_tagged {
            proof {
                lemma_chase_target_skip(ns@, i as int);
                assert(ns@.subrange(i as int, ns@.len() as int)[0] == ns@[i as int]);
            }
            return Some(i);
        }
        i += 1;
    }
    proof {
        lemma_chase_target_skip(ns@, ns@.len() as int);
    }
    None
}

/// What chasing does to the agent's velocity: steer at the nearest
/// neighbour that is not recently tagged, keeping speed, unless already
/// within arrival distance of it; with no eligible neighbour, drift
/// randomly.
pub open spec fn chase_step(
    pos: Position,
    v: Velocity,
    ns: Seq<SnapshotRecord>,
    w: Velocity,
) -> bool {
    match chase_target(ns) {
        Some(t) => {
            let f = normalize_spec(t.position.x - pos.x, t.position.y - pos.y);
            if dist2_spec(pos, t.position) > ARRIVAL_EPS2 as int {
                (w.x as int, w.y as int) == steer_spec(v, f.0, f.1)
            } else {
                w == v
            }
        },
        None => drift_step(v, w),
    }
}

impl ChaseNearestBehaviour {
    /// Chase the nearest neighbour that is not recently tagged.
    pub fn revise_orientation(&self, ctx: &BehaviourContext) -> (w: Velocity)
        requires
            vel_ok(ctx.velocity),
            pos_bounded(ctx.position),
            recs_bounded(ctx.nearest_neighbors@),
        ensures
            chase_step(ctx.position, ctx.velocity, ctx.nearest_neighbors@, w),
            vel_ok(w),
            mag2_spec(w) <= mag2_spec(ctx.velocity),
    {
        match find_chase_target(&ctx.nearest_neighbors) {
            Some(i) => {
                let t = ctx.nearest_neighbors[i];
                let d2 = ctx.position.distance2_to(&t.position);
                if d2 > ARRIVAL_EPS2 {
                    let f = ctx.position.velocity_facing(&t.position);
                    ctx.velocity.rotate_toward(&f)
                } else {
                    ctx.velocity
                }
            },
            None => drift(&ctx.velocity),
        }
    }
}

impl RandomBehaviour {
    /// Drift: occasionally re-aim the velocity at a random direction.
    pub fn revise_orientation(&self, ctx: &BehaviourContext) -> (w: Velocity)
        requires
            vel_ok(ctx.velocity),
        ensures
            drift_step(ctx.velocity, w),
            vel_ok(w),
            mag2_spec(w) <= mag2_spec(ctx.velocity),
    {
        drift(&ctx.velocity)
    }
}

impl ItBehaviour {
    /// Revise the agent's orientation according to the selected behaviour.
    pub fn revise_orientation(&self, ctx: &BehaviourContext) -> (w: Velocity)
        requires
            vel_ok(ctx.velocity),
            pos_bounded(ctx.position),
            recs_bounded(ctx.nearest_neighbors@),
        ensures
            self is ChaseNearest ==> chase_step(
                ctx.position,
                ctx.velocity,
                ctx.nearest_neighbors@,
                w,
            ),
            self is RandomBehaviour ==> drift_step(ctx.velocity, w),
            vel_ok(w),
            mag2_spec(w) <= mag2_spec(ctx.velocity),
    {
        match self {
            ItBehaviour::ChaseNearest(b) => b.revise_orientation(ctx),
            ItBehaviour::RandomBehaviour(b) => b.revise_orientation(ctx),
        }
    }
}

} // verus!
