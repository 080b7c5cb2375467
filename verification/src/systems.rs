//! The per-tick systems: motion and endurance integration, behaviour
//! evaluation, the tag-transfer state machine, the cooldown sweep, stamina
//! regeneration, and the orchestrating tick.
//!
//! The six steps run in a fixed total order within a tick (see `tick`).
//! Each step takes the world by mutable reference and states exactly which
//! agent fields it may change.

use vstd::prelude::*;

use crate::behaviours::it::{chase_step, ItBehaviour};
use crate::behaviours::not_it::{oppose_step, NotItBehaviour};
use crate::behaviours::{drift_step, BehaviourContext};
use crate::entities_components::{
    agent_ok, endurance_ok, Agent, Endurance, RecentlyTagged, TagCount, TagState, Tagged,
};
use crate::geometry::{
    dist2_spec, div_toward_zero, euclid_mod, mag2_spec, tdiv, Position, Velocity,
};
use crate::random::random_below;
use crate::spatial_index::{
    ids_are_indexes, index_matches, index_of, is_second_nearest, lemma_index_of_matches,
    lemma_nearest_two, lemma_no_second, lemma_second_nearest_unique, nearest_excluding,
    recs_bounded, SnapshotRecord, SpatialIndex,
};
use crate::world::{
    agents_ok, exactly_one_it, is_it, it_at, lemma_the_it, the_it, wf_world, World,
};
use crate::{
    COOLDOWN_MS, HEIGHT_MILLI, REGEN_GAIN_BOUND, REGEN_IT_PER_MILLE, REGEN_NOT_IT_PER_MILLE,
    TAG_DIST2, WIDTH_MILLI,
};

verus! {

/// The endurance-damped effective velocity: full speed at full stamina,
/// falling toward half speed as stamina empties.
pub open spec fn effective_vel_spec(v: Velocity, e: Endurance) -> (int, int) {
    (
        tdiv(v.x * (e.max + e.current), 2 * e.max),
        tdiv(v.y * (e.max + e.current), 2 * e.max),
    )
}

/// The endurance-scaled velocity an agent actually moves by this tick (and
/// the one the rendering collaborator displays).
pub fn effective_velocity(a: &Agent) -> (v: Velocity)
    requires
        -1_000_000_000 <= a.velocity.x <= 1_000_000_000,
        -1_000_000_000 <= a.velocity.y <= 1_000_000_000,
        endurance_ok(a.endurance),
    ensures
        (v.x as int, v.y as int) == effective_vel_spec(a.velocity, a.endurance),
        a.velocity.x >= 0 ==> 0 <= v.x <= a.velocity.x,
        a.velocity.x <= 0 ==> a.velocity.x <= v.x <= 0,
        a.velocity.y >= 0 ==> 0 <= v.y <= a.velocity.y,
        a.velocity.y <= 0 ==> a.velocity.y <= v.y <= 0,
{
    let scale = a.endurance.max as i64 + a.endurance.current as i64;
    let denom = 2 * (a.endurance.max as i64);
    proof {
        assert(-200_000_000_000_000int <= a.velocity.x * (scale as int)
            <= 200_000_000_000_000int && -200_000_000_000_000int <= a.velocity.y * (
        scale as int) <= 200_000_000_000_000int) by (nonlinear_arith)
            requires
                0 < scale <= 200_000,
                -1_000_000_000 <= a.velocity.x <= 1_000_000_000,
                -1_000_000_000 <= a.velocity.y <= 1_000_000_000,
        ;
        assert(a.velocity.x >= 0 ==> 0 <= a.velocity.x * (scale as int) <= (denom as int) * (
        a.velocity.x as int)) by (nonlinear_arith)
            requires
                0 < scale <= denom,
        ;
        assert(a.velocity.x < 0 ==> (denom as int) * (a.velocity.x as int) <= a.velocity.x
            * (scale as int) <= 0) by (nonlinear_arith)
            requires
                0 < scale <= denom,
        ;
        assert(a.velocity.y >= 0 ==> 0 <= a.velocity.y * (scale as int) <= (denom as int) * (
        a.velocity.y as int)) by (nonlinear_arith)
            requires
                0 < scale <= denom,
        ;
        assert(a.velocity.y < 0 ==> (denom as int) * (a.velocity.y as int) <= a.velocity.y
            * (scale as int) <= 0) by (nonlinear_arith)
            requires
                0 < scale <= denom,
        ;
        if a.velocity.x >= 0 {
            crate::geometry::lemma_tdiv_pos_range(
                a.velocity.x * (scale as int),
                denom as int,
                a.velocity.x as int,
            );
        } else {
            crate::geometry::lemma_tdiv_neg_range(
                a.velocity.x * (scale as int),
                denom as int,
                a.velocity.x as int,
            );
        }
        if a.velocity.y >= 0 {
            crate::geometry::lemma_tdiv_pos_range(
                a.velocity.y * (scale as int),
                denom as int,
                a.velocity.y as int,
            );
        } else {
            crate::geometry::lemma_tdiv_neg_range(
                a.velocity.y * (scale as int),
                denom as int,
                a.velocity.y as int,
            );
        }
    }
    let ex = div_toward_zero(a.velocity.x * scale, denom);
    let ey = div_toward_zero(a.velocity.y * scale, denom);
    Velocity { x: ex, y: ey }
}

/// What one integration step does to one agent: the position moves by the
/// effective velocity and wraps toroidally; stamina drains by one, floored
/// at 1; every other field is untouched.
pub open spec fn integrate_rel(a: Agent, b: Agent) -> bool {
    let eff = effective_vel_spec(a.velocity, a.endurance);
    &&& b.position.x as int == (a.position.x + eff.0) % (WIDTH_MILLI as int)
    &&& b.position.y as int == (a.position.y + eff.1) % (HEIGHT_MILLI as int)
    &&& b.velocity == a.velocity
    &&& b.tagged == a.tagged
    &&& b.recently_tagged == a.recently_tagged
    &&& b.behaviour == a.behaviour
    &&& b.endurance.max == a.endurance.max
    &&& b.endurance.current as int == if a.endurance.current > 1 {
        a.endurance.current - 1
    } else {
        1int
    }
}

/// What the integration pass does to the population, agent by agent.
pub open spec fn integrate_pass(before: Seq<Agent>, after: Seq<Agent>) -> bool {
    &&& after.len() == before.len()
    &&& forall|i: int| 0 <= i < before.len() ==> integrate_rel(before[i], #[trigger] after[i])
}

/// Move every player by its endurance-damped velocity, wrapping around the
/// world's edges 2d-game style, and drain one point of stamina.
pub fn update_player_position(world: &mut World)
    requires
        wf_world(*old(world)),
    ensures
        wf_world(*final(world)),
        final(world).agents@.len() == old(world).agents@.len(),
        final(world).time == old(world).time,
        final(world).tag_count == old(world).tag_count,
        integrate_pass(old(world).agents@, final(world).agents@),
{
    let ghost orig = world.agents@;
    let n = world.agents.len();
    let mut i: usize = 0;
    while i < n
        invariant
            n == world.agents@.len(),
            n == orig.len(),
            i <= n,
            world.time == old(world).time,
            world.tag_count == old(world).tag_count,
            agents_ok(orig, world.time.0),
            forall|j: int| i <= j < n ==> world.agents@[j] == orig[j],
            forall|j: int|
                0 <= j < i ==> integrate_rel(orig[j], #[trigger] world.agents@[j]),
            forall|j: int| 0 <= j < i ==> agent_ok(#[trigger] world.agents@[j], world.time.0),
        decreases n - i,
    {
        let a = world.agents[i];
        proof {
            assert(agent_ok(orig[i as int], world.time.0));
        }
        let eff = effective_velocity(&a);
        let px = euclid_mod(a.position.x + eff.x, WIDTH_MILLI);
        let py = euclid_mod(a.position.y + eff.y, HEIGHT_MILLI);
        let drained: u16 = if a.endurance.current > 1 {
            a.endurance.current - 1
        } else {
            1
        };
        let b = Agent {
            position: Position { x: px, y: py },
            endurance: Endurance { current: drained, max: a.endurance.max },
            ..a
        };
        world.agents.set(i, b);
        i += 1;
    }
    proof {
        assert forall|k: int| #[trigger] it_at(orig, k) implies it_at(world.agents@, k) by {
            assert(is_it(world.agents@[k]) == is_it(orig[k]));
            assert forall|j: int|
                0 <= j < world.agents@.len() && j != k implies !is_it(
                #[trigger] world.agents@[j],
            ) by {
                assert(!is_it(orig[j]));
            }
        }
        let k = crate::world::the_it(orig);
        assert(it_at(orig, k));
        assert(integrate_pass(orig, world.agents@));
    }
}

/// Whether a cooldown stamp still blocks tag transfers at time `now`: a
/// stamp from time `t` blocks until `t + COOLDOWN_MS`.
pub open spec fn cooldown_active(r: RecentlyTagged, now: u128) -> bool {
    match r.0 {
        Some(t) => now < t + COOLDOWN_MS,
        None => false,
    }
}

/// The cooldown boundary is sharp: an agent stamped at time `t` still
/// blocks a transfer at `t + COOLDOWN_MS - 1` and no longer blocks at
/// exactly `t + COOLDOWN_MS`.
pub proof fn lemma_cooldown_boundary(t: u128)
    requires
        t <= u128::MAX - COOLDOWN_MS,
    ensures
        cooldown_active(RecentlyTagged(Some(t)), (t + COOLDOWN_MS - 1) as u128),
        !cooldown_active(RecentlyTagged(Some(t)), (t + COOLDOWN_MS) as u128),
{
}

/// An agent with its tag state and cooldown stamp replaced.
pub open spec fn with_tag(a: Agent, t: TagState, stamp: Option<u128>) -> Agent {
    Agent { tagged: Tagged(t), recently_tagged: RecentlyTagged(stamp), ..a }
}

/// The candidate row `c` may receive the tag from the holder at `it` at
/// time `now`: the cooldown gates both parties — neither the holder nor
/// the candidate may sit in an active cooldown window — and the candidate
/// is a different, not-"it" agent within tag distance of the holder.
pub open spec fn eligible(s: Seq<Agent>, it: int, c: SnapshotRecord, now: u128) -> bool {
    &&& c.id != it
    &&& 0 <= c.id < s.len()
    &&& !is_it(s[c.id as int])
    &&& !cooldown_active(s[it].recently_tagged, now)
    &&& !cooldown_active(s[c.id as int].recently_tagged, now)
    &&& dist2_spec(s[it].position, s[c.id as int].position) <= TAG_DIST2 as int
}

/// The population after a transfer from the holder at `it` to agent `c`:
/// `c` becomes "it", the old holder becomes "not it", both are stamped
/// with the current time, and nobody else changes.
pub open spec fn transferred(s: Seq<Agent>, it: int, c: int, now: u128) -> Seq<Agent> {
    s.update(c, with_tag(s[c], TagState::It, Some(now))).update(
        it,
        with_tag(s[it], TagState::NotIt, Some(now)),
    )
}

/// What the tag state machine does, as a relation between the population
/// and counter before (`s`, `count`) and after (`s2`, `count2`), against
/// the index rows `recs` at time `now`: when the second-nearest row to the
/// holder is an eligible candidate, the population is exactly the
/// transferred one and the counter rises by one; otherwise both are
/// untouched.
pub open spec fn tag_pass_rel(
    recs: Seq<SnapshotRecord>,
    s: Seq<Agent>,
    count: u64,
    s2: Seq<Agent>,
    count2: u64,
    now: u128,
) -> bool {
    let itx = the_it(s);
    &&& (exists|c: SnapshotRecord|
        #[trigger] is_second_nearest(recs, s[itx].position, c) && eligible(s, itx, c, now))
        ==> {
        &&& count2 == count + 1
        &&& forall|c: SnapshotRecord|
            #[trigger] is_second_nearest(recs, s[itx].position, c) && eligible(
                s,
                itx,
                c,
                now,
            ) ==> s2 == transferred(s, itx, c.id as int, now)
    }
    &&& (!exists|c: SnapshotRecord|
        #[trigger] is_second_nearest(recs, s[itx].position, c) && eligible(s, itx, c, now))
        ==> s2 == s && count2 == count
}

/// The tag state machine.  The single "it" agent (its absence would be a
/// violated invariant, which the precondition rules out) queries the index
/// for the two nearest rows to its own position — the nearest is itself —
/// and takes the second as the transfer candidate.  The tag transfers if
/// and only if the holder is outside any active cooldown window and the
/// candidate is another, not-"it" agent, also outside any active cooldown
/// window, within two player radii; then both agents are stamped with the
/// current time and the global counter increments by exactly one.
/// Otherwise nothing changes.
pub fn tag_collided_players(world: &mut World, index: &SpatialIndex)
    requires
        wf_world(*old(world)),
        old(world).tag_count.0 < u64::MAX,
        index_matches(index.records@, old(world).agents@),
    ensures
        wf_world(*final(world)),
        final(world).agents@.len() == old(world).agents@.len(),
        final(world).time == old(world).time,
        tag_pass_rel(
            index.records@,
            old(world).agents@,
            old(world).tag_count.0,
            final(world).agents@,
            final(world).tag_count.0,
            old(world).time.0,
        ),
{
    let ghost s = world.agents@;
    let ghost now0 = world.time.0;
    let ghost recs = index.records@;
    let n = world.agents.len();
    let now = world.time.0;

    // Locate the single "it" agent.
    let mut it: usize = 0;
    let mut found: bool = false;
    let mut i: usize = 0;
    while i < n
        invariant
            world == old(world),
            n == world.agents@.len(),
            i <= n,
            found ==> it < n && is_it(world.agents@[it as int]),
            !found ==> forall|j: int| 0 <= j < i ==> !is_it(#[trigger] world.agents@[j]),
        decreases n - i,
    {
        if !found && world.agents[i].tagged.0 == TagState::It {
            it = i;
            found = true;
        }
        i += 1;
    }
    proof {
        let w = the_it(s);
        assert(it_at(s, w));
        if !found {
            assert(!is_it(s[w]));
            assert(false);
        }
        if it as int != w {
            assert(!is_it(s[it as int]));
            assert(false);
        }
        assert(the_it(s) == it as int);
        assert forall|j: int|
            0 <= j < recs.len() implies crate::geometry::pos_bounded(
            (#[trigger] recs[j]).position,
        ) by {
            assert(agent_ok(s[j], now0));
            assert(recs[j].position == s[j].position);
        }
        assert(crate::spatial_index::ids_distinct(recs));
    }
    let itpos = world.agents[it].position;
    let nbrs = index.nearest_k(&itpos, 2);
    if nbrs.len() >= 2 {
        let c = nbrs[1];
        proof {
            lemma_nearest_two(recs, itpos, nbrs@);
            assert(recs.contains(c));
            let idx = choose|idx: int| 0 <= idx < recs.len() && recs[idx] == c;
            assert(recs[idx] == c);
            assert(c.id == idx);
            assert(c.position == s[c.id as int].position);
        }
        let cid = c.id;
        let cand = world.agents[cid];
        let holder = world.agents[it];
        proof {
            assert(agent_ok(s[cid as int], now0));
            assert(agent_ok(s[it as int], now0));
        }
        let holder_clear = match holder.recently_tagged.0 {
            None => true,
            Some(t) => now - t >= COOLDOWN_MS,
        };
        let cooldown_clear = match cand.recently_tagged.0 {
            None => true,
            Some(t) => now - t >= COOLDOWN_MS,
        };
        let d2 = itpos.distance2_to(&cand.position);
        if cid != it && cand.tagged.0 != TagState::It && holder_clear && cooldown_clear && d2
            <= TAG_DIST2 {
            proof {
                assert(eligible(s, it as int, c, now0));
            }
            let stamped = RecentlyTagged(Some(now));
            let newc = Agent { tagged: Tagged(TagState::It), recently_tagged: stamped, ..cand };
            world.agents.set(cid, newc);
            let olda = world.agents[it];
            let newo = Agent {
                tagged: Tagged(TagState::NotIt),
                recently_tagged: stamped,
                ..olda
            };
            world.agents.set(it, newo);
            let count = world.tag_count.0;
            world.tag_count = TagCount(count + 1);
            proof {
                assert(world.agents@ == transferred(s, it as int, cid as int, now0));
                assert forall|c2: SnapshotRecord|
                    is_second_nearest(recs, s[it as int].position, c2) && eligible(
                        s,
                        it as int,
                        c2,
                        now0,
                    ) implies world.agents@ == transferred(s, it as int, c2.id as int, now0) by {
                    lemma_second_nearest_unique(recs, s[it as int].position, c2, c);
                }
                assert(is_second_nearest(recs, s[it as int].position, c) && eligible(
                    s,
                    it as int,
                    c,
                    now0,
                ));
                // The world invariant after the swap.
                assert forall|j: int|
                    0 <= j < world.agents@.len() implies agent_ok(
                    #[trigger] world.agents@[j],
                    now0,
                ) by {
                    assert(agent_ok(s[j], now0));
                }
                assert(it_at(world.agents@, cid as int));
            }
        } else {
            proof {
                assert forall|c2: SnapshotRecord|
                    is_second_nearest(recs, s[it as int].position, c2) implies !eligible(
                    s,
                    it as int,
                    c2,
                    now0,
                ) by {
                    lemma_second_nearest_unique(recs, s[it as int].position, c2, c);
                }
            }
        }
    } else {
        proof {
            assert(recs.len() < 2);
            assert forall|c2: SnapshotRecord|
                !is_second_nearest(recs, s[it as int].position, c2) by {
                lemma_no_second(recs, s[it as int].position, c2);
            }
        }
    }
}

/// The velocity a behaviour evaluation may produce for agent `a`, given
/// the agent's precomputed neighbour list: the policy is dispatched on the
/// agent's tag state.
pub open spec fn behaviour_rel(a: Agent, ns: Seq<SnapshotRecord>, w: Velocity) -> bool {
    match a.tagged.0 {
        TagState::It => match a.behaviour.it_behaviour {
            ItBehaviour::ChaseNearest(_) => chase_step(a.position, a.velocity, ns, w),
            ItBehaviour::RandomBehaviour(_) => drift_step(a.velocity, w),
        },
        TagState::NotIt => match a.behaviour.not_it_behaviour {
            NotItBehaviour::OpposeIt(_) => oppose_step(a.position, a.velocity, ns, w),
            NotItBehaviour::Random(_) => drift_step(a.velocity, w),
        },
    }
}

/// Every agent's velocity in `after` is one its behaviour could produce
/// from `before`: `lists[i]` is agent `i`'s list of up-to-five nearest
/// neighbours (itself excluded) as the index rows `recs` order them, and
/// the new velocity is a behaviour outcome for that list.
pub open spec fn behaviours_applied(
    recs: Seq<SnapshotRecord>,
    before: Seq<Agent>,
    after: Seq<Agent>,
    lists: Seq<Seq<SnapshotRecord>>,
) -> bool {
    &&& lists.len() == before.len()
    &&& forall|i: int|
        #![trigger lists[i]]
        0 <= i < before.len() ==> nearest_excluding(recs, before[i].position, 5, i, lists[i])
            && behaviour_rel(before[i], lists[i], after[i].velocity)
}

/// What the behaviour pass does to the population: only velocities change,
/// never rising in speed, and each new velocity is a behaviour outcome for
/// that agent's own nearest-neighbour list.
pub open spec fn behaviour_pass(
    recs: Seq<SnapshotRecord>,
    before: Seq<Agent>,
    after: Seq<Agent>,
    lists: Seq<Seq<SnapshotRecord>>,
) -> bool {
    &&& after.len() == before.len()
    &&& forall|i: int|
        0 <= i < before.len() ==> {
            let b = #[trigger] after[i];
            let a = before[i];
            &&& b.position == a.position
            &&& b.tagged == a.tagged
            &&& b.recently_tagged == a.recently_tagged
            &&& b.endurance == a.endurance
            &&& b.behaviour == a.behaviour
            &&& mag2_spec(b.velocity) <= mag2_spec(a.velocity)
        }
    &&& behaviours_applied(recs, before, after, lists)
}

/// Evaluate every agent's behaviour against the freshly rebuilt index and
/// commit the resulting velocity.  Each agent sees its up-to-five nearest
/// neighbours, itself excluded, and the advisory squared distance to the
/// current tag holder; only its own velocity may change, and a behaviour
/// never raises the agent's speed.
pub fn commit_player_behaviour(world: &mut World, index: &SpatialIndex) -> (ns_lists: Ghost<
    Seq<Seq<SnapshotRecord>>,
>)
    requires
        wf_world(*old(world)),
        index_of(index.records@, old(world).agents@),
    ensures
        wf_world(*final(world)),
        final(world).agents@.len() == old(world).agents@.len(),
        final(world).time == old(world).time,
        final(world).tag_count == old(world).tag_count,
        behaviour_pass(index.records@, old(world).agents@, final(world).agents@, ns_lists@),
{
    let ghost orig = world.agents@;
    let ghost now0 = world.time.0;
    let ghost recs = index.records@;
    let n = world.agents.len();
    proof {
        lemma_index_of_matches(recs, orig);
        assert forall|j: int|
            0 <= j < recs.len() implies crate::geometry::pos_bounded(
            (#[trigger] recs[j]).position,
        ) by {
            assert(agent_ok(orig[j], now0));
            assert(recs[j].position == orig[j].position);
        }
        assert(ids_are_indexes(recs));
    }

    // Locate the single "it" agent, to fill the advisory distance field of
    // each behaviour context.
    let mut itx: usize = 0;
    let mut found: bool = false;
    let mut fi: usize = 0;
    while fi < n
        invariant
            world == old(world),
            n == world.agents@.len(),
            fi <= n,
            found ==> itx < n && is_it(world.agents@[itx as int]),
            !found ==> forall|j: int| 0 <= j < fi ==> !is_it(#[trigger] world.agents@[j]),
        decreases n - fi,
    {
        if !found && world.agents[fi].tagged.0 == TagState::It {
            itx = fi;
            found = true;
        }
        fi += 1;
    }
    proof {
        let w = the_it(orig);
        assert(it_at(orig, w));
        if !found {
            assert(!is_it(orig[w]));
            assert(false);
        }
    }
    let itpos = world.agents[itx].position;

    let ghost mut all_ns: Seq<Seq<SnapshotRecord>> = Seq::empty();
    let mut i: usize = 0;
    while i < n
        invariant
            n == world.agents@.len(),
            n == orig.len(),
            i <= n,
            world.time == old(world).time,
            world.tag_count == old(world).tag_count,
            now0 == world.time.0,
            agents_ok(orig, now0),
            index_matches(recs, orig),
            recs_bounded(recs),
            ids_are_indexes(recs),
            recs == index.records@,
            all_ns.len() == i,
            forall|j: int| i <= j < n ==> world.agents@[j] == orig[j],
            forall|j: int|
                0 <= j < i ==> {
                    let b = #[trigger] world.agents@[j];
                    let a = orig[j];
                    &&& b.position == a.position
                    &&& b.tagged == a.tagged
                    &&& b.recently_tagged == a.recently_tagged
                    &&& b.endurance == a.endurance
                    &&& b.behaviour == a.behaviour
                    &&& mag2_spec(b.velocity) <= mag2_spec(a.velocity)
                },
            forall|j: int|
                0 <= j < i ==> nearest_excluding(recs, orig[j].position, 5, j, #[trigger] all_ns[j])
                    && behaviour_rel(orig[j], all_ns[j], world.agents@[j].velocity),
            forall|j: int| 0 <= j < i ==> agent_ok(#[trigger] world.agents@[j], now0),
            itx < n,
            itpos == orig[itx as int].position,
        decreases n - i,
    {
        let a = world.agents[i];
        proof {
            assert(agent_ok(orig[i as int], now0));
            assert(agent_ok(orig[itx as int], now0));
        }
        let nbrs = index.nearest_excluding_self(&a.position, 5, i);
        let ghost nsv = nbrs@;
        proof {
            assert forall|idx: int|
                0 <= idx < nsv.len() implies crate::geometry::pos_bounded(
                (#[trigger] nsv[idx]).position,
            ) by {
                assert(recs.contains(nsv[idx]));
                let j = choose|j: int| 0 <= j < recs.len() && recs[j] == nsv[idx];
                assert(recs[j] == nsv[idx]);
            }
        }
        let ctx = BehaviourContext {
            position: a.position,
            velocity: a.velocity,
            nearest_neighbors: nbrs,
            distance2_to_it: a.position.distance2_to(&itpos),
        };
        let w = match a.tagged.0 {
            TagState::It => a.behaviour.it_behaviour.revise_orientation(&ctx),
            TagState::NotIt => a.behaviour.not_it_behaviour.revise_orientation(&ctx),
        };
        let b = Agent { velocity: w, ..a };
        let ghost prev = world.agents@;
        world.agents.set(i, b);
        proof {
            assert(behaviour_rel(orig[i as int], nsv, w));
            assert(nearest_excluding(recs, orig[i as int].position, 5, i as int, nsv));
            let prev_ns = all_ns;
            all_ns = all_ns.push(nsv);
            assert forall|j: int|
                0 <= j < i + 1 implies nearest_excluding(
                recs,
                orig[j].position,
                5,
                j,
                #[trigger] all_ns[j],
            ) && behaviour_rel(orig[j], all_ns[j], world.agents@[j].velocity) by {
                if j < i {
                    assert(world.agents@[j] == prev[j]);
                    assert(all_ns[j] == prev_ns[j]);
                } else {
                    assert(all_ns[j] == nsv);
                    assert(world.agents@[j].velocity == w);
                }
            }
        }
        i += 1;
    }
    proof {
        assert forall|k: int| #[trigger] it_at(orig, k) implies it_at(world.agents@, k) by {
            assert(is_it(world.agents@[k]) == is_it(orig[k]));
            assert forall|j: int|
                0 <= j < world.agents@.len() && j != k implies !is_it(
                #[trigger] world.agents@[j],
            ) by {
                assert(!is_it(orig[j]));
            }
        }
        let k = the_it(orig);
        assert(it_at(orig, k));
        assert(behaviours_applied(recs, orig, world.agents@, all_ns));
        assert(behaviour_pass(recs, orig, world.agents@, all_ns));
    }
    Ghost(all_ns)
}

/// What the cooldown sweep does to one stamp: a stamp whose window has
/// elapsed is cleared; anything else is kept.
pub open spec fn swept_stamp(r: RecentlyTagged, now: u128) -> RecentlyTagged {
    match r.0 {
        Some(t) => if t + COOLDOWN_MS <= now {
            RecentlyTagged(None)
        } else {
            r
        },
        None => r,
    }
}

/// What the cooldown sweep does to the population, agent by agent.
pub open spec fn sweep_pass(before: Seq<Agent>, after: Seq<Agent>, now: u128) -> bool {
    &&& after.len() == before.len()
    &&& forall|i: int|
        0 <= i < before.len() ==> #[trigger] after[i] == (Agent {
            recently_tagged: swept_stamp(before[i].recently_tagged, now),
            ..before[i]
        })
}

/// Clear every cooldown stamp whose window has elapsed: `COOLDOWN_MS`
/// after tagging, players become eligible transfer targets again.
pub fn clear_old_recently_tagged(world: &mut World)
    requires
        wf_world(*old(world)),
    ensures
        wf_world(*final(world)),
        final(world).agents@.len() == old(world).agents@.len(),
        final(world).time == old(world).time,
        final(world).tag_count == old(world).tag_count,
        sweep_pass(old(world).agents@, final(world).agents@, old(world).time.0),
{
    let ghost orig = world.agents@;
    let now = world.time.0;
    let n = world.agents.len();
    let mut i: usize = 0;
    while i < n
        invariant
            n == world.agents@.len(),
            n == orig.len(),
            i <= n,
            now == world.time.0,
            world.time == old(world).time,
            world.tag_count == old(world).tag_count,
            agents_ok(orig, now),
            forall|j: int| i <= j < n ==> world.agents@[j] == orig[j],
            forall|j: int|
                0 <= j < i ==> #[trigger] world.agents@[j] == (Agent {
                    recently_tagged: swept_stamp(orig[j].recently_tagged, now),
                    ..orig[j]
                }),
            forall|j: int| 0 <= j < i ==> agent_ok(#[trigger] world.agents@[j], now),
        decreases n - i,
    {
        let a = world.agents[i];
        proof {
            assert(agent_ok(orig[i as int], now));
        }
        let cleared = match a.recently_tagged.0 {
            Some(t) => {
                if now - t >= COOLDOWN_MS {
                    Agent { recently_tagged: RecentlyTagged(None), ..a }
                } else {
                    a
                }
            },
            None => a,
        };
        world.agents.set(i, cleared);
        i += 1;
    }
    proof {
        assert forall|k: int| #[trigger] it_at(orig, k) implies it_at(world.agents@, k) by {
            assert(is_it(world.agents@[k]) == is_it(orig[k]));
            assert forall|j: int|
                0 <= j < world.agents@.len() && j != k implies !is_it(
                #[trigger] world.agents@[j],
            ) by {
                assert(!is_it(orig[j]));
            }
        }
        let k = crate::world::the_it(orig);
        assert(it_at(orig, k));
        assert(sweep_pass(orig, world.agents@, now));
    }
}

/// The agent with its stamina raised by `gain`, clamped to its maximum;
/// nothing else changes.
pub open spec fn regained(a: Agent, gain: int) -> Agent {
    Agent {
        endurance: Endurance {
            current: if a.endurance.current + gain <= a.endurance.max {
                (a.endurance.current + gain) as u16
            } else {
                a.endurance.max
            },
            max: a.endurance.max,
        },
        ..a
    }
}

/// What regeneration may do to one agent: either nothing — the random
/// gate mostly fails, and an agent at full stamina never regains — or,
/// when the agent was below its maximum, a rise by exactly some drawn
/// amount below `REGEN_GAIN_BOUND`, clamped to the maximum.
pub open spec fn regen_rel(a: Agent, b: Agent) -> bool {
    ||| b == a
    ||| (a.endurance.current < a.endurance.max && exists|gain: int|
        0 <= gain < REGEN_GAIN_BOUND && b == #[trigger] regained(a, gain))
}

/// One regeneration step for one agent, with the drawn amount as an
/// argument: stamina rises by exactly `gain`, clamped to the maximum;
/// nothing else changes.
pub fn regain_endurance(a: &Agent, gain: u16) -> (b: Agent)
    requires
        endurance_ok(a.endurance),
        gain < REGEN_GAIN_BOUND as u16,
    ensures
        b == regained(*a, gain as int),
        endurance_ok(b.endurance),
{
    let raised: u32 = a.endurance.current as u32 + gain as u32;
    let capped: u16 = if raised > a.endurance.max as u32 {
        a.endurance.max
    } else {
        raised as u16
    };
    Agent { endurance: Endurance { current: capped, max: a.endurance.max }, ..*a }
}

/// What the regeneration pass does to the population, agent by agent.
pub open spec fn regen_pass(before: Seq<Agent>, after: Seq<Agent>) -> bool {
    &&& after.len() == before.len()
    &&& forall|i: int| 0 <= i < before.len() ==> regen_rel(before[i], #[trigger] after[i])
}

/// Stochastic stamina regeneration: with probability `REGEN_IT_PER_MILLE`
/// per mille for the "it" agent and `REGEN_NOT_IT_PER_MILLE` per mille for
/// the others, and only below the maximum, add a uniformly random amount
/// below `REGEN_GAIN_BOUND`, clamped to the maximum.
pub fn regenerate_endurance(world: &mut World)
    requires
        wf_world(*old(world)),
    ensures
        wf_world(*final(world)),
        final(world).agents@.len() == old(world).agents@.len(),
        final(world).time == old(world).time,
        final(world).tag_count == old(world).tag_count,
        regen_pass(old(world).agents@, final(world).agents@),
{
    let ghost orig = world.agents@;
    let now = world.time.0;
    let n = world.agents.len();
    let mut i: usize = 0;
    while i < n
        invariant
            n == world.agents@.len(),
            n == orig.len(),
            i <= n,
            now == world.time.0,
            world.time == old(world).time,
            world.tag_count == old(world).tag_count,
            agents_ok(orig, now),
            forall|j: int| i <= j < n ==> world.agents@[j] == orig[j],
            forall|j: int|
                0 <= j < i ==> regen_rel(orig[j], #[trigger] world.agents@[j]),
            forall|j: int| 0 <= j < i ==> agent_ok(#[trigger] world.agents@[j], now),
        decreases n - i,
    {
        let a = world.agents[i];
        proof {
            assert(agent_ok(orig[i as int], now));
        }
        let chance = if a.tagged.0 == TagState::It {
            REGEN_IT_PER_MILLE
        } else {
            REGEN_NOT_IT_PER_MILLE
        };
        let gate = random_below(1000);
        if gate < chance && a.endurance.current < a.endurance.max {
            let gain = random_below(REGEN_GAIN_BOUND) as u16;
            let b = regain_endurance(&a, gain);
            world.agents.set(i, b);
            proof {
                assert(b == regained(orig[i as int], gain as int));
                assert(regen_rel(orig[i as int], b));
            }
        }
        i += 1;
    }
    proof {
        assert forall|k: int| #[trigger] it_at(orig, k) implies it_at(world.agents@, k) by {
            assert(is_it(world.agents@[k]) == is_it(orig[k]));
            assert forall|j: int|
                0 <= j < world.agents@.len() && j != k implies !is_it(
                #[trigger] world.agents@[j],
            ) by {
                assert(!is_it(orig[j]));
            }
        }
        let k = crate::world::the_it(orig);
        assert(it_at(orig, k));
        assert(regen_pass(orig, world.agents@));
    }
}

/// One simulation step, in the fixed order of the pipeline: integrate
/// motion and stamina using the previous tick's velocities, rebuild the
/// spatial index from the new positions, evaluate behaviours against it,
/// run the tag state machine against the same single-tick index, sweep
/// expired cooldown stamps, and regenerate stamina.  The externally
/// supplied clock is advanced separately, before the tick
/// (`World::set_time`).
///
/// The whole tick pipeline's effect: there are a post-motion population
/// `s1`, the index rows `recs` built from it, neighbour lists `lists`, a
/// post-behaviour population `s2`, a post-transfer population `s3` and a
/// post-sweep population `s4` connecting the old world to the new one
/// through the five step relations, in their fixed order.  The counter
/// changes at the tag machine and nowhere else.
pub open spec fn tick_rel(
    before: Seq<Agent>,
    before_count: u64,
    after: Seq<Agent>,
    after_count: u64,
    now: u128,
) -> bool {
    exists|
        s1: Seq<Agent>,
        s2: Seq<Agent>,
        s3: Seq<Agent>,
        s4: Seq<Agent>,
        recs: Seq<SnapshotRecord>,
        lists: Seq<Seq<SnapshotRecord>>,
    |
        #![trigger integrate_pass(before, s1), behaviour_pass(recs, s1, s2, lists),
            tag_pass_rel(recs, s2, before_count, s3, after_count, now),
            sweep_pass(s3, s4, now), regen_pass(s4, after)]
        {
            &&& integrate_pass(before, s1)
            &&& index_of(recs, s1)
            &&& behaviour_pass(recs, s1, s2, lists)
            &&& tag_pass_rel(recs, s2, before_count, s3, after_count, now)
            &&& sweep_pass(s3, s4, now)
            &&& regen_pass(s4, after)
        }
}

/// Exactly one agent is "it" before and after the tick, every agent's
/// stamina stays within `1..=max`, the tag counter rises by at most one,
/// and `tick_rel` chains the five step relations from the old population
/// to the new one.
pub fn tick(world: &mut World)
    requires
        wf_world(*old(world)),
        old(world).tag_count.0 < u64::MAX,
    ensures
        wf_world(*final(world)),
        exactly_one_it(final(world).agents@),
        final(world).agents@.len() == old(world).agents@.len(),
        final(world).time == old(world).time,
        old(world).tag_count.0 <= final(world).tag_count.0 <= old(world).tag_count.0 + 1,
        tick_rel(
            old(world).agents@,
            old(world).tag_count.0,
            final(world).agents@,
            final(world).tag_count.0,
            old(world).time.0,
        ),
        forall|i: int|
            0 <= i < final(world).agents@.len() ==> endurance_ok(
                (#[trigger] final(world).agents@[i]).endurance,
            ),
        forall|i: int|
            0 <= i < old(world).agents@.len() ==> {
                let a = old(world).agents@[i];
                let b = #[trigger] final(world).agents@[i];
                let eff = effective_vel_spec(a.velocity, a.endurance);
                &&& b.position.x as int == (a.position.x + eff.0) % (WIDTH_MILLI as int)
                &&& b.position.y as int == (a.position.y + eff.1) % (HEIGHT_MILLI as int)
                &&& mag2_spec(b.velocity) <= mag2_spec(a.velocity)
            },
{
    let ghost s0 = world.agents@;
    update_player_position(world);
    let index = SpatialIndex::build(&world.agents);
    let ghost s1 = world.agents@;
    let s1_len = world.agents.len();
    let ns_lists = commit_player_behaviour(world, &index);
    let ghost s2 = world.agents@;
    proof {
        assert(s1.len() == s1_len);
        lemma_index_of_matches(index.records@, s1);
        assert forall|j: int|
            0 <= j < index.records@.len() implies (#[trigger] index.records@[j]).position
            == world.agents@[j].position by {
            assert(world.agents@[j].position == s1[j].position);
        }
        assert(index_matches(index.records@, world.agents@));
    }
    let ghost now2 = world.time.0;
    tag_collided_players(world, &index);
    let ghost s3 = world.agents@;
    let ghost count3 = world.tag_count.0;
    proof {
        // The machine only reassigns the tag and the stamps: every agent
        // keeps its position and velocity, whichever branch was taken.
        let itx = the_it(s2);
        let recs = index.records@;
        if exists|c: SnapshotRecord|
            #[trigger] is_second_nearest(recs, s2[itx].position, c) && eligible(
                s2,
                itx,
                c,
                now2,
            ) {
            let c = choose|c: SnapshotRecord|
                #[trigger] is_second_nearest(recs, s2[itx].position, c) && eligible(
                    s2,
                    itx,
                    c,
                    now2,
                );
            assert(s3 == transferred(s2, itx, c.id as int, now2));
        }
        assert forall|i: int|
            0 <= i < s2.len() implies (#[trigger] s3[i]).position == s2[i].position
            && s3[i].velocity == s2[i].velocity by {}
    }
    clear_old_recently_tagged(world);
    let ghost s4 = world.agents@;
    regenerate_endurance(world);
    proof {
        assert forall|i: int|
            0 <= i < world.agents@.len() implies endurance_ok(
            (#[trigger] world.agents@[i]).endurance,
        ) by {
            assert(agent_ok(world.agents@[i], world.time.0));
        }
        assert forall|i: int|
            0 <= i < s0.len() implies {
            let a = s0[i];
            let b = #[trigger] world.agents@[i];
            let eff = effective_vel_spec(a.velocity, a.endurance);
            &&& b.position.x as int == (a.position.x + eff.0) % (WIDTH_MILLI as int)
            &&& b.position.y as int == (a.position.y + eff.1) % (HEIGHT_MILLI as int)
            &&& mag2_spec(b.velocity) <= mag2_spec(a.velocity)
        } by {
            assert(integrate_rel(s0[i], s1[i]));
            assert(s2[i].position == s1[i].position);
            assert(mag2_spec(s2[i].velocity) <= mag2_spec(s1[i].velocity));
            assert(s3[i].position == s2[i].position && s3[i].velocity == s2[i].velocity);
        }
        // The pipeline, chained: witness the intermediate snapshots.
        assert(integrate_pass(s0, s1));
        assert(index_of(index.records@, s1));
        assert(behaviour_pass(index.records@, s1, s2, ns_lists@));
        assert(world.tag_count.0 == count3);
        assert(tag_pass_rel(index.records@, s2, old(world).tag_count.0, s3, count3, now2));
        assert(sweep_pass(s3, s4, now2));
        assert(regen_pass(s4, world.agents@));
        assert(tick_rel(
            s0,
            old(world).tag_count.0,
            world.agents@,
            world.tag_count.0,
            now2,
        ));
    }
}

} // verus!
