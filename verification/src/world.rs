//! The simulation world: every agent, the externally supplied clock, and
//! the global tag counter, with the invariant the tick pipeline preserves.

use vstd::prelude::*;

use crate::behaviours::it::{ChaseNearestBehaviour, ItBehaviour};
use crate::behaviours::not_it::{NotItBehaviour, OpposeItBehaviour};
use crate::entities_components::{
    agent_ok, Agent, Endurance, PlayerBehaviour, RecentlyTagged, TagCount, TagState, Tagged, Time,
    ENDURANCE_DEFAULT_MAX,
};
use crate::geometry::{mag2_spec, vel_ok, Position, Velocity};
use crate::random::random_below;
use crate::{HEIGHT_MILLI, WIDTH_MILLI};

verus! {

/// The whole mutable state of one run: the fixed population of agents and
/// the world-global resources (clock and tag counter).
pub struct World {
    pub agents: Vec<Agent>,
    pub time: Time,
    pub tag_count: TagCount,
}

/// Whether this agent currently holds the tag.
pub open spec fn is_it(a: Agent) -> bool {
    a.tagged.0 is It
}

/// Index `i` holds the one and only "it" agent.
pub open spec fn it_at(s: Seq<Agent>, i: int) -> bool {
    &&& 0 <= i < s.len()
    &&& is_it(s[i])
    &&& forall|j: int| 0 <= j < s.len() && j != i ==> !is_it(#[trigger] s[j])
}

/// Exactly one agent holds the tag.
pub open spec fn exactly_one_it(s: Seq<Agent>) -> bool {
    exists|i: int| #[trigger] it_at(s, i)
}

/// The index of the one "it" agent.
pub open spec fn the_it(s: Seq<Agent>) -> int {
    choose|i: int| it_at(s, i)
}

/// Two indexes both holding the only tag are the same index.
pub proof fn lemma_it_at_unique(s: Seq<Agent>, i: int, j: int)
    requires
        it_at(s, i),
        it_at(s, j),
    ensures
        i == j,
{
}

/// With exactly one "it" agent, `the_it` names its index.
pub proof fn lemma_the_it(s: Seq<Agent>, i: int)
    requires
        it_at(s, i),
    ensures
        the_it(s) == i,
{
    lemma_it_at_unique(s, i, the_it(s));
}

/// Every agent satisfies the per-agent invariant at time `now`.
pub open spec fn agents_ok(s: Seq<Agent>, now: u128) -> bool {
    forall|i: int| 0 <= i < s.len() ==> agent_ok(#[trigger] s[i], now)
}

/// The world invariant: a nonempty population of well-formed agents, with
/// exactly one of them "it".
pub open spec fn wf_world(w: World) -> bool {
    &&& w.agents@.len() >= 1
    &&& agents_ok(w.agents@, w.time.0)
    &&& exactly_one_it(w.agents@)
}

/// Velocities whose components are small are within the speed limit.
proof fn lemma_small_vel_ok(v: Velocity)
    requires
        -3000 <= v.x <= 3000,
        -3000 <= v.y <= 3000,
    ensures
        vel_ok(v),
{
    assert(mag2_spec(v) <= 16_000_000_000_000int) by (nonlinear_arith)
        requires
            -3000 <= v.x <= 3000,
            -3000 <= v.y <= 3000,
    ;
}

impl World {
    /// Advance the externally supplied clock.  The core assumes the clock
    /// is monotonic and non-decreasing; this is where that is enforced.
    pub fn set_time(&mut self, now: u128)
        requires
            old(self).time.0 <= now,
        ensures
            final(self).time.0 == now,
            final(self).agents == old(self).agents,
            final(self).tag_count == old(self).tag_count,
            wf_world(*old(self)) ==> wf_world(*final(self)),
    {
        proof {
            if wf_world(*old(self)) {
                assert forall|i: int|
                    0 <= i < self.agents@.len() implies agent_ok(
                    #[trigger] self.agents@[i],
                    now,
                ) by {
                    assert(agent_ok(self.agents@[i], self.time.0));
                }
            }
        }
        self.time = Time(now);
    }
}

/// When the world has been initialized with players, tag the first agent
/// as "it", so that the game can begin.
pub fn tag_initial_random_player(world: &mut World)
    requires
        old(world).agents@.len() >= 1,
        forall|i: int| 0 <= i < old(world).agents@.len() ==> !is_it(old(world).agents@[i]),
    ensures
        final(world).agents@ == old(world).agents@.update(
            0,
            Agent { tagged: Tagged(TagState::It), ..old(world).agents@[0] },
        ),
        final(world).time == old(world).time,
        final(world).tag_count == old(world).tag_count,
        it_at(final(world).agents@, 0),
        exactly_one_it(final(world).agents@),
{
    let mut first = world.agents[0];
    first.tagged = Tagged(TagState::It);
    world.agents.set(0, first);
    proof {
        assert(it_at(world.agents@, 0));
    }
}

/// Builds the initial population: `player_count` agents with uniformly
/// random positions on the plane, random velocities with components within
/// three world units per tick, full stamina, the default behaviour pairing,
/// and nobody recently tagged; then the first agent is promoted to "it".
/// The clock starts at zero and no tags have been counted.
pub fn initialize_world(player_count: usize) -> (world: World)
    requires
        1 <= player_count,
    ensures
        wf_world(world),
        world.agents@.len() == player_count,
        world.time.0 == 0,
        world.tag_count.0 == 0,
        it_at(world.agents@, 0),
        forall|i: int|
            0 <= i < player_count ==> (#[trigger] world.agents@[i]).recently_tagged.0 is None,
        forall|i: int|
            0 <= i < player_count ==> (#[trigger] world.agents@[i]).endurance == (Endurance {
                current: ENDURANCE_DEFAULT_MAX,
                max: ENDURANCE_DEFAULT_MAX,
            }),
        forall|i: int|
            0 <= i < player_count ==> (#[trigger] world.agents@[i]).behaviour.it_behaviour
                is ChaseNearest && world.agents@[i].behaviour.not_it_behaviour is OpposeIt,
        forall|i: int|
            0 <= i < player_count ==> -3000 <= (#[trigger] world.agents@[i]).velocity.x <= 3000
                && -3000 <= world.agents@[i].velocity.y <= 3000,
{
    let mut agents: Vec<Agent> = Vec::new();
    let mut i: usize = 0;
    while i < player_count
        invariant
            i <= player_count,
            agents@.len() == i,
            forall|j: int| 0 <= j < i ==> agent_ok(#[trigger] agents@[j], 0),
            forall|j: int| 0 <= j < i ==> !is_it(#[trigger] agents@[j]),
            forall|j: int| 0 <= j < i ==> (#[trigger] agents@[j]).recently_tagged.0 is None,
            forall|j: int|
                0 <= j < i ==> (#[trigger] agents@[j]).endurance == (Endurance {
                    current: ENDURANCE_DEFAULT_MAX,
                    max: ENDURANCE_DEFAULT_MAX,
                }),
            forall|j: int|
                0 <= j < i ==> (#[trigger] agents@[j]).behaviour.it_behaviour is ChaseNearest
                    && agents@[j].behaviour.not_it_behaviour is OpposeIt,
            forall|j: int|
                0 <= j < i ==> -3000 <= (#[trigger] agents@[j]).velocity.x <= 3000 && -3000
                    <= agents@[j].velocity.y <= 3000,
        decreases player_count - i,
    {
        let px = random_below(WIDTH_MILLI as u64) as i64;
        let py = random_below(HEIGHT_MILLI as u64) as i64;
        let vx = random_below(6001) as i64 - 3000;
        let vy = random_below(6001) as i64 - 3000;
        let velocity = Velocity { x: vx, y: vy };
        proof {
            lemma_small_vel_ok(velocity);
        }
        let agent = Agent {
            position: Position { x: px, y: py },
            velocity,
            tagged: Tagged(TagState::NotIt),
            recently_tagged: RecentlyTagged(None),
            endurance: Endurance { current: ENDURANCE_DEFAULT_MAX, max: ENDURANCE_DEFAULT_MAX },
            behaviour: PlayerBehaviour {
                it_behaviour: ItBehaviour::ChaseNearest(ChaseNearestBehaviour),
                not_it_behaviour: NotItBehaviour::OpposeIt(OpposeItBehaviour),
            },
        };
        agents.push(agent);
        i += 1;
    }
    let mut world = World { agents, time: Time(0), tag_count: TagCount(0) };
    tag_initial_random_player(&mut world);
    world
}

} // verus!
