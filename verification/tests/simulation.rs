use tag::entities_components::{
    Agent, Endurance, PlayerBehaviour, RecentlyTagged, TagState, Tagged, Time, TagCount,
    ENDURANCE_DEFAULT_MAX,
};
use tag::geometry::{Position, Velocity};
use tag::spatial_index::SpatialIndex;
use tag::systems::{
    clear_old_recently_tagged, effective_velocity, regain_endurance, tag_collided_players, tick,
    update_player_position,
};
use tag::world::{initialize_world, tag_initial_random_player, World};

fn plain_agent(x: i64, y: i64, vx: i64, vy: i64) -> Agent {
    Agent {
        position: Position::new(x, y),
        velocity: Velocity::new(vx, vy),
        tagged: Tagged(TagState::NotIt),
        recently_tagged: RecentlyTagged(None),
        endurance: Endurance::default(),
        behaviour: PlayerBehaviour::default(),
    }
}

fn world_of(agents: Vec<Agent>, now: u128) -> World {
    World { agents, time: Time(now), tag_count: TagCount(0) }
}

fn count_it(world: &World) -> usize {
    world.agents.iter().filter(|a| a.tagged.0 == TagState::It).count()
}

// Toroidal wrap: a position at width - 0.5 units moving at +1 unit per
// tick lands at 0.5 units — a wrap, not a clamp.
#[test]
fn integration_wraps_around_the_world_edge() {
    let mut a = plain_agent(1_023_500, 1000, 1000, 0);
    a.tagged = Tagged(TagState::It);
    let mut world = world_of(vec![a], 0);
    update_player_position(&mut world);
    assert_eq!(world.agents[0].position.x, 500);
    assert_eq!(world.agents[0].position.y, 1000);
    // One point of stamina drains per tick.
    assert_eq!(world.agents[0].endurance.current, ENDURANCE_DEFAULT_MAX - 1);
}

#[test]
fn effective_velocity_is_damped_by_endurance() {
    let mut a = plain_agent(0, 0, 1000, 0);
    a.endurance = Endurance { current: 100, max: 100 };
    let full = effective_velocity(&a);
    assert_eq!((full.x, full.y), (1000, 0));
    a.endurance = Endurance { current: 50, max: 100 };
    let half = effective_velocity(&a);
    assert_eq!((half.x, half.y), (750, 0));
    a.endurance = Endurance { current: 1, max: 100 };
    let low = effective_velocity(&a);
    assert_eq!((low.x, low.y), (505, 0));
    a.velocity = Velocity::new(-1000, 0);
    let neg = effective_velocity(&a);
    assert_eq!((neg.x, neg.y), (-505, 0));
}

// Tag transfer: two agents just inside two player radii, one "it",
// neither recently tagged.  After one tick the tag owner swaps, the
// counter rises by exactly one, and both agents carry the same stamp.
#[test]
fn tag_transfers_on_contact() {
    let mut it_agent = plain_agent(0, 0, 0, 0);
    it_agent.tagged = Tagged(TagState::It);
    let candidate = plain_agent(19_900, 0, 0, 0);
    let mut world = world_of(vec![it_agent, candidate], 1000);
    tick(&mut world);
    assert_eq!(world.agents[0].tagged.0, TagState::NotIt);
    assert_eq!(world.agents[1].tagged.0, TagState::It);
    assert_eq!(world.agents[0].recently_tagged.0, Some(1000));
    assert_eq!(world.agents[1].recently_tagged.0, Some(1000));
    assert_eq!(world.tag_count.0, 1);
}

// Same contact, but the candidate was tagged this very millisecond: the
// cooldown blocks the transfer and nothing changes.
#[test]
fn tag_does_not_transfer_into_cooldown() {
    let mut it_agent = plain_agent(0, 0, 0, 0);
    it_agent.tagged = Tagged(TagState::It);
    let mut candidate = plain_agent(19_900, 0, 0, 0);
    candidate.recently_tagged = RecentlyTagged(Some(1000));
    let mut world = world_of(vec![it_agent, candidate], 1000);
    tick(&mut world);
    assert_eq!(world.agents[0].tagged.0, TagState::It);
    assert_eq!(world.agents[1].tagged.0, TagState::NotIt);
    assert_eq!(world.tag_count.0, 0);
}

// The cooldown gates both directions: a freshly tagged holder cannot pass
// the tag on, even onto a fresh candidate in range.
#[test]
fn tag_does_not_transfer_from_a_cooldown_holder() {
    let mut it_agent = plain_agent(0, 0, 0, 0);
    it_agent.tagged = Tagged(TagState::It);
    it_agent.recently_tagged = RecentlyTagged(Some(1000));
    let candidate = plain_agent(19_900, 0, 0, 0);
    let mut world = world_of(vec![it_agent, candidate], 1000);
    tick(&mut world);
    assert_eq!(world.agents[0].tagged.0, TagState::It);
    assert_eq!(world.agents[1].tagged.0, TagState::NotIt);
    assert_eq!(world.agents[1].recently_tagged.0, None);
    assert_eq!(world.tag_count.0, 0);
}

// The holder-side boundary is as sharp as the target side: a holder
// stamped at t may pass the tag again at exactly t + 5000, not before.
#[test]
fn holder_cooldown_boundary_is_exact() {
    for (now, transfers) in [(5999u128, false), (6000u128, true)] {
        let mut it_agent = plain_agent(0, 0, 0, 0);
        it_agent.tagged = Tagged(TagState::It);
        it_agent.recently_tagged = RecentlyTagged(Some(1000));
        let candidate = plain_agent(10_000, 0, 0, 0);
        let mut world = world_of(vec![it_agent, candidate], now);
        let index = SpatialIndex::build(&world.agents);
        tag_collided_players(&mut world, &index);
        assert_eq!(world.agents[1].tagged.0 == TagState::It, transfers);
        assert_eq!(world.tag_count.0 == 1, transfers);
    }
}

#[test]
fn tag_does_not_transfer_beyond_two_radii() {
    let mut it_agent = plain_agent(0, 0, 0, 0);
    it_agent.tagged = Tagged(TagState::It);
    let candidate = plain_agent(20_100, 0, 0, 0);
    let mut world = world_of(vec![it_agent, candidate], 1000);
    tick(&mut world);
    assert_eq!(world.agents[0].tagged.0, TagState::It);
    assert_eq!(world.tag_count.0, 0);
}

// The cooldown boundary, table-driven: a stamp at t blocks a transfer at
// t + 4999 and allows it at exactly t + 5000.
#[test]
fn cooldown_boundary_is_exact() {
    for (now, transfers) in [(5999u128, false), (6000u128, true)] {
        let mut it_agent = plain_agent(0, 0, 0, 0);
        it_agent.tagged = Tagged(TagState::It);
        let mut candidate = plain_agent(10_000, 0, 0, 0);
        candidate.recently_tagged = RecentlyTagged(Some(1000));
        let mut world = world_of(vec![it_agent, candidate], now);
        let index = SpatialIndex::build(&world.agents);
        tag_collided_players(&mut world, &index);
        assert_eq!(world.agents[1].tagged.0 == TagState::It, transfers);
        assert_eq!(world.tag_count.0 == 1, transfers);
    }
}

#[test]
fn single_agent_never_transfers() {
    let mut a = plain_agent(100, 100, 0, 0);
    a.tagged = Tagged(TagState::It);
    let mut world = world_of(vec![a], 50);
    tick(&mut world);
    assert_eq!(world.agents[0].tagged.0, TagState::It);
    assert_eq!(world.tag_count.0, 0);
}

#[test]
fn cooldown_sweep_clears_only_expired_stamps() {
    let mut fresh = plain_agent(0, 0, 0, 0);
    fresh.tagged = Tagged(TagState::It);
    fresh.recently_tagged = RecentlyTagged(Some(2000));
    let mut stale = plain_agent(500_000, 0, 0, 0);
    stale.recently_tagged = RecentlyTagged(Some(1000));
    let mut world = world_of(vec![fresh, stale], 6000);
    clear_old_recently_tagged(&mut world);
    assert_eq!(world.agents[0].recently_tagged.0, Some(2000));
    assert_eq!(world.agents[1].recently_tagged.0, None);
}

// Invariants over a long run: exactly one agent is "it" before and after
// every tick, and stamina stays within 1..=max for every agent.
#[test]
fn long_run_keeps_tag_unique_and_endurance_bounded() {
    let mut world = initialize_world(30);
    assert_eq!(count_it(&world), 1);
    for step in 1..=300u128 {
        world.set_time(step * 16);
        tick(&mut world);
        assert_eq!(count_it(&world), 1);
        for a in world.agents.iter() {
            assert!(1 <= a.endurance.current);
            assert!(a.endurance.current <= a.endurance.max);
        }
    }
}

// Initialization: the requested population, everyone inside the world,
// modest random velocities, full stamina, default behaviours, and the
// first agent promoted to "it".
#[test]
fn initialize_world_sets_up_the_population() {
    let world = initialize_world(50);
    assert_eq!(world.agents.len(), 50);
    assert_eq!(world.time.0, 0);
    assert_eq!(world.tag_count.0, 0);
    assert_eq!(world.agents[0].tagged.0, TagState::It);
    assert_eq!(count_it(&world), 1);
    for a in world.agents.iter() {
        assert!(0 <= a.position.x && a.position.x < 1_024_000);
        assert!(0 <= a.position.y && a.position.y < 1_024_000);
        assert!(-3000 <= a.velocity.x && a.velocity.x <= 3000);
        assert!(-3000 <= a.velocity.y && a.velocity.y <= 3000);
        assert_eq!(a.endurance.current, ENDURANCE_DEFAULT_MAX);
        assert_eq!(a.endurance.max, ENDURANCE_DEFAULT_MAX);
        assert_eq!(a.recently_tagged.0, None);
    }
}

// The regeneration step, on given drawn amounts: stamina rises by exactly
// the gain, clamped to the maximum, and nothing else changes.
#[test]
fn regain_adds_exactly_the_drawn_gain_clamped() {
    let mut a = plain_agent(7, 8, 9, 10);
    a.endurance = Endurance { current: 50, max: 100 };
    let b = regain_endurance(&a, 20);
    assert_eq!(b.endurance.current, 70);
    assert_eq!(b.endurance.max, 100);
    assert_eq!(b.position, a.position);
    assert_eq!(b.velocity, a.velocity);
    a.endurance = Endurance { current: 90, max: 100 };
    let c = regain_endurance(&a, 49);
    assert_eq!(c.endurance.current, 100);
    a.endurance = Endurance { current: 99, max: 100 };
    let d = regain_endurance(&a, 0);
    assert_eq!(d.endurance.current, 99);
}

#[test]
fn set_time_advances_only_the_clock() {
    let mut a = plain_agent(10, 10, 5, 5);
    a.tagged = Tagged(TagState::It);
    let mut world = world_of(vec![a], 100);
    world.set_time(250);
    assert_eq!(world.time.0, 250);
    assert_eq!(world.tag_count.0, 0);
    assert_eq!(world.agents[0].position.x, 10);
    assert_eq!(world.agents[0].velocity.x, 5);
}

#[test]
fn first_player_is_promoted_to_it() {
    let agents = vec![plain_agent(0, 0, 0, 0), plain_agent(5000, 0, 0, 0)];
    let mut world = world_of(agents, 0);
    tag_initial_random_player(&mut world);
    assert_eq!(world.agents[0].tagged.0, TagState::It);
    assert_eq!(world.agents[1].tagged.0, TagState::NotIt);
    assert_eq!(count_it(&world), 1);
}

#[test]
fn regeneration_never_exceeds_the_maximum() {
    // Run many ticks over a tiny population; whatever the random draws do,
    // stamina must stay within bounds and the counter must stay coherent.
    let mut world = initialize_world(3);
    let mut last_count = world.tag_count.0;
    for step in 1..=500u128 {
        world.set_time(step * 16);
        tick(&mut world);
        for a in world.agents.iter() {
            assert!(a.endurance.current <= a.endurance.max);
            assert!(a.endurance.current >= 1);
        }
        assert!(world.tag_count.0 == last_count || world.tag_count.0 == last_count + 1);
        last_count = world.tag_count.0;
    }
}
