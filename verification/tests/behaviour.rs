use tag::behaviours::it::{ChaseNearestBehaviour, ItBehaviour, RandomBehaviour};
use tag::behaviours::not_it::{NotItBehaviour, OpposeItBehaviour};
use tag::behaviours::BehaviourContext;
use tag::entities_components::TagState;
use tag::geometry::{Position, Velocity};
use tag::spatial_index::SnapshotRecord;

fn record(id: usize, x: i64, y: i64, recently_tagged: bool, tagged: TagState) -> SnapshotRecord {
    SnapshotRecord {
        id,
        position: Position::new(x, y),
        velocity: Velocity::new(0, 0),
        recently_tagged,
        tagged,
    }
}

fn ctx(x: i64, y: i64, vx: i64, vy: i64, neighbors: Vec<SnapshotRecord>) -> BehaviourContext {
    BehaviourContext {
        position: Position::new(x, y),
        velocity: Velocity::new(vx, vy),
        nearest_neighbors: neighbors,
        distance2_to_it: 0,
    }
}

// The chaser steers toward its nearest neighbour that is not recently
// tagged, keeping its speed: the concrete steering case mirrored from the
// geometry regression.
#[test]
fn chase_steers_toward_the_target() {
    let neighbors = vec![record(1, -7000, 7000, false, TagState::NotIt)];
    let c = ctx(0, 0, 1000, 1000, neighbors);
    let w = ChaseNearestBehaviour.revise_orientation(&c);
    assert_eq!((w.x, w.y), (-1000, 1000));
}

// Recently tagged neighbours are skipped: the chaser picks the next one.
#[test]
fn chase_skips_recently_tagged_neighbours() {
    let neighbors = vec![
        record(1, 5000, 0, true, TagState::NotIt),
        record(2, 0, 9000, false, TagState::NotIt),
    ];
    let c = ctx(0, 0, 2000, 0, neighbors);
    let w = ChaseNearestBehaviour.revise_orientation(&c);
    // Steered straight up at the second neighbour, speed preserved.
    assert_eq!((w.x, w.y), (0, 2000));
}

// Within half a unit of the target the chaser is "arrived" and keeps its
// velocity unchanged.
#[test]
fn chase_holds_velocity_when_arrived() {
    let neighbors = vec![record(1, 300, 0, false, TagState::NotIt)];
    let c = ctx(0, 0, 1500, -500, neighbors);
    let w = ChaseNearestBehaviour.revise_orientation(&c);
    assert_eq!((w.x, w.y), (1500, -500));
}

// The evader steers away from the nearest "it" agent: the chase steering,
// negated.
#[test]
fn oppose_steers_away_from_the_it_agent() {
    let neighbors = vec![record(1, -7000, 7000, false, TagState::It)];
    let c = ctx(0, 0, 1000, 1000, neighbors);
    let w = OpposeItBehaviour.revise_orientation(&c);
    assert_eq!((w.x, w.y), (1000, -1000));
}

#[test]
fn oppose_holds_velocity_when_it_is_on_top_of_us() {
    let neighbors = vec![record(1, 0, 400, false, TagState::It)];
    let c = ctx(0, 0, 800, 0, neighbors);
    let w = OpposeItBehaviour.revise_orientation(&c);
    assert_eq!((w.x, w.y), (800, 0));
}

// Whatever the random draws do, a drift never raises the agent's speed.
#[test]
fn drift_never_raises_speed() {
    for _ in 0..200 {
        let c = ctx(0, 0, 900, -1200, Vec::new());
        let w = RandomBehaviour.revise_orientation(&c);
        assert!(w.x * w.x + w.y * w.y <= 900 * 900 + 1200 * 1200);
    }
}

// With no eligible neighbour the chaser falls back to drifting, which
// also never raises the speed.
#[test]
fn chase_falls_back_to_drift_without_targets() {
    for _ in 0..100 {
        let neighbors = vec![record(1, 5000, 0, true, TagState::NotIt)];
        let c = ctx(0, 0, 600, 800, neighbors);
        let w = ChaseNearestBehaviour.revise_orientation(&c);
        assert!(w.x * w.x + w.y * w.y <= 1_000_000);
    }
}

#[test]
fn default_behaviour_pairing() {
    assert!(matches!(ItBehaviour::default(), ItBehaviour::ChaseNearest(_)));
    assert!(matches!(NotItBehaviour::default(), NotItBehaviour::OpposeIt(_)));
}
