use tag::entities_components::{
    Agent, Endurance, PlayerBehaviour, RecentlyTagged, TagState, Tagged,
};
use tag::geometry::{Position, Velocity};
use tag::spatial_index::SpatialIndex;

fn agent_at(x: i64, y: i64) -> Agent {
    Agent {
        position: Position::new(x, y),
        velocity: Velocity::new(0, 0),
        tagged: Tagged(TagState::NotIt),
        recently_tagged: RecentlyTagged(None),
        endurance: Endurance::default(),
        behaviour: PlayerBehaviour::default(),
    }
}

// A small multiplicative congruential generator, so the snapshot is a
// fixed pseudo-random population and the test is reproducible.
fn next(state: &mut u64) -> u64 {
    *state = state.wrapping_mul(6364136223846793005).wrapping_add(1442695040888963407);
    *state >> 33
}

fn random_agents(n: usize, seed: u64) -> Vec<Agent> {
    let mut state = seed;
    let mut agents = Vec::new();
    for _ in 0..n {
        let x = (next(&mut state) % 1_024_000) as i64;
        let y = (next(&mut state) % 1_024_000) as i64;
        agents.push(agent_at(x, y));
    }
    agents
}

fn dist2(p: &Position, q: &Position) -> i64 {
    let dx = q.x - p.x;
    let dy = q.y - p.y;
    dx * dx + dy * dy
}

// Nearest-neighbour correctness: for a pseudo-random snapshot of 60
// agents, `nearest_k` must match a brute-force linear scan for k in
// {1, 2, 5}, including the deterministic tie-break by id.
#[test]
fn nearest_k_matches_brute_force() {
    let agents = random_agents(60, 42);
    let index = SpatialIndex::build(&agents);
    for probe in 0..10usize {
        let p = agents[probe].position;
        let mut keyed: Vec<(i64, usize)> = agents
            .iter()
            .enumerate()
            .map(|(id, a)| (dist2(&p, &a.position), id))
            .collect();
        keyed.sort();
        for k in [1usize, 2, 5] {
            let got = index.nearest_k(&p, k);
            assert_eq!(got.len(), k);
            for (rank, rec) in got.iter().enumerate() {
                assert_eq!(rec.id, keyed[rank].1);
                assert_eq!(dist2(&p, &rec.position), keyed[rank].0);
            }
        }
    }
}

#[test]
fn nearest_k_caps_at_population() {
    let agents = random_agents(3, 7);
    let index = SpatialIndex::build(&agents);
    let got = index.nearest_k(&agents[0].position, 5);
    assert_eq!(got.len(), 3);
    assert_eq!(got[0].id, 0);
}

#[test]
fn nearest_excluding_self_skips_the_querying_agent() {
    let agents = random_agents(50, 99);
    let index = SpatialIndex::build(&agents);
    for probe in 0..50usize {
        let p = agents[probe].position;
        let got = index.nearest_excluding_self(&p, 5, probe);
        assert_eq!(got.len(), 5);
        let mut keyed: Vec<(i64, usize)> = agents
            .iter()
            .enumerate()
            .filter(|(id, _)| *id != probe)
            .map(|(id, a)| (dist2(&p, &a.position), id))
            .collect();
        keyed.sort();
        for (rank, rec) in got.iter().enumerate() {
            assert_ne!(rec.id, probe);
            assert_eq!(rec.id, keyed[rank].1);
        }
    }
}

// Ties on distance break toward the smaller id, deterministically.
#[test]
fn nearest_k_breaks_ties_by_id() {
    let agents = vec![
        agent_at(500, 500),
        agent_at(400, 500),
        agent_at(600, 500),
        agent_at(500, 400),
    ];
    let index = SpatialIndex::build(&agents);
    let got = index.nearest_k(&Position::new(500, 500), 4);
    assert_eq!(got[0].id, 0);
    assert_eq!(got[1].id, 1);
    assert_eq!(got[2].id, 2);
    assert_eq!(got[3].id, 3);
}

#[test]
fn build_snapshots_all_fields() {
    let mut agents = random_agents(4, 5);
    agents[2].tagged = Tagged(TagState::It);
    agents[3].recently_tagged = RecentlyTagged(Some(77));
    let index = SpatialIndex::build(&agents);
    assert_eq!(index.records.len(), 4);
    for (i, rec) in index.records.iter().enumerate() {
        assert_eq!(rec.id, i);
        assert_eq!(rec.position, agents[i].position);
        assert_eq!(rec.tagged == TagState::It, i == 2);
        assert_eq!(rec.recently_tagged, i == 3);
    }
}
