//! The spatial index: a nearest-neighbour structure over a per-tick snapshot
//! of every agent's position, velocity, cooldown flag and tag state.
//!
//! The index is a disposable cache.  It is rebuilt wholesale every tick from
//! the post-motion positions and must never survive into the next tick.
//! What the rest of the simulation relies on is purely its contract:
//! `nearest_k` returns the k nearest rows, nearest first, with ties broken
//! deterministically toward the smaller agent id.  The structure behind the
//! contract is a plain scan with selection of the minima, verified exactly
//! against that contract.

use vstd::prelude::*;
use vstd::seq_lib::lemma_seq_contains_after_push;

use crate::entities_components::{Agent, TagState};
use crate::geometry::{dist2_spec, pos_bounded, Position, Velocity};

verus! {

/// One row of the per-tick snapshot the index is built from.
#[derive(Clone, Copy, PartialEq, Eq, Structural, Debug)]
pub struct SnapshotRecord {
    pub id: usize,
    pub position: Position,
    pub velocity: Velocity,
    pub recently_tagged: bool,
    pub tagged: TagState,
}

/// The snapshot row for agent `a` with id `i`.
pub open spec fn record_of(i: int, a: Agent) -> SnapshotRecord {
    SnapshotRecord {
        id: i as usize,
        position: a.position,
        velocity: a.velocity,
        recently_tagged: a.recently_tagged.0 is Some,
        tagged: a.tagged.0,
    }
}

/// The index holds exactly one row per agent, in agent order.
pub open spec fn index_of(records: Seq<SnapshotRecord>, agents: Seq<Agent>) -> bool {
    &&& records.len() == agents.len()
    &&& forall|i: int| 0 <= i < agents.len() ==> #[trigger] records[i] == record_of(
        i,
        agents[i],
    )
}

/// Strict order on snapshot rows around a query point: nearer first, ties
/// broken toward the smaller agent id.
pub open spec fn key_lt(a: SnapshotRecord, b: SnapshotRecord, p: Position) -> bool {
    ||| dist2_spec(p, a.position) < dist2_spec(p, b.position)
    ||| (dist2_spec(p, a.position) == dist2_spec(p, b.position) && a.id < b.id)
}

/// Every row's position is within the bound geometry computes with.
pub open spec fn recs_bounded(s: Seq<SnapshotRecord>) -> bool {
    forall|i: int| 0 <= i < s.len() ==> pos_bounded(#[trigger] s[i].position)
}

/// No two rows carry the same id.
pub open spec fn ids_distinct(s: Seq<SnapshotRecord>) -> bool {
    forall|i: int, j: int| 0 <= i < j < s.len() ==> s[i].id != s[j].id
}

/// Row `i` carries id `i`: the shape `SpatialIndex::build` produces.
pub open spec fn ids_are_indexes(s: Seq<SnapshotRecord>) -> bool {
    forall|i: int| 0 <= i < s.len() ==> #[trigger] s[i].id == i
}

/// No two rows are the same value.
pub open spec fn rows_distinct(s: Seq<SnapshotRecord>) -> bool {
    forall|i: int, j: int| 0 <= i < j < s.len() ==> s[i] != s[j]
}

/// `r` is the list of the `k` rows of `s` nearest to `p`, nearest first.
pub open spec fn nearest_list(
    s: Seq<SnapshotRecord>,
    p: Position,
    k: int,
    r: Seq<SnapshotRecord>,
) -> bool {
    &&& r.len() == if k <= s.len() {
        k
    } else {
        s.len() as int
    }
    &&& forall|i: int, j: int| 0 <= i < j < r.len() ==> key_lt(r[i], r[j], p)
    &&& forall|i: int| 0 <= i < r.len() ==> s.contains(#[trigger] r[i])
    &&& forall|x: SnapshotRecord, i: int|
        #![trigger s.contains(x), r[i]]
        s.contains(x) && !r.contains(x) && 0 <= i < r.len() ==> key_lt(r[i], x, p)
}

/// On a prefix-equal pair of nearest lists, row `i` of the first cannot
/// strictly beat row `i` of the second.
proof fn lemma_nearest_row_not_less(
    s: Seq<SnapshotRecord>,
    p: Position,
    k: int,
    r1: Seq<SnapshotRecord>,
    r2: Seq<SnapshotRecord>,
    i: int,
)
    requires
        nearest_list(s, p, k, r1),
        nearest_list(s, p, k, r2),
        0 <= i < r1.len(),
        r1.len() == r2.len(),
        forall|j: int| 0 <= j < i ==> r1[j] == r2[j],
    ensures
        !key_lt(r2[i], r1[i], p),
{
    if key_lt(r2[i], r1[i], p) {
        assert(s.contains(r2[i]));
        if r1.contains(r2[i]) {
            let j2 = choose|j2: int| 0 <= j2 < r1.len() && r1[j2] == r2[i];
            assert(r1[j2] == r2[i]);
            if j2 < i {
                assert(r1[j2] == r2[j2]);
                assert(key_lt(r2[j2], r2[i], p));
            } else if j2 > i {
                assert(key_lt(r1[i], r1[j2], p));
            }
        } else {
            assert(key_lt(r1[i], r2[i], p));
        }
        assert(false);
    }
}

/// The nearest list around a snapshot with distinct ids is unique — ties
/// break deterministically, so a fixed snapshot has exactly one answer.
pub proof fn lemma_nearest_list_unique(
    s: Seq<SnapshotRecord>,
    p: Position,
    k: int,
    r1: Seq<SnapshotRecord>,
    r2: Seq<SnapshotRecord>,
)
    requires
        ids_distinct(s),
        nearest_list(s, p, k, r1),
        nearest_list(s, p, k, r2),
    ensures
        r1 == r2,
    decreases r1.len(),
{
    lemma_nearest_prefix_equal(s, p, k, r1, r2, r1.len() as int);
    assert(r1 =~= r2);
}

/// The first `m` rows of two nearest lists agree, by induction on `m`.
proof fn lemma_nearest_prefix_equal(
    s: Seq<SnapshotRecord>,
    p: Position,
    k: int,
    r1: Seq<SnapshotRecord>,
    r2: Seq<SnapshotRecord>,
    m: int,
)
    requires
        ids_distinct(s),
        nearest_list(s, p, k, r1),
        nearest_list(s, p, k, r2),
        0 <= m <= r1.len(),
    ensures
        forall|j: int| 0 <= j < m ==> r1[j] == r2[j],
    decreases m,
{
    if m > 0 {
        lemma_nearest_prefix_equal(s, p, k, r1, r2, m - 1);
        let i = m - 1;
        lemma_nearest_row_not_less(s, p, k, r1, r2, i);
        lemma_nearest_row_not_less(s, p, k, r2, r1, i);
        if r1[i] != r2[i] {
            assert(s.contains(r1[i]) && s.contains(r2[i]));
            lemma_members_distinct_ids(s, r1[i], r2[i]);
            assert(false);
        }
    }
}

/// The index rows still carry the ids and positions of the given agents:
/// the part of `index_of` that survives the behaviour pass (which may
/// leave the velocity rows stale) and that the tag machine relies on.
pub open spec fn index_matches(records: Seq<SnapshotRecord>, agents: Seq<Agent>) -> bool {
    &&& records.len() == agents.len()
    &&& forall|i: int| 0 <= i < records.len() ==> (#[trigger] records[i]).id == i
    &&& forall|i: int|
        0 <= i < records.len() ==> (#[trigger] records[i]).position == agents[i].position
}

/// A fresh index matches the agents it was built from.
pub proof fn lemma_index_of_matches(records: Seq<SnapshotRecord>, agents: Seq<Agent>)
    requires
        index_of(records, agents),
        records.len() <= usize::MAX,
    ensures
        index_matches(records, agents),
{
    assert forall|i: int| 0 <= i < records.len() implies (#[trigger] records[i]).id == i by {
        assert(records[i] == record_of(i, agents[i]));
    }
    assert forall|i: int|
        0 <= i < records.len() implies (#[trigger] records[i]).position == agents[i].position by {
        assert(records[i] == record_of(i, agents[i]));
    }
}

/// `r` is the list of the `k` rows of `s` nearest to `p` once the row with
/// id `excl` is set aside, nearest first.
pub open spec fn nearest_excluding(
    s: Seq<SnapshotRecord>,
    p: Position,
    k: int,
    excl: int,
    r: Seq<SnapshotRecord>,
) -> bool {
    &&& r.len() == if k <= s.len() - 1 {
        k
    } else {
        s.len() - 1
    }
    &&& forall|i: int, j: int| 0 <= i < j < r.len() ==> key_lt(r[i], r[j], p)
    &&& forall|i: int| 0 <= i < r.len() ==> s.contains(#[trigger] r[i]) && r[i].id != excl
    &&& forall|x: SnapshotRecord, i: int|
        #![trigger s.contains(x), r[i]]
        s.contains(x) && x.id != excl && !r.contains(x) && 0 <= i < r.len() ==> key_lt(
            r[i],
            x,
            p,
        )
}

/// Row `f` witnesses that `c` is the second row in the order around `p`:
/// `f` beats `c` and `c` beats every other row.
pub open spec fn second_witness(
    s: Seq<SnapshotRecord>,
    p: Position,
    f: SnapshotRecord,
    c: SnapshotRecord,
) -> bool {
    &&& s.contains(f)
    &&& s.contains(c)
    &&& f != c
    &&& key_lt(f, c, p)
    &&& forall|x: SnapshotRecord|
        #![trigger s.contains(x)]
        s.contains(x) && x != f && x != c ==> key_lt(c, x, p)
}

/// Row `c` is the second-nearest row of `s` around `p` — for a query at
/// the tag holder's own position, the transfer candidate.
pub open spec fn is_second_nearest(s: Seq<SnapshotRecord>, p: Position, c: SnapshotRecord) -> bool {
    exists|f: SnapshotRecord| #[trigger] second_witness(s, p, f, c)
}

/// A two-row `nearest_list` result names the second-nearest row.
pub proof fn lemma_nearest_two(s: Seq<SnapshotRecord>, p: Position, r: Seq<SnapshotRecord>)
    requires
        nearest_list(s, p, 2, r),
        r.len() == 2,
    ensures
        is_second_nearest(s, p, r[1]),
{
    let f = r[0];
    let c = r[1];
    assert(key_lt(f, c, p));
    assert forall|x: SnapshotRecord|
        s.contains(x) && x != f && x != c implies key_lt(c, x, p) by {
        if r.contains(x) {
            let idx = choose|idx: int| 0 <= idx < r.len() && r[idx] == x;
            assert(idx == 0 || idx == 1);
            assert(false);
        }
    }
    assert(second_witness(s, p, f, c));
}

/// Fewer than two rows name no second-nearest row.
pub proof fn lemma_no_second(s: Seq<SnapshotRecord>, p: Position, c: SnapshotRecord)
    requires
        s.len() < 2,
    ensures
        !is_second_nearest(s, p, c),
{
    if is_second_nearest(s, p, c) {
        let f = choose|f: SnapshotRecord| second_witness(s, p, f, c);
        let i = choose|i: int| 0 <= i < s.len() && s[i] == f;
        let j = choose|j: int| 0 <= j < s.len() && s[j] == c;
        assert(s[i] == f && s[j] == c);
        assert(i != j);
        assert(false);
    }
}

/// The second-nearest row is unique.
pub proof fn lemma_second_nearest_unique(
    s: Seq<SnapshotRecord>,
    p: Position,
    c1: SnapshotRecord,
    c2: SnapshotRecord,
)
    requires
        is_second_nearest(s, p, c1),
        is_second_nearest(s, p, c2),
    ensures
        c1 == c2,
{
    if c1 != c2 {
        let f1 = choose|f: SnapshotRecord| second_witness(s, p, f, c1);
        let f2 = choose|f: SnapshotRecord| second_witness(s, p, f, c2);
        assert(second_witness(s, p, f1, c1));
        assert(second_witness(s, p, f2, c2));
        if c2 == f1 {
            if c1 == f2 {
                assert(key_lt(c2, c1, p) && key_lt(c1, c2, p));
            } else {
                assert(s.contains(f2) && f2 != f1 && f2 != c1);
                assert(key_lt(c1, f2, p));
                assert(key_lt(f2, c2, p));
                assert(key_lt(c2, c1, p));
            }
        } else {
            assert(s.contains(c2) && c2 != f1 && c2 != c1);
            assert(key_lt(c1, c2, p));
            if c1 == f2 {
                assert(s.contains(f1) && f1 != f2 && f1 != c2);
                assert(key_lt(c2, f1, p));
                assert(key_lt(f1, c1, p));
            } else {
                assert(s.contains(c1) && c1 != f2 && c1 != c2);
                assert(key_lt(c2, c1, p));
            }
        }
        assert(false);
    }
}

/// Two distinct rows that are both members of a sequence with pairwise
/// distinct ids carry different ids.
proof fn lemma_members_distinct_ids(s: Seq<SnapshotRecord>, x: SnapshotRecord, y: SnapshotRecord)
    requires
        ids_distinct(s),
        s.contains(x),
        s.contains(y),
        x != y,
    ensures
        x.id != y.id,
{
    let i = choose|i: int| 0 <= i < s.len() && s[i] == x;
    let j = choose|j: int| 0 <= j < s.len() && s[j] == y;
    assert(s[i] == x && s[j] == y);
}

/// The order `key_lt` is total over rows with distinct ids.
proof fn lemma_key_trichotomy(a: SnapshotRecord, b: SnapshotRecord, p: Position)
    requires
        a.id != b.id,
        !key_lt(a, b, p),
    ensures
        key_lt(b, a, p),
{
}

/// Pairwise distinct ids make rows pairwise distinct values.
proof fn lemma_ids_distinct_rows(s: Seq<SnapshotRecord>)
    requires
        ids_distinct(s),
    ensures
        rows_distinct(s),
{
}

/// What removing row `i` does to distinctness and membership.
proof fn lemma_remove_props(s: Seq<SnapshotRecord>, i: int)
    requires
        0 <= i < s.len(),
        rows_distinct(s),
    ensures
        rows_distinct(s.remove(i)),
        forall|x: SnapshotRecord|
            #[trigger] s.remove(i).contains(x) ==> s.contains(x) && x != s[i],
        forall|j: int| 0 <= j < s.len() && j != i ==> s.remove(i).contains(#[trigger] s[j]),
{
    s.remove_ensures(i);
    assert forall|a: int, b: int|
        0 <= a < b < s.remove(i).len() implies s.remove(i)[a] != s.remove(i)[b] by {
        let aa = if a < i {
            a
        } else {
            a + 1
        };
        let bb = if b < i {
            b
        } else {
            b + 1
        };
        assert(s.remove(i)[a] == s[aa]);
        assert(s.remove(i)[b] == s[bb]);
    }
    assert forall|x: SnapshotRecord|
        #[trigger] s.remove(i).contains(x) implies s.contains(x) && x != s[i] by {
        let idx = choose|idx: int| 0 <= idx < s.remove(i).len() && s.remove(i)[idx] == x;
        let oi = if idx < i {
            idx
        } else {
            idx + 1
        };
        assert(s[oi] == x);
    }
    assert forall|j: int|
        0 <= j < s.len() && j != i implies s.remove(i).contains(#[trigger] s[j]) by {
        let nj = if j < i {
            j
        } else {
            j - 1
        };
        assert(s.remove(i)[nj] == s[j]);
    }
}

/// Decides `key_lt` on concrete rows.
fn key_lt_exec(a: &SnapshotRecord, b: &SnapshotRecord, p: &Position) -> (r: bool)
    requires
        pos_bounded(a.position),
        pos_bounded(b.position),
        pos_bounded(*p),
    ensures
        r == key_lt(*a, *b, *p),
{
    let da = p.distance2_to(&a.position);
    let db = p.distance2_to(&b.position);
    da < db || (da == db && a.id < b.id)
}

/// The rebuilt-every-tick nearest-neighbour index over all players'
/// positions.
pub struct SpatialIndex {
    pub records: Vec<SnapshotRecord>,
}

/// Selects, out of `v`, the `k` rows nearest to `p`, nearest first.
/// Consumes the working vector.
fn k_smallest(v: Vec<SnapshotRecord>, p: &Position, k: usize) -> (r: Vec<SnapshotRecord>)
    requires
        pos_bounded(*p),
        recs_bounded(v@),
        ids_distinct(v@),
    ensures
        nearest_list(v@, *p, k as int, r@),
{
    proof {
        lemma_ids_distinct_rows(v@);
    }
    let ghost orig = v@;
    let mut rest = v;
    let mut chosen: Vec<SnapshotRecord> = Vec::new();
    while chosen.len() < k && rest.len() > 0
        invariant
            pos_bounded(*p),
            recs_bounded(orig),
            ids_distinct(orig),
            chosen@.len() + rest@.len() == orig.len(),
            chosen@.len() <= k,
            rows_distinct(rest@),
            forall|x: SnapshotRecord| #[trigger] rest@.contains(x) ==> orig.contains(x),
            forall|x: SnapshotRecord| #[trigger] chosen@.contains(x) ==> orig.contains(x),
            forall|x: SnapshotRecord|
                #[trigger] orig.contains(x) ==> chosen@.contains(x) || rest@.contains(x),
            forall|a: int, b: int|
                0 <= a < b < chosen@.len() ==> key_lt(chosen@[a], chosen@[b], *p),
            forall|a: int, x: SnapshotRecord|
                #![trigger chosen@[a], rest@.contains(x)]
                0 <= a < chosen@.len() && rest@.contains(x) ==> key_lt(chosen@[a], x, *p),
        decreases rest@.len(),
    {
        let mut best: usize = 0;
        let mut idx: usize = 1;
        while idx < rest.len()
            invariant
                pos_bounded(*p),
                recs_bounded(orig),
                ids_distinct(orig),
                rows_distinct(rest@),
                forall|x: SnapshotRecord| #[trigger] rest@.contains(x) ==> orig.contains(x),
                rest@.len() > 0,
                best < idx <= rest@.len(),
                forall|a: int|
                    0 <= a < idx && a != best ==> key_lt(rest@[best as int], #[trigger] rest@[a], *p),
            decreases rest@.len() - idx,
        {
            proof {
                assert(rest@.contains(rest@[idx as int]));
                assert(rest@.contains(rest@[best as int]));
                assert(orig.contains(rest@[idx as int]));
                assert(orig.contains(rest@[best as int]));
            }
            if key_lt_exec(&rest[idx], &rest[best], p) {
                proof {
                    assert forall|a: int|
                        0 <= a < idx + 1 && a != idx implies key_lt(
                        rest@[idx as int],
                        #[trigger] rest@[a],
                        *p,
                    ) by {
                        if a != best {
                            assert(key_lt(rest@[best as int], rest@[a], *p));
                        }
                    }
                }
                best = idx;
            } else {
                proof {
                    lemma_members_distinct_ids(
                        orig,
                        rest@[idx as int],
                        rest@[best as int],
                    );
                    lemma_key_trichotomy(rest@[idx as int], rest@[best as int], *p);
                }
            }
            idx += 1;
        }
        proof {
            assert(rest@.contains(rest@[best as int]));
        }
        let ghost old_rest = rest@;
        let ghost old_chosen = chosen@;
        let m = rest.remove(best);
        proof {
            lemma_remove_props(old_rest, best as int);
            broadcast use lemma_seq_contains_after_push;
            assert forall|x: SnapshotRecord|
                #[trigger] orig.contains(x) implies old_chosen.push(m).contains(x)
                || rest@.contains(x) by {
                if old_chosen.contains(x) {
                } else {
                    assert(old_rest.contains(x));
                    let j = choose|j: int| 0 <= j < old_rest.len() && old_rest[j] == x;
                    if j == best as int {
                        assert(x == m);
                    } else {
                        assert(rest@.contains(old_rest[j]));
                    }
                }
            }
            assert forall|a: int, x: SnapshotRecord|
                #![trigger old_chosen.push(m)[a], rest@.contains(x)]
                0 <= a < old_chosen.push(m).len() && rest@.contains(x) implies key_lt(
                old_chosen.push(m)[a],
                x,
                *p,
            ) by {
                assert(old_rest.contains(x) && x != m);
                let j = choose|j: int| 0 <= j < old_rest.len() && old_rest[j] == x;
                if j != best as int {
                    assert(key_lt(m, old_rest[j], *p));
                }
                if a < old_chosen.len() {
                    assert(key_lt(old_chosen[a], x, *p));
                } else {
                    assert(old_chosen.push(m)[a] == m);
                }
            }
            assert forall|a: int, b: int|
                0 <= a < b < old_chosen.push(m).len() implies key_lt(
                old_chosen.push(m)[a],
                old_chosen.push(m)[b],
                *p,
            ) by {
                if b < old_chosen.len() {
                } else {
                    assert(old_rest.contains(old_rest[best as int]));
                    assert(key_lt(old_chosen[a], m, *p));
                }
            }
        }
        chosen.push(m);
    }
    proof {
        assert forall|i: int| 0 <= i < chosen@.len() implies orig.contains(
            #[trigger] chosen@[i],
        ) by {
            assert(chosen@.contains(chosen@[i]));
        }
        assert forall|x: SnapshotRecord, i: int|
            #![trigger orig.contains(x), chosen@[i]]
            orig.contains(x) && !chosen@.contains(x) && 0 <= i < chosen@.len() implies key_lt(
            chosen@[i],
            x,
            *p,
        ) by {
            assert(rest@.contains(x));
        }
    }
    chosen
}

impl SpatialIndex {
    /// Bulk construction from a snapshot of all agents, replacing any prior
    /// index; row `i` describes agent `i`.
    pub fn build(agents: &Vec<Agent>) -> (index: SpatialIndex)
        ensures
            index_of(index.records@, agents@),
    {
        let mut records: Vec<SnapshotRecord> = Vec::new();
        let mut i: usize = 0;
        while i < agents.len()
            invariant
                i <= agents.len(),
                records@.len() == i,
                forall|j: int| 0 <= j < i ==> #[trigger] records@[j] == record_of(
                    j,
                    agents@[j],
                ),
            decreases agents.len() - i,
        {
            let a = &agents[i];
            records.push(
                SnapshotRecord {
                    id: i,
                    position: a.position,
                    velocity: a.velocity,
                    recently_tagged: a.recently_tagged.0.is_some(),
                    tagged: a.tagged.0,
                },
            );
            i += 1;
        }
        SpatialIndex { records }
    }

    /// Up to `k` rows nearest to `p`, nearest first; ties break toward the
    /// smaller id.  The row at the query point itself, if any, is included.
    pub fn nearest_k(&self, p: &Position, k: usize) -> (r: Vec<SnapshotRecord>)
        requires
            pos_bounded(*p),
            recs_bounded(self.records@),
            ids_distinct(self.records@),
        ensures
            nearest_list(self.records@, *p, k as int, r@),
    {
        let mut work: Vec<SnapshotRecord> = Vec::new();
        let mut i: usize = 0;
        while i < self.records.len()
            invariant
                i <= self.records@.len(),
                work@.len() == i,
                forall|j: int| 0 <= j < i ==> work@[j] == self.records@[j],
            decreases self.records@.len() - i,
        {
            work.push(self.records[i]);
            i += 1;
        }
        proof {
            assert(work@ =~= self.records@);
        }
        k_smallest(work, p, k)
    }

    /// Up to `k` rows nearest to `p`, skipping the record of the querying
    /// agent itself (`self_id`) — which would otherwise be its own nearest
    /// neighbour at distance zero.
    pub fn nearest_excluding_self(&self, p: &Position, k: usize, self_id: usize) -> (r: Vec<
        SnapshotRecord,
    >)
        requires
            pos_bounded(*p),
            recs_bounded(self.records@),
            ids_are_indexes(self.records@),
            self_id < self.records@.len(),
        ensures
            nearest_excluding(self.records@, *p, k as int, self_id as int, r@),
    {
        let s = &self.records;
        let mut work: Vec<SnapshotRecord> = Vec::new();
        let mut i: usize = 0;
        while i < s.len()
            invariant
                ids_are_indexes(s@),
                self_id < s@.len(),
                i <= s@.len(),
                work@.len() == if i as int <= self_id as int {
                    i as int
                } else {
                    i - 1
                },
                forall|a: int, b: int| 0 <= a < b < work@.len() ==> work@[a].id < work@[b].id,
                forall|a: int|
                    0 <= a < work@.len() ==> (#[trigger] work@[a].id) < i && work@[a].id
                        != self_id,
                forall|a: int| 0 <= a < work@.len() ==> s@.contains(#[trigger] work@[a]),
                forall|j: int|
                    0 <= j < i && j != self_id ==> work@.contains(#[trigger] s@[j]),
                recs_bounded(work@),
                recs_bounded(s@),
                pos_bounded(*p),
            decreases s@.len() - i,
        {
            if i != self_id {
                proof {
                    broadcast use lemma_seq_contains_after_push;
                    assert(s@.contains(s@[i as int]));
                }
                work.push(s[i]);
            } else {
                proof {
                    broadcast use lemma_seq_contains_after_push;
                }
            }
            i += 1;
        }
        proof {
            assert(ids_distinct(work@));
        }
        let ghost workv = work@;
        let r = k_smallest(work, p, k);
        proof {
            assert forall|i2: int|
                0 <= i2 < r@.len() implies self.records@.contains(#[trigger] r@[i2])
                && r@[i2].id != self_id by {
                assert(workv.contains(r@[i2]));
                let a = choose|a: int| 0 <= a < workv.len() && workv[a] == r@[i2];
                assert(s@.contains(workv[a]));
            }
            assert forall|x: SnapshotRecord, i2: int|
                #![trigger self.records@.contains(x), r@[i2]]
                self.records@.contains(x) && x.id != self_id && !r@.contains(x) && 0 <= i2
                    < r@.len() implies key_lt(r@[i2], x, *p) by {
                let j = choose|j: int| 0 <= j < s@.len() && s@[j] == x;
                assert(x.id == j);
                assert(workv.contains(s@[j]));
            }
        }
        r
    }
}

} // verus!
