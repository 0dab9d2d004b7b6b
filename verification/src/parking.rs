use vstd::prelude::*;

use crate::map_model::MapModel;
use crate::rng::{
    fork_rng, is_permutation_of, shuffle, shuffle_perm, spec_apply_perm, stream, SimRng, StreamPos,
};
use crate::sim::Sim;
use crate::types::{BuildingID, ParkingSpot, RoadID, Vehicle};

verus! {

/// One road's free spots, each with the building it is privately reserved
/// for, if any.
pub type SpotRow = Vec<(ParkingSpot, Option<BuildingID>)>;

/// The views of a road-indexed table of spot rows.
pub open spec fn spec_rows_view(rows: Seq<SpotRow>) -> Seq<Seq<(ParkingSpot, Option<BuildingID>)>> {
    Seq::new(rows.len(), |i: int| rows[i]@)
}

/// The first spot in the row privately reserved for `b`, by index.
pub open spec fn spec_first_reserved(
    row: Seq<(ParkingSpot, Option<BuildingID>)>,
    b: BuildingID,
) -> Option<int>
    decreases row.len(),
{
    if row.len() == 0 {
        None
    } else if row[0].1 == Some(b) {
        Some(0)
    } else {
        match spec_first_reserved(row.drop_first(), b) {
            Some(i) => Some(i + 1),
            None => None,
        }
    }
}

/// The first unreserved spot in the row, by index.
pub open spec fn spec_first_unreserved(row: Seq<(ParkingSpot, Option<BuildingID>)>) -> Option<int>
    decreases row.len(),
{
    if row.len() == 0 {
        None
    } else if row[0].1 is None {
        Some(0)
    } else {
        match spec_first_unreserved(row.drop_first()) {
            Some(i) => Some(i + 1),
            None => None,
        }
    }
}

/// Which spot a road offers building `b`: spots reserved for `b` are
/// satisfied first, then any unreserved spot; a road with neither offers
/// nothing.
pub open spec fn spec_row_pick(
    row: Seq<(ParkingSpot, Option<BuildingID>)>,
    b: BuildingID,
) -> Option<int> {
    match spec_first_reserved(row, b) {
        Some(i) => Some(i),
        None => spec_first_unreserved(row),
    }
}

/// How many roads the search has not visited yet.
pub open spec fn spec_unvisited(visited: Seq<bool>) -> nat
    decreases visited.len(),
{
    if visited.len() == 0 {
        0
    } else {
        spec_unvisited(visited.drop_last()) + if visited.last() {
            0nat
        } else {
            1nat
        }
    }
}

proof fn lemma_unvisited_update_true(visited: Seq<bool>, i: int)
    requires
        0 <= i < visited.len(),
        !visited[i],
    ensures
        spec_unvisited(visited.update(i, true)) + 1 == spec_unvisited(visited),
    decreases visited.len(),
{
    let upd = visited.update(i, true);
    if i == visited.len() - 1 {
        assert(upd.drop_last() =~= visited.drop_last());
    } else {
        assert(upd.drop_last() =~= visited.drop_last().update(i, true));
        lemma_unvisited_update_true(visited.drop_last(), i);
    }
}

/// Push every not-yet-visited neighbor onto the queue, marking it visited,
/// in adjacency order.
pub open spec fn spec_enqueue(
    adj: Seq<RoadID>,
    queue: Seq<RoadID>,
    visited: Seq<bool>,
) -> (Seq<RoadID>, Seq<bool>)
    decreases adj.len(),
{
    if adj.len() == 0 {
        (queue, visited)
    } else {
        let (q, v) = spec_enqueue(adj.drop_last(), queue, visited);
        let n = adj.last();
        if n.0 < v.len() && !v[n.0 as int] {
            (q.push(n), v.update(n.0 as int, true))
        } else {
            (q, v)
        }
    }
}

proof fn lemma_enqueue_measure(adj: Seq<RoadID>, queue: Seq<RoadID>, visited: Seq<bool>)
    ensures
        ({
            let (q, v) = spec_enqueue(adj, queue, visited);
            &&& q.len() >= queue.len()
            &&& v.len() == visited.len()
            &&& spec_unvisited(v) + q.len() - queue.len() == spec_unvisited(visited)
        }),
    decreases adj.len(),
{
    if adj.len() > 0 {
        lemma_enqueue_measure(adj.drop_last(), queue, visited);
        let (q, v) = spec_enqueue(adj.drop_last(), queue, visited);
        let n = adj.last();
        if n.0 < v.len() && !v[n.0 as int] {
            lemma_unvisited_update_true(v, n.0 as int);
        }
    }
}

/// The visited set a search starts from: only the start road is marked.
pub open spec fn spec_initial_visited(n: nat, start: RoadID) -> Seq<bool> {
    Seq::new(n, |i: int| i == start.0 as int)
}

/// The breadth-first search for a spot usable by building `b`: visit roads
/// in queue order, take the first road whose row offers a spot, and push
/// unvisited neighbors as each road is exhausted. Returns which road and
/// which index within its row, or nothing once the frontier runs out.
pub open spec fn spec_bfs(
    map: MapModel,
    rows: Seq<Seq<(ParkingSpot, Option<BuildingID>)>>,
    queue: Seq<RoadID>,
    visited: Seq<bool>,
    b: BuildingID,
) -> Option<(RoadID, int)>
    decreases spec_unvisited(visited), queue.len(),
    via spec_bfs_decreases
{
    if queue.len() == 0 {
        None
    } else {
        let r = queue[0];
        if r.0 >= rows.len() || r.0 >= map.roads.len() {
            None
        } else {
            match spec_row_pick(rows[r.0 as int], b) {
                Some(i) => Some((r, i)),
                None => {
                    let (q2, v2) = spec_enqueue(
                        map.roads[r.0 as int].adjacent@,
                        queue.drop_first(),
                        visited,
                    );
                    spec_bfs(map, rows, q2, v2, b)
                },
            }
        }
    }
}

#[via_fn]
proof fn spec_bfs_decreases(
    map: MapModel,
    rows: Seq<Seq<(ParkingSpot, Option<BuildingID>)>>,
    queue: Seq<RoadID>,
    visited: Seq<bool>,
    b: BuildingID,
) {
    if queue.len() > 0 {
        let r = queue[0];
        if r.0 < rows.len() && r.0 < map.roads.len() {
            lemma_enqueue_measure(map.roads[r.0 as int].adjacent@, queue.drop_first(), visited);
        }
    }
}

proof fn lemma_first_reserved_char(row: Seq<(ParkingSpot, Option<BuildingID>)>, b: BuildingID)
    ensures
        match spec_first_reserved(row, b) {
            Some(i) => 0 <= i < row.len() && row[i].1 == Some(b) && forall|j: int|
                0 <= j < i ==> (#[trigger] row[j]).1 != Some(b),
            None => forall|j: int| 0 <= j < row.len() ==> (#[trigger] row[j]).1 != Some(b),
        },
    decreases row.len(),
{
    if row.len() > 0 && row[0].1 != Some(b) {
        lemma_first_reserved_char(row.drop_first(), b);
        assert forall|j: int| 1 <= j < row.len() implies row[j] == row.drop_first()[j - 1] by {}
    }
}

proof fn lemma_first_unreserved_char(row: Seq<(ParkingSpot, Option<BuildingID>)>)
    ensures
        match spec_first_unreserved(row) {
            Some(i) => 0 <= i < row.len() && row[i].1 is None && forall|j: int|
                0 <= j < i ==> !((#[trigger] row[j]).1 is None),
            None => forall|j: int| 0 <= j < row.len() ==> !((#[trigger] row[j]).1 is None),
        },
    decreases row.len(),
{
    if row.len() > 0 && !(row[0].1 is None) {
        lemma_first_unreserved_char(row.drop_first());
        assert forall|j: int| 1 <= j < row.len() implies row[j] == row.drop_first()[j - 1] by {}
    }
}

fn opt_restriction_is(restriction: &Option<BuildingID>, b: BuildingID) -> (r: bool)
    ensures
        r == (*restriction == Some(b)),
{
    match restriction {
        Some(x) => *x == b,
        None => false,
    }
}

/// The index of the spot a road offers building `b`, if any: spots reserved
/// for `b` first, then any unreserved one.
fn row_pick(row: &SpotRow, b: BuildingID) -> (r: Option<usize>)
    ensures
        match r {
            Some(i) => spec_row_pick(row@, b) == Some(i as int) && 0 <= i < row@.len(),
            None => spec_row_pick(row@, b) is None,
        },
{
    proof {
        lemma_first_reserved_char(row@, b);
        lemma_first_unreserved_char(row@);
    }
    let mut i: usize = 0;
    while i < row.len()
        invariant
            0 <= i <= row@.len(),
            forall|j: int| 0 <= j < i ==> (#[trigger] row@[j]).1 != Some(b),
        decreases row@.len() - i,
    {
        if opt_restriction_is(&row[i].1, b) {
            proof {
                lemma_first_reserved_char(row@, b);
                match spec_first_reserved(row@, b) {
                    Some(k) => {
                        assert(!(k < i as int));
                        assert(!((i as int) < k)) by {
                            assert(row@[i as int].1 == Some(b));
                        }
                    },
                    None => {
                        assert(row@[i as int].1 != Some(b));
                    },
                }
            }
            return Some(i);
        }
        i = i + 1;
    }
    let mut k: usize = 0;
    while k < row.len()
        invariant
            0 <= k <= row@.len(),
            forall|j: int| 0 <= j < row@.len() ==> (#[trigger] row@[j]).1 != Some(b),
            forall|j: int| 0 <= j < k ==> !((#[trigger] row@[j]).1 is None),
        decreases row@.len() - k,
    {
        if row[k].1.is_none() {
            proof {
                lemma_first_reserved_char(row@, b);
                lemma_first_unreserved_char(row@);
                match spec_first_unreserved(row@) {
                    Some(m) => {
                        assert(!(m < k as int));
                        assert(!((k as int) < m)) by {
                            assert(row@[k as int].1 is None);
                        }
                    },
                    None => {
                        assert(row@[k as int].1 is None);
                    },
                }
            }
            return Some(k);
        }
        k = k + 1;
    }
    proof {
        lemma_first_reserved_char(row@, b);
        lemma_first_unreserved_char(row@);
    }
    None
}

/// What searching near building `b` yields: the spot found, if any, and the
/// table as it stands once that spot is taken out.
pub open spec fn spec_find_spot(
    map: MapModel,
    rows: Seq<Seq<(ParkingSpot, Option<BuildingID>)>>,
    b: BuildingID,
) -> Option<(ParkingSpot, Seq<Seq<(ParkingSpot, Option<BuildingID>)>>)> {
    if b.0 < map.buildings.len() {
        let start = map.buildings[b.0 as int].road;
        let visited0 = spec_initial_visited(map.roads.len() as nat, start);
        match spec_bfs(map, rows, seq![start], visited0, b) {
            Some(pick) => Some(
                (
                    rows[pick.0.0 as int][pick.1].0,
                    rows.update(pick.0.0 as int, rows[pick.0.0 as int].remove(pick.1)),
                ),
            ),
            None => None,
        }
    } else {
        None
    }
}

/// Pick a parking spot for this building: if the building's own road offers
/// a free spot, use it; otherwise search outward road by road, visiting each
/// road once, until some road offers one. The chosen spot leaves the table.
pub fn find_spot_near_building(
    b: BuildingID,
    open_spots_per_road: &mut Vec<SpotRow>,
    map: &MapModel,
) -> (r: Option<ParkingSpot>)
    requires
        map.spec_wf(),
        b.0 < map.buildings@.len(),
        old(open_spots_per_road)@.len() == map.roads@.len(),
    ensures
        final(open_spots_per_road)@.len() == map.roads@.len(),
        match spec_find_spot(*map, spec_rows_view(old(open_spots_per_road)@), b) {
            Some(pick) => {
                &&& r == Some(pick.0)
                &&& spec_rows_view(final(open_spots_per_road)@) =~= pick.1
            },
            None => {
                &&& r is None
                &&& spec_rows_view(final(open_spots_per_road)@) =~= spec_rows_view(
                    old(open_spots_per_road)@,
                )
            },
        },
{
    let ghost rows0 = spec_rows_view(old(open_spots_per_road)@);
    let n = open_spots_per_road.len();
    let start = map.building_to_road(b);
    let mut visited: Vec<bool> = Vec::new();
    let mut i: usize = 0;
    while i < n
        invariant
            0 <= i <= n,
            start.0 < n,
            visited@ =~= Seq::new(i as nat, |j: int| j == start.0 as int),
        decreases n - i,
    {
        visited.push(i == start.0);
        i = i + 1;
    }
    let mut queue: Vec<RoadID> = Vec::new();
    queue.push(start);
    let ghost visited0 = spec_initial_visited(map.roads@.len() as nat, start);
    proof {
        assert(visited@ =~= visited0);
        assert(queue@ =~= seq![start]);
    }
    loop
        invariant
            map.spec_wf(),
            b.0 < map.buildings@.len(),
            start == map.buildings@[b.0 as int].road,
            visited0 == spec_initial_visited(map.roads@.len() as nat, start),
            rows0 == spec_rows_view(old(open_spots_per_road)@),
            open_spots_per_road@ == old(open_spots_per_road)@,
            rows0 == spec_rows_view(open_spots_per_road@),
            open_spots_per_road@.len() == map.roads@.len(),
            visited@.len() == map.roads@.len(),
            forall|k: int| 0 <= k < queue@.len() ==> (#[trigger] queue@[k]).0 < map.roads@.len(),
            spec_bfs(*map, rows0, queue@, visited@, b) == spec_bfs(
                *map,
                rows0,
                seq![start],
                visited0,
                b,
            ),
        decreases spec_unvisited(visited@), queue@.len(),
    {
        if queue.len() == 0 {
            return None;
        }
        let ghost pre_queue = queue@;
        let ghost pre_visited = visited@;
        let r = queue.remove(0);
        proof {
            assert(queue@ =~= pre_queue.drop_first());
        }
        match row_pick(&open_spots_per_road[r.0], b) {
            Some(idx) => {
                let (spot, _) = open_spots_per_road[r.0].remove(idx);
                proof {
                    assert(spec_bfs(*map, rows0, pre_queue, pre_visited, b) == Some(
                        (r, idx as int),
                    ));
                    assert(spec_rows_view(open_spots_per_road@) =~= rows0.update(
                        r.0 as int,
                        rows0[r.0 as int].remove(idx as int),
                    ));
                }
                return Some(spot);
            },
            None => {
                let adj = map.get_next_roads(r);
                let ghost q_base = queue@;
                let ghost v_base = visited@;
                let mut j: usize = 0;
                while j < adj.len()
                    invariant
                        map.spec_wf(),
                        r.0 < map.roads@.len(),
                        adj@ == map.roads@[r.0 as int].adjacent@,
                        0 <= j <= adj@.len(),
                        visited@.len() == v_base.len(),
                        v_base.len() == map.roads@.len(),
                        forall|k: int|
                            0 <= k < queue@.len() ==> (#[trigger] queue@[k]).0 < map.roads@.len(),
                        (queue@, visited@) == spec_enqueue(
                            adj@.subrange(0, j as int),
                            q_base,
                            v_base,
                        ),
                    decreases adj@.len() - j,
                {
                    proof {
                        assert(adj@.subrange(0, j as int + 1).drop_last() =~= adj@.subrange(
                            0,
                            j as int,
                        ));
                        assert(adj@.subrange(0, j as int + 1).last() == adj@[j as int]);
                    }
                    let next_r = adj[j];
                    if !visited[next_r.0] {
                        queue.push(next_r);
                        visited[next_r.0] = true;
                    }
                    j = j + 1;
                }
                proof {
                    assert(adj@.subrange(0, adj@.len() as int) =~= adj@);
                    lemma_enqueue_measure(adj@, q_base, v_base);
                }
            },
        }
    }
}

/// One empty spot row per road.
pub open spec fn spec_empty_rows(n: nat) -> Seq<Seq<(ParkingSpot, Option<BuildingID>)>> {
    Seq::new(n, |i: int| Seq::empty())
}

/// Free spots grouped by the road they belong to, keeping input order within
/// each road, each spot paired with its private-reservation restriction.
pub open spec fn spec_group_spots(map: MapModel, spots: Seq<ParkingSpot>) -> Seq<
    Seq<(ParkingSpot, Option<BuildingID>)>,
>
    decreases spots.len(),
{
    if spots.len() == 0 {
        spec_empty_rows(map.roads.len() as nat)
    } else {
        let prev = spec_group_spots(map, spots.drop_last());
        let s = spots.last();
        let r = map.spec_spot_road(s).0 as int;
        if 0 <= r < prev.len() {
            prev.update(r, prev[r].push((s, map.spec_spot_restriction(s))))
        } else {
            prev
        }
    }
}

proof fn lemma_group_spots_len(map: MapModel, spots: Seq<ParkingSpot>)
    ensures
        spec_group_spots(map, spots).len() == map.roads.len(),
    decreases spots.len(),
{
    if spots.len() > 0 {
        lemma_group_spots_len(map, spots.drop_last());
    }
}

fn group_spots(map: &MapModel, spots: &Vec<ParkingSpot>) -> (rows: Vec<SpotRow>)
    requires
        map.spec_wf(),
        forall|i: int| 0 <= i < spots@.len() ==> map.spec_spot_valid(#[trigger] spots@[i]),
    ensures
        rows@.len() == map.roads@.len(),
        spec_rows_view(rows@) =~= spec_group_spots(*map, spots@),
{
    let n = map.roads.len();
    let mut rows: Vec<SpotRow> = Vec::new();
    let mut i: usize = 0;
    while i < n
        invariant
            0 <= i <= n,
            rows@.len() == i,
            forall|k: int| 0 <= k < i ==> (#[trigger] rows@[k])@.len() == 0,
        decreases n - i,
    {
        rows.push(Vec::new());
        i = i + 1;
    }
    proof {
        assert(spec_rows_view(rows@) =~~= spec_empty_rows(n as nat));
    }
    let mut j: usize = 0;
    while j < spots.len()
        invariant
            map.spec_wf(),
            forall|k: int| 0 <= k < spots@.len() ==> map.spec_spot_valid(#[trigger] spots@[k]),
            0 <= j <= spots@.len(),
            n == map.roads@.len(),
            rows@.len() == n,
            spec_rows_view(rows@) =~= spec_group_spots(*map, spots@.subrange(0, j as int)),
        decreases spots@.len() - j,
    {
        proof {
            assert(spots@.subrange(0, j as int + 1).drop_last() =~= spots@.subrange(0, j as int));
            assert(spots@.subrange(0, j as int + 1).last() == spots@[j as int]);
            lemma_group_spots_len(*map, spots@.subrange(0, j as int));
        }
        let s = spots[j];
        let r = map.spot_road(s);
        let restriction = map.spot_restriction(s);
        let ghost before = spec_rows_view(rows@);
        rows[r.0].push((s, restriction));
        proof {
            assert(spec_rows_view(rows@) =~= before.update(
                r.0 as int,
                before[r.0 as int].push((s, restriction)),
            ));
        }
        j = j + 1;
    }
    proof {
        assert(spots@.subrange(0, spots@.len() as int) =~= spots@);
    }
    rows
}

/// Every road's spots shuffled with its own forked sub-stream: the fork for
/// road `r` is the `r`-th fork taken from the base stream at `pos`, so
/// editing the spots of one road never perturbs another road's outcome.
pub open spec fn spec_shuffle_rows(
    rows: Seq<Seq<(ParkingSpot, Option<BuildingID>)>>,
    pos: StreamPos,
) -> Seq<Seq<(ParkingSpot, Option<BuildingID>)>> {
    Seq::new(
        rows.len(),
        |r: int|
            spec_apply_perm(
                rows[r],
                shuffle_perm(rows[r].len(), stream(pos.seed, (pos.taken + 2 * r) as nat), 0),
            ),
    )
}

/// Law: two spot tables that differ only on road `r` are shuffled
/// identically on every other road, given the same base stream position.
pub proof fn lemma_fork_independence(
    rows1: Seq<Seq<(ParkingSpot, Option<BuildingID>)>>,
    rows2: Seq<Seq<(ParkingSpot, Option<BuildingID>)>>,
    pos: StreamPos,
    r: int,
)
    requires
        rows1.len() == rows2.len(),
        forall|k: int| 0 <= k < rows1.len() && k != r ==> rows1[k] == rows2[k],
    ensures
        forall|k: int|
            0 <= k < rows1.len() && k != r ==> spec_shuffle_rows(rows1, pos)[k]
                == spec_shuffle_rows(rows2, pos)[k],
{
    assert forall|k: int|
        0 <= k < rows1.len() && k != r implies spec_shuffle_rows(rows1, pos)[k]
        == spec_shuffle_rows(rows2, pos)[k] by {
        assert(rows1[k] == rows2[k]);
        assert(spec_apply_perm(
            rows1[k],
            shuffle_perm(rows1[k].len(), stream(pos.seed, (pos.taken + 2 * k) as nat), 0),
        ) == spec_apply_perm(
            rows2[k],
            shuffle_perm(rows2[k].len(), stream(pos.seed, (pos.taken + 2 * k) as nat), 0),
        ));
    }
}

fn shuffle_all_rows(rows: &mut Vec<SpotRow>, base_rng: &mut SimRng)
    ensures
        final(rows)@.len() == old(rows)@.len(),
        spec_rows_view(final(rows)@) =~= spec_shuffle_rows(
            spec_rows_view(old(rows)@),
            old(base_rng)@,
        ),
        final(base_rng)@ == (StreamPos {
            seed: old(base_rng)@.seed,
            taken: old(base_rng)@.taken + 2 * old(rows)@.len(),
        }),
{
    let ghost rows0 = spec_rows_view(old(rows)@);
    let ghost pos0 = old(base_rng)@;
    let n = rows.len();
    let mut r: usize = 0;
    while r < n
        invariant
            0 <= r <= n,
            n == old(rows)@.len(),
            rows@.len() == n,
            rows0 == spec_rows_view(old(rows)@),
            pos0 == old(base_rng)@,
            base_rng@ == (StreamPos { seed: pos0.seed, taken: (pos0.taken + 2 * r) as nat }),
            forall|k: int|
                r <= k < n ==> (#[trigger] rows@[k]) == old(rows)@[k],
            forall|k: int|
                0 <= k < r ==> (#[trigger] rows@[k])@ == spec_shuffle_rows(rows0, pos0)[k],
        decreases n - r,
    {
        let ghost row_before = rows@[r as int]@;
        let mut tmp_rng = fork_rng(base_rng);
        shuffle(&mut tmp_rng, &mut rows[r]);
        proof {
            let seed = stream(pos0.seed, (pos0.taken + 2 * r) as nat);
            let perm = shuffle_perm(row_before.len(), seed, 0);
            assert(rows@[r as int]@ =~= spec_apply_perm(row_before, perm));
            assert(rows0[r as int] == row_before);
        }
        r = r + 1;
    }
    proof {
        assert(spec_rows_view(rows@) =~= spec_shuffle_rows(rows0, pos0));
    }
}

/// The outcome of seeding cars into a shuffled spot table: the assignments
/// made, the table afterwards, how many cars found a spot, and whether the
/// pass was still going when it ended. As soon as one car finds no spot, all
/// later cars are treated as failed too: parking exhaustion ends the pass.
pub ghost struct SeedOutcome {
    pub assigned: Seq<(Vehicle, ParkingSpot)>,
    pub rows: Seq<Seq<(ParkingSpot, Option<BuildingID>)>>,
    pub seeded: nat,
    pub ok: bool,
}

pub open spec fn spec_seed_cars(
    map: MapModel,
    cars: Seq<(Vehicle, BuildingID)>,
    rows: Seq<Seq<(ParkingSpot, Option<BuildingID>)>>,
) -> SeedOutcome
    decreases cars.len(),
{
    if cars.len() == 0 {
        SeedOutcome { assigned: Seq::empty(), rows, seeded: 0, ok: true }
    } else {
        let prev = spec_seed_cars(map, cars.drop_last(), rows);
        if !prev.ok {
            prev
        } else {
            match spec_find_spot(map, prev.rows, cars.last().1) {
                Some(pick) => SeedOutcome {
                    assigned: prev.assigned.push((cars.last().0, pick.0)),
                    rows: pick.1,
                    seeded: prev.seeded + 1,
                    ok: true,
                },
                None => SeedOutcome { ok: false, ..prev },
            }
        }
    }
}

/// The outcome of unconstrained seeding: each car takes a free off-street
/// spot at its own building, or counts as blackholed if the building has
/// none.
pub ghost struct InfiniteOutcome {
    pub assigned: Seq<(Vehicle, ParkingSpot)>,
    pub free: Seq<Seq<ParkingSpot>>,
    pub blackholed: nat,
}

/// The views of the per-building free-spot lists.
pub open spec fn spec_free_view(free: Seq<Vec<ParkingSpot>>) -> Seq<Seq<ParkingSpot>> {
    Seq::new(free.len(), |i: int| free[i]@)
}

pub open spec fn spec_seed_infinite(
    cars: Seq<(Vehicle, BuildingID)>,
    free: Seq<Seq<ParkingSpot>>,
) -> InfiniteOutcome
    decreases cars.len(),
{
    if cars.len() == 0 {
        InfiniteOutcome { assigned: Seq::empty(), free, blackholed: 0 }
    } else {
        let prev = spec_seed_infinite(cars.drop_last(), free);
        let b = cars.last().1;
        if b.0 < prev.free.len() && prev.free[b.0 as int].len() > 0 {
            InfiniteOutcome {
                assigned: prev.assigned.push((cars.last().0, prev.free[b.0 as int].last())),
                free: prev.free.update(b.0 as int, prev.free[b.0 as int].drop_last()),
                blackholed: prev.blackholed,
            }
        } else {
            InfiniteOutcome { blackholed: prev.blackholed + 1, ..prev }
        }
    }
}

/// What a seeding pass reports: how many cars got a spot, how many were
/// asked for, and how many were lost to blackholed buildings.
#[derive(Clone, Copy, PartialEq, Eq, Structural, Debug)]
pub struct ParkingReport {
    pub seeded: usize,
    pub total: usize,
    pub blackholed: usize,
}

/// Assign physical parking spots to the cars that start parked, in the given
/// (already shuffled) order. Unconstrained mode takes a free spot at each
/// car's own building; constrained mode groups all free spots by road,
/// shuffles each road with its own forked sub-stream, and searches outward
/// from each car's building, stopping the whole pass at the first car that
/// finds nothing.
pub fn seed_parked_cars(
    parked_cars: Vec<(Vehicle, BuildingID)>,
    sim: &mut Sim,
    map: &MapModel,
    base_rng: &mut SimRng,
) -> (report: ParkingReport)
    requires
        map.spec_wf(),
        old(sim).spec_wf(*map),
        forall|i: int|
            0 <= i < parked_cars@.len() ==> (#[trigger] parked_cars@[i]).1.0
                < map.buildings@.len(),
    ensures
        report.total == parked_cars@.len(),
        old(sim).infinite_parking ==> ({
            let out = spec_seed_infinite(parked_cars@, spec_free_view(old(sim).free_offstreet@));
            &&& *final(sim) == (Sim {
                parked: final(sim).parked,
                free_offstreet: final(sim).free_offstreet,
                ..*old(sim)
            })
            &&& final(sim).parked@ == old(sim).parked@ + out.assigned
            &&& spec_free_view(final(sim).free_offstreet@) =~= out.free
            &&& report.blackholed == out.blackholed
            &&& report.seeded == out.assigned.len()
            &&& final(base_rng)@ == old(base_rng)@
        }),
        !old(sim).infinite_parking ==> ({
            let rows1 = spec_shuffle_rows(
                spec_group_spots(*map, old(sim).all_parking_spots@),
                old(base_rng)@,
            );
            let out = spec_seed_cars(*map, parked_cars@, rows1);
            &&& *final(sim) == (Sim { parked: final(sim).parked, ..*old(sim) })
            &&& final(sim).parked@ == old(sim).parked@ + out.assigned
            &&& report.seeded == out.seeded
            &&& report.blackholed == 0
            &&& final(base_rng)@ == (StreamPos {
                seed: old(base_rng)@.seed,
                taken: old(base_rng)@.taken + 2 * map.roads@.len(),
            })
        }),
{
    let total = parked_cars.len();
    if sim.infinite_parking {
        let ghost free0 = spec_free_view(old(sim).free_offstreet@);
        let mut blackholed: usize = 0;
        let mut seeded: usize = 0;
        let mut i: usize = 0;
        while i < parked_cars.len()
            invariant
                0 <= i <= parked_cars@.len(),
                forall|k: int|
                    0 <= k < parked_cars@.len() ==> (#[trigger] parked_cars@[k]).1.0 < old(
                        sim,
                    ).free_offstreet@.len(),
                free0 == spec_free_view(old(sim).free_offstreet@),
                sim.infinite_parking == old(sim).infinite_parking,
                *sim == (Sim {
                    parked: sim.parked,
                    free_offstreet: sim.free_offstreet,
                    ..*old(sim)
                }),
                sim.free_offstreet@.len() == old(sim).free_offstreet@.len(),
                ({
                    let out = spec_seed_infinite(parked_cars@.subrange(0, i as int), free0);
                    &&& sim.parked@ == old(sim).parked@ + out.assigned
                    &&& spec_free_view(sim.free_offstreet@) =~= out.free
                    &&& blackholed == out.blackholed
                    &&& seeded == out.assigned.len()
                }),
                seeded <= i,
                blackholed <= i,
            decreases parked_cars@.len() - i,
        {
            proof {
                assert(parked_cars@.subrange(0, i as int + 1).drop_last() =~= parked_cars@.subrange(
                    0,
                    i as int,
                ));
                assert(parked_cars@.subrange(0, i as int + 1).last() == parked_cars@[i as int]);
            }
            let (vehicle, b) = parked_cars[i];
            let ghost free_before = spec_free_view(sim.free_offstreet@);
            match sim.pop_free_offstreet(b) {
                Some(spot) => {
                    proof {
                        assert(free_before[b.0 as int].len() > 0);
                        assert(spot == free_before[b.0 as int].last());
                    }
                    sim.seed_parked_car(vehicle, spot);
                    seeded = seeded + 1;
                    proof {
                        assert(spec_free_view(sim.free_offstreet@) =~= free_before.update(
                            b.0 as int,
                            free_before[b.0 as int].drop_last(),
                        ));
                    }
                },
                None => {
                    blackholed = blackholed + 1;
                    proof {
                        assert(spec_free_view(sim.free_offstreet@) =~= free_before);
                    }
                },
            }
            i = i + 1;
        }
        proof {
            assert(parked_cars@.subrange(0, parked_cars@.len() as int) =~= parked_cars@);
        }
        return ParkingReport { seeded, total, blackholed };
    }
    let mut open_spots_per_road = group_spots(map, sim.get_all_parking_spots());
    shuffle_all_rows(&mut open_spots_per_road, base_rng);
    let ghost rows1 = spec_shuffle_rows(
        spec_group_spots(*map, old(sim).all_parking_spots@),
        old(base_rng)@,
    );
    proof {
        lemma_group_spots_len(*map, old(sim).all_parking_spots@);
        assert(spec_rows_view(open_spots_per_road@) =~= rows1);
    }
    let mut ok = true;
    let mut seeded: usize = 0;
    let mut i: usize = 0;
    while i < parked_cars.len()
        invariant
            map.spec_wf(),
            0 <= i <= parked_cars@.len(),
            forall|k: int|
                0 <= k < parked_cars@.len() ==> (#[trigger] parked_cars@[k]).1.0
                    < map.buildings@.len(),
            rows1 == spec_shuffle_rows(
                spec_group_spots(*map, old(sim).all_parking_spots@),
                old(base_rng)@,
            ),
            rows1.len() == map.roads@.len(),
            open_spots_per_road@.len() == map.roads@.len(),
            *sim == (Sim { parked: sim.parked, ..*old(sim) }),
            ({
                let out = spec_seed_cars(*map, parked_cars@.subrange(0, i as int), rows1);
                &&& sim.parked@ == old(sim).parked@ + out.assigned
                &&& spec_rows_view(open_spots_per_road@) =~= out.rows
                &&& seeded == out.seeded
                &&& ok == out.ok
            }),
            seeded <= i,
        decreases parked_cars@.len() - i,
    {
        proof {
            assert(parked_cars@.subrange(0, i as int + 1).drop_last() =~= parked_cars@.subrange(
                0,
                i as int,
            ));
            assert(parked_cars@.subrange(0, i as int + 1).last() == parked_cars@[i as int]);
        }
        if ok {
            let (vehicle, b) = parked_cars[i];
            let ghost rows_before = spec_rows_view(open_spots_per_road@);
            match find_spot_near_building(b, &mut open_spots_per_road, map) {
                Some(spot) => {
                    seeded = seeded + 1;
                    sim.seed_parked_car(vehicle, spot);
                },
                None => {
                    ok = false;
                },
            }
        }
        i = i + 1;
    }
    proof {
        assert(parked_cars@.subrange(0, parked_cars@.len() as int) =~= parked_cars@);
    }
    ParkingReport { seeded, total, blackholed: 0 }
}

proof fn lemma_enqueue_members(
    adj: Seq<RoadID>,
    queue: Seq<RoadID>,
    visited: Seq<bool>,
    s: Set<RoadID>,
)
    requires
        forall|k: int| 0 <= k < queue.len() ==> s.contains(#[trigger] queue[k]),
        forall|j: int| 0 <= j < adj.len() ==> s.contains(#[trigger] adj[j]),
    ensures
        ({
            let (q, v) = spec_enqueue(adj, queue, visited);
            forall|k: int| 0 <= k < q.len() ==> s.contains(#[trigger] q[k])
        }),
    decreases adj.len(),
{
    if adj.len() > 0 {
        assert forall|j: int| 0 <= j < adj.drop_last().len() implies s.contains(
            #[trigger] adj.drop_last()[j],
        ) by {
            assert(adj.drop_last()[j] == adj[j]);
        }
        lemma_enqueue_members(adj.drop_last(), queue, visited, s);
        let (q0, v0) = spec_enqueue(adj.drop_last(), queue, visited);
        let n = adj.last();
        assert(s.contains(n));
        if n.0 < v0.len() && !v0[n.0 as int] {
            assert forall|k: int| 0 <= k < q0.push(n).len() implies s.contains(
                #[trigger] q0.push(n)[k],
            ) by {
                if k < q0.len() {
                    assert(q0.push(n)[k] == q0[k]);
                } else {
                    assert(q0.push(n)[k] == n);
                }
            }
        }
    }
}

proof fn lemma_enqueue_sound(adj: Seq<RoadID>, queue: Seq<RoadID>, visited: Seq<bool>)
    ensures
        ({
            let (q, v) = spec_enqueue(adj, queue, visited);
            &&& v.len() == visited.len()
            &&& forall|i: int| 0 <= i < visited.len() && visited[i] ==> v[i]
            &&& forall|j: int|
                0 <= j < adj.len() && (#[trigger] adj[j]).0 < visited.len() ==> v[adj[j].0 as int]
            &&& q.len() >= queue.len()
            &&& forall|k: int| 0 <= k < queue.len() ==> #[trigger] q[k] == queue[k]
            &&& forall|k: int|
                queue.len() <= k < q.len() ==> (#[trigger] q[k]).0 < visited.len()
                    && !visited[q[k].0 as int] && v[q[k].0 as int] && adj.contains(q[k])
            &&& forall|k1: int, k2: int|
                queue.len() <= k1 < k2 < q.len() ==> q[k1] != q[k2]
        }),
    decreases adj.len(),
{
    if adj.len() > 0 {
        lemma_enqueue_sound(adj.drop_last(), queue, visited);
        let (q0, v0) = spec_enqueue(adj.drop_last(), queue, visited);
        let n = adj.last();
        assert(forall|j: int|
            0 <= j < adj.drop_last().len() ==> #[trigger] adj.drop_last()[j] == adj[j]);
        if n.0 < v0.len() && !v0[n.0 as int] {
            let q = q0.push(n);
            let v = v0.update(n.0 as int, true);
            assert(adj.contains(n)) by {
                assert(adj[adj.len() - 1] == n);
            }
            assert forall|j: int|
                0 <= j < adj.len() && (#[trigger] adj[j]).0 < visited.len() implies v[
                adj[j].0 as int
            ] by {
                if j < adj.len() - 1 {
                    assert(adj.drop_last()[j] == adj[j]);
                    assert(v0[adj.drop_last()[j].0 as int]);
                }
            }
            assert forall|k: int|
                queue.len() <= k < q.len() implies (#[trigger] q[k]).0 < visited.len() && !visited[
                q[k].0 as int
            ] && v[q[k].0 as int] && adj.contains(q[k]) by {
                if k < q0.len() {
                    assert(q[k] == q0[k]);
                } else {
                    assert(q[k] == n);
                }
            }
            assert forall|k1: int, k2: int|
                queue.len() <= k1 < k2 < q.len() implies q[k1] != q[k2] by {
                if k2 == q0.len() {
                    assert(q[k1] == q0[k1]);
                    assert(v0[q0[k1].0 as int]);
                    assert(!v0[n.0 as int]);
                }
            }
        } else {
            assert forall|j: int|
                0 <= j < adj.len() && (#[trigger] adj[j]).0 < visited.len() implies v0[
                adj[j].0 as int
            ] by {
                if j == adj.len() - 1 {
                    assert(visited[n.0 as int] ==> v0[n.0 as int]);
                    if !v0[n.0 as int] {
                        assert(n.0 < v0.len());
                        assert(false);
                    }
                } else {
                    assert(adj.drop_last()[j] == adj[j]);
                    assert(v0[adj.drop_last()[j].0 as int]);
                }
            }
        }
    }
}

/// Law: the search never leaves the part of the network reachable from its
/// frontier. Any adjacency-closed set of roads that contains the whole
/// frontier and offers building `b` nothing confines the search: it returns
/// none, whatever spots stand on roads outside the set. In particular, a
/// building none of whose reachable roads has capacity gets no spot.
pub proof fn lemma_bfs_confined(
    map: MapModel,
    rows: Seq<Seq<(ParkingSpot, Option<BuildingID>)>>,
    queue: Seq<RoadID>,
    visited: Seq<bool>,
    b: BuildingID,
    s: Set<RoadID>,
)
    requires
        forall|k: int| 0 <= k < queue.len() ==> s.contains(#[trigger] queue[k]),
        forall|r: RoadID, j: int|
            s.contains(r) && r.0 < map.roads.len() && 0 <= j < map.roads[r.0 as int].adjacent@.len()
                ==> s.contains(#[trigger] map.roads[r.0 as int].adjacent@[j]),
        forall|r: RoadID|
            #[trigger] s.contains(r) && r.0 < rows.len() ==> spec_row_pick(rows[r.0 as int], b)
                is None,
    ensures
        spec_bfs(map, rows, queue, visited, b) is None,
    decreases spec_unvisited(visited), queue.len(),
{
    if queue.len() > 0 {
        let r = queue[0];
        if r.0 < rows.len() && r.0 < map.roads.len() {
            assert(s.contains(r));
            let adj = map.roads[r.0 as int].adjacent@;
            lemma_enqueue_measure(adj, queue.drop_first(), visited);
            assert forall|k: int| 0 <= k < queue.drop_first().len() implies s.contains(
                #[trigger] queue.drop_first()[k],
            ) by {
                assert(queue.drop_first()[k] == queue[k + 1]);
            }
            lemma_enqueue_members(adj, queue.drop_first(), visited, s);
            let (q2, v2) = spec_enqueue(adj, queue.drop_first(), visited);
            lemma_bfs_confined(map, rows, q2, v2, b, s);
        }
    }
}

/// A walk along roads: nonempty, in range, each step following adjacency.
pub open spec fn spec_is_road_path(map: MapModel, path: Seq<RoadID>) -> bool {
    &&& path.len() > 0
    &&& forall|i: int| 0 <= i < path.len() ==> (#[trigger] path[i]).0 < map.roads.len()
    &&& forall|i: int|
        0 <= i && i + 1 < path.len() ==> map.roads[(#[trigger] path[i]).0 as int].adjacent@.contains(
            path[i + 1],
        )
}

/// `to` can be walked to from `from` along road adjacency.
pub open spec fn spec_road_reachable(map: MapModel, from: RoadID, to: RoadID) -> bool {
    exists|path: Seq<RoadID>|
        #[trigger] spec_is_road_path(map, path) && path.first() == from && path.last() == to
}

/// Every settled road offers `b` nothing and has handed all its neighbors to
/// the search already.
pub open spec fn spec_settled(
    map: MapModel,
    rows: Seq<Seq<(ParkingSpot, Option<BuildingID>)>>,
    queue: Seq<RoadID>,
    visited: Seq<bool>,
    b: BuildingID,
) -> bool {
    forall|r: RoadID|
        r.0 < map.roads.len() && visited[#[trigger] r.0 as int] && !queue.contains(r) ==> {
            &&& spec_row_pick(rows[r.0 as int], b) is None
            &&& forall|j: int|
                0 <= j < map.roads[r.0 as int].adjacent@.len() ==> visited[(#[trigger] map.roads[
                    r.0 as int
                ].adjacent@[j]).0 as int]
        }
}

proof fn lemma_settled_path(
    map: MapModel,
    rows: Seq<Seq<(ParkingSpot, Option<BuildingID>)>>,
    visited: Seq<bool>,
    b: BuildingID,
    path: Seq<RoadID>,
)
    requires
        map.spec_wf(),
        rows.len() == map.roads.len(),
        visited.len() == map.roads.len(),
        spec_settled(map, rows, Seq::<RoadID>::empty(), visited, b),
        spec_is_road_path(map, path),
        visited[path.first().0 as int],
    ensures
        visited[path.last().0 as int],
        spec_row_pick(rows[path.last().0 as int], b) is None,
    decreases path.len(),
{
    assert(!Seq::<RoadID>::empty().contains(path.first()));
    if path.len() == 1 {
        assert(path.last() == path.first());
    } else {
        let head = path.first();
        let next = path[1];
        assert(map.roads[head.0 as int].adjacent@.contains(next));
        let j = choose|j: int|
            0 <= j < map.roads[head.0 as int].adjacent@.len() && map.roads[
                head.0 as int
            ].adjacent@[j] == next;
        assert(visited[next.0 as int]);
        let rest = path.drop_first();
        assert(spec_is_road_path(map, rest)) by {
            assert(forall|i: int| 0 <= i < rest.len() ==> #[trigger] rest[i] == path[i + 1]);
        }
        assert(rest.first() == next);
        lemma_settled_path(map, rows, visited, b, rest);
        assert(path.last() == rest.last());
    }
}

/// Law: a search that comes back empty-handed has truly exhausted its
/// reachable world: starting from a frontier that is marked, duplicate-free,
/// and settled behind, a result of none means every road reachable from any
/// frontier road offers building `b` nothing.
pub proof fn lemma_bfs_complete(
    map: MapModel,
    rows: Seq<Seq<(ParkingSpot, Option<BuildingID>)>>,
    queue: Seq<RoadID>,
    visited: Seq<bool>,
    b: BuildingID,
    path: Seq<RoadID>,
)
    requires
        map.spec_wf(),
        rows.len() == map.roads.len(),
        visited.len() == map.roads.len(),
        spec_bfs(map, rows, queue, visited, b) is None,
        forall|k: int|
            0 <= k < queue.len() ==> (#[trigger] queue[k]).0 < map.roads.len() && visited[
                queue[k].0 as int
            ],
        forall|k1: int, k2: int| 0 <= k1 < k2 < queue.len() ==> queue[k1] != queue[k2],
        spec_settled(map, rows, queue, visited, b),
        spec_is_road_path(map, path),
        visited[path.first().0 as int],
    ensures
        spec_row_pick(rows[path.last().0 as int], b) is None,
    decreases spec_unvisited(visited), queue.len(),
{
    if queue.len() == 0 {
        assert(spec_settled(map, rows, Seq::<RoadID>::empty(), visited, b)) by {
            assert(forall|r: RoadID| queue.contains(r) == Seq::<RoadID>::empty().contains(r));
        }
        lemma_settled_path(map, rows, visited, b, path);
    } else {
        let r0 = queue[0];
        assert(r0.0 < rows.len());
        assert(spec_row_pick(rows[r0.0 as int], b) is None);
        let adj = map.roads[r0.0 as int].adjacent@;
        let tail = queue.drop_first();
        assert(forall|k: int| 0 <= k < tail.len() ==> #[trigger] tail[k] == queue[k + 1]);
        lemma_enqueue_measure(adj, tail, visited);
        lemma_enqueue_sound(adj, tail, visited);
        let (q2, v2) = spec_enqueue(adj, tail, visited);

        // The popped road is now settled: it cannot reappear in the new
        // frontier, offers nothing, and all its neighbors are marked.
        assert(!q2.contains(r0)) by {
            if q2.contains(r0) {
                let k = choose|k: int| 0 <= k < q2.len() && q2[k] == r0;
                if k < tail.len() {
                    assert(queue[k + 1] == queue[0]);
                } else {
                    assert(!visited[q2[k].0 as int]);
                }
            }
        }

        assert forall|k1: int, k2: int| 0 <= k1 < k2 < q2.len() implies q2[k1] != q2[k2] by {
            if k2 < tail.len() {
                assert(q2[k1] == queue[k1 + 1] && q2[k2] == queue[k2 + 1]);
            } else if k1 < tail.len() {
                assert(q2[k1] == queue[k1 + 1]);
                assert(visited[q2[k1].0 as int]);
                assert(!visited[q2[k2].0 as int]);
            }
        }

        assert forall|k: int|
            0 <= k < q2.len() implies (#[trigger] q2[k]).0 < map.roads.len() && v2[
            q2[k].0 as int
        ] by {
            if k < tail.len() {
                assert(q2[k] == queue[k + 1]);
            } else {
                assert(adj.contains(q2[k]));
                let j = choose|j: int| 0 <= j < adj.len() && adj[j] == q2[k];
            }
        }

        assert(spec_settled(map, rows, q2, v2, b)) by {
            assert forall|r: RoadID|
                r.0 < map.roads.len() && v2[#[trigger] r.0 as int] && !q2.contains(r) implies {
                &&& spec_row_pick(rows[r.0 as int], b) is None
                &&& forall|j: int|
                    0 <= j < map.roads[r.0 as int].adjacent@.len() ==> v2[(#[trigger] map.roads[
                        r.0 as int
                    ].adjacent@[j]).0 as int]
            } by {
                if visited[r.0 as int] {
                    if r == r0 {
                        assert(forall|j: int|
                            0 <= j < adj.len() && (#[trigger] adj[j]).0 < visited.len() ==> v2[
                                adj[j].0 as int
                            ]);
                        assert(forall|j: int|
                            0 <= j < adj.len() ==> (#[trigger] adj[j]).0 < map.roads.len());
                    } else {
                        if queue.contains(r) {
                            let k = choose|k: int| 0 <= k < queue.len() && queue[k] == r;
                            assert(k >= 1);
                            assert(tail[k - 1] == r);
                            assert(q2[k - 1] == r);
                            assert(false);
                        }
                        assert(spec_row_pick(rows[r.0 as int], b) is None);
                        assert(forall|j: int|
                            0 <= j < map.roads[r.0 as int].adjacent@.len() ==> visited[(
                            #[trigger] map.roads[r.0 as int].adjacent@[j]).0 as int]);
                    }
                } else {
                    // Freshly marked roads all stand in the new frontier.
                    let k = choose|k: int|
                        tail.len() <= k < q2.len() && (#[trigger] q2[k]).0 == r.0 as int;
                    assert(exists|k: int|
                        tail.len() <= k < q2.len() && (#[trigger] q2[k]).0 == r.0 as int) by {
                        lemma_enqueue_marked_is_member(adj, tail, visited, r.0 as int);
                    }
                    assert(q2[k] == r);
                    assert(q2.contains(r));
                    assert(false);
                }
            }
        }
        lemma_bfs_complete(map, rows, q2, v2, b, path);
    }
}

proof fn lemma_enqueue_marked_is_member(
    adj: Seq<RoadID>,
    queue: Seq<RoadID>,
    visited: Seq<bool>,
    i: int,
)
    requires
        0 <= i < visited.len(),
        !visited[i],
        ({
            let (q, v) = spec_enqueue(adj, queue, visited);
            v[i]
        }),
    ensures
        ({
            let (q, v) = spec_enqueue(adj, queue, visited);
            exists|k: int| queue.len() <= k < q.len() && (#[trigger] q[k]).0 == i
        }),
    decreases adj.len(),
{
    lemma_enqueue_sound(adj, queue, visited);
    if adj.len() > 0 {
        let (q0, v0) = spec_enqueue(adj.drop_last(), queue, visited);
        lemma_enqueue_sound(adj.drop_last(), queue, visited);
        let n = adj.last();
        if n.0 < v0.len() && !v0[n.0 as int] {
            let q = q0.push(n);
            if n.0 as int == i {
                assert(q[q.len() - 1] == n);
            } else {
                lemma_enqueue_marked_is_member(adj.drop_last(), queue, visited, i);
                let k = choose|k: int|
                    queue.len() <= k < q0.len() && (#[trigger] q0[k]).0 == i;
                assert(q[k] == q0[k]);
            }
        } else {
            lemma_enqueue_marked_is_member(adj.drop_last(), queue, visited, i);
        }
    }
}

/// Law: when the search for building `b` comes back with nothing, no road
/// reachable from the building's own road had anything to offer it; the
/// failure is genuine exhaustion, not a missed road.
pub proof fn lemma_no_spot_means_no_reachable_capacity(
    map: MapModel,
    rows: Seq<Seq<(ParkingSpot, Option<BuildingID>)>>,
    b: BuildingID,
    target: RoadID,
)
    requires
        map.spec_wf(),
        b.0 < map.buildings.len(),
        rows.len() == map.roads.len(),
        spec_find_spot(map, rows, b) is None,
        spec_road_reachable(map, map.buildings[b.0 as int].road, target),
    ensures
        target.0 < map.roads.len(),
        spec_row_pick(rows[target.0 as int], b) is None,
{
    let start = map.buildings[b.0 as int].road;
    let visited0 = spec_initial_visited(map.roads.len() as nat, start);
    let q0 = seq![start];
    let path = choose|path: Seq<RoadID>|
        #[trigger] spec_is_road_path(map, path) && path.first() == start && path.last() == target;
    assert(q0[0] == start);
    assert(q0.contains(start));
    assert(spec_settled(map, rows, q0, visited0, b)) by {
        assert forall|r: RoadID|
            r.0 < map.roads.len() && visited0[#[trigger] r.0 as int] && !q0.contains(r) implies {
            &&& spec_row_pick(rows[r.0 as int], b) is None
            &&& forall|j: int|
                0 <= j < map.roads[r.0 as int].adjacent@.len() ==> visited0[(#[trigger] map.roads[
                    r.0 as int
                ].adjacent@[j]).0 as int]
        } by {
            assert(r.0 == start.0);
            assert(r == start);
        }
    }
    lemma_bfs_complete(map, rows, q0, visited0, b, path);
}

/// Law: parking exhaustion seeds exactly the capacity. When every free spot
/// is unreserved and stands on the one road all the cars' buildings front
/// on, a pass over `n` cars with `m` spots seeds exactly the first
/// `min(n, m)` cars in the given order, stays in order, and ends still-ok
/// exactly when capacity sufficed; later cars are never attempted.
pub proof fn lemma_seeding_stops_at_capacity(
    map: MapModel,
    cars: Seq<(Vehicle, BuildingID)>,
    rows: Seq<Seq<(ParkingSpot, Option<BuildingID>)>>,
    r0: int,
)
    requires
        map.spec_wf(),
        rows.len() == map.roads.len(),
        0 <= r0 < map.roads.len(),
        map.roads[r0].adjacent@.len() == 0,
        forall|j: int|
            0 <= j < cars.len() ==> (#[trigger] cars[j]).1.0 < map.buildings.len()
                && map.buildings[cars[j].1.0 as int].road.0 == r0,
        forall|i: int| 0 <= i < rows[r0].len() ==> (#[trigger] rows[r0][i]).1 is None,
        forall|r: int| 0 <= r < rows.len() && r != r0 ==> rows[r].len() == 0,
    ensures
        ({
            let out = spec_seed_cars(map, cars, rows);
            let k = if cars.len() <= rows[r0].len() {
                cars.len() as int
            } else {
                rows[r0].len() as int
            };
            &&& out.seeded == k
            &&& out.assigned.len() == k
            &&& out.ok == (cars.len() <= rows[r0].len())
            &&& out.rows.len() == rows.len()
            &&& out.rows[r0] =~= rows[r0].skip(k)
            &&& forall|r: int| 0 <= r < rows.len() && r != r0 ==> out.rows[r] == rows[r]
        }),
    decreases cars.len(),
{
    let row = rows[r0];
    if cars.len() > 0 {
        assert forall|j: int|
            0 <= j < cars.drop_last().len() implies (#[trigger] cars.drop_last()[j]).1.0
            < map.buildings.len() && map.buildings[cars.drop_last()[j].1.0 as int].road.0
            == r0 by {
            assert(cars.drop_last()[j] == cars[j]);
        }
        lemma_seeding_stops_at_capacity(map, cars.drop_last(), rows, r0);
        let prev = spec_seed_cars(map, cars.drop_last(), rows);
        let out = spec_seed_cars(map, cars, rows);
        if prev.ok {
            let k = cars.drop_last().len() as int;
            let b = cars.last().1;
            assert(b.0 < map.buildings.len() && map.buildings[b.0 as int].road.0 == r0);
            let start = map.buildings[b.0 as int].road;
            assert(start.0 == r0);
            let visited0 = spec_initial_visited(map.roads.len() as nat, start);
            let q0 = seq![start];
            assert(q0[0] == start && q0.len() == 1);
            let row_now = prev.rows[r0];
            assert(row_now =~= row.skip(k));
            assert forall|i: int| 0 <= i < row_now.len() implies (#[trigger] row_now[i]).1
                is None by {
                assert(row_now[i] == row[i + k]);
            }
            lemma_first_reserved_char(row_now, b);
            if spec_first_reserved(row_now, b) is Some {
                let i = spec_first_reserved(row_now, b).unwrap();
                assert(row_now[i].1 == Some(b));
                assert(false);
            }
            if k < row.len() {
                // A spot is still free on the one road: the next car takes
                // the first of them.
                assert(row_now.len() > 0);
                assert(row_now[0].1 is None);
                assert(spec_first_unreserved(row_now) == Some(0int));
                assert(spec_row_pick(row_now, b) == Some(0int));
                assert(spec_bfs(map, prev.rows, q0, visited0, b) == Some((start, 0int)));
                assert(spec_find_spot(map, prev.rows, b) matches Some(pick) && pick.1
                    == prev.rows.update(r0, row_now.remove(0)));
                assert(out.seeded == prev.seeded + 1);
                assert(out.rows[r0] =~= row.skip(k + 1)) by {
                    assert(out.rows[r0] == row_now.remove(0));
                }
                assert(out.ok);
            } else {
                // Capacity is exhausted: the road is empty, nothing else is
                // reachable, and the pass flips to failed.
                assert(row_now.len() == 0);
                assert(spec_first_unreserved(row_now) is None);
                assert(spec_row_pick(row_now, b) is None);
                let adj = map.roads[r0].adjacent@;
                assert(adj.len() == 0);
                let (q2, v2) = spec_enqueue(adj, q0.drop_first(), visited0);
                assert(q2 == q0.drop_first() && v2 == visited0);
                assert(q2.len() == 0);
                assert(spec_bfs(map, prev.rows, q2, v2, b) is None);
                assert(spec_bfs(map, prev.rows, q0, visited0, b) is None);
                assert(spec_find_spot(map, prev.rows, b) is None);
                assert(!out.ok);
                assert(out.seeded == prev.seeded);
            }
        } else {
            assert(out == prev);
        }
    }
}

/// Law: a building whose own road offers no spot, but whose road's first
/// neighbor road holds exactly one unreserved spot, is assigned exactly that
/// spot by the search.
pub proof fn lemma_bfs_neighbor_spot(
    map: MapModel,
    rows: Seq<Seq<(ParkingSpot, Option<BuildingID>)>>,
    b: BuildingID,
    spot: ParkingSpot,
)
    requires
        b.0 < map.buildings.len(),
        ({
            let start = map.buildings[b.0 as int].road;
            &&& start.0 < map.roads.len()
            &&& rows.len() == map.roads.len()
            &&& rows[start.0 as int].len() == 0
            &&& map.roads[start.0 as int].adjacent@.len() == 1
            &&& ({
                let next = map.roads[start.0 as int].adjacent@[0];
                &&& next.0 < map.roads.len()
                &&& next.0 != start.0
                &&& rows[next.0 as int] =~= seq![(spot, None::<BuildingID>)]
            })
        }),
    ensures
        spec_find_spot(map, rows, b) matches Some(pick) && pick.0 == spot,
{
    let start = map.buildings[b.0 as int].road;
    let next = map.roads[start.0 as int].adjacent@[0];
    let visited0 = spec_initial_visited(map.roads.len() as nat, start);
    let q0 = seq![start];
    assert(spec_row_pick(rows[start.0 as int], b) is None);
    let adj = map.roads[start.0 as int].adjacent@;
    assert(adj.drop_last() =~= Seq::<RoadID>::empty());
    assert(spec_enqueue(adj.drop_last(), q0.drop_first(), visited0) == (
        q0.drop_first(),
        visited0,
    ));
    assert(!visited0[next.0 as int]);
    let q1 = q0.drop_first().push(next);
    let v1 = visited0.update(next.0 as int, true);
    assert(spec_enqueue(adj, q0.drop_first(), visited0) == (q1, v1));
    assert(q1[0] == next);
    let row = rows[next.0 as int];
    assert(row[0].1 is None);
    assert(spec_first_reserved(row, b) is None) by {
        assert(row[0].1 != Some(b));
        assert(row.drop_first().len() == 0);
        assert(spec_first_reserved(row.drop_first(), b) is None);
    }
    assert(spec_first_unreserved(row) == Some(0int));
    assert(spec_row_pick(row, b) == Some(0int));
    assert(spec_bfs(map, rows, q1, v1, b) == Some((next, 0int)));
    assert(spec_bfs(map, rows, q0, visited0, b) == Some((next, 0int)));
    assert(rows[next.0 as int][0].0 == spot);
}

} // verus!
