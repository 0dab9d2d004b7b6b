use vstd::prelude::*;

use crate::map_model::MapModel;
use crate::parking::{
    seed_parked_cars, spec_free_view, spec_group_spots, spec_seed_cars, spec_seed_infinite,
    spec_shuffle_rows,
};
use crate::rng::{
    fork_rng, shuffle, shuffle_perm, shuffle_taken, spec_apply_perm, spec_rand_range, stream,
    SimRng, StreamPos,
};
use crate::scenario::{
    lemma_alloc_wf, spec_alloc, spec_alloc_init, spec_alloc_step, spec_find_car, spec_schedule_ok,
    IndividTrip, PersonSpec, Scenario,
};
use crate::sim::{spec_make_vehicles, CancellationReason, Sim, TripInfo, TripSpawner};
use crate::spawn::{spec_spawn_trip, spec_trip_spec, SpawnError, SpawnTrip, TripSpec};
use crate::types::{
    BuildingID, BusRouteID, CarID, OrigPersonID, PersonID, Speed, TripEndpoint, TripMode, Vehicle,
    VehicleSpec, MAX_PED_SPEED, MIN_PED_SPEED,
};

verus! {

/// Which routes a restriction keeps, as a view.
pub open spec fn spec_only_view(only: Option<Vec<BusRouteID>>) -> Option<Seq<BusRouteID>> {
    match only {
        Some(v) => Some(v@),
        None => None,
    }
}

/// The routes that get seeded, in network order: all of them, or only the
/// listed ones.
pub open spec fn spec_seeded_routes(
    all: Seq<BusRouteID>,
    only: Option<Seq<BusRouteID>>,
) -> Seq<BusRouteID>
    decreases all.len(),
{
    if all.len() == 0 {
        Seq::empty()
    } else {
        let prev = spec_seeded_routes(all.drop_last(), only);
        let keep = match only {
            None => true,
            Some(ks) => ks.contains(all.last()),
        };
        if keep {
            prev.push(all.last())
        } else {
            prev
        }
    }
}

fn route_listed(keep: &Vec<BusRouteID>, r: BusRouteID) -> (res: bool)
    ensures
        res == keep@.contains(r),
{
    let mut i: usize = 0;
    while i < keep.len()
        invariant
            0 <= i <= keep@.len(),
            forall|j: int| 0 <= j < i ==> keep@[j] != r,
        decreases keep@.len() - i,
    {
        if keep[i] == r {
            return true;
        }
        i = i + 1;
    }
    false
}

/// The scheduled entries one person's trips produce, with the stream
/// position after all the per-trip forks. Each trip forks its own sub-stream
/// so that resolution can run in any order with the same outcome.
pub open spec fn spec_person_trips(
    trips: Seq<IndividTrip>,
    per_trip: Seq<Option<usize>>,
    vehicles: Seq<Vehicle>,
    pid: PersonID,
    map: MapModel,
    retry: bool,
    pos: StreamPos,
) -> (Seq<(PersonID, TripSpec, TripInfo)>, StreamPos)
    decreases trips.len(),
{
    if trips.len() == 0 {
        (Seq::empty(), pos)
    } else {
        let r = spec_person_trips(trips.drop_last(), per_trip, vehicles, pid, map, retry, pos);
        let t = trips.last();
        let j = trips.len() - 1;
        let use_vehicle = match per_trip[j] {
            Some(idx) => Some(vehicles[idx as int].id),
            None => None,
        };
        let fork_seed = stream(r.1.seed, r.1.taken);
        let p2 = StreamPos { seed: r.1.seed, taken: r.1.taken + 2 };
        let spec = match spec_spawn_trip(t.from, t.to, t.mode, map) {
            Some(tr) => spec_trip_spec(
                tr,
                use_vehicle,
                retry,
                map,
                StreamPos { seed: fork_seed, taken: 0 },
            ),
            None => TripSpec::SpawningFailure { use_vehicle, error: SpawnError::UnknownSpawning },
        };
        let info = TripInfo {
            departure: t.depart,
            mode: t.mode,
            start: t.from,
            end: t.to,
            purpose: t.purpose,
            modified: t.modified,
            capped: false,
            cancellation_reason: if t.cancelled {
                Some(CancellationReason::ScenarioModifier)
            } else {
                None
            },
        };
        (r.0.push((pid, spec, info)), p2)
    }
}

/// Everything the sequential per-person phase decides: the registered
/// persons, the cars that start parked, the scheduled trips, the stream
/// position afterwards, and the next vehicle identity.
pub ghost struct PeopleOutcome {
    pub persons: Seq<(PersonID, Option<OrigPersonID>, Speed, Seq<Vehicle>)>,
    pub parked: Seq<(Vehicle, BuildingID)>,
    pub trips: Seq<(PersonID, TripSpec, TripInfo)>,
    pub pos: StreamPos,
    pub next_car_id: int,
}

pub open spec fn spec_people_phase(
    people: Seq<PersonSpec>,
    map: MapModel,
    retry: bool,
    pos: StreamPos,
    next_car_id: int,
) -> PeopleOutcome
    decreases people.len(),
{
    if people.len() == 0 {
        PeopleOutcome {
            persons: Seq::empty(),
            parked: Seq::empty(),
            trips: Seq::empty(),
            pos,
            next_car_id,
        }
    } else {
        let prev = spec_people_phase(people.drop_last(), map, retry, pos, next_car_id);
        let p = people.last();
        let st = spec_alloc(p.trips@, prev.pos);
        let ped = spec_rand_range(MIN_PED_SPEED, MAX_PED_SPEED, st.pos.seed, st.pos.taken);
        let pos1 = StreamPos { seed: st.pos.seed, taken: st.pos.taken + 2 };
        let vehicles = spec_make_vehicles(st.specs, prev.next_car_id, p.id);
        let parked_p = Seq::new(
            st.parked.len(),
            |i: int| (vehicles[st.parked[i].0 as int], st.parked[i].1),
        );
        let tr = spec_person_trips(p.trips@, st.per_trip, vehicles, p.id, map, retry, pos1);
        PeopleOutcome {
            persons: prev.persons.push((p.id, p.orig_id, ped, vehicles)),
            parked: prev.parked + parked_p,
            trips: prev.trips + tr.0,
            pos: tr.1,
            next_car_id: prev.next_car_id + st.specs.len(),
        }
    }
}

/// Vehicle identities never run backwards along the phase.
pub proof fn lemma_people_phase_prefix_bound(
    people: Seq<PersonSpec>,
    map: MapModel,
    retry: bool,
    pos: StreamPos,
    next_car_id: int,
    i: int,
)
    requires
        0 <= i <= people.len(),
    ensures
        spec_people_phase(people.subrange(0, i), map, retry, pos, next_car_id).next_car_id
            <= spec_people_phase(people, map, retry, pos, next_car_id).next_car_id,
        spec_people_phase(people, map, retry, pos, next_car_id).next_car_id >= next_car_id,
    decreases people.len() - i,
{
    if i == people.len() {
        assert(people.subrange(0, i) =~= people);
        lemma_people_phase_ge(people, map, retry, pos, next_car_id);
    } else {
        lemma_people_phase_prefix_bound(people, map, retry, pos, next_car_id, i + 1);
        assert(people.subrange(0, i + 1).drop_last() =~= people.subrange(0, i));
    }
}

proof fn lemma_people_phase_ge(
    people: Seq<PersonSpec>,
    map: MapModel,
    retry: bool,
    pos: StreamPos,
    next_car_id: int,
)
    ensures
        spec_people_phase(people, map, retry, pos, next_car_id).next_car_id >= next_car_id,
    decreases people.len(),
{
    if people.len() > 0 {
        lemma_people_phase_ge(people.drop_last(), map, retry, pos, next_car_id);
    }
}

/// A trip chain that only starts drives at known buildings leaves only known
/// buildings in the initial-parking list.
proof fn lemma_alloc_parked_valid(trips: Seq<IndividTrip>, pos: StreamPos, nb: int)
    requires
        forall|j: int|
            0 <= j < trips.len() ==> (match (#[trigger] trips[j]).from {
                TripEndpoint::Bldg(b) => b.0 < nb,
                _ => true,
            }),
    ensures
        forall|j: int|
            0 <= j < spec_alloc(trips, pos).parked.len() ==> (#[trigger] spec_alloc(
                trips,
                pos,
            ).parked[j]).1.0 < nb,
    decreases trips.len(),
{
    if trips.len() > 0 {
        assert forall|j: int| 0 <= j < trips.drop_last().len() implies (match (#[trigger] trips.drop_last()[j]).from {
            TripEndpoint::Bldg(b) => b.0 < nb,
            _ => true,
        }) by {
            assert(trips.drop_last()[j] == trips[j]);
        }
        lemma_alloc_parked_valid(trips.drop_last(), pos, nb);
    }
}

/// The same, for the whole population.
proof fn lemma_people_parked_valid(
    people: Seq<PersonSpec>,
    map: MapModel,
    retry: bool,
    pos: StreamPos,
    next_car_id: int,
    nb: int,
)
    requires
        forall|k: int, j: int|
            0 <= k < people.len() && 0 <= j < people[k].trips@.len() ==> (match (#[trigger] people[
                k
            ].trips@[j]).from {
                TripEndpoint::Bldg(b) => b.0 < nb,
                _ => true,
            }),
    ensures
        forall|j: int|
            0 <= j < spec_people_phase(people, map, retry, pos, next_car_id).parked.len() ==> (
            #[trigger] spec_people_phase(people, map, retry, pos, next_car_id).parked[j]).1.0 < nb,
    decreases people.len(),
{
    if people.len() > 0 {
        assert forall|k: int, j: int|
            0 <= k < people.drop_last().len() && 0 <= j < people.drop_last()[k].trips@.len() implies (match (
        #[trigger] people.drop_last()[k].trips@[j]).from {
            TripEndpoint::Bldg(b) => b.0 < nb,
            _ => true,
        }) by {
            assert(people.drop_last()[k] == people[k]);
        }
        lemma_people_parked_valid(people.drop_last(), map, retry, pos, next_car_id, nb);
        let prev = spec_people_phase(people.drop_last(), map, retry, pos, next_car_id);
        let p = people.last();
        let st = spec_alloc(p.trips@, prev.pos);
        assert(p == people[people.len() - 1]);
        lemma_alloc_parked_valid(p.trips@, prev.pos, nb);
    }
}

/// Law: the phase is a function of its inputs alone, so any two outcomes it
/// admits for the same scenario, map, flag, and base stream coincide; in
/// particular both runs submit byte-identical trip sequences, however the
/// per-trip resolution work was partitioned.
pub proof fn lemma_instantiation_deterministic(
    people: Seq<PersonSpec>,
    map: MapModel,
    retry: bool,
    pos: StreamPos,
    next_car_id: int,
    out1: PeopleOutcome,
    out2: PeopleOutcome,
)
    requires
        out1 == spec_people_phase(people, map, retry, pos, next_car_id),
        out2 == spec_people_phase(people, map, retry, pos, next_car_id),
    ensures
        out1.trips == out2.trips,
        out1.parked == out2.parked,
        out1.persons == out2.persons,
{
}

/// Law: one person who walks somewhere and then drives away from exactly
/// where the walk ended is allocated exactly one vehicle — a car — and the
/// phase submits walking first, then using that parked car, in that order,
/// with the one car starting parked.
pub proof fn lemma_walk_then_drive(
    p: PersonSpec,
    map: MapModel,
    retry: bool,
    pos: StreamPos,
    next_car_id: int,
)
    requires
        p.trips@.len() == 2,
        p.trips@[0].mode == TripMode::Walk,
        p.trips@[1].mode == TripMode::Drive,
        map.spec_sidewalk_spot(p.trips@[0].from) is Some,
        map.spec_sidewalk_spot(p.trips@[0].to) is Some,
        p.trips@[1].from == p.trips@[0].to,
        p.trips@[1].from is Bldg,
        map.spec_driving_goal(p.trips@[1].to, crate::types::PathConstraints::Car) is Some,
    ensures
        ({
            let out = spec_people_phase(seq![p], map, retry, pos, next_car_id);
            &&& out.persons.len() == 1
            &&& out.persons[0].3.len() == 1
            &&& out.persons[0].3[0].vehicle_type == crate::types::VehicleType::Car
            &&& out.trips.len() == 2
            &&& out.trips[0].1 is JustWalking
            &&& out.trips[1].1 is UsingParkedCar
            &&& out.parked.len() == 1
        }),
{
    let people = seq![p];
    assert(people.drop_last() =~= Seq::<PersonSpec>::empty());
    assert(people.last() == p);
    let prev = spec_people_phase(people.drop_last(), map, retry, pos, next_car_id);
    assert(prev.persons.len() == 0 && prev.parked.len() == 0 && prev.trips.len() == 0 && prev.pos
        == pos && prev.next_car_id == next_car_id);

    let trips = p.trips@;
    let t1 = trips.drop_last();
    assert(t1.len() == 1 && t1[0] == trips[0] && t1.last() == trips[0]);
    assert(t1.drop_last().len() == 0);
    let st0 = spec_alloc(t1.drop_last(), pos);
    assert(st0 == spec_alloc_init(pos));
    let st1 = spec_alloc(t1, pos);
    assert(st1 == spec_alloc_step(st0, trips[0]));
    assert(st1.specs.len() == 0 && st1.car_locations.len() == 0 && st1.parked.len() == 0
        && st1.pos == pos);
    let st2 = spec_alloc(trips, pos);
    assert(st2 == spec_alloc_step(st1, trips[1]));
    let need = crate::scenario::spec_start_bldg(trips[1]);
    assert(spec_find_car(st1.car_locations, need) is None);
    assert(need is Some);
    assert(st2.specs.len() == 1);
    assert(st2.specs[0] == crate::scenario::spec_rand_car(st1.pos));
    assert(st2.specs[0].vehicle_type == crate::types::VehicleType::Car);
    assert(st2.parked.len() == 1);
    assert(st2.per_trip.len() == 2);
    assert(st2.per_trip[0] is None);
    assert(st2.per_trip[1] == Some(0usize));

    let vehicles = spec_make_vehicles(st2.specs, prev.next_car_id, p.id);
    assert(vehicles.len() == 1 && vehicles[0].vehicle_type == crate::types::VehicleType::Car);

    let pos1 = StreamPos { seed: st2.pos.seed, taken: st2.pos.taken + 2 };
    assert(trips.drop_last() == t1);
    let tr0 = spec_person_trips(t1.drop_last(), st2.per_trip, vehicles, p.id, map, retry, pos1);
    assert(tr0.0.len() == 0 && tr0.1 == pos1);
    let tr1 = spec_person_trips(t1, st2.per_trip, vehicles, p.id, map, retry, pos1);
    assert(spec_spawn_trip(trips[0].from, trips[0].to, TripMode::Walk, map) matches Some(w)
        && w is JustWalking);
    assert(tr1.0.len() == 1 && tr1.0[0].1 is JustWalking);
    let tr2 = spec_person_trips(trips, st2.per_trip, vehicles, p.id, map, retry, pos1);
    assert(spec_spawn_trip(trips[1].from, trips[1].to, TripMode::Drive, map) matches Some(d)
        && d is UsingParkedCar);
    assert(tr2.0.len() == 2 && tr2.0[1].1 is UsingParkedCar);
    assert(tr2.0[0] == tr1.0[0]);

    let out = spec_people_phase(people, map, retry, pos, next_car_id);
    assert(out.persons.len() == 1);
    assert(out.persons[0].3 == vehicles);
    assert(out.trips =~= tr2.0);
    assert(out.parked.len() == 1);
}

impl Scenario {
    /// A scenario with nobody in it, bound to the given map, seeding no
    /// transit routes.
    pub fn empty(map: &MapModel, name: &str) -> (r: Scenario)
        ensures
            r.scenario_name@ == name@,
            r.map_name.city@ == map.name.city@,
            r.map_name.map@ == map.name.map@,
            r.people@.len() == 0,
            r.only_seed_buses matches Some(v) && v@.len() == 0,
    {
        Scenario {
            scenario_name: name.to_owned(),
            map_name: crate::scenario::MapName {
                city: map.name.city.clone(),
                map: map.name.map.clone(),
            },
            people: Vec::new(),
            only_seed_buses: Some(Vec::new()),
        }
    }

    /// Instantiate with spawn retries under congestion enabled.
    pub fn instantiate(&self, sim: &mut Sim, map: &MapModel, rng: &mut SimRng)
        requires
            map.spec_wf(),
            old(sim).spec_wf(*map),
            forall|k: int|
                0 <= k < self.people@.len() ==> spec_schedule_ok(
                    (#[trigger] self.people@[k]).trips@,
                ),
            forall|k: int, j: int|
                0 <= k < self.people@.len() && 0 <= j < self.people@[k].trips@.len() ==> (match (
                #[trigger] self.people@[k].trips@[j]).from {
                    TripEndpoint::Bldg(b) => b.0 < map.buildings@.len(),
                    _ => true,
                }),
            spec_people_phase(
                self.people@,
                *map,
                true,
                old(rng)@,
                old(sim).next_car_id as int,
            ).next_car_id <= usize::MAX,
        ensures
            spec_instantiated(*self, *old(sim), *final(sim), *map, true, old(rng)@, final(rng)@),
    {
        self.instantiate_without_retries(sim, map, rng, true)
    }

    /// Drive the whole pipeline: seed transit routes, then for each person in
    /// order validate, allocate vehicles, register them, and fork one
    /// sub-stream per trip for resolution; shuffle the initial-parking list
    /// with the unforked base stream, seed parked cars, and flush every
    /// resolved trip to the simulator. If `retry_if_no_room` is false, a
    /// vehicle that cannot spawn for lack of room becomes a cancelled trip
    /// instead of retrying.
    pub fn instantiate_without_retries(
        &self,
        sim: &mut Sim,
        map: &MapModel,
        rng: &mut SimRng,
        retry_if_no_room: bool,
    )
        requires
            map.spec_wf(),
            old(sim).spec_wf(*map),
            forall|k: int|
                0 <= k < self.people@.len() ==> spec_schedule_ok(
                    (#[trigger] self.people@[k]).trips@,
                ),
            forall|k: int, j: int|
                0 <= k < self.people@.len() && 0 <= j < self.people@[k].trips@.len() ==> (match (
                #[trigger] self.people@[k].trips@[j]).from {
                    TripEndpoint::Bldg(b) => b.0 < map.buildings@.len(),
                    _ => true,
                }),
            spec_people_phase(
                self.people@,
                *map,
                retry_if_no_room,
                old(rng)@,
                old(sim).next_car_id as int,
            ).next_car_id <= usize::MAX,
        ensures
            spec_instantiated(
                *self,
                *old(sim),
                *final(sim),
                *map,
                retry_if_no_room,
                old(rng)@,
                final(rng)@,
            ),
    {
        sim.set_name(self.scenario_name.clone());

        let ghost only = spec_only_view(self.only_seed_buses);
        let mut i: usize = 0;
        while i < map.bus_routes.len()
            invariant
                0 <= i <= map.bus_routes@.len(),
                only == spec_only_view(self.only_seed_buses),
                *sim == (Sim {
                    name: sim.name,
                    seeded_routes: sim.seeded_routes,
                    ..*old(sim)
                }),
                sim.name matches Some(n) && n@ == self.scenario_name@,
                sim.seeded_routes@ == old(sim).seeded_routes@ + spec_seeded_routes(
                    map.bus_routes@.subrange(0, i as int),
                    only,
                ),
            decreases map.bus_routes@.len() - i,
        {
            proof {
                assert(map.bus_routes@.subrange(0, i as int + 1).drop_last()
                    =~= map.bus_routes@.subrange(0, i as int));
                assert(map.bus_routes@.subrange(0, i as int + 1).last()
                    == map.bus_routes@[i as int]);
            }
            let route = map.bus_routes[i];
            let keep = match &self.only_seed_buses {
                Some(ks) => route_listed(ks, route),
                None => true,
            };
            if keep {
                sim.seed_bus_route(route);
            }
            i = i + 1;
        }
        proof {
            assert(map.bus_routes@.subrange(0, map.bus_routes@.len() as int) =~= map.bus_routes@);
        }

        let ghost pos0 = rng@;
        let ghost base_car_id = old(sim).next_car_id as int;
        let mut parked_cars: Vec<(Vehicle, BuildingID)> = Vec::new();
        let mut spawner = TripSpawner::new();
        let mut k: usize = 0;
        while k < self.people.len()
            invariant
                0 <= k <= self.people@.len(),
                map.spec_wf(),
                only == spec_only_view(self.only_seed_buses),
                pos0 == old(rng)@,
                base_car_id == old(sim).next_car_id as int,
                forall|k2: int|
                    0 <= k2 < self.people@.len() ==> spec_schedule_ok(
                        (#[trigger] self.people@[k2]).trips@,
                    ),
                spec_people_phase(self.people@, *map, retry_if_no_room, pos0, base_car_id)
                    .next_car_id <= usize::MAX,
                *sim == (Sim {
                    name: sim.name,
                    seeded_routes: sim.seeded_routes,
                    persons: sim.persons,
                    next_car_id: sim.next_car_id,
                    ..*old(sim)
                }),
                sim.name matches Some(n) && n@ == self.scenario_name@,
                sim.seeded_routes@ == old(sim).seeded_routes@ + spec_seeded_routes(
                    map.bus_routes@,
                    only,
                ),
                ({
                    let ppl = spec_people_phase(
                        self.people@.subrange(0, k as int),
                        *map,
                        retry_if_no_room,
                        pos0,
                        base_car_id,
                    );
                    &&& sim.persons@.len() == old(sim).persons@.len() + k
                    &&& sim.persons@.subrange(0, old(sim).persons@.len() as int) == old(
                        sim,
                    ).persons@
                    &&& forall|k2: int|
                        0 <= k2 < k ==> {
                            let pr = #[trigger] sim.persons@[old(sim).persons@.len() + k2];
                            &&& pr.id == ppl.persons[k2].0
                            &&& pr.orig_id == ppl.persons[k2].1
                            &&& pr.ped_speed == ppl.persons[k2].2
                            &&& pr.vehicles@ == ppl.persons[k2].3
                        }
                    &&& ppl.persons.len() == k
                    &&& parked_cars@ == ppl.parked
                    &&& spawner.trips@ == ppl.trips
                    &&& rng@ == ppl.pos
                    &&& sim.next_car_id as int == ppl.next_car_id
                }),
            decreases self.people@.len() - k,
        {
            proof {
                assert(self.people@.subrange(0, k as int + 1).drop_last() =~= self.people@.subrange(
                    0,
                    k as int,
                ));
                assert(self.people@.subrange(0, k as int + 1).last() == self.people@[k as int]);
                lemma_people_phase_prefix_bound(
                    self.people@,
                    *map,
                    retry_if_no_room,
                    pos0,
                    base_car_id,
                    k as int + 1,
                );
            }
            let p = &self.people[k];
            match p.check_schedule() {
                Ok(()) => {},
                Err(_) => {
                    // A schedule violation surviving to this stage would be
                    // an upstream filtering bug; the precondition rules every
                    // such input out, so this branch is provably dead.
                    proof {
                        assert(false);
                    }
                },
            }
            let ghost pos_before = rng@;
            let (vehicle_specs, cars_parked, veh_per_trip) = p.get_vehicles(rng);
            let ped_speed = Scenario::rand_ped_speed(rng);
            let base = sim.next_car_id;
            let ghost st = spec_alloc(p.trips@, pos_before);
            let ghost vehicles = spec_make_vehicles(st.specs, base as int, p.id);
            proof {
                lemma_alloc_wf(p.trips@, pos_before);
            }

            let ghost parked_before = parked_cars@;
            let ghost parked_p = Seq::new(
                st.parked.len(),
                |i2: int| (vehicles[st.parked[i2].0 as int], st.parked[i2].1),
            );
            let mut i2: usize = 0;
            while i2 < cars_parked.len()
                invariant
                    0 <= i2 <= cars_parked@.len(),
                    cars_parked@ == st.parked,
                    vehicle_specs@ == st.specs,
                    vehicles == spec_make_vehicles(st.specs, base as int, p.id),
                    parked_p == Seq::new(
                        st.parked.len(),
                        |i3: int| (vehicles[st.parked[i3].0 as int], st.parked[i3].1),
                    ),
                    forall|j: int|
                        0 <= j < st.parked.len() ==> (#[trigger] st.parked[j]).0 < st.specs.len(),
                    base + st.specs.len() <= usize::MAX,
                    parked_cars@ == parked_before + parked_p.subrange(0, i2 as int),
                decreases cars_parked@.len() - i2,
            {
                let (idx, b) = cars_parked[i2];
                let v = Vehicle::from_spec(
                    vehicle_specs[idx],
                    CarID { id: base + idx, vehicle_type: vehicle_specs[idx].vehicle_type },
                    p.id,
                );
                parked_cars.push((v, b));
                proof {
                    assert((v, b) == parked_p[i2 as int]);
                    assert(parked_before + parked_p.subrange(0, i2 as int + 1) =~= (parked_before
                        + parked_p.subrange(0, i2 as int)).push((v, b)));
                }
                i2 = i2 + 1;
            }
            proof {
                assert(parked_p.subrange(0, parked_p.len() as int) =~= parked_p);
                assert(parked_cars@ == parked_before + parked_p);
            }

            let ghost trips_before = spawner.trips@;
            let ghost pos1 = rng@;
            let mut j: usize = 0;
            while j < p.trips.len()
                invariant
                    0 <= j <= p.trips@.len(),
                    map.spec_wf(),
                    veh_per_trip@ == st.per_trip,
                    vehicle_specs@ == st.specs,
                    vehicles == spec_make_vehicles(st.specs, base as int, p.id),
                    st.per_trip.len() == p.trips@.len(),
                    forall|j2: int|
                        0 <= j2 < st.per_trip.len() && (#[trigger] st.per_trip[j2]) is Some
                            ==> st.per_trip[j2].unwrap() < st.specs.len(),
                    forall|j2: int|
                        0 <= j2 < p.trips@.len() ==> ((#[trigger] st.per_trip[j2]) is Some <==> (
                        p.trips@[j2].mode == TripMode::Drive || p.trips@[j2].mode
                            == TripMode::Bike)),
                    base + st.specs.len() <= usize::MAX,
                    ({
                        let tr = spec_person_trips(
                            p.trips@.subrange(0, j as int),
                            st.per_trip,
                            vehicles,
                            p.id,
                            *map,
                            retry_if_no_room,
                            pos1,
                        );
                        &&& spawner.trips@ == trips_before + tr.0
                        &&& rng@ == tr.1
                    }),
                decreases p.trips@.len() - j,
            {
                proof {
                    assert(p.trips@.subrange(0, j as int + 1).drop_last() =~= p.trips@.subrange(
                        0,
                        j as int,
                    ));
                    assert(p.trips@.subrange(0, j as int + 1).last() == p.trips@[j as int]);
                }
                let t = &p.trips[j];
                let mut tmp_rng = fork_rng(rng);
                let use_vehicle = match veh_per_trip[j] {
                    Some(idx) => Some(
                        CarID { id: base + idx, vehicle_type: vehicle_specs[idx].vehicle_type },
                    ),
                    None => None,
                };
                let tspec = match SpawnTrip::new(t.from, t.to, t.mode, map) {
                    Some(tr) => tr.to_trip_spec(use_vehicle, retry_if_no_room, &mut tmp_rng, map),
                    None => TripSpec::SpawningFailure {
                        use_vehicle,
                        error: SpawnError::UnknownSpawning,
                    },
                };
                let info = TripInfo {
                    departure: t.depart,
                    mode: t.mode,
                    start: t.from,
                    end: t.to,
                    purpose: t.purpose,
                    modified: t.modified,
                    capped: false,
                    cancellation_reason: if t.cancelled {
                        Some(CancellationReason::ScenarioModifier)
                    } else {
                        None
                    },
                };
                spawner.schedule_trip(p.id, tspec, info);
                j = j + 1;
            }
            proof {
                assert(p.trips@.subrange(0, p.trips@.len() as int) =~= p.trips@);
            }

            sim.new_person(p.id, p.orig_id, ped_speed, vehicle_specs);
            proof {
                assert(sim.persons@.subrange(0, old(sim).persons@.len() as int) =~= old(
                    sim,
                ).persons@);
                let prefix = self.people@.subrange(0, k as int);
                let prefix1 = self.people@.subrange(0, k as int + 1);
                let prev = spec_people_phase(prefix, *map, retry_if_no_room, pos0, base_car_id);
                let nxt = spec_people_phase(prefix1, *map, retry_if_no_room, pos0, base_car_id);
                assert(prev.pos == pos_before);
                assert(st == spec_alloc(prefix1.last().trips@, prev.pos));
                assert(vehicles == spec_make_vehicles(st.specs, prev.next_car_id, prefix1.last().id));
                let tr = spec_person_trips(
                    prefix1.last().trips@,
                    st.per_trip,
                    vehicles,
                    prefix1.last().id,
                    *map,
                    retry_if_no_room,
                    pos1,
                );
                assert(nxt.persons == prev.persons.push(
                    (prefix1.last().id, prefix1.last().orig_id, ped_speed, vehicles),
                ));
                assert(nxt.parked == prev.parked + parked_p);
                assert(nxt.trips == prev.trips + tr.0);
                assert(nxt.pos == tr.1);
                assert(nxt.next_car_id == prev.next_car_id + st.specs.len());
                assert(sim.persons@.len() == old(sim).persons@.len() + (k + 1));
                assert(sim.persons@.subrange(0, old(sim).persons@.len() as int) == old(
                    sim,
                ).persons@);
                assert(nxt.persons.len() == k + 1);
                assert(parked_cars@ == nxt.parked);
                assert(spawner.trips@ == nxt.trips);
                assert(rng@ == nxt.pos);
                assert(sim.next_car_id as int == nxt.next_car_id);
                assert forall|k2: int| 0 <= k2 < k + 1 implies {
                    let pr = #[trigger] sim.persons@[old(sim).persons@.len() + k2];
                    &&& pr.id == nxt.persons[k2].0
                    &&& pr.orig_id == nxt.persons[k2].1
                    &&& pr.ped_speed == nxt.persons[k2].2
                    &&& pr.vehicles@ == nxt.persons[k2].3
                } by {
                    if k2 < k {
                        assert(sim.persons@[old(sim).persons@.len() + k2] == sim.persons@.subrange(
                            0,
                            old(sim).persons@.len() + k as int,
                        )[old(sim).persons@.len() + k2]);
                        assert(nxt.persons[k2] == prev.persons[k2]);
                    } else {
                        assert(sim.persons@[old(sim).persons@.len() + k2] == sim.persons@.last());
                    }
                }
            }
            k = k + 1;
        }
        proof {
            assert(self.people@.subrange(0, self.people@.len() as int) =~= self.people@);
        }

        let ghost ppl = spec_people_phase(
            self.people@,
            *map,
            retry_if_no_room,
            pos0,
            base_car_id,
        );
        shuffle(rng, &mut parked_cars);
        proof {
            lemma_people_parked_valid(
                self.people@,
                *map,
                retry_if_no_room,
                pos0,
                base_car_id,
                map.buildings@.len() as int,
            );
            assert(parked_cars@ =~= spec_apply_perm(
                ppl.parked,
                shuffle_perm(ppl.parked.len(), ppl.pos.seed, ppl.pos.taken),
            ));
            assert forall|i3: int| 0 <= i3 < parked_cars@.len() implies (#[trigger] parked_cars@[
                i3
            ]).1.0 < map.buildings@.len() by {
                let perm = shuffle_perm(ppl.parked.len(), ppl.pos.seed, ppl.pos.taken);
                assert(parked_cars@[i3] == ppl.parked[perm[i3]]);
            }
        }
        let _report = seed_parked_cars(parked_cars, sim, map, rng);
        sim.flush_spawner(spawner);
    }
}

/// The whole contract of one instantiation run, phase by phase: what the
/// final simulator state and stream position must be, as a function of the
/// scenario, the starting simulator state, the map, and the starting stream.
pub open spec fn spec_instantiated(
    scenario: Scenario,
    sim0: Sim,
    sim1: Sim,
    map: MapModel,
    retry: bool,
    pos0: StreamPos,
    pos1: StreamPos,
) -> bool {
    let only = spec_only_view(scenario.only_seed_buses);
    let routes = spec_seeded_routes(map.bus_routes@, only);
    let ppl = spec_people_phase(scenario.people@, map, retry, pos0, sim0.next_car_id as int);
    let cars = spec_apply_perm(
        ppl.parked,
        shuffle_perm(ppl.parked.len(), ppl.pos.seed, ppl.pos.taken),
    );
    let pos_shuf = StreamPos {
        seed: ppl.pos.seed,
        taken: shuffle_taken(ppl.parked.len(), ppl.pos.seed, ppl.pos.taken),
    };
    &&& sim1.name matches Some(n) && n@ == scenario.scenario_name@
    &&& sim1.seeded_routes@ == sim0.seeded_routes@ + routes
    &&& sim1.persons@.len() == sim0.persons@.len() + scenario.people@.len()
    &&& sim1.persons@.subrange(0, sim0.persons@.len() as int) == sim0.persons@
    &&& ppl.persons.len() == scenario.people@.len()
    &&& forall|k: int|
        0 <= k < scenario.people@.len() ==> {
            let pr = #[trigger] sim1.persons@[sim0.persons@.len() + k];
            &&& pr.id == ppl.persons[k].0
            &&& pr.orig_id == ppl.persons[k].1
            &&& pr.ped_speed == ppl.persons[k].2
            &&& pr.vehicles@ == ppl.persons[k].3
        }
    &&& sim1.scheduled@ == sim0.scheduled@ + ppl.trips
    &&& sim1.next_car_id as int == ppl.next_car_id
    &&& sim1.infinite_parking == sim0.infinite_parking
    &&& sim1.all_parking_spots@ == sim0.all_parking_spots@
    &&& (sim0.infinite_parking ==> ({
        let out = spec_seed_infinite(cars, spec_free_view(sim0.free_offstreet@));
        &&& sim1.parked@ == sim0.parked@ + out.assigned
        &&& spec_free_view(sim1.free_offstreet@) =~= out.free
        &&& pos1 == pos_shuf
    }))
    &&& (!sim0.infinite_parking ==> ({
        let rows1 = spec_shuffle_rows(spec_group_spots(map, sim0.all_parking_spots@), pos_shuf);
        let out = spec_seed_cars(map, cars, rows1);
        &&& sim1.parked@ == sim0.parked@ + out.assigned
        &&& sim1.free_offstreet@ == sim0.free_offstreet@
        &&& pos1 == (StreamPos {
            seed: pos_shuf.seed,
            taken: pos_shuf.taken + 2 * map.roads@.len(),
        })
    }))
}

} // verus!
