use vstd::prelude::*;

use crate::rng::{rand_range, spec_rand_range, SimRng, StreamPos};
use crate::types::{
    BuildingID, BusRouteID, Distance, MaybeSpeed, OrigPersonID, PersonID, Speed, Time,
    TripEndpoint, TripMode, VehicleSpec, VehicleType, BIKE_LENGTH, MAX_BIKE_SPEED, MAX_CAR_LENGTH,
    MAX_PED_SPEED, MIN_BIKE_SPEED, MIN_CAR_LENGTH, MIN_PED_SPEED,
};

verus! {

/// Why a person makes a trip. Purely descriptive; instantiation carries it
/// through to the simulator untouched.
#[derive(Clone, Copy, PartialEq, Eq, Structural, Debug)]
pub enum TripPurpose {
    Home,
    Work,
    School,
    Escort,
    PersonalBusiness,
    Shopping,
    Meal,
    Social,
    Recreation,
    Medical,
    ParkAndRideTransfer,
}

impl TripPurpose {
    /// The human-readable word for this purpose.
    pub open spec fn spec_describe(self) -> Seq<char> {
        match self {
            TripPurpose::Home => "home"@,
            TripPurpose::Work => "work"@,
            TripPurpose::School => "school"@,
            TripPurpose::Escort => "escort"@,
            TripPurpose::PersonalBusiness => "personal business"@,
            TripPurpose::Shopping => "shopping"@,
            TripPurpose::Meal => "eating"@,
            TripPurpose::Social => "social"@,
            TripPurpose::Recreation => "recreation"@,
            TripPurpose::Medical => "medical"@,
            TripPurpose::ParkAndRideTransfer => "park-and-ride transfer"@,
        }
    }

    pub fn describe(&self) -> (r: &'static str)
        ensures
            r@ == self.spec_describe(),
    {
        match self {
            TripPurpose::Home => "home",
            TripPurpose::Work => "work",
            TripPurpose::School => "school",
            TripPurpose::Escort => "escort",
            TripPurpose::PersonalBusiness => "personal business",
            TripPurpose::Shopping => "shopping",
            TripPurpose::Meal => "eating",
            TripPurpose::Social => "social",
            TripPurpose::Recreation => "recreation",
            TripPurpose::Medical => "medical",
            TripPurpose::ParkAndRideTransfer => "park-and-ride transfer",
        }
    }
}

/// One declarative trip of one person's day.
#[derive(Clone, Copy, PartialEq, Eq, Structural, Debug)]
pub struct IndividTrip {
    pub depart: Time,
    pub from: TripEndpoint,
    pub to: TripEndpoint,
    pub mode: TripMode,
    pub purpose: TripPurpose,
    pub cancelled: bool,
    /// Did an external modifier alter this trip?
    pub modified: bool,
}

impl IndividTrip {
    pub fn new(
        depart: Time,
        purpose: TripPurpose,
        from: TripEndpoint,
        to: TripEndpoint,
        mode: TripMode,
    ) -> (r: IndividTrip)
        ensures
            r == (IndividTrip { depart, from, to, mode, purpose, cancelled: false, modified: false }),
    {
        IndividTrip { depart, from, to, mode, purpose, cancelled: false, modified: false }
    }
}

/// One person's planned day: an ordered chain of trips.
#[derive(Clone, Debug)]
pub struct PersonSpec {
    pub id: PersonID,
    /// Just used for debugging.
    pub orig_id: Option<OrigPersonID>,
    pub trips: Vec<IndividTrip>,
}

/// The building a trip ends at, if it ends at one; crossing off-map resets
/// location tracking.
pub open spec fn spec_end_bldg(t: IndividTrip) -> Option<BuildingID> {
    match t.to {
        TripEndpoint::Bldg(b) => Some(b),
        TripEndpoint::Border(_) => None,
        TripEndpoint::SuddenlyAppear(_) => None,
    }
}

/// The building a trip starts at, if it starts at one.
pub open spec fn spec_start_bldg(t: IndividTrip) -> Option<BuildingID> {
    match t.from {
        TripEndpoint::Bldg(b) => Some(b),
        TripEndpoint::Border(_) => None,
        TripEndpoint::SuddenlyAppear(_) => None,
    }
}

/// The endpoints of two consecutive trips agree: the same building, or at
/// least one of them is a border or sudden-appearance endpoint — crossing
/// off-map resets location tracking, so any re-entry counts as continuous.
pub open spec fn spec_pair_continuous(a: IndividTrip, b: IndividTrip) -> bool {
    match (spec_end_bldg(a), spec_start_bldg(b)) {
        (Some(x), Some(y)) => x == y,
        _ => true,
    }
}

/// Two consecutive trips agree: strictly later departure, and spatial
/// continuity with off-map endpoints as wildcards.
pub open spec fn spec_pair_ok(a: IndividTrip, b: IndividTrip) -> bool {
    &&& a.depart < b.depart
    &&& spec_pair_continuous(a, b)
}

/// A whole schedule is temporally ordered and spatially continuous.
pub open spec fn spec_schedule_ok(trips: Seq<IndividTrip>) -> bool {
    forall|i: int|
        0 <= i && i + 1 < trips.len() ==> spec_pair_ok(#[trigger] trips[i], trips[i + 1])
}

/// What a schedule check found wrong with one consecutive pair of trips.
#[derive(Clone, Copy, PartialEq, Eq, Structural, Debug)]
pub enum ScheduleErrorKind {
    /// The earlier trip does not depart strictly before the later one.
    TripsOutOfOrder(Time, Time),
    /// The earlier trip's destination and the later trip's origin disagree.
    Discontinuous(Time, Option<BuildingID>, Option<BuildingID>),
}

/// A person's trip chain is inconsistent, found at the pair starting at
/// `index`.
#[derive(Clone, Copy, PartialEq, Eq, Structural, Debug)]
pub struct ScheduleError {
    pub person: PersonID,
    pub orig_id: Option<OrigPersonID>,
    pub index: usize,
    pub kind: ScheduleErrorKind,
}

/// The error reported for the pair `(a, b)`, time order checked first.
pub open spec fn spec_pair_error(a: IndividTrip, b: IndividTrip) -> ScheduleErrorKind {
    if a.depart >= b.depart {
        ScheduleErrorKind::TripsOutOfOrder(a.depart, b.depart)
    } else {
        ScheduleErrorKind::Discontinuous(b.depart, spec_end_bldg(a), spec_start_bldg(b))
    }
}

fn bldgs_agree(a: Option<BuildingID>, b: Option<BuildingID>) -> (r: bool)
    ensures
        r == match (a, b) {
            (Some(x), Some(y)) => x == y,
            _ => true,
        },
{
    match (a, b) {
        (Option::Some(x), Option::Some(y)) => x == y,
        _ => true,
    }
}

impl PersonSpec {
    /// Verify that consecutive trips are in time order and connect
    /// end-to-end. Succeeds exactly on consistent schedules; on failure it
    /// reports the first offending pair.
    pub fn check_schedule(&self) -> (r: Result<(), ScheduleError>)
        ensures
            r is Ok <==> spec_schedule_ok(self.trips@),
            r matches Err(e) ==> {
                &&& e.person == self.id
                &&& e.orig_id == self.orig_id
                &&& 0 <= e.index && e.index + 1 < self.trips@.len()
                &&& !spec_pair_ok(self.trips@[e.index as int], self.trips@[e.index + 1])
                &&& forall|j: int|
                    0 <= j < e.index ==> spec_pair_ok(
                        #[trigger] self.trips@[j],
                        self.trips@[j + 1],
                    )
                &&& e.kind == spec_pair_error(self.trips@[e.index as int], self.trips@[e.index + 1])
            },
    {
        let n = self.trips.len();
        if n == 0 {
            return Ok(());
        }
        let mut i: usize = 0;
        while i < n - 1
            invariant
                n == self.trips@.len(),
                n >= 1,
                0 <= i <= n,
                forall|j: int| 0 <= j && j + 1 <= i ==> spec_pair_ok(
                    #[trigger] self.trips@[j],
                    self.trips@[j + 1],
                ),
            decreases n - i,
        {
            let a = &self.trips[i];
            let b = &self.trips[i + 1];
            if a.depart >= b.depart {
                return Err(ScheduleError {
                    person: self.id,
                    orig_id: self.orig_id,
                    index: i,
                    kind: ScheduleErrorKind::TripsOutOfOrder(a.depart, b.depart),
                });
            }
            let end_bldg = match a.to {
                TripEndpoint::Bldg(bl) => Some(bl),
                TripEndpoint::Border(_) => None,
                TripEndpoint::SuddenlyAppear(_) => None,
            };
            let start_bldg = match b.from {
                TripEndpoint::Bldg(bl) => Some(bl),
                TripEndpoint::Border(_) => None,
                TripEndpoint::SuddenlyAppear(_) => None,
            };
            if !bldgs_agree(end_bldg, start_bldg) {
                return Err(ScheduleError {
                    person: self.id,
                    orig_id: self.orig_id,
                    index: i,
                    kind: ScheduleErrorKind::Discontinuous(b.depart, end_bldg, start_bldg),
                });
            }
            i = i + 1;
        }
        Ok(())
    }
}

/// The name of the map a scenario belongs to.
#[derive(Clone, Debug)]
pub struct MapName {
    pub city: String,
    pub map: String,
}

/// A Scenario describes all the input to a simulation: who travels where,
/// when, and how, on one named map.
#[derive(Clone, Debug)]
pub struct Scenario {
    pub scenario_name: String,
    pub map_name: MapName,
    pub people: Vec<PersonSpec>,
    /// `None` seeds every transit route; otherwise the route must be listed
    /// here to be seeded.
    pub only_seed_buses: Option<Vec<BusRouteID>>,
}

/// The car spec that drawing at the given stream position yields.
pub open spec fn spec_rand_car(pos: StreamPos) -> VehicleSpec {
    VehicleSpec {
        vehicle_type: VehicleType::Car,
        length: spec_rand_range(MIN_CAR_LENGTH, MAX_CAR_LENGTH, pos.seed, pos.taken),
        max_speed: MaybeSpeed::NoLimit,
    }
}

/// The bike spec that drawing at the given stream position yields.
pub open spec fn spec_rand_bike(pos: StreamPos) -> VehicleSpec {
    VehicleSpec {
        vehicle_type: VehicleType::Bike,
        length: BIKE_LENGTH,
        max_speed: MaybeSpeed::Limit(
            spec_rand_range(MIN_BIKE_SPEED, MAX_BIKE_SPEED, pos.seed, pos.taken),
        ),
    }
}

impl Scenario {
    fn rand_car(rng: &mut SimRng) -> (r: VehicleSpec)
        ensures
            r == spec_rand_car(old(rng)@),
            final(rng)@ == (StreamPos { seed: old(rng)@.seed, taken: old(rng)@.taken + 2 }),
    {
        let length = Scenario::rand_dist(rng, MIN_CAR_LENGTH, MAX_CAR_LENGTH);
        VehicleSpec {
            vehicle_type: VehicleType::Car,
            length,
            max_speed: MaybeSpeed::NoLimit,
        }
    }

    fn rand_bike(rng: &mut SimRng) -> (r: VehicleSpec)
        ensures
            r == spec_rand_bike(old(rng)@),
            final(rng)@ == (StreamPos { seed: old(rng)@.seed, taken: old(rng)@.taken + 2 }),
    {
        let max_speed = Scenario::rand_speed(rng, MIN_BIKE_SPEED, MAX_BIKE_SPEED);
        VehicleSpec {
            vehicle_type: VehicleType::Bike,
            length: BIKE_LENGTH,
            max_speed: MaybeSpeed::Limit(max_speed),
        }
    }

    /// The fastest top speed any bike is assigned.
    pub fn max_bike_speed() -> (r: Speed)
        ensures
            r == MAX_BIKE_SPEED,
    {
        MAX_BIKE_SPEED
    }

    /// A distance in `[low, high)`, pinned to the stream position.
    pub fn rand_dist(rng: &mut SimRng, low: Distance, high: Distance) -> (r: Distance)
        requires
            low < high,
        ensures
            r == spec_rand_range(low, high, old(rng)@.seed, old(rng)@.taken),
            low <= r < high,
            final(rng)@ == (StreamPos { seed: old(rng)@.seed, taken: old(rng)@.taken + 2 }),
    {
        rand_range(rng, low, high)
    }

    fn rand_speed(rng: &mut SimRng, low: Speed, high: Speed) -> (r: Speed)
        requires
            low < high,
        ensures
            r == spec_rand_range(low, high, old(rng)@.seed, old(rng)@.taken),
            low <= r < high,
            final(rng)@ == (StreamPos { seed: old(rng)@.seed, taken: old(rng)@.taken + 2 }),
    {
        rand_range(rng, low, high)
    }

    /// A walking speed in `[MIN_PED_SPEED, MAX_PED_SPEED)`, pinned to the
    /// stream position.
    pub fn rand_ped_speed(rng: &mut SimRng) -> (r: Speed)
        ensures
            r == spec_rand_range(MIN_PED_SPEED, MAX_PED_SPEED, old(rng)@.seed, old(rng)@.taken),
            final(rng)@ == (StreamPos { seed: old(rng)@.seed, taken: old(rng)@.taken + 2 }),
    {
        Scenario::rand_speed(rng, MIN_PED_SPEED, MAX_PED_SPEED)
    }

    /// The fastest walking speed any person is assigned.
    pub fn max_ped_speed() -> (r: Speed)
        ensures
            r == MAX_PED_SPEED,
    {
        MAX_PED_SPEED
    }
}

/// The full state of the vehicle allocator after some prefix of a person's
/// trips: the vehicles created so far, which cars need an initial parked
/// assignment where, which vehicle each trip uses, the lazily-created bike,
/// where each tracked car currently stands (`None` means off-map), and how
/// far the random stream has advanced.
pub ghost struct AllocState {
    pub specs: Seq<VehicleSpec>,
    pub parked: Seq<(usize, BuildingID)>,
    pub per_trip: Seq<Option<usize>>,
    pub bike_idx: Option<usize>,
    pub car_locations: Seq<(usize, Option<BuildingID>)>,
    pub pos: StreamPos,
}

pub open spec fn spec_alloc_init(pos: StreamPos) -> AllocState {
    AllocState {
        specs: Seq::empty(),
        parked: Seq::empty(),
        per_trip: Seq::empty(),
        bike_idx: None,
        car_locations: Seq::empty(),
        pos,
    }
}

/// The first tracked car standing at `need`, if any.
pub open spec fn spec_find_car(
    locs: Seq<(usize, Option<BuildingID>)>,
    need: Option<BuildingID>,
) -> Option<usize>
    decreases locs.len(),
{
    if locs.len() == 0 {
        None
    } else if locs[0].1 == need {
        Some(locs[0].0)
    } else {
        spec_find_car(locs.drop_first(), need)
    }
}

/// The tracked locations with car `idx` dropped, order kept.
pub open spec fn spec_remove_car(
    locs: Seq<(usize, Option<BuildingID>)>,
    idx: usize,
) -> Seq<(usize, Option<BuildingID>)>
    decreases locs.len(),
{
    if locs.len() == 0 {
        locs
    } else {
        let rest = spec_remove_car(locs.drop_last(), idx);
        if locs.last().0 == idx {
            rest
        } else {
            rest.push(locs.last())
        }
    }
}

/// How one trip advances the allocator: walking and transit need no vehicle;
/// a bike trip reuses the one bike or creates it; a drive trip reuses a car
/// already standing at the trip's required origin, else creates one there.
pub open spec fn spec_alloc_step(st: AllocState, trip: IndividTrip) -> AllocState {
    match trip.mode {
        TripMode::Walk | TripMode::Transit => AllocState {
            per_trip: st.per_trip.push(None),
            ..st
        },
        TripMode::Bike => match st.bike_idx {
            Some(i) => AllocState { per_trip: st.per_trip.push(Some(i)), ..st },
            None => AllocState {
                specs: st.specs.push(spec_rand_bike(st.pos)),
                per_trip: st.per_trip.push(Some(st.specs.len() as usize)),
                bike_idx: Some(st.specs.len() as usize),
                pos: StreamPos { seed: st.pos.seed, taken: st.pos.taken + 2 },
                ..st
            },
        },
        TripMode::Drive => {
            let need = spec_start_bldg(trip);
            let found = spec_find_car(st.car_locations, need);
            let idx = if found is Some {
                found.unwrap()
            } else {
                st.specs.len() as usize
            };
            let specs = if found is Some {
                st.specs
            } else {
                st.specs.push(spec_rand_car(st.pos))
            };
            let parked = if found is Some {
                st.parked
            } else {
                match need {
                    Some(b) => st.parked.push((idx, b)),
                    None => st.parked,
                }
            };
            let pos = if found is Some {
                st.pos
            } else {
                StreamPos { seed: st.pos.seed, taken: st.pos.taken + 2 }
            };
            AllocState {
                specs,
                parked,
                per_trip: st.per_trip.push(Some(idx)),
                bike_idx: st.bike_idx,
                car_locations: spec_remove_car(st.car_locations, idx).push(
                    (idx, spec_end_bldg(trip)),
                ),
                pos,
            }
        },
    }
}

/// The allocator's state after a whole trip sequence, starting the random
/// stream at `pos`.
pub open spec fn spec_alloc(trips: Seq<IndividTrip>, pos: StreamPos) -> AllocState
    decreases trips.len(),
{
    if trips.len() == 0 {
        spec_alloc_init(pos)
    } else {
        spec_alloc_step(spec_alloc(trips.drop_last(), pos), trips.last())
    }
}

fn opt_bldg_eq(a: Option<BuildingID>, b: Option<BuildingID>) -> (r: bool)
    ensures
        r == (a == b),
{
    match (a, b) {
        (Option::None, Option::None) => true,
        (Option::Some(x), Option::Some(y)) => x == y,
        _ => false,
    }
}

fn find_car(locs: &Vec<(usize, Option<BuildingID>)>, need: Option<BuildingID>) -> (r: Option<
    usize,
>)
    ensures
        r == spec_find_car(locs@, need),
{
    let mut i: usize = 0;
    proof {
        assert(locs@.skip(0) =~= locs@);
    }
    while i < locs.len()
        invariant
            0 <= i <= locs@.len(),
            spec_find_car(locs@, need) == spec_find_car(locs@.skip(i as int), need),
        decreases locs@.len() - i,
    {
        let (idx, at) = locs[i];
        proof {
            assert(locs@.skip(i as int)[0] == locs@[i as int]);
            assert(locs@.skip(i as int).drop_first() =~= locs@.skip(i as int + 1));
        }
        if opt_bldg_eq(at, need) {
            return Some(idx);
        }
        i = i + 1;
    }
    proof {
        assert(locs@.skip(locs@.len() as int).len() == 0);
    }
    None
}

fn remove_car(locs: &Vec<(usize, Option<BuildingID>)>, idx: usize) -> (r: Vec<(
    usize,
    Option<BuildingID>,
)>)
    ensures
        r@ == spec_remove_car(locs@, idx),
{
    let mut out: Vec<(usize, Option<BuildingID>)> = Vec::new();
    let mut i: usize = 0;
    while i < locs.len()
        invariant
            0 <= i <= locs@.len(),
            out@ == spec_remove_car(locs@.subrange(0, i as int), idx),
        decreases locs@.len() - i,
    {
        let (j, at) = locs[i];
        proof {
            assert(locs@.subrange(0, i as int + 1).drop_last() =~= locs@.subrange(0, i as int));
            assert(locs@.subrange(0, i as int + 1).last() == locs@[i as int]);
        }
        if j != idx {
            out.push((j, at));
        }
        i = i + 1;
    }
    proof {
        assert(locs@.subrange(0, locs@.len() as int) =~= locs@);
    }
    out
}

proof fn lemma_find_car_bound(
    locs: Seq<(usize, Option<BuildingID>)>,
    need: Option<BuildingID>,
    n: int,
)
    requires
        forall|k: int| 0 <= k < locs.len() ==> (#[trigger] locs[k]).0 < n,
    ensures
        spec_find_car(locs, need) matches Some(i) ==> i < n,
    decreases locs.len(),
{
    if locs.len() > 0 && locs[0].1 != need {
        lemma_find_car_bound(locs.drop_first(), need, n);
    }
}

proof fn lemma_remove_car_keeps_bound(locs: Seq<(usize, Option<BuildingID>)>, idx: usize, n: int)
    requires
        forall|k: int| 0 <= k < locs.len() ==> (#[trigger] locs[k]).0 < n,
    ensures
        forall|k: int|
            0 <= k < spec_remove_car(locs, idx).len() ==> (#[trigger] spec_remove_car(locs, idx)[k]).0
                < n,
    decreases locs.len(),
{
    if locs.len() > 0 {
        assert forall|k: int| 0 <= k < locs.drop_last().len() implies (#[trigger] locs.drop_last()[
            k
        ]).0 < n by {
            assert(locs.drop_last()[k] == locs[k]);
        }
        lemma_remove_car_keeps_bound(locs.drop_last(), idx, n);
        let rest = spec_remove_car(locs.drop_last(), idx);
        let out = spec_remove_car(locs, idx);
        assert forall|k: int| 0 <= k < out.len() implies (#[trigger] out[k]).0 < n by {
            if locs.last().0 == idx {
                assert(out[k] == rest[k]);
            } else {
                if k < rest.len() {
                    assert(out[k] == rest[k]);
                } else {
                    assert(out[k] == locs.last());
                }
            }
        }
    }
}

/// Structural facts about the allocator's result that its callers lean on:
/// one answer per trip, every recorded index names a created vehicle, a trip
/// uses a vehicle exactly when its mode needs one, and the stream's seed
/// never changes.
pub proof fn lemma_alloc_wf(trips: Seq<IndividTrip>, pos: StreamPos)
    ensures
        ({
            let st = spec_alloc(trips, pos);
            &&& st.per_trip.len() == trips.len()
            &&& forall|j: int|
                0 <= j < st.parked.len() ==> (#[trigger] st.parked[j]).0 < st.specs.len()
            &&& forall|j: int|
                0 <= j < st.car_locations.len() ==> (#[trigger] st.car_locations[j]).0
                    < st.specs.len()
            &&& forall|j: int|
                0 <= j < trips.len() ==> ((#[trigger] st.per_trip[j]) is Some <==> (trips[j].mode
                    == TripMode::Drive || trips[j].mode == TripMode::Bike))
            &&& forall|j: int|
                0 <= j < st.per_trip.len() && (#[trigger] st.per_trip[j]) is Some
                    ==> st.per_trip[j].unwrap() < st.specs.len()
            &&& (st.bike_idx matches Some(i) ==> i < st.specs.len())
            &&& st.pos.seed == pos.seed
            &&& st.pos.taken >= pos.taken
        }),
    decreases trips.len(),
{
    if trips.len() > 0 {
        lemma_alloc_wf(trips.drop_last(), pos);
        let st = spec_alloc(trips.drop_last(), pos);
        let trip = trips.last();
        if trip.mode == TripMode::Drive {
            let need = spec_start_bldg(trip);
            lemma_find_car_bound(st.car_locations, need, st.specs.len() as int);
            let found = spec_find_car(st.car_locations, need);
            let n2 = if found is Some {
                st.specs.len() as int
            } else {
                st.specs.len() + 1int
            };
            lemma_remove_car_keeps_bound(
                st.car_locations,
                if found is Some {
                    found.unwrap()
                } else {
                    st.specs.len() as usize
                },
                n2,
            );
        }
        assert(forall|j: int|
            0 <= j < trips.len() - 1 ==> #[trigger] trips[j] == trips.drop_last()[j]);
    }
}

/// How many of a person's trips are drive trips.
pub open spec fn spec_count_drive_trips(trips: Seq<IndividTrip>) -> int
    decreases trips.len(),
{
    if trips.len() == 0 {
        0
    } else {
        spec_count_drive_trips(trips.drop_last()) + if trips.last().mode == TripMode::Drive {
            1int
        } else {
            0int
        }
    }
}

/// How many of the allocated vehicles are cars.
pub open spec fn spec_count_cars(specs: Seq<VehicleSpec>) -> int
    decreases specs.len(),
{
    if specs.len() == 0 {
        0
    } else {
        spec_count_cars(specs.drop_last()) + if specs.last().vehicle_type == VehicleType::Car {
            1int
        } else {
            0int
        }
    }
}

proof fn lemma_count_cars_push(specs: Seq<VehicleSpec>, v: VehicleSpec)
    ensures
        spec_count_cars(specs.push(v)) == spec_count_cars(specs) + if v.vehicle_type
            == VehicleType::Car {
            1int
        } else {
            0int
        },
{
    assert(specs.push(v).drop_last() =~= specs);
}

/// Law: a person whose trips are all walking or transit is allocated no
/// vehicles at all, and no car needs an initial parking assignment.
pub proof fn lemma_walk_transit_needs_no_vehicles(trips: Seq<IndividTrip>, pos: StreamPos)
    requires
        forall|i: int|
            0 <= i < trips.len() ==> (#[trigger] trips[i].mode == TripMode::Walk || trips[i].mode
                == TripMode::Transit),
    ensures
        spec_alloc(trips, pos).specs.len() == 0,
        spec_alloc(trips, pos).parked.len() == 0,
    decreases trips.len(),
{
    if trips.len() > 0 {
        lemma_walk_transit_needs_no_vehicles(trips.drop_last(), pos);
    }
}

/// Law: however a person's trips mix modes, at most one car is created per
/// drive trip; a trip chain that never lets a car be reused is the worst
/// case, never exceeded.
pub proof fn lemma_cars_at_most_drive_trips(trips: Seq<IndividTrip>, pos: StreamPos)
    ensures
        spec_count_cars(spec_alloc(trips, pos).specs) <= spec_count_drive_trips(trips),
    decreases trips.len(),
{
    if trips.len() > 0 {
        let prefix = trips.drop_last();
        let trip = trips.last();
        lemma_cars_at_most_drive_trips(prefix, pos);
        let st = spec_alloc(prefix, pos);
        match trip.mode {
            TripMode::Walk | TripMode::Transit => {},
            TripMode::Bike => {
                if st.bike_idx is None {
                    lemma_count_cars_push(st.specs, spec_rand_bike(st.pos));
                }
            },
            TripMode::Drive => {
                let need = spec_start_bldg(trip);
                if spec_find_car(st.car_locations, need) is None {
                    lemma_count_cars_push(st.specs, spec_rand_car(st.pos));
                }
            },
        }
    }
}

/// Every trip is a drive trip, and each one starts exactly where the one
/// before it ended.
pub open spec fn spec_drive_chained(trips: Seq<IndividTrip>) -> bool {
    &&& forall|i: int| 0 <= i < trips.len() ==> #[trigger] trips[i].mode == TripMode::Drive
    &&& forall|i: int|
        0 <= i && i + 1 < trips.len() ==> spec_start_bldg(#[trigger] trips[i + 1]) == spec_end_bldg(
            trips[i],
        )
}

/// Law: a person whose drive trips chain end-to-end is allocated exactly one
/// car, which every trip reuses.
pub proof fn lemma_chained_drives_use_one_car(trips: Seq<IndividTrip>, pos: StreamPos)
    requires
        spec_drive_chained(trips),
        trips.len() > 0,
    ensures
        spec_alloc(trips, pos).specs.len() == 1,
        spec_alloc(trips, pos).car_locations =~= seq![(0usize, spec_end_bldg(trips.last()))],
    decreases trips.len(),
{
    let prefix = trips.drop_last();
    let trip = trips.last();
    if trips.len() == 1 {
        let st = spec_alloc_init(pos);
        assert(spec_find_car(st.car_locations, spec_start_bldg(trip)) is None);
        assert(spec_remove_car(st.car_locations, 0) =~= Seq::<(usize, Option<
            BuildingID,
        >)>::empty());
    } else {
        assert(spec_drive_chained(prefix)) by {
            assert(forall|i: int| 0 <= i < prefix.len() ==> prefix[i] == trips[i]);
        }
        lemma_chained_drives_use_one_car(prefix, pos);
        let st = spec_alloc(prefix, pos);
        let need = spec_start_bldg(trip);
        assert(trips[trips.len() - 1] == trip);
        assert(prefix.last() == trips[trips.len() - 2]);
        assert(spec_start_bldg(trips[trips.len() - 2 + 1]) == spec_end_bldg(
            trips[trips.len() - 2],
        ));
        assert(st.car_locations[0] == (0usize, need));
        assert(spec_find_car(st.car_locations, need) == Some(0usize));
        let rest = spec_remove_car(st.car_locations.drop_last(), 0);
        assert(st.car_locations.drop_last().len() == 0);
        assert(rest == st.car_locations.drop_last());
        assert(spec_remove_car(st.car_locations, 0) == rest);
        assert(rest =~= Seq::<(usize, Option<BuildingID>)>::empty());
    }
}

/// The person's drive trips, in order, everything else dropped.
pub open spec fn spec_drive_subseq(trips: Seq<IndividTrip>) -> Seq<IndividTrip>
    decreases trips.len(),
{
    if trips.len() == 0 {
        Seq::empty()
    } else {
        let prev = spec_drive_subseq(trips.drop_last());
        if trips.last().mode == TripMode::Drive {
            prev.push(trips.last())
        } else {
            prev
        }
    }
}

/// Each drive trip starts exactly where the drive trip before it ended,
/// whatever other trips stand in between.
pub open spec fn spec_drives_chained(trips: Seq<IndividTrip>) -> bool {
    forall|i: int|
        0 <= i && i + 1 < spec_drive_subseq(trips).len() ==> spec_start_bldg(
            spec_drive_subseq(trips)[i + 1],
        ) == spec_end_bldg(#[trigger] spec_drive_subseq(trips)[i])
}

/// One car serves the whole chain: `ci` names the only car among the
/// allocated vehicles, every drive trip uses it, it stands where the last
/// drive trip ended, and at most the first drive trip records an initial
/// parked assignment.
pub open spec fn spec_one_shared_car(st: AllocState, trips: Seq<IndividTrip>, ci: usize) -> bool {
    &&& ci < st.specs.len()
    &&& st.specs[ci as int].vehicle_type == VehicleType::Car
    &&& spec_count_cars(st.specs) == 1
    &&& st.car_locations =~= seq![(ci, spec_end_bldg(spec_drive_subseq(trips).last()))]
    &&& st.parked =~= (match spec_start_bldg(spec_drive_subseq(trips).first()) {
        Some(b) => seq![(ci, b)],
        None => Seq::<(usize, BuildingID)>::empty(),
    })
    &&& forall|j: int|
        0 <= j < trips.len() && (#[trigger] trips[j]).mode == TripMode::Drive ==> st.per_trip[j]
            == Some(ci)
}

proof fn lemma_drive_subseq_empty(trips: Seq<IndividTrip>)
    requires
        spec_drive_subseq(trips).len() == 0,
    ensures
        forall|j: int| 0 <= j < trips.len() ==> (#[trigger] trips[j]).mode != TripMode::Drive,
    decreases trips.len(),
{
    if trips.len() > 0 {
        lemma_drive_subseq_empty(trips.drop_last());
        assert forall|j: int|
            0 <= j < trips.len() implies (#[trigger] trips[j]).mode != TripMode::Drive by {
            if j < trips.len() - 1 {
                assert(trips.drop_last()[j] == trips[j]);
            }
        }
    }
}

proof fn lemma_alloc_specs_bound(trips: Seq<IndividTrip>, pos: StreamPos)
    ensures
        spec_alloc(trips, pos).specs.len() <= trips.len(),
    decreases trips.len(),
{
    if trips.len() > 0 {
        lemma_alloc_specs_bound(trips.drop_last(), pos);
    }
}

#[verifier::rlimit(80)]
proof fn lemma_chained_drives_state(trips: Seq<IndividTrip>, pos: StreamPos)
    requires
        trips.len() <= usize::MAX,
        spec_drives_chained(trips),
    ensures
        ({
            let st = spec_alloc(trips, pos);
            let ds = spec_drive_subseq(trips);
            &&& (ds.len() == 0 ==> {
                &&& st.car_locations.len() == 0
                &&& spec_count_cars(st.specs) == 0
                &&& st.parked.len() == 0
            })
            &&& (ds.len() > 0 ==> exists|ci: usize| #[trigger] spec_one_shared_car(st, trips, ci))
        }),
    decreases trips.len(),
{
    lemma_alloc_wf(trips, pos);
    if trips.len() > 0 {
        let prefix = trips.drop_last();
        let trip = trips.last();
        let ds = spec_drive_subseq(trips);
        let dsp = spec_drive_subseq(prefix);
        assert(spec_drives_chained(prefix)) by {
            if trip.mode == TripMode::Drive {
                assert(forall|i: int| 0 <= i < dsp.len() ==> ds[i] == #[trigger] dsp[i]);
            }
        }
        lemma_chained_drives_state(prefix, pos);
        lemma_alloc_wf(prefix, pos);
        let st = spec_alloc(prefix, pos);
        let nxt = spec_alloc(trips, pos);
        assert(forall|j: int| 0 <= j < prefix.len() ==> #[trigger] prefix[j] == trips[j]);
        match trip.mode {
            TripMode::Walk | TripMode::Transit => {
                if dsp.len() > 0 {
                    let ci = choose|ci: usize| spec_one_shared_car(st, prefix, ci);
                    assert(spec_one_shared_car(nxt, trips, ci));
                }
            },
            TripMode::Bike => {
                if st.bike_idx is None {
                    lemma_count_cars_push(st.specs, spec_rand_bike(st.pos));
                }
                if dsp.len() > 0 {
                    let ci = choose|ci: usize| spec_one_shared_car(st, prefix, ci);
                    assert(spec_one_shared_car(nxt, trips, ci));
                }
            },
            TripMode::Drive => {
                let need = spec_start_bldg(trip);
                assert(ds == dsp.push(trip));
                if dsp.len() == 0 {
                    // The first drive trip: no car is tracked yet, so one is
                    // created at the next free index.
                    lemma_alloc_specs_bound(prefix, pos);
                    lemma_drive_subseq_empty(prefix);
                    assert(st.specs.len() < usize::MAX);
                    assert(st.car_locations.len() == 0);
                    assert(spec_find_car(st.car_locations, need) is None);
                    let ci = st.specs.len() as usize;
                    lemma_count_cars_push(st.specs, spec_rand_car(st.pos));
                    assert(spec_remove_car(st.car_locations, ci) =~= Seq::<(usize, Option<
                        BuildingID,
                    >)>::empty());
                    assert(ds.first() == trip && ds.last() == trip);
                    assert(spec_one_shared_car(nxt, trips, ci));
                } else {
                    let ci = choose|ci: usize| spec_one_shared_car(st, prefix, ci);
                    // The chain hands the car onward: the new drive starts
                    // where the previous one ended, which is where the one
                    // car stands.
                    assert(ds[dsp.len() - 1] == dsp.last() && ds[dsp.len() as int] == trip);
                    assert(spec_start_bldg(trip) == spec_end_bldg(dsp.last()));
                    assert(st.car_locations[0] == (ci, need));
                    assert(spec_find_car(st.car_locations, need) == Some(ci));
                    let rest = spec_remove_car(st.car_locations.drop_last(), ci);
                    assert(st.car_locations.drop_last().len() == 0);
                    assert(rest == st.car_locations.drop_last());
                    assert(spec_remove_car(st.car_locations, ci) == rest);
                    assert(ds.first() == dsp.first());
                    assert(spec_one_shared_car(nxt, trips, ci));
                }
            },
        }
    }
}

/// Law: however walk, transit and bike trips interleave, a person whose
/// drive trips chain end-to-end is allocated exactly one car, every drive
/// trip reuses that same car, and at most one initial parked assignment is
/// recorded (the first drive trip's origin building, when it is one).
pub proof fn lemma_chained_drives_share_one_car(trips: Seq<IndividTrip>, pos: StreamPos)
    requires
        trips.len() <= usize::MAX,
        spec_drives_chained(trips),
        spec_drive_subseq(trips).len() > 0,
    ensures
        spec_count_cars(spec_alloc(trips, pos).specs) == 1,
        spec_alloc(trips, pos).parked.len() <= 1,
        exists|ci: usize| #[trigger] spec_one_shared_car(spec_alloc(trips, pos), trips, ci),
{
    lemma_chained_drives_state(trips, pos);
    let st = spec_alloc(trips, pos);
    let ci = choose|ci: usize| spec_one_shared_car(st, trips, ci);
    assert(spec_one_shared_car(st, trips, ci));
}

impl PersonSpec {
    /// Walk the person's trips in order and hand out the minimal vehicles:
    /// one lazily-created bike, and cars reused whenever one already stands
    /// at a drive trip's required origin. Returns the vehicle specs, which
    /// cars start parked at which building, and the vehicle index each trip
    /// uses. The whole result is a function of the trips and of the stream
    /// position alone.
    pub fn get_vehicles(&self, rng: &mut SimRng) -> (r: (
        Vec<VehicleSpec>,
        Vec<(usize, BuildingID)>,
        Vec<Option<usize>>,
    ))
        ensures
            ({
                let st = spec_alloc(self.trips@, old(rng)@);
                &&& r.0@ == st.specs
                &&& r.1@ == st.parked
                &&& r.2@ == st.per_trip
                &&& final(rng)@ == st.pos
            }),
    {
        let ghost pos0 = rng@;
        let mut vehicle_specs: Vec<VehicleSpec> = Vec::new();
        let mut cars_initially_parked_at: Vec<(usize, BuildingID)> = Vec::new();
        let mut vehicle_foreach_trip: Vec<Option<usize>> = Vec::new();
        let mut bike_idx: Option<usize> = None;
        let mut car_locations: Vec<(usize, Option<BuildingID>)> = Vec::new();

        let mut t: usize = 0;
        while t < self.trips.len()
            invariant
                0 <= t <= self.trips@.len(),
                ({
                    let st = spec_alloc(self.trips@.subrange(0, t as int), pos0);
                    &&& vehicle_specs@ == st.specs
                    &&& cars_initially_parked_at@ == st.parked
                    &&& vehicle_foreach_trip@ == st.per_trip
                    &&& bike_idx == st.bike_idx
                    &&& car_locations@ == st.car_locations
                    &&& rng@ == st.pos
                }),
            decreases self.trips@.len() - t,
        {
            proof {
                assert(self.trips@.subrange(0, t as int + 1).drop_last() =~= self.trips@.subrange(
                    0,
                    t as int,
                ));
                assert(self.trips@.subrange(0, t as int + 1).last() == self.trips@[t as int]);
            }
            let trip = &self.trips[t];
            match trip.mode {
                TripMode::Walk | TripMode::Transit => {
                    vehicle_foreach_trip.push(None);
                },
                TripMode::Bike => {
                    match bike_idx {
                        Some(i) => {
                            vehicle_foreach_trip.push(Some(i));
                        },
                        None => {
                            let i = vehicle_specs.len();
                            vehicle_specs.push(Scenario::rand_bike(rng));
                            bike_idx = Some(i);
                            vehicle_foreach_trip.push(Some(i));
                        },
                    }
                },
                TripMode::Drive => {
                    let need = match trip.from {
                        TripEndpoint::Bldg(b) => Some(b),
                        TripEndpoint::Border(_) => None,
                        TripEndpoint::SuddenlyAppear(_) => None,
                    };
                    let idx = match find_car(&car_locations, need) {
                        Some(i) => i,
                        None => {
                            let i = vehicle_specs.len();
                            vehicle_specs.push(Scenario::rand_car(rng));
                            if let Some(b) = need {
                                cars_initially_parked_at.push((i, b));
                            }
                            i
                        },
                    };
                    let new_locations = remove_car(&car_locations, idx);
                    car_locations = new_locations;
                    let end = match trip.to {
                        TripEndpoint::Bldg(b) => Some(b),
                        TripEndpoint::Border(_) => None,
                        TripEndpoint::SuddenlyAppear(_) => None,
                    };
                    car_locations.push((idx, end));
                    vehicle_foreach_trip.push(Some(idx));
                },
            }
            t = t + 1;
        }
        proof {
            assert(self.trips@.subrange(0, self.trips@.len() as int) =~= self.trips@);
        }
        (vehicle_specs, cars_initially_parked_at, vehicle_foreach_trip)
    }
}

/// The per-building tallies with one more car at building `b`: the first
/// entry for `b` is bumped, or a fresh entry appended.
pub open spec fn spec_inc_count(
    counts: Seq<(BuildingID, usize)>,
    b: BuildingID,
) -> Seq<(BuildingID, usize)>
    decreases counts.len(),
{
    if counts.len() == 0 {
        seq![(b, 1usize)]
    } else if counts[0].0 == b {
        seq![(b, (counts[0].1 + 1) as usize)] + counts.drop_first()
    } else {
        seq![counts[0]] + spec_inc_count(counts.drop_first(), b)
    }
}

#[verifier::rlimit(50)]
proof fn lemma_inc_count_char(counts: Seq<(BuildingID, usize)>, b: BuildingID)
    ensures
        (forall|i: int| 0 <= i < counts.len() ==> (#[trigger] counts[i]).0 != b)
            ==> spec_inc_count(counts, b) =~= counts.push((b, 1usize)),
        forall|i: int|
            0 <= i < counts.len() && (#[trigger] counts[i]).0 == b && (forall|j: int|
                0 <= j < i ==> (#[trigger] counts[j]).0 != b) ==> spec_inc_count(counts, b)
                =~= counts.update(i, (b, (counts[i].1 + 1) as usize)),
    decreases counts.len(),
{
    if counts.len() > 0 && counts[0].0 != b {
        lemma_inc_count_char(counts.drop_first(), b);
        assert forall|i: int| 0 <= i < counts.drop_first().len() implies #[trigger] counts.drop_first()[
            i
        ] == counts[i + 1] by {}
        assert forall|i: int|
            0 <= i < counts.len() && (#[trigger] counts[i]).0 == b && (forall|j: int|
                0 <= j < i ==> (#[trigger] counts[j]).0 != b) implies spec_inc_count(counts, b)
            =~= counts.update(i, (b, (counts[i].1 + 1) as usize)) by {
            assert(i >= 1);
            assert(counts.drop_first()[i - 1].0 == b);
            assert(forall|j: int|
                0 <= j < i - 1 ==> (#[trigger] counts.drop_first()[j]).0 != b);
            assert(spec_inc_count(counts.drop_first(), b) =~= counts.drop_first().update(
                i - 1,
                (b, (counts[i].1 + 1) as usize),
            ));
        }
        if forall|i: int| 0 <= i < counts.len() ==> (#[trigger] counts[i]).0 != b {
            assert(forall|i: int|
                0 <= i < counts.drop_first().len() ==> (#[trigger] counts.drop_first()[i]).0 != b);
            assert(spec_inc_count(counts.drop_first(), b) =~= counts.drop_first().push(
                (b, 1usize),
            ));
        }
    }
}

/// One person's initial-parking entries folded into the tallies, in order.
pub open spec fn spec_count_entries(
    counts: Seq<(BuildingID, usize)>,
    parked: Seq<(usize, BuildingID)>,
) -> Seq<(BuildingID, usize)>
    decreases parked.len(),
{
    if parked.len() == 0 {
        counts
    } else {
        spec_inc_count(spec_count_entries(counts, parked.drop_last()), parked.last().1)
    }
}

/// The tallies and stream position after walking everyone's allocation with
/// the dummy stream the counting pass uses.
pub open spec fn spec_count_state(people: Seq<PersonSpec>) -> (
    Seq<(BuildingID, usize)>,
    StreamPos,
)
    decreases people.len(),
{
    if people.len() == 0 {
        (Seq::empty(), StreamPos { seed: 0, taken: 0 })
    } else {
        let prev = spec_count_state(people.drop_last());
        let st = spec_alloc(people.last().trips@, prev.1);
        (spec_count_entries(prev.0, st.parked), st.pos)
    }
}

/// How many initial-parking entries the whole population has.
pub open spec fn spec_total_parked(people: Seq<PersonSpec>) -> int
    decreases people.len(),
{
    if people.len() == 0 {
        0
    } else {
        let prev = spec_count_state(people.drop_last());
        spec_total_parked(people.drop_last()) + spec_alloc(
            people.last().trips@,
            prev.1,
        ).parked.len()
    }
}

proof fn lemma_total_parked_prefix(people: Seq<PersonSpec>, i: int)
    requires
        0 <= i <= people.len(),
    ensures
        spec_total_parked(people.subrange(0, i)) <= spec_total_parked(people),
        spec_total_parked(people) >= 0,
    decreases people.len() - i,
{
    if i == people.len() {
        assert(people.subrange(0, i) =~= people);
        lemma_total_parked_nonneg(people);
    } else {
        lemma_total_parked_prefix(people, i + 1);
        assert(people.subrange(0, i + 1).drop_last() =~= people.subrange(0, i));
    }
}

proof fn lemma_total_parked_nonneg(people: Seq<PersonSpec>)
    ensures
        spec_total_parked(people) >= 0,
    decreases people.len(),
{
    if people.len() > 0 {
        lemma_total_parked_nonneg(people.drop_last());
    }
}

fn find_count_entry(counts: &Vec<(BuildingID, usize)>, b: BuildingID) -> (r: Option<usize>)
    ensures
        match r {
            Some(i) => 0 <= i < counts@.len() && counts@[i as int].0 == b && forall|j: int|
                0 <= j < i ==> (#[trigger] counts@[j]).0 != b,
            None => forall|j: int| 0 <= j < counts@.len() ==> (#[trigger] counts@[j]).0 != b,
        },
{
    let mut i: usize = 0;
    while i < counts.len()
        invariant
            0 <= i <= counts@.len(),
            forall|j: int| 0 <= j < i ==> (#[trigger] counts@[j]).0 != b,
        decreases counts@.len() - i,
    {
        if counts[i].0 == b {
            return Some(i);
        }
        i = i + 1;
    }
    None
}

/// The people whose schedules pass the consistency check, in order.
pub open spec fn spec_retained(people: Seq<PersonSpec>) -> Seq<PersonSpec>
    decreases people.len(),
{
    if people.len() == 0 {
        Seq::empty()
    } else {
        let prev = spec_retained(people.drop_last());
        if spec_schedule_ok(people.last().trips@) {
            prev.push(people.last())
        } else {
            prev
        }
    }
}

impl Scenario {
    /// Tally how many cars each building starts with. The pass walks every
    /// person's allocation with a dummy stream; which building gets which
    /// count never depends on the drawn values.
    pub fn count_parked_cars_per_bldg(&self) -> (r: Vec<(BuildingID, usize)>)
        requires
            spec_total_parked(self.people@) <= usize::MAX,
        ensures
            r@ == spec_count_state(self.people@).0,
    {
        let mut rng = SimRng::seeded(0);
        let mut counts: Vec<(BuildingID, usize)> = Vec::new();
        let ghost mut processed: int = 0;
        let mut k: usize = 0;
        while k < self.people.len()
            invariant
                0 <= k <= self.people@.len(),
                spec_total_parked(self.people@) <= usize::MAX,
                counts@ == spec_count_state(self.people@.subrange(0, k as int)).0,
                rng@ == spec_count_state(self.people@.subrange(0, k as int)).1,
                processed == spec_total_parked(self.people@.subrange(0, k as int)),
                forall|i: int| 0 <= i < counts@.len() ==> (#[trigger] counts@[i]).1 <= processed,
            decreases self.people@.len() - k,
        {
            proof {
                assert(self.people@.subrange(0, k as int + 1).drop_last() =~= self.people@.subrange(
                    0,
                    k as int,
                ));
                assert(self.people@.subrange(0, k as int + 1).last() == self.people@[k as int]);
                lemma_total_parked_prefix(self.people@, k as int + 1);
                lemma_total_parked_nonneg(self.people@.subrange(0, k as int));
            }
            let p = &self.people[k];
            let ghost pos_before = rng@;
            let ghost base_counts = counts@;
            let ghost base_processed = processed;
            let ghost st = spec_alloc(p.trips@, pos_before);
            let (_specs, cars_parked, _per_trip) = p.get_vehicles(&mut rng);
            let ghost total_next = spec_total_parked(self.people@.subrange(0, k as int + 1));
            let mut i2: usize = 0;
            while i2 < cars_parked.len()
                invariant
                    0 <= i2 <= cars_parked@.len(),
                    cars_parked@ == st.parked,
                    spec_total_parked(self.people@) <= usize::MAX,
                    total_next == base_processed + st.parked.len(),
                    total_next <= spec_total_parked(self.people@),
                    counts@ == spec_count_entries(base_counts, st.parked.subrange(0, i2 as int)),
                    processed == base_processed + i2,
                    processed >= 0,
                    forall|i: int|
                        0 <= i < counts@.len() ==> (#[trigger] counts@[i]).1 <= processed,
                decreases cars_parked@.len() - i2,
            {
                proof {
                    assert(st.parked.subrange(0, i2 as int + 1).drop_last() =~= st.parked.subrange(
                        0,
                        i2 as int,
                    ));
                    assert(st.parked.subrange(0, i2 as int + 1).last() == st.parked[i2 as int]);
                    lemma_inc_count_char(counts@, st.parked[i2 as int].1);
                }
                let (_idx, b) = cars_parked[i2];
                let ghost old_counts = counts@;
                match find_count_entry(&counts, b) {
                    Some(ci) => {
                        let (bb, c) = counts[ci];
                        counts[ci] = (bb, c + 1);
                        proof {
                            assert forall|i: int|
                                0 <= i < counts@.len() implies (#[trigger] counts@[i]).1
                                <= processed + 1 by {
                                if i != ci as int {
                                    assert(counts@[i] == old_counts[i]);
                                }
                            }
                        }
                    },
                    None => {
                        counts.push((b, 1));
                        proof {
                            assert forall|i: int|
                                0 <= i < counts@.len() implies (#[trigger] counts@[i]).1
                                <= processed + 1 by {
                                if i < old_counts.len() {
                                    assert(counts@[i] == old_counts[i]);
                                }
                            }
                        }
                    },
                }
                proof {
                    processed = processed + 1;
                }
                i2 = i2 + 1;
            }
            proof {
                assert(st.parked.subrange(0, st.parked.len() as int) =~= st.parked);
            }
            k = k + 1;
        }
        proof {
            assert(self.people@.subrange(0, self.people@.len() as int) =~= self.people@);
        }
        counts
    }

    /// Drop every person whose schedule is inconsistent, and renumber the
    /// survivors so identifiers match positions again.
    pub fn remove_weird_schedules(self) -> (r: Scenario)
        ensures
            r.scenario_name == self.scenario_name,
            r.map_name == self.map_name,
            r.only_seed_buses == self.only_seed_buses,
            r.people@.len() == spec_retained(self.people@).len(),
            forall|i: int|
                0 <= i < r.people@.len() ==> {
                    let kept = #[trigger] r.people@[i];
                    &&& kept.id == PersonID(i as usize)
                    &&& kept.orig_id == spec_retained(self.people@)[i].orig_id
                    &&& kept.trips == spec_retained(self.people@)[i].trips
                },
    {
        let ghost people0 = self.people@;
        let Scenario { scenario_name, map_name, people, only_seed_buses } = self;
        let mut stack = people;
        let n = stack.len();
        let mut rev: Vec<PersonSpec> = Vec::new();
        while stack.len() > 0
            invariant
                stack@.len() + rev@.len() == n,
                n == people0.len(),
                stack@ == people0.subrange(0, stack@.len() as int),
                forall|i: int| 0 <= i < rev@.len() ==> #[trigger] rev@[i] == people0[n - 1 - i],
            decreases stack@.len(),
        {
            let p = stack.pop();
            proof {
                assert(stack@ =~= people0.subrange(0, stack@.len() as int));
            }
            match p {
                Some(p) => {
                    rev.push(p);
                },
                None => {},
            }
        }
        let mut kept: Vec<PersonSpec> = Vec::new();
        proof {
            assert(people0.subrange(0, 0).len() == 0);
        }
        while rev.len() > 0
            invariant
                rev@.len() <= n,
                n == people0.len(),
                forall|i: int| 0 <= i < rev@.len() ==> #[trigger] rev@[i] == people0[n - 1 - i],
                kept@.len() == spec_retained(people0.subrange(0, n - rev@.len())).len(),
                forall|i: int|
                    0 <= i < kept@.len() ==> {
                        let k = #[trigger] kept@[i];
                        &&& k.id == PersonID(i as usize)
                        &&& k.orig_id == spec_retained(people0.subrange(0, n - rev@.len()))[
                            i
                        ].orig_id
                        &&& k.trips == spec_retained(people0.subrange(0, n - rev@.len()))[i].trips
                    },
            decreases rev@.len(),
        {
            let ghost done = n - rev@.len();
            let popped = rev.pop();
            match popped {
                Some(p) => {
                    proof {
                        assert(p == people0[done as int]);
                        assert(people0.subrange(0, done + 1).drop_last() =~= people0.subrange(
                            0,
                            done as int,
                        ));
                        assert(people0.subrange(0, done + 1).last() == people0[done as int]);
                    }
                    let idx = kept.len();
                    match p.check_schedule() {
                        Ok(()) => {
                            kept.push(
                                PersonSpec { id: PersonID(idx), orig_id: p.orig_id, trips: p.trips },
                            );
                        },
                        Err(_) => {},
                    }
                },
                None => {},
            }
        }
        proof {
            assert(people0.subrange(0, n as int) =~= people0);
        }
        Scenario { scenario_name, map_name, people: kept, only_seed_buses }
    }
}

} // verus!
