use vstd::prelude::*;

use crate::map_model::MapModel;
use crate::scenario::TripPurpose;
use crate::spawn::TripSpec;
use crate::types::{
    BuildingID, BusRouteID, CarID, OrigPersonID, ParkingSpot, PersonID, Speed, Time, TripEndpoint,
    TripMode, Vehicle, VehicleSpec,
};

verus! {

/// A person registered with the simulator, with the vehicles they own.
#[derive(Clone, PartialEq, Eq, Debug)]
pub struct Person {
    pub id: PersonID,
    pub orig_id: Option<OrigPersonID>,
    pub ped_speed: Speed,
    pub vehicles: Vec<Vehicle>,
}

/// Why a trip was cancelled before it ever ran.
#[derive(Clone, Copy, PartialEq, Eq, Structural, Debug)]
pub enum CancellationReason {
    /// An external scenario modifier marked the trip cancelled.
    ScenarioModifier,
}

impl CancellationReason {
    /// The human-readable description of the cancellation.
    pub fn describe(&self) -> (r: &'static str)
        ensures
            r@ == "cancelled by ScenarioModifier"@,
    {
        "cancelled by ScenarioModifier"
    }
}

/// The metadata the simulator keeps about one submitted trip.
#[derive(Clone, Copy, PartialEq, Eq, Structural, Debug)]
pub struct TripInfo {
    pub departure: Time,
    pub mode: TripMode,
    pub start: TripEndpoint,
    pub end: TripEndpoint,
    pub purpose: TripPurpose,
    pub modified: bool,
    pub capped: bool,
    pub cancellation_reason: Option<CancellationReason>,
}

/// Collects scheduled trips before they are flushed to the simulator in one
/// deterministic batch.
#[derive(Debug)]
pub struct TripSpawner {
    pub trips: Vec<(PersonID, TripSpec, TripInfo)>,
}

impl TripSpawner {
    pub fn new() -> (r: TripSpawner)
        ensures
            r.trips@.len() == 0,
    {
        TripSpawner { trips: Vec::new() }
    }

    pub fn schedule_trip(&mut self, person: PersonID, spec: TripSpec, info: TripInfo)
        ensures
            final(self).trips@ == old(self).trips@.push((person, spec, info)),
    {
        self.trips.push((person, spec, info));
    }
}

/// The vehicles a list of specs turns into, with identities handed out in
/// order starting at `base`.
pub open spec fn spec_make_vehicles(
    specs: Seq<VehicleSpec>,
    base: int,
    owner: PersonID,
) -> Seq<Vehicle> {
    Seq::new(
        specs.len(),
        |i: int|
            Vehicle {
                id: CarID { id: (base + i) as usize, vehicle_type: specs[i].vehicle_type },
                owner,
                vehicle_type: specs[i].vehicle_type,
                length: specs[i].length,
                max_speed: specs[i].max_speed,
            },
    )
}

/// The simulator boundary as instantiation sees it: the read-only parking
/// state it supplies, and everything instantiation has handed it so far. The
/// runtime that later executes these commands stands outside this model.
#[derive(Debug)]
pub struct Sim {
    /// Unconstrained parking: every building's capacity is treated as
    /// unlimited, and only a blackholed building fails.
    pub infinite_parking: bool,
    /// Free off-street spots per building, used in unconstrained mode; a
    /// building with none is blackholed.
    pub free_offstreet: Vec<Vec<ParkingSpot>>,
    /// Every free parking spot, used in constrained mode.
    pub all_parking_spots: Vec<ParkingSpot>,
    /// What instantiation has submitted.
    pub name: Option<String>,
    pub seeded_routes: Vec<BusRouteID>,
    pub persons: Vec<Person>,
    pub parked: Vec<(Vehicle, ParkingSpot)>,
    pub scheduled: Vec<(PersonID, TripSpec, TripInfo)>,
    /// The next vehicle identity to hand out.
    pub next_car_id: usize,
}

impl Sim {
    /// The simulator's parking tables all resolve on this map.
    pub open spec fn spec_wf(self, map: MapModel) -> bool {
        &&& self.free_offstreet.len() == map.buildings.len()
        &&& forall|i: int|
            0 <= i < self.all_parking_spots.len() ==> map.spec_spot_valid(
                #[trigger] self.all_parking_spots[i],
            )
    }

    pub fn set_name(&mut self, name: String)
        ensures
            *final(self) == (Sim { name: Some(name), ..*old(self) }),
    {
        self.name = Some(name);
    }

    pub fn seed_bus_route(&mut self, route: BusRouteID)
        ensures
            *final(self) == (Sim {
                seeded_routes: final(self).seeded_routes,
                ..*old(self)
            }),
            final(self).seeded_routes@ == old(self).seeded_routes@.push(route),
    {
        self.seeded_routes.push(route);
    }

    /// Register a person and create their vehicles, handing out identities
    /// in order.
    pub fn new_person(
        &mut self,
        id: PersonID,
        orig_id: Option<OrigPersonID>,
        ped_speed: Speed,
        vehicle_specs: Vec<VehicleSpec>,
    )
        requires
            old(self).next_car_id + vehicle_specs@.len() <= usize::MAX,
        ensures
            *final(self) == (Sim {
                persons: final(self).persons,
                next_car_id: (old(self).next_car_id + vehicle_specs@.len()) as usize,
                ..*old(self)
            }),
            final(self).persons@.len() == old(self).persons@.len() + 1,
            final(self).persons@.subrange(0, old(self).persons@.len() as int) == old(self).persons@,
            final(self).persons@.last().id == id,
            final(self).persons@.last().orig_id == orig_id,
            final(self).persons@.last().ped_speed == ped_speed,
            final(self).persons@.last().vehicles@ == spec_make_vehicles(
                vehicle_specs@,
                old(self).next_car_id as int,
                id,
            ),
    {
        let ghost base = self.next_car_id as int;
        let mut vehicles: Vec<Vehicle> = Vec::new();
        let mut i: usize = 0;
        while i < vehicle_specs.len()
            invariant
                0 <= i <= vehicle_specs@.len(),
                base + vehicle_specs@.len() <= usize::MAX,
                *self == (Sim { next_car_id: self.next_car_id, ..*old(self) }),
                self.next_car_id == base + i,
                vehicles@ =~= spec_make_vehicles(vehicle_specs@, base, id).subrange(0, i as int),
            decreases vehicle_specs@.len() - i,
        {
            let spec = vehicle_specs[i];
            let v = Vehicle {
                id: CarID { id: self.next_car_id, vehicle_type: spec.vehicle_type },
                owner: id,
                vehicle_type: spec.vehicle_type,
                length: spec.length,
                max_speed: spec.max_speed,
            };
            vehicles.push(v);
            self.next_car_id = self.next_car_id + 1;
            i = i + 1;
        }
        proof {
            assert(vehicles@ =~= spec_make_vehicles(vehicle_specs@, base, id));
        }
        self.persons.push(Person { id, orig_id, ped_speed, vehicles });
        proof {
            assert(self.persons@.subrange(0, old(self).persons@.len() as int) =~= old(self).persons@);
        }
    }

    /// Record one car as seeded into a parking spot.
    pub fn seed_parked_car(&mut self, vehicle: Vehicle, spot: ParkingSpot)
        ensures
            *final(self) == (Sim { parked: final(self).parked, ..*old(self) }),
            final(self).parked@ == old(self).parked@.push((vehicle, spot)),
    {
        self.parked.push((vehicle, spot));
    }

    /// Take one free off-street spot at the building, if it has any left.
    pub fn pop_free_offstreet(&mut self, b: BuildingID) -> (r: Option<ParkingSpot>)
        requires
            b.0 < old(self).free_offstreet@.len(),
        ensures
            *final(self) == (Sim {
                free_offstreet: final(self).free_offstreet,
                ..*old(self)
            }),
            final(self).free_offstreet@.len() == old(self).free_offstreet@.len(),
            forall|j: int|
                0 <= j < old(self).free_offstreet@.len() && j != b.0 as int
                    ==> final(self).free_offstreet@[j] == old(self).free_offstreet@[j],
            old(self).free_offstreet@[b.0 as int]@.len() == 0 ==> {
                &&& r is None
                &&& final(self).free_offstreet@[b.0 as int]@ == old(self).free_offstreet@[
                    b.0 as int
                ]@
            },
            old(self).free_offstreet@[b.0 as int]@.len() > 0 ==> {
                &&& r == Some(old(self).free_offstreet@[b.0 as int]@.last())
                &&& final(self).free_offstreet@[b.0 as int]@ == old(self).free_offstreet@[
                    b.0 as int
                ]@.drop_last()
            },
    {
        let r = self.free_offstreet[b.0].pop();
        proof {
            assert(old(self).free_offstreet@[b.0 as int]@.len() > 0 ==> old(self).free_offstreet@[b.0 as int]@.subrange(
                0,
                old(self).free_offstreet@[b.0 as int]@.len() - 1,
            ) =~= old(self).free_offstreet@[b.0 as int]@.drop_last());
        }
        r
    }

    pub fn get_all_parking_spots(&self) -> (r: &Vec<ParkingSpot>)
        ensures
            r@ == self.all_parking_spots@,
    {
        &self.all_parking_spots
    }

    /// Append every trip the spawner collected, in its order.
    pub fn flush_spawner(&mut self, spawner: TripSpawner)
        ensures
            *final(self) == (Sim { scheduled: final(self).scheduled, ..*old(self) }),
            final(self).scheduled@ == old(self).scheduled@ + spawner.trips@,
    {
        let mut trips = spawner.trips;
        self.scheduled.append(&mut trips);
    }
}

} // verus!
