use vstd::prelude::*;

verus! {

/// Simulation timestamps, counted in deciseconds since midnight.
pub type Time = u64;

/// Lengths and positions along lanes, counted in centimeters.
pub type Distance = u64;

/// Speeds, counted in centimeters per second.
pub type Speed = u64;

/// Shortest car the allocator hands out.
pub const MIN_CAR_LENGTH: u64 = 450;
/// Longest car the allocator hands out; sampling stays strictly below this.
pub const MAX_CAR_LENGTH: u64 = 650;
/// Every bike has the same length.
pub const BIKE_LENGTH: u64 = 180;
/// How far along its first lane a vehicle spawned at a border appears.
pub const SPAWN_DIST: u64 = 500;
/// Slowest top speed a bike is assigned.
pub const MIN_BIKE_SPEED: u64 = 357;
/// Fastest top speed a bike is assigned; sampling stays strictly below this.
pub const MAX_BIKE_SPEED: u64 = 447;
/// Slowest walking speed a person is assigned.
pub const MIN_PED_SPEED: u64 = 89;
/// Fastest walking speed a person is assigned; sampling stays strictly below this.
pub const MAX_PED_SPEED: u64 = 134;

#[derive(Clone, Copy, PartialEq, Eq, Structural, Debug)]
pub struct PersonID(pub usize);

/// An identifier from the original demand data, kept only for debugging.
#[derive(Clone, Copy, PartialEq, Eq, Structural, Debug)]
pub struct OrigPersonID(pub usize, pub usize);

#[derive(Clone, Copy, PartialEq, Eq, Structural, Debug)]
pub struct BuildingID(pub usize);

#[derive(Clone, Copy, PartialEq, Eq, Structural, Debug)]
pub struct RoadID(pub usize);

#[derive(Clone, Copy, PartialEq, Eq, Structural, Debug)]
pub struct LaneID(pub usize);

#[derive(Clone, Copy, PartialEq, Eq, Structural, Debug)]
pub struct IntersectionID(pub usize);

#[derive(Clone, Copy, PartialEq, Eq, Structural, Debug)]
pub struct BusRouteID(pub usize);

#[derive(Clone, Copy, PartialEq, Eq, Structural, Debug)]
pub struct BusStopID(pub usize);

#[derive(Clone, Copy, PartialEq, Eq, Structural, Debug)]
pub struct ParkingLotID(pub usize);

#[derive(Clone, Copy, PartialEq, Eq, Structural, Debug)]
pub enum VehicleType {
    Car,
    Bike,
}

#[derive(Clone, Copy, PartialEq, Eq, Structural, Debug)]
pub struct CarID {
    pub id: usize,
    pub vehicle_type: VehicleType,
}

/// A point along a lane, at some distance from its start.
#[derive(Clone, Copy, PartialEq, Eq, Structural, Debug)]
pub struct Position {
    pub lane: LaneID,
    pub dist: Distance,
}

#[derive(Clone, Copy, PartialEq, Eq, Structural, Debug)]
pub struct DirectedRoadID {
    pub road: RoadID,
    pub forwards: bool,
}

#[derive(Clone, Copy, PartialEq, Eq, Structural, Debug)]
pub enum TripMode {
    Walk,
    Transit,
    Bike,
    Drive,
}

/// Where a trip begins or ends.
#[derive(Clone, Copy, PartialEq, Eq, Structural, Debug)]
pub enum TripEndpoint {
    Bldg(BuildingID),
    Border(IntersectionID),
    /// Only for interactive / debug trips that materialize mid-map.
    SuddenlyAppear(Position),
}

/// Which travel mode's legality constrains a routing query.
#[derive(Clone, Copy, PartialEq, Eq, Structural, Debug)]
pub enum PathConstraints {
    Car,
    Bike,
}

/// A network-resolved target for a driving or biking trip.
#[derive(Clone, Copy, PartialEq, Eq, Structural, Debug)]
pub enum DrivingGoal {
    ParkNear(BuildingID),
    Border(IntersectionID),
}

/// A place on a sidewalk where a pedestrian leg starts or ends.
#[derive(Clone, Copy, PartialEq, Eq, Structural, Debug)]
pub struct SidewalkSpot {
    pub sidewalk_pos: Position,
}

/// A physical location that can hold one parked vehicle.
#[derive(Clone, Copy, PartialEq, Eq, Structural, Debug)]
pub enum ParkingSpot {
    /// A spot along a lane, by index.
    Onstreet(LaneID, usize),
    /// A spot in a building's garage, by index.
    Offstreet(BuildingID, usize),
    /// A spot in a parking lot, by index.
    Lot(ParkingLotID, usize),
}

/// A vehicle to create, before the simulator assigns it an identity.
#[derive(Clone, Copy, PartialEq, Eq, Structural, Debug)]
pub struct VehicleSpec {
    pub vehicle_type: VehicleType,
    pub length: Distance,
    /// Bikes have a top speed; cars have none of their own.
    pub max_speed: MaybeSpeed,
}

/// An optional speed bound, spelled out so vehicle specs stay structural.
#[derive(Clone, Copy, PartialEq, Eq, Structural, Debug)]
pub enum MaybeSpeed {
    NoLimit,
    Limit(Speed),
}

/// A created vehicle, owned by one person.
#[derive(Clone, Copy, PartialEq, Eq, Structural, Debug)]
pub struct Vehicle {
    pub id: CarID,
    pub owner: PersonID,
    pub vehicle_type: VehicleType,
    pub length: Distance,
    pub max_speed: MaybeSpeed,
}

impl Vehicle {
    /// The vehicle a spec turns into once the simulator assigns it an identity.
    pub fn from_spec(spec: VehicleSpec, id: CarID, owner: PersonID) -> (v: Vehicle)
        ensures
            v == (Vehicle {
                id,
                owner,
                vehicle_type: spec.vehicle_type,
                length: spec.length,
                max_speed: spec.max_speed,
            }),
    {
        Vehicle {
            id,
            owner,
            vehicle_type: spec.vehicle_type,
            length: spec.length,
            max_speed: spec.max_speed,
        }
    }
}

} // verus!
