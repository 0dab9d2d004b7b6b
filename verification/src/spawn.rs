use vstd::prelude::*;

use crate::map_model::MapModel;
use crate::rng::{choose_lane, chosen_index, SimRng, StreamPos};
use crate::types::{
    BuildingID, BusRouteID, BusStopID, CarID, DirectedRoadID, DrivingGoal, PathConstraints,
    Position, SidewalkSpot, TripEndpoint, TripMode, SPAWN_DIST,
};

verus! {

/// How a trip realizes physically, resolved against the network but not yet
/// tied to a vehicle. Ephemeral: exists only during resolution.
#[derive(Clone, Copy, Debug)]
pub enum SpawnTrip {
    /// Only for interactive / debug trips.
    VehicleAppearing { start: Position, goal: DrivingGoal, is_bike: bool },
    /// For vehicles entering at a border; a bike ride that starts at a
    /// building instead becomes `UsingBike`, a walk-then-ride trip.
    FromBorder { dr: DirectedRoadID, goal: DrivingGoal, is_bike: bool },
    UsingParkedCar(BuildingID, DrivingGoal),
    UsingBike(BuildingID, DrivingGoal),
    JustWalking(SidewalkSpot, SidewalkSpot),
    UsingTransit(SidewalkSpot, SidewalkSpot, BusRouteID, BusStopID, Option<BusStopID>),
}

/// Why a trip could not be physically realized.
#[derive(Clone, Copy, PartialEq, Eq, Structural, Debug)]
pub enum SpawnError {
    /// Classification already found the trip infeasible: no goal or no
    /// sidewalk at an endpoint.
    UnknownSpawning,
    /// The road has no lane the vehicle may spawn on under the constraint.
    NoLanesForVehicle(DirectedRoadID, PathConstraints),
}

impl SpawnError {
    /// The human-readable description of the failure.
    pub fn describe(&self) -> (r: &'static str)
        ensures
            (*self is UnknownSpawning) ==> r@ == "unknown spawning error"@,
            (*self is NoLanesForVehicle) ==> r@ == "road has no lanes to spawn this vehicle"@,
    {
        match self {
            SpawnError::UnknownSpawning => "unknown spawning error",
            SpawnError::NoLanesForVehicle(_, _) => "road has no lanes to spawn this vehicle",
        }
    }
}

/// The terminal, runnable command handed to the simulator for one trip.
#[derive(Clone, Copy, PartialEq, Eq, Debug)]
pub enum TripSpec {
    VehicleAppearing {
        start_pos: Position,
        goal: DrivingGoal,
        use_vehicle: CarID,
        /// Whether the simulator should retry under local congestion rather
        /// than cancel the trip outright.
        retry_if_no_room: bool,
    },
    UsingParkedCar { start_bldg: BuildingID, goal: DrivingGoal, car: CarID },
    UsingBike { bike: CarID, start: BuildingID, goal: DrivingGoal },
    JustWalking { start: SidewalkSpot, goal: SidewalkSpot },
    UsingTransit {
        start: SidewalkSpot,
        goal: SidewalkSpot,
        route: BusRouteID,
        stop1: BusStopID,
        maybe_stop2: Option<BusStopID>,
    },
    SpawningFailure { use_vehicle: Option<CarID>, error: SpawnError },
}

/// Which variant classification assigns to a trip, given mode and endpoints;
/// `None` only when geometry makes the trip entirely infeasible.
pub open spec fn spec_spawn_trip(
    from: TripEndpoint,
    to: TripEndpoint,
    mode: TripMode,
    map: MapModel,
) -> Option<SpawnTrip> {
    match mode {
        TripMode::Drive => match from {
            TripEndpoint::Bldg(b) => match map.spec_driving_goal(to, PathConstraints::Car) {
                Some(goal) => Some(SpawnTrip::UsingParkedCar(b, goal)),
                None => None,
            },
            TripEndpoint::Border(i) => match map.spec_some_outgoing_road(i) {
                Some(dr) => match map.spec_driving_goal(to, PathConstraints::Car) {
                    Some(goal) => Some(SpawnTrip::FromBorder { dr, goal, is_bike: false }),
                    None => None,
                },
                None => None,
            },
            // A trip that materializes mid-map resolves its goal under the
            // bike constraint even when driving; kept as the established
            // behavior of this debug-only path.
            TripEndpoint::SuddenlyAppear(start) => match map.spec_driving_goal(
                to,
                PathConstraints::Bike,
            ) {
                Some(goal) => Some(SpawnTrip::VehicleAppearing { start, goal, is_bike: false }),
                None => None,
            },
        },
        TripMode::Bike => match from {
            TripEndpoint::Bldg(b) => match map.spec_driving_goal(to, PathConstraints::Bike) {
                Some(goal) => Some(SpawnTrip::UsingBike(b, goal)),
                None => None,
            },
            TripEndpoint::Border(i) => match map.spec_some_outgoing_road(i) {
                Some(dr) => match map.spec_driving_goal(to, PathConstraints::Bike) {
                    Some(goal) => Some(SpawnTrip::FromBorder { dr, goal, is_bike: true }),
                    None => None,
                },
                None => None,
            },
            TripEndpoint::SuddenlyAppear(start) => match map.spec_driving_goal(
                to,
                PathConstraints::Bike,
            ) {
                Some(goal) => Some(SpawnTrip::VehicleAppearing { start, goal, is_bike: true }),
                None => None,
            },
        },
        TripMode::Walk => match (map.spec_sidewalk_spot(from), map.spec_sidewalk_spot(to)) {
            (Some(a), Some(b)) => Some(SpawnTrip::JustWalking(a, b)),
            _ => None,
        },
        TripMode::Transit => match (map.spec_sidewalk_spot(from), map.spec_sidewalk_spot(to)) {
            (Some(a), Some(b)) => match MapModel::spec_transit_match(
                map.transit_links@,
                a.sidewalk_pos,
                b.sidewalk_pos,
            ) {
                Some(link) => Some(
                    SpawnTrip::UsingTransit(a, b, link.route, link.stop1, link.stop2),
                ),
                // Walking is always a valid fallback: no route is not a
                // failure.
                None => Some(SpawnTrip::JustWalking(a, b)),
            },
            _ => None,
        },
    }
}

/// Vehicle trips must come with the vehicle the allocator picked — but only
/// where finalization actually hands it out: a border entry whose road has
/// no legal lane becomes a failure that merely carries the vehicle along,
/// present or not.
pub open spec fn spec_needs_vehicle(trip: SpawnTrip, map: MapModel) -> bool {
    match trip {
        SpawnTrip::VehicleAppearing { .. } => true,
        SpawnTrip::FromBorder { dr, is_bike, .. } => map.spec_lanes(
            dr,
            if is_bike {
                PathConstraints::Bike
            } else {
                PathConstraints::Car
            },
        ).len() > 0,
        SpawnTrip::UsingParkedCar(_, _) => true,
        SpawnTrip::UsingBike(_, _) => true,
        SpawnTrip::JustWalking(_, _) => false,
        SpawnTrip::UsingTransit(_, _, _, _, _) => false,
    }
}

/// A classified trip only mentions roads the map has.
pub open spec fn spec_spawn_trip_valid(trip: SpawnTrip, map: MapModel) -> bool {
    match trip {
        SpawnTrip::FromBorder { dr, .. } => dr.road.0 < map.roads.len(),
        _ => true,
    }
}

/// The terminal spec that finalization produces, with the border lane choice
/// pinned to the forked stream's position.
pub open spec fn spec_trip_spec(
    trip: SpawnTrip,
    use_vehicle: Option<CarID>,
    retry_if_no_room: bool,
    map: MapModel,
    pos: StreamPos,
) -> TripSpec {
    match trip {
        SpawnTrip::VehicleAppearing { start, goal, .. } => TripSpec::VehicleAppearing {
            start_pos: start,
            goal,
            use_vehicle: use_vehicle.unwrap(),
            retry_if_no_room,
        },
        SpawnTrip::FromBorder { dr, goal, is_bike } => {
            let constraints = if is_bike {
                PathConstraints::Bike
            } else {
                PathConstraints::Car
            };
            let lanes = map.spec_lanes(dr, constraints);
            if lanes.len() > 0 {
                TripSpec::VehicleAppearing {
                    start_pos: Position {
                        lane: lanes[chosen_index(lanes.len(), pos.seed, pos.taken)],
                        dist: SPAWN_DIST,
                    },
                    goal,
                    use_vehicle: use_vehicle.unwrap(),
                    retry_if_no_room,
                }
            } else {
                TripSpec::SpawningFailure {
                    use_vehicle,
                    error: SpawnError::NoLanesForVehicle(dr, constraints),
                }
            }
        },
        SpawnTrip::UsingParkedCar(start_bldg, goal) => TripSpec::UsingParkedCar {
            start_bldg,
            goal,
            car: use_vehicle.unwrap(),
        },
        SpawnTrip::UsingBike(start, goal) => TripSpec::UsingBike {
            bike: use_vehicle.unwrap(),
            start,
            goal,
        },
        SpawnTrip::JustWalking(start, goal) => TripSpec::JustWalking { start, goal },
        SpawnTrip::UsingTransit(start, goal, route, stop1, maybe_stop2) => TripSpec::UsingTransit {
            start,
            goal,
            route,
            stop1,
            maybe_stop2,
        },
    }
}

impl SpawnTrip {
    /// Classify mode and endpoints into the variant describing how the trip
    /// realizes physically, or nothing if geometry rules it out entirely.
    pub fn new(from: TripEndpoint, to: TripEndpoint, mode: TripMode, map: &MapModel) -> (r: Option<
        SpawnTrip,
    >)
        ensures
            r == spec_spawn_trip(from, to, mode, *map),
            map.spec_wf() ==> (r matches Some(t) ==> spec_spawn_trip_valid(t, *map)),
    {
        match mode {
            TripMode::Drive => match from {
                TripEndpoint::Bldg(b) => match map.driving_goal(to, PathConstraints::Car) {
                    Some(goal) => Some(SpawnTrip::UsingParkedCar(b, goal)),
                    None => None,
                },
                TripEndpoint::Border(i) => match map.some_outgoing_road(i) {
                    Some(dr) => match map.driving_goal(to, PathConstraints::Car) {
                        Some(goal) => Some(SpawnTrip::FromBorder { dr, goal, is_bike: false }),
                        None => None,
                    },
                    None => None,
                },
                TripEndpoint::SuddenlyAppear(start) => match map.driving_goal(
                    to,
                    PathConstraints::Bike,
                ) {
                    Some(goal) => Some(
                        SpawnTrip::VehicleAppearing { start, goal, is_bike: false },
                    ),
                    None => None,
                },
            },
            TripMode::Bike => match from {
                TripEndpoint::Bldg(b) => match map.driving_goal(to, PathConstraints::Bike) {
                    Some(goal) => Some(SpawnTrip::UsingBike(b, goal)),
                    None => None,
                },
                TripEndpoint::Border(i) => match map.some_outgoing_road(i) {
                    Some(dr) => match map.driving_goal(to, PathConstraints::Bike) {
                        Some(goal) => Some(SpawnTrip::FromBorder { dr, goal, is_bike: true }),
                        None => None,
                    },
                    None => None,
                },
                TripEndpoint::SuddenlyAppear(start) => match map.driving_goal(
                    to,
                    PathConstraints::Bike,
                ) {
                    Some(goal) => Some(SpawnTrip::VehicleAppearing { start, goal, is_bike: true }),
                    None => None,
                },
            },
            TripMode::Walk => match (map.sidewalk_spot(from), map.sidewalk_spot(to)) {
                (Some(a), Some(b)) => Some(SpawnTrip::JustWalking(a, b)),
                _ => None,
            },
            TripMode::Transit => match (map.sidewalk_spot(from), map.sidewalk_spot(to)) {
                (Some(a), Some(b)) => match map.should_use_transit(
                    a.sidewalk_pos,
                    b.sidewalk_pos,
                ) {
                    Some(link) => Some(
                        SpawnTrip::UsingTransit(a, b, link.route, link.stop1, link.stop2),
                    ),
                    None => Some(SpawnTrip::JustWalking(a, b)),
                },
                _ => None,
            },
        }
    }

    /// Finalize the classified trip into a runnable spec, picking a concrete
    /// border lane with the forked stream so the choice is stable however
    /// resolution work is partitioned.
    pub fn to_trip_spec(
        self,
        use_vehicle: Option<CarID>,
        retry_if_no_room: bool,
        rng: &mut SimRng,
        map: &MapModel,
    ) -> (r: TripSpec)
        requires
            spec_needs_vehicle(self, *map) ==> use_vehicle is Some,
            spec_spawn_trip_valid(self, *map),
        ensures
            r == spec_trip_spec(self, use_vehicle, retry_if_no_room, *map, old(rng)@),
            !(self is FromBorder) ==> final(rng)@ == old(rng)@,
    {
        match self {
            SpawnTrip::VehicleAppearing { start, goal, .. } => TripSpec::VehicleAppearing {
                start_pos: start,
                goal,
                use_vehicle: use_vehicle.unwrap(),
                retry_if_no_room,
            },
            SpawnTrip::FromBorder { dr, goal, is_bike } => {
                let constraints = if is_bike {
                    PathConstraints::Bike
                } else {
                    PathConstraints::Car
                };
                match choose_lane(rng, map.lanes(dr, constraints)) {
                    Some(l) => TripSpec::VehicleAppearing {
                        start_pos: Position { lane: l, dist: SPAWN_DIST },
                        goal,
                        use_vehicle: use_vehicle.unwrap(),
                        retry_if_no_room,
                    },
                    None => TripSpec::SpawningFailure {
                        use_vehicle,
                        error: SpawnError::NoLanesForVehicle(dr, constraints),
                    },
                }
            },
            SpawnTrip::UsingParkedCar(start_bldg, goal) => TripSpec::UsingParkedCar {
                start_bldg,
                goal,
                car: use_vehicle.unwrap(),
            },
            SpawnTrip::UsingBike(start, goal) => TripSpec::UsingBike {
                bike: use_vehicle.unwrap(),
                start,
                goal,
            },
            SpawnTrip::JustWalking(start, goal) => TripSpec::JustWalking { start, goal },
            SpawnTrip::UsingTransit(start, goal, route, stop1, maybe_stop2) => {
                TripSpec::UsingTransit { start, goal, route, stop1, maybe_stop2 }
            },
        }
    }
}

} // verus!
