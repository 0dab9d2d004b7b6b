use scenario::map_model::{Border, Building, MapModel, OffstreetParking, Road, TransitLink};
use scenario::rng::SimRng;
use scenario::scenario::{IndividTrip, MapName, PersonSpec, Scenario, TripPurpose};
use scenario::sim::Sim;
use scenario::spawn::{SpawnError, SpawnTrip, TripSpec};
use scenario::types::{
    BuildingID, BusRouteID, BusStopID, DirectedRoadID, DrivingGoal, IntersectionID, LaneID,
    ParkingSpot, PersonID, Position, RoadID, SidewalkSpot, TripEndpoint, TripMode, SPAWN_DIST,
};

fn spot(lane: usize, dist: u64) -> Option<SidewalkSpot> {
    Some(SidewalkSpot { sidewalk_pos: Position { lane: LaneID(lane), dist } })
}

fn test_map() -> MapModel {
    MapModel {
        name: MapName { city: "test city".to_string(), map: "test map".to_string() },
        roads: vec![
            Road {
                adjacent: vec![],
                lanes_car_fwd: vec![LaneID(0)],
                lanes_car_back: vec![],
                lanes_bike_fwd: vec![LaneID(2)],
                lanes_bike_back: vec![],
            },
            // A road with no legal lanes at all.
            Road {
                adjacent: vec![],
                lanes_car_fwd: vec![],
                lanes_car_back: vec![],
                lanes_bike_fwd: vec![],
                lanes_bike_back: vec![],
            },
        ],
        buildings: vec![
            Building {
                road: RoadID(0),
                sidewalk: spot(1, 0),
                parking: OffstreetParking::PublicGarage,
                goal_car: Some(DrivingGoal::ParkNear(BuildingID(0))),
                goal_bike: Some(DrivingGoal::ParkNear(BuildingID(0))),
            },
            // A building with no adjacent sidewalk and no driving goal.
            Building {
                road: RoadID(0),
                sidewalk: None,
                parking: OffstreetParking::PublicGarage,
                goal_car: None,
                goal_bike: None,
            },
            // A building only bikes can be routed to.
            Building {
                road: RoadID(0),
                sidewalk: None,
                parking: OffstreetParking::PublicGarage,
                goal_car: None,
                goal_bike: Some(DrivingGoal::ParkNear(BuildingID(2))),
            },
        ],
        borders: vec![
            Border {
                outgoing: Some(DirectedRoadID { road: RoadID(0), forwards: true }),
                goal_car: Some(DrivingGoal::Border(IntersectionID(0))),
                goal_bike: Some(DrivingGoal::Border(IntersectionID(0))),
                sidewalk: spot(1, 50),
            },
            // A border whose outgoing road has no car lanes.
            Border {
                outgoing: Some(DirectedRoadID { road: RoadID(1), forwards: true }),
                goal_car: Some(DrivingGoal::Border(IntersectionID(1))),
                goal_bike: None,
                sidewalk: None,
            },
        ],
        bus_routes: vec![BusRouteID(0)],
        transit_links: vec![TransitLink {
            from: Position { lane: LaneID(1), dist: 0 },
            to: Position { lane: LaneID(1), dist: 50 },
            route: BusRouteID(0),
            stop1: BusStopID(0),
            stop2: Some(BusStopID(1)),
        }],
        lane_parent: vec![RoadID(0), RoadID(0), RoadID(0)],
        lot_road: vec![],
    }
}

#[test]
fn walking_needs_sidewalks_at_both_ends() {
    let map = test_map();
    let ok = SpawnTrip::new(
        TripEndpoint::Bldg(BuildingID(0)),
        TripEndpoint::Border(IntersectionID(0)),
        TripMode::Walk,
        &map,
    );
    assert!(matches!(ok, Some(SpawnTrip::JustWalking(_, _))));

    let missing = SpawnTrip::new(
        TripEndpoint::Bldg(BuildingID(0)),
        TripEndpoint::Bldg(BuildingID(1)),
        TripMode::Walk,
        &map,
    );
    assert!(missing.is_none());
}

#[test]
fn transit_uses_the_matching_route() {
    let map = test_map();
    let t = SpawnTrip::new(
        TripEndpoint::Bldg(BuildingID(0)),
        TripEndpoint::Border(IntersectionID(0)),
        TripMode::Transit,
        &map,
    );
    match t {
        Some(SpawnTrip::UsingTransit(_, _, route, stop1, stop2)) => {
            assert_eq!(route, BusRouteID(0));
            assert_eq!(stop1, BusStopID(0));
            assert_eq!(stop2, Some(BusStopID(1)));
        },
        other => panic!("expected UsingTransit, got {:?}", other),
    }
}

#[test]
fn driving_from_a_border_spawns_on_a_legal_lane() {
    let map = test_map();
    let trip = SpawnTrip::new(
        TripEndpoint::Border(IntersectionID(0)),
        TripEndpoint::Bldg(BuildingID(0)),
        TripMode::Drive,
        &map,
    )
    .unwrap();
    let mut rng = SimRng::seeded(2);
    let car = scenario::types::CarID { id: 0, vehicle_type: scenario::types::VehicleType::Car };
    let spec = trip.to_trip_spec(Some(car), true, &mut rng, &map);
    match spec {
        TripSpec::VehicleAppearing { start_pos, use_vehicle, retry_if_no_room, .. } => {
            assert_eq!(start_pos, Position { lane: LaneID(0), dist: SPAWN_DIST });
            assert_eq!(use_vehicle, car);
            assert!(retry_if_no_room);
        },
        other => panic!("expected VehicleAppearing, got {:?}", other),
    }
}

#[test]
fn a_border_without_lanes_is_a_typed_failure() {
    let map = test_map();
    let trip = SpawnTrip::new(
        TripEndpoint::Border(IntersectionID(1)),
        TripEndpoint::Bldg(BuildingID(0)),
        TripMode::Drive,
        &map,
    )
    .unwrap();
    let mut rng = SimRng::seeded(2);
    let car = scenario::types::CarID { id: 0, vehicle_type: scenario::types::VehicleType::Car };
    let spec = trip.to_trip_spec(Some(car), false, &mut rng, &map);
    match spec {
        TripSpec::SpawningFailure { use_vehicle, error } => {
            assert_eq!(use_vehicle, Some(car));
            assert_eq!(
                error,
                SpawnError::NoLanesForVehicle(
                    DirectedRoadID { road: RoadID(1), forwards: true },
                    scenario::types::PathConstraints::Car,
                )
            );
        },
        other => panic!("expected SpawningFailure, got {:?}", other),
    }
}

#[test]
fn a_laneless_border_failure_carries_no_vehicle_when_none_was_allocated() {
    // The failure path never unwraps the vehicle; handing it nothing is fine.
    let map = test_map();
    let trip = SpawnTrip::new(
        TripEndpoint::Border(IntersectionID(1)),
        TripEndpoint::Bldg(BuildingID(0)),
        TripMode::Drive,
        &map,
    )
    .unwrap();
    let mut rng = SimRng::seeded(2);
    let spec = trip.to_trip_spec(None, true, &mut rng, &map);
    assert!(matches!(spec, TripSpec::SpawningFailure { use_vehicle: None, .. }));
}

#[test]
fn appear_drives_resolve_their_goal_under_the_bike_constraint() {
    // The debug-only mid-map spawn resolves its destination with the bike
    // constraint even for a drive, so a bike-only destination still works
    // there while an ordinary drive to it fails.
    let map = test_map();
    let start = TripEndpoint::SuddenlyAppear(Position { lane: LaneID(0), dist: 10 });
    let appear = SpawnTrip::new(start, TripEndpoint::Bldg(BuildingID(2)), TripMode::Drive, &map);
    match appear {
        Some(SpawnTrip::VehicleAppearing { is_bike, goal, .. }) => {
            assert!(!is_bike);
            assert_eq!(goal, DrivingGoal::ParkNear(BuildingID(2)));
        },
        other => panic!("expected VehicleAppearing, got {:?}", other),
    }

    let ordinary = SpawnTrip::new(
        TripEndpoint::Bldg(BuildingID(0)),
        TripEndpoint::Bldg(BuildingID(2)),
        TripMode::Drive,
        &map,
    );
    assert!(ordinary.is_none());
}

#[test]
fn infeasible_trips_become_cancelled_specs_not_crashes() {
    // A walk between two sidewalk-less places cannot classify; the whole run
    // still succeeds and records a typed failure for that trip.
    let map = test_map();
    let trips = vec![IndividTrip::new(
        10,
        TripPurpose::Work,
        TripEndpoint::Bldg(BuildingID(1)),
        TripEndpoint::Bldg(BuildingID(1)),
        TripMode::Walk,
    )];
    let s = Scenario {
        scenario_name: "stuck".to_string(),
        map_name: MapName { city: "test city".to_string(), map: "test map".to_string() },
        people: vec![PersonSpec { id: PersonID(0), orig_id: None, trips }],
        only_seed_buses: Some(vec![]),
    };
    let mut sim = Sim {
        infinite_parking: false,
        free_offstreet: vec![vec![], vec![], vec![]],
        all_parking_spots: Vec::<ParkingSpot>::new(),
        name: None,
        seeded_routes: vec![],
        persons: vec![],
        parked: vec![],
        scheduled: vec![],
        next_car_id: 0,
    };
    let mut rng = SimRng::seeded(1);
    s.instantiate(&mut sim, &map, &mut rng);
    assert_eq!(sim.scheduled.len(), 1);
    assert_eq!(
        sim.scheduled[0].1,
        TripSpec::SpawningFailure { use_vehicle: None, error: SpawnError::UnknownSpawning }
    );
    // The route restriction kept every route out.
    assert!(sim.seeded_routes.is_empty());
}

#[test]
fn route_restrictions_pick_listed_routes() {
    let map = test_map();
    let s = Scenario {
        scenario_name: "buses".to_string(),
        map_name: MapName { city: "test city".to_string(), map: "test map".to_string() },
        people: vec![],
        only_seed_buses: Some(vec![BusRouteID(0)]),
    };
    let mut sim = Sim {
        infinite_parking: false,
        free_offstreet: vec![vec![], vec![], vec![]],
        all_parking_spots: Vec::<ParkingSpot>::new(),
        name: None,
        seeded_routes: vec![],
        persons: vec![],
        parked: vec![],
        scheduled: vec![],
        next_car_id: 0,
    };
    let mut rng = SimRng::seeded(1);
    s.instantiate(&mut sim, &map, &mut rng);
    assert_eq!(sim.seeded_routes, vec![BusRouteID(0)]);
    assert_eq!(sim.name.as_deref(), Some("buses"));
}
