use scenario::map_model::{Building, MapModel, OffstreetParking, Road, TransitLink};
use scenario::rng::SimRng;
use scenario::scenario::{IndividTrip, MapName, PersonSpec, Scenario, TripPurpose};
use scenario::sim::Sim;
use scenario::spawn::TripSpec;
use scenario::types::{
    BuildingID, DrivingGoal, LaneID, ParkingSpot, PersonID, Position, RoadID, SidewalkSpot,
    TripEndpoint, TripMode, VehicleType,
};

fn sidewalk(lane: usize, dist: u64) -> Option<SidewalkSpot> {
    Some(SidewalkSpot { sidewalk_pos: Position { lane: LaneID(lane), dist } })
}

fn small_map(n_buildings: usize, n_spots: usize) -> MapModel {
    let mut buildings = Vec::new();
    for i in 0..n_buildings {
        buildings.push(Building {
            road: RoadID(0),
            sidewalk: sidewalk(1, i as u64),
            parking: OffstreetParking::PublicGarage,
            goal_car: Some(DrivingGoal::ParkNear(BuildingID(i))),
            goal_bike: Some(DrivingGoal::ParkNear(BuildingID(i))),
        });
    }
    let _ = n_spots;
    MapModel {
        name: MapName { city: "test city".to_string(), map: "test map".to_string() },
        roads: vec![Road {
            adjacent: vec![],
            lanes_car_fwd: vec![LaneID(0)],
            lanes_car_back: vec![],
            lanes_bike_fwd: vec![LaneID(2)],
            lanes_bike_back: vec![],
        }],
        buildings,
        borders: vec![],
        bus_routes: vec![],
        transit_links: Vec::<TransitLink>::new(),
        lane_parent: vec![RoadID(0), RoadID(0), RoadID(0)],
        lot_road: vec![],
    }
}

fn fresh_sim(n_buildings: usize, n_spots: usize) -> Sim {
    let mut spots = Vec::new();
    for i in 0..n_spots {
        spots.push(ParkingSpot::Onstreet(LaneID(0), i));
    }
    Sim {
        infinite_parking: false,
        free_offstreet: vec![vec![]; n_buildings],
        all_parking_spots: spots,
        name: None,
        seeded_routes: vec![],
        persons: vec![],
        parked: vec![],
        scheduled: vec![],
        next_car_id: 0,
    }
}

fn walk_then_drive_scenario() -> Scenario {
    // One person: walk from building 0 to building 1, then drive from
    // building 1 back to building 0.
    let trips = vec![
        IndividTrip::new(
            100,
            TripPurpose::Work,
            TripEndpoint::Bldg(BuildingID(0)),
            TripEndpoint::Bldg(BuildingID(1)),
            TripMode::Walk,
        ),
        IndividTrip::new(
            200,
            TripPurpose::Home,
            TripEndpoint::Bldg(BuildingID(1)),
            TripEndpoint::Bldg(BuildingID(0)),
            TripMode::Drive,
        ),
    ];
    Scenario {
        scenario_name: "walk then drive".to_string(),
        map_name: MapName { city: "test city".to_string(), map: "test map".to_string() },
        people: vec![PersonSpec { id: PersonID(0), orig_id: None, trips }],
        only_seed_buses: None,
    }
}

#[test]
fn walk_then_drive_yields_one_car_and_two_specs() {
    let map = small_map(2, 5);
    let mut sim = fresh_sim(2, 5);
    let mut rng = SimRng::seeded(42);
    let scenario = walk_then_drive_scenario();
    scenario.instantiate(&mut sim, &map, &mut rng);

    assert_eq!(sim.persons.len(), 1);
    assert_eq!(sim.persons[0].vehicles.len(), 1);
    assert_eq!(sim.persons[0].vehicles[0].vehicle_type, VehicleType::Car);

    assert_eq!(sim.scheduled.len(), 2);
    assert!(matches!(sim.scheduled[0].1, TripSpec::JustWalking { .. }));
    match sim.scheduled[1].1 {
        TripSpec::UsingParkedCar { start_bldg, goal, car } => {
            assert_eq!(start_bldg, BuildingID(1));
            assert_eq!(goal, DrivingGoal::ParkNear(BuildingID(0)));
            assert_eq!(car, sim.persons[0].vehicles[0].id);
        },
        ref other => panic!("expected UsingParkedCar, got {:?}", other),
    }
    // The one car starts parked near building 1.
    assert_eq!(sim.parked.len(), 1);
}

#[test]
fn mismatched_chain_fails_the_schedule_check() {
    let mut scenario = walk_then_drive_scenario();
    // The drive no longer starts where the walk ended.
    scenario.people[0].trips[1].from = TripEndpoint::Bldg(BuildingID(0));
    let err = scenario.people[0].check_schedule().unwrap_err();
    assert!(matches!(
        err.kind,
        scenario::scenario::ScheduleErrorKind::Discontinuous(_, _, _)
    ));
}

#[test]
fn same_seed_same_run() {
    let map = small_map(2, 5);
    let scenario = walk_then_drive_scenario();

    let mut sim1 = fresh_sim(2, 5);
    let mut rng1 = SimRng::seeded(42);
    scenario.instantiate(&mut sim1, &map, &mut rng1);

    let mut sim2 = fresh_sim(2, 5);
    let mut rng2 = SimRng::seeded(42);
    scenario.instantiate(&mut sim2, &map, &mut rng2);

    assert_eq!(sim1.scheduled, sim2.scheduled);
    assert_eq!(sim1.parked, sim2.parked);
    assert_eq!(sim1.persons, sim2.persons);
    assert_eq!(sim1.seeded_routes, sim2.seeded_routes);
}

#[test]
fn hundred_drivers_fifty_spots_seed_exactly_fifty() {
    let map = small_map(100, 50);
    let mut people = Vec::new();
    for i in 0..100 {
        people.push(PersonSpec {
            id: PersonID(i),
            orig_id: None,
            trips: vec![IndividTrip::new(
                100 + i as u64,
                TripPurpose::Work,
                TripEndpoint::Bldg(BuildingID(i)),
                TripEndpoint::Bldg(BuildingID(0)),
                TripMode::Drive,
            )],
        });
    }
    let scenario = Scenario {
        scenario_name: "rush hour".to_string(),
        map_name: MapName { city: "test city".to_string(), map: "test map".to_string() },
        people,
        only_seed_buses: None,
    };

    let mut sim1 = fresh_sim(100, 50);
    let mut rng1 = SimRng::seeded(7);
    scenario.instantiate(&mut sim1, &map, &mut rng1);
    assert_eq!(sim1.persons.len(), 100);
    assert_eq!(sim1.scheduled.len(), 100);
    assert_eq!(sim1.parked.len(), 50);

    // The same run again seeds the same fifty cars into the same spots, in
    // the same order: exhaustion never reorders the tail.
    let mut sim2 = fresh_sim(100, 50);
    let mut rng2 = SimRng::seeded(7);
    scenario.instantiate(&mut sim2, &map, &mut rng2);
    assert_eq!(sim1.parked, sim2.parked);
}

#[test]
fn transit_without_a_route_downgrades_to_walking() {
    let map = small_map(2, 0);
    let mut sim = fresh_sim(2, 0);
    let mut rng = SimRng::seeded(3);
    let trips = vec![IndividTrip::new(
        50,
        TripPurpose::Shopping,
        TripEndpoint::Bldg(BuildingID(0)),
        TripEndpoint::Bldg(BuildingID(1)),
        TripMode::Transit,
    )];
    let scenario = Scenario {
        scenario_name: "no bus today".to_string(),
        map_name: MapName { city: "test city".to_string(), map: "test map".to_string() },
        people: vec![PersonSpec { id: PersonID(0), orig_id: None, trips }],
        only_seed_buses: None,
    };
    scenario.instantiate(&mut sim, &map, &mut rng);
    assert_eq!(sim.scheduled.len(), 1);
    assert!(matches!(sim.scheduled[0].1, TripSpec::JustWalking { .. }));
}
