use scenario::map_model::{MapModel, TransitLink};
use scenario::rng::SimRng;
use scenario::scenario::{IndividTrip, MapName, PersonSpec, Scenario, TripPurpose};
use scenario::sim::CancellationReason;
use scenario::spawn::SpawnError;
use scenario::types::{
    BuildingID, PersonID, TripEndpoint, TripMode, MAX_BIKE_SPEED, MAX_PED_SPEED, MIN_PED_SPEED,
};

fn trip(depart: u64, from: usize, to: usize, mode: TripMode) -> IndividTrip {
    IndividTrip::new(
        depart,
        TripPurpose::Work,
        TripEndpoint::Bldg(BuildingID(from)),
        TripEndpoint::Bldg(BuildingID(to)),
        mode,
    )
}

#[test]
fn new_trips_start_uncancelled_and_unmodified() {
    let t = trip(5, 0, 1, TripMode::Walk);
    assert_eq!(t.depart, 5);
    assert!(!t.cancelled);
    assert!(!t.modified);
    assert_eq!(t.purpose, TripPurpose::Work);
}

#[test]
fn purposes_describe_themselves() {
    assert_eq!(TripPurpose::Home.describe(), "home");
    assert_eq!(TripPurpose::Meal.describe(), "eating");
    assert_eq!(TripPurpose::ParkAndRideTransfer.describe(), "park-and-ride transfer");
    assert_eq!(TripPurpose::PersonalBusiness.describe(), "personal business");
}

#[test]
fn error_descriptions_are_stable() {
    assert_eq!(SpawnError::UnknownSpawning.describe(), "unknown spawning error");
    assert_eq!(
        CancellationReason::ScenarioModifier.describe(),
        "cancelled by ScenarioModifier"
    );
}

#[test]
fn speed_bounds_are_exposed() {
    assert_eq!(Scenario::max_bike_speed(), MAX_BIKE_SPEED);
    assert_eq!(Scenario::max_ped_speed(), MAX_PED_SPEED);
    let mut rng = SimRng::seeded(8);
    let ped = Scenario::rand_ped_speed(&mut rng);
    assert!((MIN_PED_SPEED..MAX_PED_SPEED).contains(&ped));
    let d = Scenario::rand_dist(&mut rng, 100, 200);
    assert!((100..200).contains(&d));
}

#[test]
fn empty_scenario_is_bound_to_the_map() {
    let map = MapModel {
        name: MapName { city: "test city".to_string(), map: "test map".to_string() },
        roads: vec![],
        buildings: vec![],
        borders: vec![],
        bus_routes: vec![],
        transit_links: Vec::<TransitLink>::new(),
        lane_parent: vec![],
        lot_road: vec![],
    };
    let s = Scenario::empty(&map, "blank day");
    assert_eq!(s.scenario_name, "blank day");
    assert_eq!(s.map_name.city, "test city");
    assert_eq!(s.map_name.map, "test map");
    assert!(s.people.is_empty());
    assert_eq!(s.only_seed_buses, Some(vec![]));
}

fn person(id: usize, trips: Vec<IndividTrip>) -> PersonSpec {
    PersonSpec { id: PersonID(id), orig_id: None, trips }
}

#[test]
fn weird_schedules_are_dropped_and_ids_renumbered() {
    let good1 = vec![trip(10, 0, 1, TripMode::Walk)];
    let bad = vec![trip(10, 0, 1, TripMode::Walk), trip(5, 1, 2, TripMode::Walk)];
    let good2 = vec![trip(10, 2, 3, TripMode::Drive), trip(20, 3, 2, TripMode::Drive)];
    let s = Scenario {
        scenario_name: "mixed".to_string(),
        map_name: MapName { city: "c".to_string(), map: "m".to_string() },
        people: vec![person(0, good1), person(1, bad), person(2, good2.clone())],
        only_seed_buses: None,
    };
    let cleaned = s.remove_weird_schedules();
    assert_eq!(cleaned.people.len(), 2);
    assert_eq!(cleaned.people[0].id, PersonID(0));
    assert_eq!(cleaned.people[1].id, PersonID(1));
    assert_eq!(cleaned.people[1].trips, good2);
}

#[test]
fn parked_cars_are_counted_per_building() {
    // Two people: one needs a car at building 0 and later one at building 2
    // (the chain breaks), the other needs one at building 0.
    let p0 = person(
        0,
        vec![trip(10, 0, 1, TripMode::Drive), trip(20, 2, 3, TripMode::Drive)],
    );
    let p1 = person(1, vec![trip(10, 0, 5, TripMode::Drive)]);
    let s = Scenario {
        scenario_name: "counting".to_string(),
        map_name: MapName { city: "c".to_string(), map: "m".to_string() },
        people: vec![p0, p1],
        only_seed_buses: None,
    };
    let counts = s.count_parked_cars_per_bldg();
    assert_eq!(counts, vec![(BuildingID(0), 2), (BuildingID(2), 1)]);
}
