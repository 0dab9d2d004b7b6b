use scenario::rng::SimRng;
use scenario::scenario::{IndividTrip, PersonSpec, TripPurpose};
use scenario::types::{
    BuildingID, PersonID, TripEndpoint, TripMode, VehicleType, BIKE_LENGTH, MAX_CAR_LENGTH,
    MIN_CAR_LENGTH,
};

fn trip(depart: u64, from: usize, to: usize, mode: TripMode) -> IndividTrip {
    IndividTrip::new(
        depart,
        TripPurpose::Work,
        TripEndpoint::Bldg(BuildingID(from)),
        TripEndpoint::Bldg(BuildingID(to)),
        mode,
    )
}

#[test]
fn walk_and_transit_need_no_vehicles() {
    let p = PersonSpec {
        id: PersonID(0),
        orig_id: None,
        trips: vec![
            trip(10, 0, 1, TripMode::Walk),
            trip(20, 1, 2, TripMode::Transit),
            trip(30, 2, 0, TripMode::Walk),
        ],
    };
    let mut rng = SimRng::seeded(1);
    let (specs, parked, per_trip) = p.get_vehicles(&mut rng);
    assert_eq!(specs.len(), 0);
    assert_eq!(parked.len(), 0);
    assert_eq!(per_trip, vec![None, None, None]);
}

#[test]
fn chained_drives_reuse_one_car() {
    let p = PersonSpec {
        id: PersonID(0),
        orig_id: None,
        trips: vec![
            trip(10, 0, 1, TripMode::Drive),
            trip(20, 1, 2, TripMode::Drive),
            trip(30, 2, 0, TripMode::Drive),
        ],
    };
    let mut rng = SimRng::seeded(1);
    let (specs, parked, per_trip) = p.get_vehicles(&mut rng);
    assert_eq!(specs.len(), 1);
    assert_eq!(specs[0].vehicle_type, VehicleType::Car);
    assert!(MIN_CAR_LENGTH <= specs[0].length && specs[0].length < MAX_CAR_LENGTH);
    // The one car starts parked at the first trip's origin.
    assert_eq!(parked, vec![(0, BuildingID(0))]);
    assert_eq!(per_trip, vec![Some(0), Some(0), Some(0)]);
}

#[test]
fn broken_chains_need_one_car_per_drive() {
    // Each drive trip starts somewhere no car was left, so nothing is reused.
    let p = PersonSpec {
        id: PersonID(0),
        orig_id: None,
        trips: vec![
            trip(10, 0, 1, TripMode::Drive),
            trip(20, 2, 3, TripMode::Drive),
            trip(30, 4, 5, TripMode::Drive),
        ],
    };
    let mut rng = SimRng::seeded(1);
    let (specs, parked, per_trip) = p.get_vehicles(&mut rng);
    assert_eq!(specs.len(), 3);
    assert_eq!(
        parked,
        vec![(0, BuildingID(0)), (1, BuildingID(2)), (2, BuildingID(4))]
    );
    assert_eq!(per_trip, vec![Some(0), Some(1), Some(2)]);
}

#[test]
fn one_bike_is_created_lazily_and_reused() {
    let p = PersonSpec {
        id: PersonID(0),
        orig_id: None,
        trips: vec![
            trip(10, 0, 1, TripMode::Walk),
            trip(20, 1, 2, TripMode::Bike),
            trip(30, 2, 3, TripMode::Bike),
        ],
    };
    let mut rng = SimRng::seeded(1);
    let (specs, parked, per_trip) = p.get_vehicles(&mut rng);
    assert_eq!(specs.len(), 1);
    assert_eq!(specs[0].vehicle_type, VehicleType::Bike);
    assert_eq!(specs[0].length, BIKE_LENGTH);
    assert_eq!(parked.len(), 0);
    assert_eq!(per_trip, vec![None, Some(0), Some(0)]);
}

#[test]
fn car_left_at_building_is_picked_up_again() {
    // Drive away, come back on foot, drive off again: away-and-back still
    // reuses, because the car is tracked where it was left.
    let p = PersonSpec {
        id: PersonID(0),
        orig_id: None,
        trips: vec![
            trip(10, 0, 1, TripMode::Drive),
            trip(20, 1, 0, TripMode::Walk),
            trip(30, 1, 0, TripMode::Drive),
        ],
    };
    let mut rng = SimRng::seeded(1);
    let (specs, _parked, per_trip) = p.get_vehicles(&mut rng);
    assert_eq!(specs.len(), 1);
    assert_eq!(per_trip, vec![Some(0), None, Some(0)]);
}

#[test]
fn interleaved_trips_still_share_the_one_car() {
    // Drives chain end-to-end; a bike ride and a walk stand in between.
    let p = PersonSpec {
        id: PersonID(0),
        orig_id: None,
        trips: vec![
            trip(10, 0, 1, TripMode::Drive),
            trip(20, 1, 2, TripMode::Bike),
            trip(30, 1, 2, TripMode::Drive),
            trip(40, 2, 3, TripMode::Walk),
            trip(50, 2, 0, TripMode::Drive),
        ],
    };
    let mut rng = SimRng::seeded(1);
    let (specs, parked, per_trip) = p.get_vehicles(&mut rng);
    assert_eq!(specs.len(), 2);
    assert_eq!(specs[0].vehicle_type, VehicleType::Car);
    assert_eq!(specs[1].vehicle_type, VehicleType::Bike);
    assert_eq!(parked, vec![(0, BuildingID(0))]);
    assert_eq!(per_trip, vec![Some(0), Some(1), Some(0), None, Some(0)]);
}

#[test]
fn allocation_is_deterministic_for_a_seed() {
    let p = PersonSpec {
        id: PersonID(0),
        orig_id: None,
        trips: vec![trip(10, 0, 1, TripMode::Drive), trip(20, 1, 2, TripMode::Bike)],
    };
    let mut rng1 = SimRng::seeded(99);
    let mut rng2 = SimRng::seeded(99);
    let out1 = p.get_vehicles(&mut rng1);
    let out2 = p.get_vehicles(&mut rng2);
    assert_eq!(out1.0, out2.0);
    assert_eq!(out1.1, out2.1);
    assert_eq!(out1.2, out2.2);
}
