use scenario::scenario::{IndividTrip, PersonSpec, ScheduleErrorKind, TripPurpose};
use scenario::types::{BuildingID, IntersectionID, OrigPersonID, PersonID, TripEndpoint, TripMode};

fn trip(depart: u64, from: TripEndpoint, to: TripEndpoint, mode: TripMode) -> IndividTrip {
    IndividTrip::new(depart, TripPurpose::Work, from, to, mode)
}

fn bldg(i: usize) -> TripEndpoint {
    TripEndpoint::Bldg(BuildingID(i))
}

#[test]
fn empty_and_single_schedules_pass() {
    let p = PersonSpec { id: PersonID(0), orig_id: None, trips: vec![] };
    assert!(p.check_schedule().is_ok());
    let p = PersonSpec {
        id: PersonID(0),
        orig_id: None,
        trips: vec![trip(10, bldg(0), bldg(1), TripMode::Walk)],
    };
    assert!(p.check_schedule().is_ok());
}

#[test]
fn continuous_ordered_schedule_passes() {
    let p = PersonSpec {
        id: PersonID(3),
        orig_id: None,
        trips: vec![
            trip(10, bldg(0), bldg(1), TripMode::Walk),
            trip(20, bldg(1), bldg(2), TripMode::Drive),
            trip(30, bldg(2), bldg(0), TripMode::Transit),
        ],
    };
    assert!(p.check_schedule().is_ok());
}

#[test]
fn out_of_order_departures_are_reported() {
    let p = PersonSpec {
        id: PersonID(1),
        orig_id: Some(OrigPersonID(7, 8)),
        trips: vec![
            trip(20, bldg(0), bldg(1), TripMode::Walk),
            trip(20, bldg(1), bldg(2), TripMode::Walk),
        ],
    };
    let err = p.check_schedule().unwrap_err();
    assert_eq!(err.person, PersonID(1));
    assert_eq!(err.orig_id, Some(OrigPersonID(7, 8)));
    assert_eq!(err.index, 0);
    assert_eq!(err.kind, ScheduleErrorKind::TripsOutOfOrder(20, 20));
}

#[test]
fn warping_between_buildings_is_reported() {
    let p = PersonSpec {
        id: PersonID(2),
        orig_id: None,
        trips: vec![
            trip(10, bldg(0), bldg(1), TripMode::Walk),
            trip(20, bldg(2), bldg(3), TripMode::Walk),
        ],
    };
    let err = p.check_schedule().unwrap_err();
    assert_eq!(err.index, 0);
    assert_eq!(
        err.kind,
        ScheduleErrorKind::Discontinuous(20, Some(BuildingID(1)), Some(BuildingID(2)))
    );
}

#[test]
fn building_to_border_counts_as_continuous() {
    // Off-map endpoints are wildcards: ending at a building and then leaving
    // from a border is continuous, and so is the reverse.
    let p = PersonSpec {
        id: PersonID(6),
        orig_id: None,
        trips: vec![
            trip(10, bldg(0), bldg(1), TripMode::Walk),
            trip(20, TripEndpoint::Border(IntersectionID(3)), bldg(2), TripMode::Drive),
        ],
    };
    assert!(p.check_schedule().is_ok());

    let p = PersonSpec {
        id: PersonID(7),
        orig_id: None,
        trips: vec![
            trip(10, bldg(0), TripEndpoint::Border(IntersectionID(3)), TripMode::Drive),
            trip(20, bldg(5), bldg(2), TripMode::Walk),
        ],
    };
    assert!(p.check_schedule().is_ok());
}

#[test]
fn borders_reset_location_tracking() {
    // Leaving via one border and re-entering via any other is continuous.
    let p = PersonSpec {
        id: PersonID(4),
        orig_id: None,
        trips: vec![
            trip(10, bldg(0), TripEndpoint::Border(IntersectionID(0)), TripMode::Drive),
            trip(20, TripEndpoint::Border(IntersectionID(5)), bldg(2), TripMode::Drive),
        ],
    };
    assert!(p.check_schedule().is_ok());
}

#[test]
fn time_order_is_checked_before_continuity() {
    let p = PersonSpec {
        id: PersonID(5),
        orig_id: None,
        trips: vec![
            trip(30, bldg(0), bldg(1), TripMode::Walk),
            trip(20, bldg(9), bldg(2), TripMode::Walk),
        ],
    };
    let err = p.check_schedule().unwrap_err();
    assert!(matches!(err.kind, ScheduleErrorKind::TripsOutOfOrder(30, 20)));
}
