use scenario::map_model::{Border, Building, MapModel, OffstreetParking, Road, TransitLink};
use scenario::parking::{find_spot_near_building, seed_parked_cars};
use scenario::rng::SimRng;
use scenario::scenario::MapName;
use scenario::sim::Sim;
use scenario::types::{
    BuildingID, LaneID, MaybeSpeed, CarID, ParkingSpot, PersonID, RoadID, Vehicle, VehicleType,
};

fn plain_road(adjacent: Vec<usize>) -> Road {
    Road {
        adjacent: adjacent.into_iter().map(RoadID).collect(),
        lanes_car_fwd: vec![],
        lanes_car_back: vec![],
        lanes_bike_fwd: vec![],
        lanes_bike_back: vec![],
    }
}

fn building_on(road: usize, parking: OffstreetParking) -> Building {
    Building { road: RoadID(road), sidewalk: None, parking, goal_car: None, goal_bike: None }
}

fn map_name() -> MapName {
    MapName { city: "test city".to_string(), map: "test map".to_string() }
}

fn two_road_map() -> MapModel {
    MapModel {
        name: map_name(),
        roads: vec![plain_road(vec![1]), plain_road(vec![0])],
        buildings: vec![building_on(0, OffstreetParking::PublicGarage)],
        borders: vec![],
        bus_routes: vec![],
        transit_links: Vec::<TransitLink>::new(),
        lane_parent: vec![RoadID(0), RoadID(1)],
        lot_road: vec![],
    }
}

fn car(n: usize) -> Vehicle {
    Vehicle {
        id: CarID { id: n, vehicle_type: VehicleType::Car },
        owner: PersonID(0),
        vehicle_type: VehicleType::Car,
        length: 450,
        max_speed: MaybeSpeed::NoLimit,
    }
}

#[test]
fn search_walks_to_the_neighbor_road() {
    // Building 0 fronts road 0 with no spots; road 1 holds the only spot.
    let map = two_road_map();
    let spot = ParkingSpot::Onstreet(LaneID(1), 0);
    let mut open_spots = vec![vec![], vec![(spot, None)]];
    let found = find_spot_near_building(BuildingID(0), &mut open_spots, &map);
    assert_eq!(found, Some(spot));
    assert!(open_spots[1].is_empty());
}

#[test]
fn search_reports_nothing_when_no_road_has_capacity() {
    let map = two_road_map();
    let mut open_spots: Vec<Vec<(ParkingSpot, Option<BuildingID>)>> = vec![vec![], vec![]];
    let found = find_spot_near_building(BuildingID(0), &mut open_spots, &map);
    assert_eq!(found, None);
}

#[test]
fn own_road_spot_wins_over_neighbor() {
    let map = two_road_map();
    let near = ParkingSpot::Onstreet(LaneID(0), 0);
    let far = ParkingSpot::Onstreet(LaneID(1), 0);
    let mut open_spots = vec![vec![(near, None)], vec![(far, None)]];
    let found = find_spot_near_building(BuildingID(0), &mut open_spots, &map);
    assert_eq!(found, Some(near));
}

#[test]
fn private_reservations_are_satisfied_first() {
    let map = two_road_map();
    let mine = ParkingSpot::Offstreet(BuildingID(0), 0);
    let free = ParkingSpot::Onstreet(LaneID(0), 0);
    let mut open_spots = vec![vec![(free, None), (mine, Some(BuildingID(0)))], vec![]];
    let found = find_spot_near_building(BuildingID(0), &mut open_spots, &map);
    assert_eq!(found, Some(mine));
}

#[test]
fn spots_reserved_for_others_are_skipped() {
    let map = two_road_map();
    let theirs = ParkingSpot::Offstreet(BuildingID(9), 0);
    let free = ParkingSpot::Onstreet(LaneID(0), 1);
    let mut open_spots = vec![vec![(theirs, Some(BuildingID(9))), (free, None)], vec![]];
    let found = find_spot_near_building(BuildingID(0), &mut open_spots, &map);
    assert_eq!(found, Some(free));
}

fn fifty_spot_sim(infinite: bool) -> Sim {
    let mut spots = Vec::new();
    for i in 0..50 {
        spots.push(ParkingSpot::Onstreet(LaneID(0), i));
    }
    Sim {
        infinite_parking: infinite,
        free_offstreet: vec![vec![]],
        all_parking_spots: spots,
        name: None,
        seeded_routes: vec![],
        persons: vec![],
        parked: vec![],
        scheduled: vec![],
        next_car_id: 0,
    }
}

#[test]
fn exhaustion_stops_the_pass_at_fifty_of_a_hundred() {
    let map = MapModel {
        name: map_name(),
        roads: vec![plain_road(vec![])],
        buildings: vec![building_on(0, OffstreetParking::PublicGarage)],
        borders: vec![],
        bus_routes: vec![],
        transit_links: Vec::<TransitLink>::new(),
        lane_parent: vec![RoadID(0)],
        lot_road: vec![],
    };
    let mut cars = Vec::new();
    for i in 0..100 {
        cars.push((car(i), BuildingID(0)));
    }
    let mut sim = fifty_spot_sim(false);
    let mut rng = SimRng::seeded(5);
    let report = seed_parked_cars(cars.clone(), &mut sim, &map, &mut rng);
    assert_eq!(report.total, 100);
    assert_eq!(report.seeded, 50);
    assert_eq!(report.blackholed, 0);
    assert_eq!(sim.parked.len(), 50);

    // The same pass again lands the same fifty cars in the same spots.
    let mut sim2 = fifty_spot_sim(false);
    let mut rng2 = SimRng::seeded(5);
    let report2 = seed_parked_cars(cars, &mut sim2, &map, &mut rng2);
    assert_eq!(report2.seeded, 50);
    assert_eq!(sim.parked, sim2.parked);
}

#[test]
fn fork_independence_across_roads() {
    // Two maps whose parking differs only on road 0; the car parks off road
    // 1, and its assigned spot must not notice road 0 at all.
    let map = MapModel {
        name: map_name(),
        roads: vec![plain_road(vec![]), plain_road(vec![])],
        buildings: vec![building_on(1, OffstreetParking::PublicGarage)],
        borders: vec![],
        bus_routes: vec![],
        transit_links: Vec::<TransitLink>::new(),
        lane_parent: vec![RoadID(0), RoadID(1)],
        lot_road: vec![],
    };
    let road1_spots = vec![
        ParkingSpot::Onstreet(LaneID(1), 0),
        ParkingSpot::Onstreet(LaneID(1), 1),
        ParkingSpot::Onstreet(LaneID(1), 2),
    ];
    let mut spots_a = vec![
        ParkingSpot::Onstreet(LaneID(0), 0),
        ParkingSpot::Onstreet(LaneID(0), 1),
    ];
    spots_a.extend(road1_spots.clone());
    let mut spots_b = vec![ParkingSpot::Onstreet(LaneID(0), 7)];
    spots_b.extend(road1_spots);

    let run = |all_spots: Vec<ParkingSpot>| {
        let mut sim = Sim {
            infinite_parking: false,
            free_offstreet: vec![vec![]],
            all_parking_spots: all_spots,
            name: None,
            seeded_routes: vec![],
            persons: vec![],
            parked: vec![],
            scheduled: vec![],
            next_car_id: 0,
        };
        let mut rng = SimRng::seeded(13);
        seed_parked_cars(vec![(car(0), BuildingID(0))], &mut sim, &map, &mut rng);
        sim.parked[0].1
    };
    assert_eq!(run(spots_a), run(spots_b));
}

#[test]
fn unconstrained_mode_counts_blackholed_buildings() {
    let map = MapModel {
        name: map_name(),
        roads: vec![plain_road(vec![])],
        buildings: vec![
            building_on(0, OffstreetParking::PublicGarage),
            building_on(0, OffstreetParking::PublicGarage),
        ],
        borders: vec![],
        bus_routes: vec![],
        transit_links: Vec::<TransitLink>::new(),
        lane_parent: vec![RoadID(0)],
        lot_road: vec![],
    };
    let mut sim = Sim {
        infinite_parking: true,
        free_offstreet: vec![vec![ParkingSpot::Offstreet(BuildingID(0), 0)], vec![]],
        all_parking_spots: vec![],
        name: None,
        seeded_routes: vec![],
        persons: vec![],
        parked: vec![],
        scheduled: vec![],
        next_car_id: 0,
    };
    let mut rng = SimRng::seeded(1);
    let report = seed_parked_cars(
        vec![(car(0), BuildingID(0)), (car(1), BuildingID(1))],
        &mut sim,
        &map,
        &mut rng,
    );
    assert_eq!(report.seeded, 1);
    assert_eq!(report.blackholed, 1);
    assert_eq!(sim.parked, vec![(car(0), ParkingSpot::Offstreet(BuildingID(0), 0))]);
}

#[test]
fn borders_and_transit_links_construct() {
    // Keep the auxiliary record types honest.
    let b = Border { outgoing: None, goal_car: None, goal_bike: None, sidewalk: None };
    assert_eq!(b.outgoing, None);
}
