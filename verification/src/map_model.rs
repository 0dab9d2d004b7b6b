use vstd::prelude::*;

use crate::scenario::MapName;
use crate::types::{
    BuildingID, BusRouteID, BusStopID, DirectedRoadID, DrivingGoal, IntersectionID, LaneID,
    ParkingSpot, PathConstraints, Position, RoadID, SidewalkSpot, TripEndpoint,
};

verus! {

/// One road of the network, with everything instantiation asks of it.
#[derive(Clone, Debug)]
pub struct Road {
    /// Roads touching this one, in the order the network hands them out.
    pub adjacent: Vec<RoadID>,
    /// Lanes a car may legally use, per direction.
    pub lanes_car_fwd: Vec<LaneID>,
    pub lanes_car_back: Vec<LaneID>,
    /// Lanes a bike may legally use, per direction.
    pub lanes_bike_fwd: Vec<LaneID>,
    pub lanes_bike_back: Vec<LaneID>,
}

/// Whether a building's off-street parking is open to anyone or reserved for
/// that building alone.
#[derive(Clone, Copy, PartialEq, Eq, Structural, Debug)]
pub enum OffstreetParking {
    PublicGarage,
    Private,
}

/// One building, with the network's answers to the queries instantiation
/// makes about it.
#[derive(Clone, Copy, PartialEq, Eq, Structural, Debug)]
pub struct Building {
    /// The road the building fronts on.
    pub road: RoadID,
    /// The nearest sidewalk spot, if any sidewalk is adjacent.
    pub sidewalk: Option<SidewalkSpot>,
    pub parking: OffstreetParking,
    /// Where a car-constrained trip headed here is routed, if anywhere.
    pub goal_car: Option<DrivingGoal>,
    /// Where a bike-constrained trip headed here is routed, if anywhere.
    pub goal_bike: Option<DrivingGoal>,
}

/// One border intersection of the network.
#[derive(Clone, Copy, PartialEq, Eq, Structural, Debug)]
pub struct Border {
    /// The border's outgoing road, if it has one.
    pub outgoing: Option<DirectedRoadID>,
    /// Where a car-constrained trip headed here is routed, if anywhere.
    pub goal_car: Option<DrivingGoal>,
    /// Where a bike-constrained trip headed here is routed, if anywhere.
    pub goal_bike: Option<DrivingGoal>,
    /// The nearest sidewalk spot, if any sidewalk reaches the border.
    pub sidewalk: Option<SidewalkSpot>,
}

/// One usable transit connection between two sidewalk positions.
#[derive(Clone, Copy, PartialEq, Eq, Structural, Debug)]
pub struct TransitLink {
    pub from: Position,
    pub to: Position,
    pub route: BusRouteID,
    pub stop1: BusStopID,
    /// `None` means riding to the route's end.
    pub stop2: Option<BusStopID>,
}

/// The read-only road and transit network that instantiation runs against.
/// It answers topology and routing queries; instantiation never edits it.
#[derive(Clone, Debug)]
pub struct MapModel {
    pub name: MapName,
    pub roads: Vec<Road>,
    pub buildings: Vec<Building>,
    pub borders: Vec<Border>,
    pub bus_routes: Vec<BusRouteID>,
    pub transit_links: Vec<TransitLink>,
    /// The road each lane belongs to, indexed by lane.
    pub lane_parent: Vec<RoadID>,
    /// The road each parking lot connects to, indexed by lot.
    pub lot_road: Vec<RoadID>,
}

impl MapModel {
    /// Every cross-reference into `roads` stays in range.
    pub open spec fn spec_wf(self) -> bool {
        &&& forall|b: int|
            0 <= b < self.buildings.len() ==> (#[trigger] self.buildings[b].road).0
                < self.roads.len()
        &&& forall|r: int, j: int|
            0 <= r < self.roads.len() && 0 <= j < self.roads[r].adjacent.len()
                ==> (#[trigger] self.roads[r].adjacent[j]).0 < self.roads.len()
        &&& forall|i: int|
            0 <= i < self.borders.len() ==> match #[trigger] self.borders[i].outgoing {
                Some(dr) => dr.road.0 < self.roads.len(),
                None => true,
            }
    }

    /// Where a trip headed for `e` under `c` is routed, if anywhere; debug
    /// endpoints that appear mid-map are never a driving goal.
    pub open spec fn spec_driving_goal(
        self,
        e: TripEndpoint,
        c: PathConstraints,
    ) -> Option<DrivingGoal> {
        match e {
            TripEndpoint::Bldg(b) => if b.0 < self.buildings.len() {
                match c {
                    PathConstraints::Car => self.buildings[b.0 as int].goal_car,
                    PathConstraints::Bike => self.buildings[b.0 as int].goal_bike,
                }
            } else {
                None
            },
            TripEndpoint::Border(i) => if i.0 < self.borders.len() {
                match c {
                    PathConstraints::Car => self.borders[i.0 as int].goal_car,
                    PathConstraints::Bike => self.borders[i.0 as int].goal_bike,
                }
            } else {
                None
            },
            TripEndpoint::SuddenlyAppear(_) => None,
        }
    }

    pub fn driving_goal(&self, e: TripEndpoint, c: PathConstraints) -> (r: Option<DrivingGoal>)
        ensures
            r == self.spec_driving_goal(e, c),
    {
        match e {
            TripEndpoint::Bldg(b) => if b.0 < self.buildings.len() {
                match c {
                    PathConstraints::Car => self.buildings[b.0].goal_car,
                    PathConstraints::Bike => self.buildings[b.0].goal_bike,
                }
            } else {
                None
            },
            TripEndpoint::Border(i) => if i.0 < self.borders.len() {
                match c {
                    PathConstraints::Car => self.borders[i.0].goal_car,
                    PathConstraints::Bike => self.borders[i.0].goal_bike,
                }
            } else {
                None
            },
            TripEndpoint::SuddenlyAppear(_) => None,
        }
    }

    /// The sidewalk spot where a pedestrian leg at `e` starts or ends, if the
    /// endpoint touches a sidewalk at all; a debug endpoint supplies its own
    /// position.
    pub open spec fn spec_sidewalk_spot(self, e: TripEndpoint) -> Option<SidewalkSpot> {
        match e {
            TripEndpoint::Bldg(b) => if b.0 < self.buildings.len() {
                self.buildings[b.0 as int].sidewalk
            } else {
                None
            },
            TripEndpoint::Border(i) => if i.0 < self.borders.len() {
                self.borders[i.0 as int].sidewalk
            } else {
                None
            },
            TripEndpoint::SuddenlyAppear(pos) => Some(SidewalkSpot { sidewalk_pos: pos }),
        }
    }

    pub fn sidewalk_spot(&self, e: TripEndpoint) -> (r: Option<SidewalkSpot>)
        ensures
            r == self.spec_sidewalk_spot(e),
    {
        match e {
            TripEndpoint::Bldg(b) => if b.0 < self.buildings.len() {
                self.buildings[b.0].sidewalk
            } else {
                None
            },
            TripEndpoint::Border(i) => if i.0 < self.borders.len() {
                self.borders[i.0].sidewalk
            } else {
                None
            },
            TripEndpoint::SuddenlyAppear(pos) => Some(SidewalkSpot { sidewalk_pos: pos }),
        }
    }

    /// The border's outgoing road, if the intersection is a border with one.
    pub open spec fn spec_some_outgoing_road(self, i: IntersectionID) -> Option<DirectedRoadID> {
        if i.0 < self.borders.len() {
            self.borders[i.0 as int].outgoing
        } else {
            None
        }
    }

    pub fn some_outgoing_road(&self, i: IntersectionID) -> (r: Option<DirectedRoadID>)
        ensures
            r == self.spec_some_outgoing_road(i),
    {
        if i.0 < self.borders.len() {
            self.borders[i.0].outgoing
        } else {
            None
        }
    }

    /// The lanes of `dr` legal under `c`, in the network's order.
    pub open spec fn spec_lanes(self, dr: DirectedRoadID, c: PathConstraints) -> Seq<LaneID>
        recommends
            dr.road.0 < self.roads.len(),
    {
        let road = self.roads[dr.road.0 as int];
        match (c, dr.forwards) {
            (PathConstraints::Car, true) => road.lanes_car_fwd@,
            (PathConstraints::Car, false) => road.lanes_car_back@,
            (PathConstraints::Bike, true) => road.lanes_bike_fwd@,
            (PathConstraints::Bike, false) => road.lanes_bike_back@,
        }
    }

    pub fn lanes(&self, dr: DirectedRoadID, c: PathConstraints) -> (r: &Vec<LaneID>)
        requires
            dr.road.0 < self.roads@.len(),
        ensures
            r@ == self.spec_lanes(dr, c),
    {
        let road = &self.roads[dr.road.0];
        match (c, dr.forwards) {
            (PathConstraints::Car, true) => &road.lanes_car_fwd,
            (PathConstraints::Car, false) => &road.lanes_car_back,
            (PathConstraints::Bike, true) => &road.lanes_bike_fwd,
            (PathConstraints::Bike, false) => &road.lanes_bike_back,
        }
    }

    /// The first usable transit connection between the two sidewalk
    /// positions, if the network knows one.
    pub open spec fn spec_transit_match(
        links: Seq<TransitLink>,
        from: Position,
        to: Position,
    ) -> Option<TransitLink>
        decreases links.len(),
    {
        if links.len() == 0 {
            None
        } else if links[0].from == from && links[0].to == to {
            Some(links[0])
        } else {
            Self::spec_transit_match(links.drop_first(), from, to)
        }
    }

    pub fn should_use_transit(&self, from: Position, to: Position) -> (r: Option<TransitLink>)
        ensures
            r == Self::spec_transit_match(self.transit_links@, from, to),
    {
        let mut i: usize = 0;
        proof {
            assert(self.transit_links@.skip(0) =~= self.transit_links@);
        }
        while i < self.transit_links.len()
            invariant
                0 <= i <= self.transit_links@.len(),
                Self::spec_transit_match(self.transit_links@, from, to)
                    == Self::spec_transit_match(self.transit_links@.skip(i as int), from, to),
            decreases self.transit_links@.len() - i,
        {
            let link = self.transit_links[i];
            proof {
                assert(self.transit_links@.skip(i as int)[0] == self.transit_links@[i as int]);
                assert(self.transit_links@.skip(i as int).drop_first() =~= self.transit_links@.skip(
                    i as int + 1,
                ));
            }
            if link.from == from && link.to == to {
                return Some(link);
            }
            i = i + 1;
        }
        proof {
            assert(self.transit_links@.skip(self.transit_links@.len() as int).len() == 0);
        }
        None
    }

    /// The road this building fronts on.
    pub fn building_to_road(&self, b: BuildingID) -> (r: RoadID)
        requires
            b.0 < self.buildings@.len(),
        ensures
            r == self.buildings@[b.0 as int].road,
    {
        self.buildings[b.0].road
    }

    /// A parking spot's indices all resolve on this map.
    pub open spec fn spec_spot_valid(self, spot: ParkingSpot) -> bool {
        match spot {
            ParkingSpot::Onstreet(l, _) => l.0 < self.lane_parent.len() && self.lane_parent[
                l.0 as int
            ].0 < self.roads.len(),
            ParkingSpot::Offstreet(b, _) => b.0 < self.buildings.len(),
            ParkingSpot::Lot(pl, _) => pl.0 < self.lot_road.len() && self.lot_road[pl.0 as int].0
                < self.roads.len(),
        }
    }

    /// The road a parking spot counts as belonging to, for nearby-spot
    /// search: its lane's road, its building's road, or its lot's road.
    pub open spec fn spec_spot_road(self, spot: ParkingSpot) -> RoadID
        recommends
            self.spec_spot_valid(spot),
    {
        match spot {
            ParkingSpot::Onstreet(l, _) => self.lane_parent[l.0 as int],
            ParkingSpot::Offstreet(b, _) => self.buildings[b.0 as int].road,
            ParkingSpot::Lot(pl, _) => self.lot_road[pl.0 as int],
        }
    }

    /// Which building, if any, a spot is privately reserved for.
    pub open spec fn spec_spot_restriction(self, spot: ParkingSpot) -> Option<BuildingID>
        recommends
            self.spec_spot_valid(spot),
    {
        match spot {
            ParkingSpot::Offstreet(b, _) => match self.buildings[b.0 as int].parking {
                OffstreetParking::Private => Some(b),
                OffstreetParking::PublicGarage => None,
            },
            _ => None,
        }
    }

    pub fn spot_road(&self, spot: ParkingSpot) -> (r: RoadID)
        requires
            self.spec_spot_valid(spot),
        ensures
            r == self.spec_spot_road(spot),
    {
        match spot {
            ParkingSpot::Onstreet(l, _) => self.lane_parent[l.0],
            ParkingSpot::Offstreet(b, _) => self.buildings[b.0].road,
            ParkingSpot::Lot(pl, _) => self.lot_road[pl.0],
        }
    }

    pub fn spot_restriction(&self, spot: ParkingSpot) -> (r: Option<BuildingID>)
        requires
            self.spec_spot_valid(spot),
        ensures
            r == self.spec_spot_restriction(spot),
    {
        match spot {
            ParkingSpot::Offstreet(b, _) => match self.buildings[b.0].parking {
                OffstreetParking::Private => Some(b),
                OffstreetParking::PublicGarage => None,
            },
            _ => None,
        }
    }

    /// Roads touching `r`, in the network's order.
    pub fn get_next_roads(&self, r: RoadID) -> (out: &Vec<RoadID>)
        requires
            r.0 < self.roads@.len(),
        ensures
            out@ == self.roads@[r.0 as int].adjacent@,
    {
        &self.roads[r.0].adjacent
    }
}

} // verus!
