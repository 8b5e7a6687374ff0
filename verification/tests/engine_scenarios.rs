use timetoreach::agencies::{City, LatLng};
use timetoreach::configuration::{Configuration, WalkParams};
use timetoreach::gtfs_processing::generate_stops_trips;
use timetoreach::road_structure::{
    Projection, QueryWorkspace, RawRoadData, RoadEdge, RoadGraphTemplate, RoadNode,
};
use timetoreach::schedule::{
    Agency, DirectionType, Mode, Route, ScheduleStore, Service, StopTime, Stop, Trip,
};
use timetoreach::time_to_reach::{run_query, QueryError, StopLinks};
use timetoreach::trips_arena::TripsArena;
use timetoreach::UNREACHED;

fn all_days() -> Service {
    Service {
        monday: true,
        tuesday: true,
        wednesday: true,
        thursday: true,
        friday: true,
        saturday: true,
        sunday: true,
    }
}

/// A London-style dataset: one bus route with a trip from a stop at the
/// origin-side road node to a stop five kilometres east.
fn london_store() -> ScheduleStore {
    ScheduleStore {
        agencies: vec![Agency { id: 1, name: b"CityBus".to_vec() }],
        routes: vec![Route { agency: 0, mode: Mode::Bus }],
        trips: vec![Trip {
            route: 0,
            service: 0,
            direction: DirectionType::Outbound,
            stop_times: vec![
                StopTime { stop: 0, arrival: 64000, departure: 64000 },
                StopTime { stop: 1, arrival: 64200, departure: 64200 },
            ],
        }],
        stops: vec![
            Stop {
                coord: LatLng { lat_microdeg: 43_000_000, lon_microdeg: -81_240_000 },
                name: b"Downtown".to_vec(),
            },
            Stop {
                coord: LatLng { lat_microdeg: 43_000_000, lon_microdeg: -81_240_000 + 61728 },
                name: b"East".to_vec(),
            },
        ],
        services: vec![all_days()],
        shapes: vec![],
        generated_shapes: vec![],
    }
}

fn london_template() -> RoadGraphTemplate {
    let raw = RawRoadData {
        proj: Projection {
            lat0_microdeg: 43_000_000,
            lon0_microdeg: -81_240_000,
            mm_per_lat_microdeg: 111,
            mm_per_lon_microdeg: 81,
        },
        nodes: vec![RoadNode { x_mm: 0, y_mm: 0 }, RoadNode { x_mm: 5_000_000, y_mm: 0 }],
        edges: vec![RoadEdge { a: 0, b: 1, dist_mm: 5_000_000 }],
    };
    RoadGraphTemplate::build(City::London, Some(raw)).expect("road data should build")
}

fn base_config() -> Configuration {
    Configuration {
        start_time: 63600,
        duration_secs: 2700,
        location: LatLng {
            lat_microdeg: (43.00335993382387e6) as i64,
            lon_microdeg: (-81.23856030844863e6) as i64,
        },
        agency_ids: vec![],
        modes: vec![Mode::Bus, Mode::Subway, Mode::Tram, Mode::Rail, Mode::Ferry],
        transfer_cost: 0,
        weekday: 2,
        walk: WalkParams::default(),
    }
}

struct Setup {
    store: ScheduleStore,
    template: RoadGraphTemplate,
}

fn run(
    setup: &Setup,
    config: &Configuration,
) -> (
    Result<timetoreach::road_structure::ReachResult, QueryError>,
    TripsArena,
) {
    let index = generate_stops_trips(&setup.store);
    let links = StopLinks::build(&setup.store, &setup.template, config.walk.stop_radius_mm);
    let mut ws = QueryWorkspace::new_workspace(&setup.template);
    ws.clear_data();
    let mut arena = TripsArena::new();
    let r = run_query(&setup.store, &index, &setup.template, &links, &mut ws, &mut arena, config);
    (r, arena)
}

#[test]
fn scenario_london_regression_coordinate() {
    let setup = Setup { store: london_store(), template: london_template() };
    let config = base_config();
    let (r, _arena) = run(&setup, &config);
    let result = match r {
        Ok(result) => result,
        Err(QueryError::CityNotFound) => panic!("coordinate must resolve to London"),
        Err(e) => panic!("unexpected error: {:?}", e),
    };
    assert!(result.edge_times.len() > 0);
    assert!(result.edge_times.iter().any(|&t| t != UNREACHED));
    assert!(result.node_times.iter().any(|&t| t != UNREACHED));
}

#[test]
fn scenario_zero_duration_no_boardings() {
    let setup = Setup { store: london_store(), template: london_template() };
    let mut config = base_config();
    config.duration_secs = 0;
    let (r, arena) = run(&setup, &config);
    let result = r.expect("zero-duration query must still succeed");
    assert_eq!(arena.boardings.len(), 0);
    for &t in result.node_times.iter() {
        assert!(t == UNREACHED || t == config.start_time);
    }
}

#[test]
fn scenario_unknown_agency_filter_is_error() {
    let setup = Setup { store: london_store(), template: london_template() };
    let mut config = base_config();
    config.agency_ids = vec![99];
    let (r, _arena) = run(&setup, &config);
    assert_eq!(r.unwrap_err(), QueryError::NoMatchingAgenciesOrModes);
}

#[test]
fn scenario_quiet_window_is_near_empty_not_error() {
    let setup = Setup { store: london_store(), template: london_template() };
    let mut config = base_config();
    config.agency_ids = vec![1];
    config.start_time = 70000;
    config.duration_secs = 100;
    let (r, arena) = run(&setup, &config);
    let result = r.expect("a quiet window is not an error");
    assert_eq!(arena.boardings.len(), 0);
    for &t in result.node_times.iter() {
        assert!(t == UNREACHED || (t >= 70000 && t <= 70100));
    }
}

#[test]
fn filter_restricts_boarding_records() {
    let setup = Setup { store: london_store(), template: london_template() };
    let mut config = base_config();
    config.agency_ids = vec![1];
    let (r, arena) = run(&setup, &config);
    r.expect("query should succeed");
    assert!(arena.boardings.len() > 0);
    for rec in arena.boardings.iter() {
        let trip = &setup.store.trips[rec.trip_id];
        let route = &setup.store.routes[trip.route];
        let agency = &setup.store.agencies[route.agency];
        assert_eq!(agency.id, 1);
    }
}

#[test]
fn labels_stay_within_horizon() {
    let setup = Setup { store: london_store(), template: london_template() };
    let config = base_config();
    let (r, _arena) = run(&setup, &config);
    let result = r.expect("query should succeed");
    let horizon = config.start_time + config.duration_secs;
    for &t in result.node_times.iter() {
        assert!(t == UNREACHED || (t >= config.start_time && t <= horizon));
    }
    for &t in result.edge_times.iter() {
        assert!(t == UNREACHED || (t >= config.start_time && t <= horizon));
    }
}

#[test]
fn identical_queries_yield_identical_results() {
    let setup = Setup { store: london_store(), template: london_template() };
    let config = base_config();
    let (r1, arena1) = run(&setup, &config);
    let (r2, arena2) = run(&setup, &config);
    let a = r1.expect("first run");
    let b = r2.expect("second run");
    assert_eq!(a.node_times, b.node_times);
    assert_eq!(a.edge_times, b.edge_times);
    assert_eq!(arena1.boardings.len(), arena2.boardings.len());
    for (x, y) in arena1.boardings.iter().zip(arena2.boardings.iter()) {
        assert_eq!(x, y);
    }
}

/// Three stops in a line; changing from the first trip to a second one at
/// the middle stop must respect the minimum dwell (and any transfer cost).
fn transfer_store() -> ScheduleStore {
    let mut store = london_store();
    store.stops.push(Stop {
        coord: LatLng { lat_microdeg: 43_000_000, lon_microdeg: -81_240_000 + 123_456 },
        name: b"FarEast".to_vec(),
    });
    // departs 64240: too early for a transfer that arrives at 64210 and owes
    // a 35-second minimum dwell
    store.trips.push(Trip {
        route: 0,
        service: 0,
        direction: DirectionType::Outbound,
        stop_times: vec![
            StopTime { stop: 1, arrival: 64240, departure: 64240 },
            StopTime { stop: 2, arrival: 64400, departure: 64400 },
        ],
    });
    // departs 64250: the earliest admissible connection
    store.trips.push(Trip {
        route: 0,
        service: 0,
        direction: DirectionType::Outbound,
        stop_times: vec![
            StopTime { stop: 1, arrival: 64250, departure: 64250 },
            StopTime { stop: 2, arrival: 64500, departure: 64500 },
        ],
    });
    store
}

fn transfer_template() -> RoadGraphTemplate {
    let raw = RawRoadData {
        proj: Projection {
            lat0_microdeg: 43_000_000,
            lon0_microdeg: -81_240_000,
            mm_per_lat_microdeg: 111,
            mm_per_lon_microdeg: 81,
        },
        nodes: vec![
            RoadNode { x_mm: 0, y_mm: 0 },
            RoadNode { x_mm: 5_000_000, y_mm: 0 },
            RoadNode { x_mm: 10_000_000, y_mm: 0 },
        ],
        edges: vec![],
    };
    RoadGraphTemplate::build(City::London, Some(raw)).expect("road data should build")
}

#[test]
fn transfer_rule_charges_minimum_dwell() {
    let setup = Setup { store: transfer_store(), template: transfer_template() };
    let config = base_config();
    let (r, arena) = run(&setup, &config);
    let result = r.expect("query should succeed");
    // arrive at the middle node at 64210 via the first trip; the 64240
    // connection is missed (64210 + 35 > 64240), the 64250 one is caught
    assert_eq!(result.node_times[1], 64210);
    assert_eq!(result.node_times[2], 64510);
    assert_eq!(arena.boardings.len(), 2);
    assert_eq!(arena.boardings[1].trip_id, 2);
    assert_eq!(arena.boardings[1].timestamp, 64510);
}

#[test]
fn transfer_cost_can_miss_the_last_connection() {
    let setup = Setup { store: transfer_store(), template: transfer_template() };
    let mut config = base_config();
    config.transfer_cost = 20;
    let (r, _arena) = run(&setup, &config);
    let result = r.expect("query should succeed");
    // 64210 + 35 + 20 = 64265: both connections now leave too early
    assert_eq!(result.node_times[1], 64210);
    assert_eq!(result.node_times[2], UNREACHED);
}

#[test]
fn riding_the_bus_reaches_the_far_node() {
    let setup = Setup { store: london_store(), template: london_template() };
    let config = base_config();
    let (r, arena) = run(&setup, &config);
    let result = r.expect("query should succeed");
    // Walking the five-kilometre edge would overrun the horizon; the far
    // node is only reachable by riding, so a boarding must be on record.
    // Seeding: the origin projects 390,668 mm from the near node, walked at
    // the 1250 mm/s straight-line speed: 63600 + 312 = 63912.
    assert_eq!(result.node_times[0], 63912);
    // Riding: alight at 64200, plus the 10 s exit penalty, plus a 32 mm walk
    // back to the node (0 s at 1420 mm/s).
    assert_eq!(result.node_times[1], 64210);
    assert_eq!(result.edge_times[0], 64210);
    assert!(arena.boardings.len() > 0);
    assert_eq!(arena.boardings[0].trip_id, 0);
    assert_eq!(arena.boardings[0].timestamp, 64210);
    assert_eq!(arena.boardings[0].stop_sequence_no, 1);
}
