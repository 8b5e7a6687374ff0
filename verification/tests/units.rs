use timetoreach::agencies::{find_city, in_city, City, LatLng};
use timetoreach::configuration::{Configuration, WalkParams};
use timetoreach::road_structure::{
    isqrt, Projection, QueryWorkspace, RawRoadData, ReachResult, RoadEdge, RoadGraphTemplate,
    RoadNode,
};
use timetoreach::schedule::Service;
use timetoreach::trips_arena::{BusPickupInfo, TripsArena};
use timetoreach::web_cache::ResultCache;
use timetoreach::UNREACHED;

#[test]
fn test_london_road_structure() {
    let raw = RawRoadData {
        proj: Projection {
            lat0_microdeg: 43_000_000,
            lon0_microdeg: -81_240_000,
            mm_per_lat_microdeg: 111,
            mm_per_lon_microdeg: 81,
        },
        nodes: vec![RoadNode { x_mm: 0, y_mm: 0 }],
        edges: vec![],
    };
    let road_structure = RoadGraphTemplate::build(City::London, Some(raw));
    assert!(road_structure.is_ok());

    println!("London road structure loaded successfully!");
    println!("City: {:?}", City::London);
}

#[test]
fn missing_road_data_is_data_not_found() {
    let r = RoadGraphTemplate::build(City::Paris, None);
    assert!(r.is_err());
}

#[test]
fn isqrt_exact_values() {
    assert_eq!(isqrt(0), 0);
    assert_eq!(isqrt(1), 1);
    assert_eq!(isqrt(24), 4);
    assert_eq!(isqrt(25), 5);
    assert_eq!(isqrt(1_000_000_000_000), 1_000_000);
    assert_eq!(isqrt(u64::MAX), 4_294_967_295);
}

#[test]
fn city_resolution() {
    let london = LatLng { lat_microdeg: 43_003_359, lon_microdeg: -81_238_560 };
    let paris = LatLng { lat_microdeg: 48_860_679, lon_microdeg: 2_342_361 };
    let nowhere = LatLng { lat_microdeg: 0, lon_microdeg: 0 };
    assert_eq!(find_city(london), Some(City::London));
    assert_eq!(find_city(paris), Some(City::Paris));
    assert_eq!(find_city(nowhere), None);
    assert!(in_city(City::London, london));
    assert!(!in_city(City::Paris, london));
}

#[test]
fn workspace_clear_resets_every_entry() {
    let raw = RawRoadData {
        proj: Projection {
            lat0_microdeg: 43_000_000,
            lon0_microdeg: -81_240_000,
            mm_per_lat_microdeg: 111,
            mm_per_lon_microdeg: 81,
        },
        nodes: vec![RoadNode { x_mm: 0, y_mm: 0 }, RoadNode { x_mm: 1000, y_mm: 0 }],
        edges: vec![RoadEdge { a: 0, b: 1, dist_mm: 1000 }],
    };
    let template = RoadGraphTemplate::build(City::London, Some(raw)).unwrap();
    let mut ws = QueryWorkspace::new_workspace(&template);
    assert!(ws.node_times.iter().all(|&t| t == UNREACHED));
    ws.node_times[0] = 5;
    ws.clear_data();
    assert!(ws.node_times.iter().all(|&t| t == UNREACHED));
    assert_eq!(ws.node_times.len(), 2);
}

#[test]
fn arena_append_and_clear() {
    let mut arena = TripsArena::new();
    assert_eq!(arena.len(), 0);
    arena.append(BusPickupInfo { timestamp: 64210, stop_sequence_no: 1, trip_id: 0 });
    assert_eq!(arena.len(), 1);
    assert_eq!(arena.boardings[0].timestamp, 64210);
    arena.clear();
    assert_eq!(arena.len(), 0);
}

#[test]
fn service_weekday_lookup() {
    let s = Service {
        monday: true,
        tuesday: false,
        wednesday: true,
        thursday: false,
        friday: false,
        saturday: false,
        sunday: true,
    };
    assert!(s.runs_on(0));
    assert!(!s.runs_on(1));
    assert!(s.runs_on(2));
    assert!(s.runs_on(6));
}

fn config_with_start(start: u32) -> Configuration {
    Configuration {
        start_time: start,
        duration_secs: 2700,
        location: LatLng { lat_microdeg: 43_003_359, lon_microdeg: -81_238_560 },
        agency_ids: vec![],
        modes: vec![],
        transfer_cost: 0,
        weekday: 2,
        walk: WalkParams::default(),
    }
}

#[test]
fn cache_stores_and_evicts() {
    let mut cache = ResultCache::new(2);
    let result = ReachResult { node_times: vec![1], edge_times: vec![] };
    cache.put(City::London, config_with_start(100), result.clone());
    cache.put(City::London, config_with_start(200), result.clone());
    assert!(cache.get(City::London, &config_with_start(100)).is_some());
    assert!(cache.get(City::London, &config_with_start(200)).is_some());
    assert!(cache.get(City::London, &config_with_start(300)).is_none());
    assert!(cache.get(City::Paris, &config_with_start(100)).is_none());
    cache.put(City::London, config_with_start(300), result.clone());
    // capacity two: the oldest fingerprint was evicted
    assert!(cache.get(City::London, &config_with_start(100)).is_none());
    assert!(cache.get(City::London, &config_with_start(300)).is_some());
    assert_eq!(cache.entries.len(), 2);
}
