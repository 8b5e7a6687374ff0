use timetoreach::agencies::LatLng;
use timetoreach::schedule::{
    Agency, DirectionType, Mode, Route, ScheduleStore, Service, Shape, Stop, StopTime, Trip,
};
use timetoreach::serialization::{load_cached_bytes, persist_bytes};

fn sample_store() -> ScheduleStore {
    ScheduleStore {
        agencies: vec![
            Agency { id: 1, name: b"CityBus".to_vec() },
            Agency { id: 2, name: b"Metro".to_vec() },
        ],
        routes: vec![
            Route { agency: 0, mode: Mode::Bus },
            Route { agency: 1, mode: Mode::Subway },
        ],
        trips: vec![Trip {
            route: 1,
            service: 0,
            direction: DirectionType::Inbound,
            stop_times: vec![
                StopTime { stop: 0, arrival: 100, departure: 120 },
                StopTime { stop: 1, arrival: 300, departure: 330 },
            ],
        }],
        stops: vec![
            Stop {
                coord: LatLng { lat_microdeg: 43_000_000, lon_microdeg: -81_240_000 },
                name: b"Downtown".to_vec(),
            },
            Stop {
                coord: LatLng { lat_microdeg: 43_001_000, lon_microdeg: -81_239_000 },
                name: b"East".to_vec(),
            },
        ],
        services: vec![Service {
            monday: true,
            tuesday: false,
            wednesday: true,
            thursday: false,
            friday: true,
            saturday: false,
            sunday: true,
        }],
        shapes: vec![Shape {
            route: 0,
            points: vec![LatLng { lat_microdeg: 43_000_000, lon_microdeg: -81_240_000 }],
        }],
        generated_shapes: vec![Shape {
            route: 1,
            points: vec![LatLng { lat_microdeg: 43_001_000, lon_microdeg: -81_239_000 }],
        }],
    }
}

#[test]
fn round_trip_preserves_counts() {
    let store = sample_store();
    let bytes = persist_bytes(&store);
    let loaded = load_cached_bytes(&bytes).expect("snapshot must load back");
    assert_eq!(loaded.agencies.len(), store.agencies.len());
    assert_eq!(loaded.routes.len(), store.routes.len());
    assert_eq!(loaded.trips.len(), store.trips.len());
    assert_eq!(loaded.stops.len(), store.stops.len());
    assert_eq!(loaded.services.len(), store.services.len());
    assert_eq!(loaded.shapes.len(), store.shapes.len());
    assert_eq!(loaded.generated_shapes.len(), store.generated_shapes.len());
}

#[test]
fn round_trip_preserves_contents() {
    let store = sample_store();
    let bytes = persist_bytes(&store);
    let loaded = load_cached_bytes(&bytes).expect("snapshot must load back");
    assert_eq!(loaded.agencies[0].id, 1);
    assert_eq!(loaded.agencies[0].name, b"CityBus".to_vec());
    assert_eq!(loaded.agencies[1].name, b"Metro".to_vec());
    assert_eq!(loaded.routes[0].agency, 0);
    assert_eq!(loaded.routes[0].mode, Mode::Bus);
    assert_eq!(loaded.routes[1].mode, Mode::Subway);
    assert_eq!(loaded.trips[0].route, 1);
    assert_eq!(loaded.trips[0].direction, DirectionType::Inbound);
    assert_eq!(loaded.trips[0].stop_times.len(), 2);
    assert_eq!(loaded.trips[0].stop_times[0].arrival, 100);
    assert_eq!(loaded.trips[0].stop_times[0].departure, 120);
    assert_eq!(loaded.trips[0].stop_times[1].stop, 1);
    assert_eq!(loaded.stops[0].coord.lat_microdeg, 43_000_000);
    assert_eq!(loaded.stops[0].coord.lon_microdeg, -81_240_000);
    assert_eq!(loaded.stops[1].name, b"East".to_vec());
    assert!(loaded.services[0].monday);
    assert!(!loaded.services[0].tuesday);
    assert!(loaded.services[0].sunday);
    assert_eq!(loaded.shapes[0].route, 0);
    assert_eq!(loaded.shapes[0].points.len(), 1);
    assert_eq!(loaded.generated_shapes[0].route, 1);
    assert_eq!(
        loaded.generated_shapes[0].points[0].lat_microdeg,
        43_001_000
    );
}

#[test]
fn corrupt_snapshot_is_rejected_not_fatal() {
    let store = sample_store();
    let mut bytes = persist_bytes(&store);
    let last = bytes.len() - 1;
    bytes[last] = bytes[last].wrapping_add(1);
    assert!(load_cached_bytes(&bytes).is_none());
}

#[test]
fn stale_version_is_rejected() {
    let store = sample_store();
    let mut bytes = persist_bytes(&store);
    bytes[4] = bytes[4].wrapping_add(1);
    assert!(load_cached_bytes(&bytes).is_none());
}

#[test]
fn truncated_snapshot_is_rejected() {
    let store = sample_store();
    let mut bytes = persist_bytes(&store);
    bytes.pop();
    assert!(load_cached_bytes(&bytes).is_none());
    assert!(load_cached_bytes(&vec![]).is_none());
    assert!(load_cached_bytes(&vec![1, 2, 3]).is_none());
}
