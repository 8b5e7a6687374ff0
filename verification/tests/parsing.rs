use timetoreach::gtfs_setup::{
    initialize, parse_mode, parse_time, parse_u32, split_on, FeedFiles, IngestError,
};
use timetoreach::schedule::Mode;

#[test]
fn parse_u32_exact_values() {
    assert_eq!(parse_u32(&b"0".to_vec()), Some(0));
    assert_eq!(parse_u32(&b"63600".to_vec()), Some(63600));
    assert_eq!(parse_u32(&b"4294967295".to_vec()), Some(4294967295));
}

#[test]
fn parse_u32_rejects_bad_input() {
    assert_eq!(parse_u32(&b"".to_vec()), None);
    assert_eq!(parse_u32(&b"12a".to_vec()), None);
    assert_eq!(parse_u32(&b"-5".to_vec()), None);
    assert_eq!(parse_u32(&b"4294967296".to_vec()), None);
}

#[test]
fn parse_time_exact_values() {
    assert_eq!(parse_time(&b"00:00:00".to_vec()), Some(0));
    assert_eq!(parse_time(&b"17:40:00".to_vec()), Some(63600));
    assert_eq!(parse_time(&b"25:01:30".to_vec()), Some(25 * 3600 + 90));
}

#[test]
fn parse_time_rejects_bad_input() {
    assert_eq!(parse_time(&b"7:40:00".to_vec()), None);
    assert_eq!(parse_time(&b"17:60:00".to_vec()), None);
    assert_eq!(parse_time(&b"17:40:61".to_vec()), None);
    assert_eq!(parse_time(&b"17-40-00".to_vec()), None);
}

#[test]
fn split_on_round_trips() {
    let fields = split_on(&b"a,bb,,c".to_vec(), b',');
    let got: Vec<Vec<u8>> = fields;
    assert_eq!(got.len(), 4);
    assert_eq!(got[0], b"a".to_vec());
    assert_eq!(got[1], b"bb".to_vec());
    assert_eq!(got[2], b"".to_vec());
    assert_eq!(got[3], b"c".to_vec());
}

#[test]
fn parse_mode_names() {
    assert_eq!(parse_mode(&b"bus".to_vec()), Some(Mode::Bus));
    assert_eq!(parse_mode(&b"subway".to_vec()), Some(Mode::Subway));
    assert_eq!(parse_mode(&b"tram".to_vec()), Some(Mode::Tram));
    assert_eq!(parse_mode(&b"rail".to_vec()), Some(Mode::Rail));
    assert_eq!(parse_mode(&b"ferry".to_vec()), Some(Mode::Ferry));
    assert_eq!(parse_mode(&b"gondola".to_vec()), None);
}

fn sample_feed() -> FeedFiles {
    FeedFiles {
        agencies: b"1,CityBus\n".to_vec(),
        routes: b"10,1,bus\n".to_vec(),
        services: b"5,1,1,1,1,1,0,0\n".to_vec(),
        stops: b"100,43000000,-81240000,Downtown\n101,43000000,-81178272,East\n".to_vec(),
        trips: b"1000,10,5,0\n".to_vec(),
        stop_times: b"1000,100,17:46:40,17:46:40\n1000,101,17:50:00,17:50:00\n".to_vec(),
        shapes: b"".to_vec(),
    }
}

#[test]
fn initialize_builds_a_store() {
    let store = initialize(&sample_feed()).expect("feed should parse");
    assert_eq!(store.agencies.len(), 1);
    assert_eq!(store.routes.len(), 1);
    assert_eq!(store.trips.len(), 1);
    assert_eq!(store.stops.len(), 2);
    assert_eq!(store.services.len(), 1);
    assert_eq!(store.trips[0].stop_times.len(), 2);
    assert_eq!(store.trips[0].stop_times[0].departure, 64000);
    assert_eq!(store.trips[0].stop_times[1].arrival, 64200);
    assert_eq!(store.agencies[0].name, b"CityBus".to_vec());
    // the route has no feed shape, so one is derived from the trip's stops
    assert_eq!(store.shapes.len(), 0);
    assert_eq!(store.generated_shapes.len(), 1);
    assert_eq!(store.generated_shapes[0].route, 0);
    assert_eq!(store.generated_shapes[0].points.len(), 2);
}

#[test]
fn initialize_accepts_an_empty_feed() {
    let feed = FeedFiles {
        agencies: vec![],
        routes: vec![],
        services: vec![],
        stops: vec![],
        trips: vec![],
        stop_times: vec![],
        shapes: vec![],
    };
    let store = initialize(&feed).expect("an empty feed is empty, not malformed");
    assert_eq!(store.agencies.len(), 0);
    assert_eq!(store.trips.len(), 0);
    assert_eq!(store.generated_shapes.len(), 0);
}

#[test]
fn initialize_accepts_a_schedule_skeleton() {
    // valid entity tables with empty stop-time and shape tables: the class
    // on which initialize's contract owes success
    let feed = FeedFiles {
        agencies: b"1,CityBus\n2,Metro\n".to_vec(),
        routes: b"10,1,bus\n11,2,subway\n".to_vec(),
        services: b"5,1,1,1,1,1,0,0\n".to_vec(),
        stops: b"100,43000000,-81240000,Downtown\n".to_vec(),
        trips: b"1000,10,5,0\n1001,11,5,1\n".to_vec(),
        stop_times: vec![],
        shapes: vec![],
    };
    let store = initialize(&feed).expect("a valid skeleton feed must parse");
    assert_eq!(store.agencies.len(), 2);
    assert_eq!(store.routes.len(), 2);
    assert_eq!(store.trips.len(), 2);
    assert_eq!(store.trips[1].route, 1);
    assert_eq!(store.trips[0].stop_times.len(), 0);
}

#[test]
fn initialize_rejects_unknown_route_reference() {
    let mut feed = sample_feed();
    feed.trips = b"1000,77,5,0\n".to_vec();
    assert_eq!(initialize(&feed).unwrap_err(), IngestError::ParseError);
}

#[test]
fn initialize_rejects_malformed_time() {
    let mut feed = sample_feed();
    feed.stop_times = b"1000,100,9:00:00,09:05:00\n".to_vec();
    assert_eq!(initialize(&feed).unwrap_err(), IngestError::ParseError);
}

#[test]
fn initialize_rejects_unchronological_group() {
    let mut feed = sample_feed();
    feed.stop_times = b"1000,100,17:50:00,17:50:00\n1000,101,17:40:00,17:45:00\n".to_vec();
    assert_eq!(initialize(&feed).unwrap_err(), IngestError::ParseError);
}

#[test]
fn initialize_keeps_feed_shapes() {
    let mut feed = sample_feed();
    feed.shapes = b"10,43000000,-81240000\n10,43000000,-81178272\n".to_vec();
    let store = initialize(&feed).expect("feed should parse");
    assert_eq!(store.shapes.len(), 1);
    assert_eq!(store.shapes[0].route, 0);
    assert_eq!(store.shapes[0].points.len(), 2);
    assert_eq!(store.generated_shapes.len(), 0);
}
