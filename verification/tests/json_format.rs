use playlog::event::{Event, EventConfigChanged, EventStart, EventStop};
use playlog::json::to_json;
use playlog::track::TrackInfo;

fn basic_track() -> TrackInfo {
    TrackInfo {
        artist: "A".to_string(),
        album_artist: None,
        album: "B".to_string(),
        title: "C".to_string(),
        year: None,
        disc_number: None,
        total_discs: None,
        track_number: None,
        total_tracks: None,
        duration_millis: 180_000,
    }
}

#[test]
fn start_event_minimal_fields() {
    let e = Event::Start(EventStart { track_info: basic_track() });
    assert_eq!(
        to_json(&e),
        "{\"event\":\"start\",\"data\":{\"artist\":\"A\",\"album\":\"B\",\"title\":\"C\",\"duration\":180.0}}"
    );
}

#[test]
fn start_event_all_fields() {
    let t = TrackInfo {
        artist: "Artist".to_string(),
        album_artist: Some("AA".to_string()),
        album: "Al".to_string(),
        title: "T".to_string(),
        year: Some(1999),
        disc_number: Some(1),
        total_discs: Some(2),
        track_number: Some(3),
        total_tracks: Some(10),
        duration_millis: 180_500,
    };
    let e = Event::Start(EventStart { track_info: t });
    assert_eq!(
        to_json(&e),
        "{\"event\":\"start\",\"data\":{\"artist\":\"Artist\",\"album_artist\":\"AA\",\
         \"album\":\"Al\",\"title\":\"T\",\"year\":1999,\"disc_number\":1,\"total_discs\":2,\
         \"track_number\":3,\"total_tracks\":10,\"duration\":180.5}}"
    );
}

#[test]
fn stop_event_body() {
    let e = Event::Stop(EventStop {
        track_info: basic_track(),
        play_time_millis: 120_400,
        started_at: 1_690_000_000,
    });
    assert_eq!(
        to_json(&e),
        "{\"event\":\"stop\",\"data\":{\"artist\":\"A\",\"album\":\"B\",\"title\":\"C\",\
         \"duration\":180.0,\"play_time\":120.4,\"started_at\":1690000000}}"
    );
}

#[test]
fn stop_event_negative_timestamp() {
    let e = Event::Stop(EventStop {
        track_info: basic_track(),
        play_time_millis: 123,
        started_at: -5,
    });
    let body = to_json(&e);
    assert!(body.contains("\"play_time\":0.123"));
    assert!(body.contains("\"started_at\":-5"));
}

#[test]
fn config_changed_body() {
    let e = Event::ConfigChanged(EventConfigChanged {
        url: "http://x".to_string(),
        secret: "s3".to_string(),
    });
    assert_eq!(
        to_json(&e),
        "{\"event\":\"config_changed\",\"data\":{\"url\":\"http://x\",\"secret\":\"s3\"}}"
    );
}

#[test]
fn string_escaping() {
    let mut t = basic_track();
    t.artist = "a\"b\\c\nd\te\rf\u{8}g\u{c}h\u{1f}i\u{0}j".to_string();
    t.title = "caf\u{e9} \u{1f3b5}".to_string();
    let e = Event::Start(EventStart { track_info: t });
    let body = to_json(&e);
    assert!(body.contains("\"artist\":\"a\\\"b\\\\c\\nd\\te\\rf\\bg\\fh\\u001fi\\u0000j\""));
    // Non-ASCII characters pass through unescaped.
    assert!(body.contains("\"title\":\"caf\u{e9} \u{1f3b5}\""));
}

#[test]
fn duration_fraction_rendering() {
    let mut t = basic_track();
    t.duration_millis = 0;
    let body = to_json(&Event::Start(EventStart { track_info: t }));
    assert!(body.contains("\"duration\":0.0"));

    let mut t = basic_track();
    t.duration_millis = 120_400;
    let body = to_json(&Event::Start(EventStart { track_info: t }));
    assert!(body.contains("\"duration\":120.4"));

    let mut t = basic_track();
    t.duration_millis = 5_450;
    let body = to_json(&Event::Start(EventStart { track_info: t }));
    assert!(body.contains("\"duration\":5.45"));

    let mut t = basic_track();
    t.duration_millis = 5_451;
    let body = to_json(&Event::Start(EventStart { track_info: t }));
    assert!(body.contains("\"duration\":5.451"));
}

#[test]
fn body_is_valid_json() {
    let t = TrackInfo {
        artist: "quote \" backslash \\ newline \n done".to_string(),
        album_artist: Some("band".to_string()),
        album: "B".to_string(),
        title: "C".to_string(),
        year: Some(2024),
        disc_number: None,
        total_discs: None,
        track_number: Some(7),
        total_tracks: None,
        duration_millis: 61_250,
    };
    let e = Event::Stop(EventStop {
        track_info: t,
        play_time_millis: 59_999,
        started_at: 1_700_000_001,
    });
    let body = to_json(&e);
    let v: serde_json::Value = serde_json::from_str(&body).expect("serializer must emit valid JSON");
    assert_eq!(v["event"].as_str().unwrap(), "stop");
    let data = &v["data"];
    assert_eq!(
        data["artist"].as_str().unwrap(),
        "quote \" backslash \\ newline \n done"
    );
    assert_eq!(data["album_artist"].as_str().unwrap(), "band");
    assert_eq!(data["year"].as_u64().unwrap(), 2024);
    assert_eq!(data["track_number"].as_u64().unwrap(), 7);
    assert!(data.get("disc_number").is_none());
    assert!((data["duration"].as_f64().unwrap() - 61.25).abs() < 1e-9);
    assert!((data["play_time"].as_f64().unwrap() - 59.999).abs() < 1e-9);
    assert_eq!(data["started_at"].as_i64().unwrap(), 1_700_000_001);
}
