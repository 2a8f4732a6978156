use edabo::types::{Playlist, Track};
use edabo::{ErrorKind, Uuid};

#[test]
fn uuid_parse_exact_value() {
    let id = Uuid::parse_str("a1a2a3a4-b1b2-c1c2-d1d2-d3d4d5d6d7d8").unwrap();
    assert_eq!(id.value, 0xa1a2a3a4b1b2c1c2d1d2d3d4d5d6d7d8);
}

#[test]
fn uuid_parse_accepts_uppercase() {
    let lower = Uuid::parse_str("a1a2a3a4-b1b2-c1c2-d1d2-d3d4d5d6d7d8").unwrap();
    let upper = Uuid::parse_str("A1A2A3A4-B1B2-C1C2-D1D2-D3D4D5D6D7D8").unwrap();
    assert_eq!(lower, upper);
}

#[test]
fn uuid_parse_rejects_malformed() {
    assert!(Uuid::parse_str("").is_none());
    assert!(Uuid::parse_str("not-a-uuid").is_none());
    assert!(Uuid::parse_str("a1a2a3a4b1b2c1c2d1d2d3d4d5d6d7d8").is_none());
    assert!(Uuid::parse_str("a1a2a3a4-b1b2-c1c2-d1d2-d3d4d5d6d7d8x").is_none());
    assert!(Uuid::parse_str("g1a2a3a4-b1b2-c1c2-d1d2-d3d4d5d6d7d8").is_none());
}

#[test]
fn uuid_renders_hyphenated_lowercase() {
    let id = Uuid {
        value: 0xa1a2a3a4b1b2c1c2d1d2d3d4d5d6d7d8,
    };
    assert_eq!(
        id.hyphenated_string(),
        "a1a2a3a4-b1b2-c1c2-d1d2-d3d4d5d6d7d8"
    );
    let small = Uuid { value: 1 };
    assert_eq!(
        small.hyphenated_string(),
        "00000000-0000-0000-0000-000000000001"
    );
}

#[test]
fn playlist_renders_exact_json() {
    let p = Playlist {
        name: "a".to_string(),
        description: None,
        tracklist: vec![],
        timestamp: "2020-01-01T00:00:00+00:00".to_string(),
        uuid: Uuid { value: 1 },
    };
    assert_eq!(
        p.to_json(),
        "{\"name\":\"a\",\"description\":null,\"tracklist\":[],\"timestamp\":\"2020-01-01T00:00:00+00:00\",\"uuid\":\"00000000-0000-0000-0000-000000000001\"}"
    );
}

#[test]
fn playlist_renders_tracks_and_escapes() {
    let t1 = Track {
        recording_id: Uuid { value: 2 },
        release_id: Some(Uuid { value: 3 }),
        release_track_id: None,
    };
    let t2 = Track {
        recording_id: Uuid { value: 4 },
        release_id: None,
        release_track_id: None,
    };
    let p = Playlist {
        name: "a\"b\\c\nd".to_string(),
        description: Some("d".to_string()),
        tracklist: vec![t1, t2],
        timestamp: "t".to_string(),
        uuid: Uuid { value: 5 },
    };
    assert_eq!(
        p.to_json(),
        "{\"name\":\"a\\\"b\\\\c\\u000ad\",\"description\":\"d\",\"tracklist\":[{\"recordingid\":\"00000000-0000-0000-0000-000000000002\",\"releaseid\":\"00000000-0000-0000-0000-000000000003\",\"releasetrackid\":null},{\"recordingid\":\"00000000-0000-0000-0000-000000000004\",\"releaseid\":null,\"releasetrackid\":null}],\"timestamp\":\"t\",\"uuid\":\"00000000-0000-0000-0000-000000000005\"}"
    );
}

#[test]
fn playlist_parses_exact_json() {
    let text = "{\"name\":\"a\",\"description\":null,\"tracklist\":[],\"timestamp\":\"2020-01-01T00:00:00+00:00\",\"uuid\":\"00000000-0000-0000-0000-000000000001\"}";
    let p = Playlist::from_str(text).unwrap();
    assert_eq!(p.name, "a");
    assert_eq!(p.description, None);
    assert!(p.tracklist.is_empty());
    assert_eq!(p.timestamp, "2020-01-01T00:00:00+00:00");
    assert_eq!(p.uuid, Uuid { value: 1 });
}

#[test]
fn playlist_parses_escaped_strings() {
    let text = "{\"name\":\"a\\\"b\\\\c\\nd\\te\\/f\\u000Ag\",\"description\":null,\"tracklist\":[],\"timestamp\":\"t\",\"uuid\":\"00000000-0000-0000-0000-000000000001\"}";
    let p = Playlist::from_str(text).unwrap();
    assert_eq!(p.name, "a\"b\\c\nd\te/f\ng");
}

#[test]
fn playlist_from_str_rejects_corrupt_data() {
    for text in [
        "",
        "nonsense",
        "{\"name\":\"a\"}",
        "{\"name\":\"a\",\"description\":null,\"tracklist\":[],\"timestamp\":\"t\",\"uuid\":\"xyz\"}",
    ] {
        let err = Playlist::from_str(text).unwrap_err();
        assert!(matches!(err.kind, ErrorKind::CorruptData));
    }
    let valid = "{\"name\":\"a\",\"description\":null,\"tracklist\":[],\"timestamp\":\"t\",\"uuid\":\"00000000-0000-0000-0000-000000000001\"}";
    let mut trailing = String::from(valid);
    trailing.push(' ');
    let err = Playlist::from_str(trailing.as_str()).unwrap_err();
    assert!(matches!(err.kind, ErrorKind::CorruptData));
}

#[test]
fn playlist_from_str_collapses_duplicate_entries() {
    let text = "{\"name\":\"a\",\"description\":null,\"tracklist\":[{\"recordingid\":\"00000000-0000-0000-0000-000000000002\",\"releaseid\":null,\"releasetrackid\":null},{\"recordingid\":\"00000000-0000-0000-0000-000000000002\",\"releaseid\":null,\"releasetrackid\":null}],\"timestamp\":\"t\",\"uuid\":\"00000000-0000-0000-0000-000000000001\"}";
    let p = Playlist::from_str(text).unwrap();
    assert_eq!(p.tracklist.len(), 1);
    assert_eq!(p.tracklist[0].recording_id, Uuid { value: 2 });
}
