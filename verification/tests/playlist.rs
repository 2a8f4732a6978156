use edabo::types::Playlist;
use edabo::types::Track;
use edabo::Uuid;

fn get_playlist() -> Playlist {
    let track = Track {
        release_track_id: Some(Uuid::parse_str("d71b7b2d-075c-3c09-8a3f-d050b121f3ab").unwrap()),
        release_id: Some(Uuid::parse_str("b6f23b8f-1b0f-4167-92e8-d276164e1019").unwrap()),
        recording_id: Uuid::parse_str("fefd550f-b68e-4c11-b4d6-dfb4836a820e").unwrap(),
    };

    let tracklist = vec![track];

    Playlist::new("foo".to_string(), None, tracklist)
}

#[test]
fn playlist_roundtrip() {
    let before = get_playlist();
    let serialized = before.to_json();
    let after = Playlist::from_str(serialized.as_str()).unwrap();
    assert_eq!(before, after)
}

#[test]
fn playlist_from_str() {
    let before = get_playlist();
    let serialized = before.to_json();
    let after = Playlist::from_str(serialized.as_str());
    let actual = after.unwrap();
    assert_eq!(before, actual)
}

#[test]
fn playlist_roundtrip_with_description_and_escapes() {
    let track = Track {
        recording_id: Uuid::parse_str("fefd550f-b68e-4c11-b4d6-dfb4836a820e").unwrap(),
        release_id: None,
        release_track_id: None,
    };
    let before = Playlist::new(
        "quo\"te back\\slash new\nline".to_string(),
        Some("tab\there".to_string()),
        vec![track],
    );
    let serialized = before.to_json();
    let after = Playlist::from_str(serialized.as_str()).unwrap();
    assert_eq!(before, after)
}

#[test]
fn playlist_equality_ignores_timestamp() {
    let mut a = get_playlist();
    let mut b = Playlist::from_str(a.to_json().as_str()).unwrap();
    a.timestamp = "2001-01-01T00:00:00+00:00".to_string();
    b.timestamp = "2002-02-02T00:00:00+00:00".to_string();
    assert_eq!(a, b);
    b.name = "other".to_string();
    assert_ne!(a, b);
}
