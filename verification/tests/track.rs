use std::collections::HashSet;

use edabo::types::{Song, Track};
use edabo::{ErrorKind, Uuid};

#[test]
fn hashes_equally() {
    let track_complete_metadata = Track {
        release_track_id: Some(Uuid::parse_str("d71b7b2d-075c-3c09-8a3f-d050b121f3ab").unwrap()),
        release_id: Some(Uuid::parse_str("b6f23b8f-1b0f-4167-92e8-d276164e1019").unwrap()),
        recording_id: Uuid::parse_str("fefd550f-b68e-4c11-b4d6-dfb4836a820e").unwrap(),
    };

    let another_track_complete_metadata = Track {
        release_track_id: Some(Uuid::parse_str("d71b7b2d-075c-3c09-8a3f-d050b121f3ab").unwrap()),
        release_id: Some(Uuid::parse_str("b6f23b8f-1b0f-4167-92e8-d276164e1019").unwrap()),
        recording_id: Uuid::parse_str("fefd550f-b68e-4c11-b4d6-dfb4836a820e").unwrap(),
    };

    let track_missing_metadata = Track {
        release_track_id: None,
        release_id: None,
        recording_id: Uuid::parse_str("fefd550f-b68e-4c11-b4d6-dfb4836a820e").unwrap(),
    };

    let another_track_missing_metadata = Track {
        release_track_id: None,
        release_id: None,
        recording_id: Uuid::parse_str("fefd550f-b68e-4c11-b4d6-dfb4836a820e").unwrap(),
    };

    let mut hashset = HashSet::new();

    hashset.insert(track_complete_metadata);
    assert_eq!(hashset.len(), 1);

    hashset.insert(another_track_complete_metadata);
    assert_eq!(hashset.len(), 1);

    hashset.insert(track_missing_metadata);
    assert_eq!(hashset.len(), 2);

    hashset.insert(another_track_missing_metadata);
    assert_eq!(hashset.len(), 2)
}

fn song(tags: Vec<(&str, &str)>) -> Song {
    Song {
        file: "music/one.flac".to_string(),
        tags: tags
            .into_iter()
            .map(|(k, v)| (k.to_string(), v.to_string()))
            .collect(),
    }
}

#[test]
fn from_song_missing_tag() {
    let s = song(vec![("ARTIST", "someone")]);
    let err = Track::from_song(&s).unwrap_err();
    match err.kind {
        ErrorKind::MissingTag(file, tag) => {
            assert_eq!(file, "music/one.flac");
            assert_eq!(tag, "recordingid");
        }
        other => panic!("unexpected kind: {:?}", other),
    }
}

#[test]
fn from_song_invalid_identifier() {
    let s = song(vec![("MUSICBRAINZ_TRACKID", "not-a-uuid")]);
    let err = Track::from_song(&s).unwrap_err();
    match err.kind {
        ErrorKind::InvalidIdentifier(file, tag) => {
            assert_eq!(file, "music/one.flac");
            assert_eq!(tag, "recordingid");
        }
        other => panic!("unexpected kind: {:?}", other),
    }
}

#[test]
fn from_song_complete() {
    let s = song(vec![
        ("MUSICBRAINZ_TRACKID", "fefd550f-b68e-4c11-b4d6-dfb4836a820e"),
        ("MUSICBRAINZ_ALBUMID", "b6f23b8f-1b0f-4167-92e8-d276164e1019"),
        (
            "MUSICBRAINZ_RELEASETRACKID",
            "d71b7b2d-075c-3c09-8a3f-d050b121f3ab",
        ),
    ]);
    let track = Track::from_song(&s).unwrap();
    assert_eq!(
        track.recording_id,
        Uuid::parse_str("fefd550f-b68e-4c11-b4d6-dfb4836a820e").unwrap()
    );
    assert_eq!(
        track.release_id,
        Some(Uuid::parse_str("b6f23b8f-1b0f-4167-92e8-d276164e1019").unwrap())
    );
    assert_eq!(
        track.release_track_id,
        Some(Uuid::parse_str("d71b7b2d-075c-3c09-8a3f-d050b121f3ab").unwrap())
    );
}

#[test]
fn from_song_optional_tags_swallowed_when_malformed() {
    let s = song(vec![
        ("MUSICBRAINZ_TRACKID", "fefd550f-b68e-4c11-b4d6-dfb4836a820e"),
        ("MUSICBRAINZ_ALBUMID", "broken"),
    ]);
    let track = Track::from_song(&s).unwrap();
    assert_eq!(track.release_id, None);
    assert_eq!(track.release_track_id, None);
}
