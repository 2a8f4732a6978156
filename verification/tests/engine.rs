use edabo::engine::{
    aggregate_outcomes, playlist_from_queue, resolution_targets, resolve_result, target_playlist,
    track_from_current,
};
use edabo::types::{Playlist, Song, Track};
use edabo::{EdaboError, ErrorKind, Uuid};

fn track(n: u128) -> Track {
    Track {
        recording_id: Uuid { value: n },
        release_id: None,
        release_track_id: None,
    }
}

fn song_for(n: u128) -> Song {
    Song {
        file: format!("music/{}.flac", n),
        tags: vec![(
            "MUSICBRAINZ_TRACKID".to_string(),
            Uuid { value: n }.hyphenated_string(),
        )],
    }
}

#[test]
fn dedup_insert_same_identity_once() {
    let mut p = Playlist::new("p".to_string(), None, vec![]);
    p.insert_track(track(7));
    p.insert_track(track(7));
    assert_eq!(p.tracklist.len(), 1);
    let mut other = track(7);
    other.release_id = Some(Uuid { value: 9 });
    p.insert_track(other);
    assert_eq!(p.tracklist.len(), 2);
}

#[test]
fn merge_is_idempotent() {
    let mut once = Playlist::new("p".to_string(), None, vec![track(1), track(2)]);
    let source = vec![track(2), track(3)];
    once.merge_from(&source);
    let mut twice = Playlist::new("p".to_string(), None, vec![track(1), track(2)]);
    twice.merge_from(&source);
    twice.merge_from(&source);
    assert_eq!(once.tracklist, twice.tracklist);
    assert_eq!(once.tracklist, vec![track(1), track(2), track(3)]);
}

#[test]
fn aggregated_failure_reports_every_miss_without_aborting() {
    let a = Uuid { value: 0xa };
    let b = Uuid { value: 0xb };
    let c = Uuid { value: 0xc };
    let playlist = Playlist::new(
        "p".to_string(),
        None,
        vec![
            Track {
                recording_id: a,
                release_id: None,
                release_track_id: None,
            },
            Track {
                recording_id: b,
                release_id: None,
                release_track_id: None,
            },
            Track {
                recording_id: c,
                release_id: None,
                release_track_id: None,
            },
        ],
    );
    let targets = resolution_targets(&playlist);
    assert_eq!(targets, vec![a, b, c]);

    // The library resolves A and C but not B.
    let miss = resolve_result(b, 0).unwrap_err();
    assert!(matches!(miss.kind, ErrorKind::MissingInLibrary(u) if u == b));
    let outcomes = vec![
        resolve_result(a, 1),
        Err(miss),
        resolve_result(c, 1),
    ];
    let err = aggregate_outcomes(&outcomes).unwrap_err();
    match err.kind {
        ErrorKind::PartialResolutionFailure(missing) => assert_eq!(missing, vec![b]),
        other => panic!("unexpected kind: {:?}", other),
    }

    let all_resolved = vec![resolve_result(a, 1), resolve_result(c, 2)];
    assert!(aggregate_outcomes(&all_resolved).is_ok());
}

#[test]
fn add_all_into_empty_existing_playlist() {
    // The pre-existing playlist: named, empty, with its own identifier.
    let mut target = Playlist::new("favourites".to_string(), None, vec![]);
    let target_uuid = target.uuid;

    // The live queue holds X and Y.
    let queue = vec![song_for(0x1111), song_for(0x2222)];
    let live = playlist_from_queue(&queue).unwrap();
    assert_eq!(live.name, "Current");

    target.merge_from(&live.tracklist);
    assert_eq!(target.tracklist, vec![track(0x1111), track(0x2222)]);
    assert_eq!(target.uuid, target_uuid);
    assert_eq!(target.name, "favourites");

    // What is persisted and re-read keeps the target's identity.
    let reread = Playlist::from_str(target.to_json().as_str()).unwrap();
    assert_eq!(reread, target);
    assert_eq!(reread.uuid, target_uuid);
}

#[test]
fn queue_reading_fails_on_first_bad_entry() {
    let bad = Song {
        file: "music/bad.flac".to_string(),
        tags: vec![],
    };
    let queue = vec![song_for(1), bad, song_for(2)];
    let err = playlist_from_queue(&queue).unwrap_err();
    match err.kind {
        ErrorKind::MissingTag(file, tag) => {
            assert_eq!(file, "music/bad.flac");
            assert_eq!(tag, "recordingid");
        }
        other => panic!("unexpected kind: {:?}", other),
    }
}

#[test]
fn no_current_song_is_its_own_failure() {
    let err = track_from_current(None).unwrap_err();
    assert!(matches!(err.kind, ErrorKind::NoCurrentSong));
    let ok = track_from_current(Some(song_for(5))).unwrap();
    assert_eq!(ok, track(5));
}

#[test]
fn absent_target_playlist_is_created_not_an_error() {
    let missing: Result<Playlist, EdaboError> = Err(EdaboError {
        kind: ErrorKind::NotFound,
        detail: None,
    });
    let created = target_playlist(missing, "fresh").unwrap();
    assert_eq!(created.name, "fresh");
    assert_eq!(created.description, None);
    assert!(created.tracklist.is_empty());

    let corrupt: Result<Playlist, EdaboError> = Err(EdaboError {
        kind: ErrorKind::CorruptData,
        detail: None,
    });
    let still_err = target_playlist(corrupt, "fresh").unwrap_err();
    assert!(matches!(still_err.kind, ErrorKind::CorruptData));

    let loaded = Playlist::new("kept".to_string(), None, vec![track(1)]);
    let kept = target_playlist(Ok(loaded), "fresh").unwrap();
    assert_eq!(kept.name, "kept");
}

#[test]
fn fresh_playlists_draw_distinct_identifiers() {
    let a = Playlist::new("a".to_string(), None, vec![]);
    let b = Playlist::new("b".to_string(), None, vec![]);
    assert_ne!(a.uuid, b.uuid);
}
