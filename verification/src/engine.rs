//! The decision logic of the two commands: reconciling a playlist against
//! the live library ("load") and merging live-queue identities into a named
//! playlist ("add").  Everything the library cannot decide itself — network
//! traffic, the live queue — comes in and goes out as plain values.

use vstd::prelude::*;
use crate::ids::Uuid;
use crate::errors::{EdaboError, ErrorKind};
use crate::types::{
    Track,
    Song,
    Playlist,
    spec_song_track,
    is_song_error,
    spec_merge,
};
use vstd::string::StringExecFns;

verus! {

/// The recording identifiers a playlist asks the library for, in tracklist
/// order.
pub open spec fn spec_targets(ts: Seq<Track>) -> Seq<Uuid> {
    ts.map_values(|t: Track| t.recording_id)
}

/// What one identity's resolution may come to: success, or the per-identity
/// `MissingInLibrary` failure, never anything fatal.
pub open spec fn is_resolution(r: Result<(), EdaboError>) -> bool {
    match r {
        Ok(_) => true,
        Err(e) => e.kind matches ErrorKind::MissingInLibrary(_),
    }
}

/// The identifier an outcome reports missing, if it reports one.
pub open spec fn spec_missing_of(r: Result<(), EdaboError>) -> Seq<Uuid> {
    match r {
        Ok(_) => Seq::empty(),
        Err(e) => match e.kind {
            ErrorKind::MissingInLibrary(u) => seq![u],
            _ => Seq::empty(),
        },
    }
}

/// The identifiers of the entries the library could not resolve, in the
/// order the attempts were made.
pub open spec fn spec_missing(outcomes: Seq<Result<(), EdaboError>>) -> Seq<Uuid>
    decreases outcomes.len(),
{
    if outcomes.len() == 0 {
        Seq::empty()
    } else {
        spec_missing_of(outcomes[0]) + spec_missing(outcomes.skip(1))
    }
}

/// One more outcome at the end appends its missing identifier, if any.
pub proof fn lemma_missing_snoc(outcomes: Seq<Result<(), EdaboError>>, o: Result<(), EdaboError>)
    ensures
        spec_missing(outcomes.push(o)) == spec_missing(outcomes) + spec_missing_of(o),
    decreases outcomes.len(),
{
    let tail = spec_missing_of(o);
    if outcomes.len() == 0 {
        assert(outcomes.push(o)[0] == o);
        assert(outcomes.push(o).skip(1) =~= Seq::<Result<(), EdaboError>>::empty());
        assert(spec_missing(Seq::<Result<(), EdaboError>>::empty()) == Seq::<Uuid>::empty());
        assert(spec_missing(outcomes.push(o)) == tail + Seq::<Uuid>::empty());
        assert(tail + Seq::<Uuid>::empty() =~= tail);
        assert(Seq::<Uuid>::empty() + tail =~= tail);
    } else {
        assert(outcomes.push(o)[0] == outcomes[0]);
        assert(outcomes.push(o).skip(1) =~= outcomes.skip(1).push(o));
        lemma_missing_snoc(outcomes.skip(1), o);
        let head = spec_missing_of(outcomes[0]);
        assert(head + (spec_missing(outcomes.skip(1)) + tail) =~= (head + spec_missing(
            outcomes.skip(1),
        )) + tail);
    }
}

/// What one search of the library came to: the library was searched for the
/// identity's recording identifier, and finding nothing is the recoverable
/// `MissingInLibrary` failure, reported per identity and never fatal on its
/// own.
pub fn resolve_result(recid: Uuid, matches_found: usize) -> (r: Result<(), EdaboError>)
    ensures
        matches_found == 0 ==> (r matches Err(e) && e.detail is None && (e.kind matches
            ErrorKind::MissingInLibrary(u) && u == recid)),
        matches_found > 0 ==> r is Ok,
        is_resolution(r),
{
    if matches_found == 0 {
        Err(
            EdaboError {
                kind: ErrorKind::MissingInLibrary(recid),
                detail: None,
            },
        )
    } else {
        Ok(())
    }
}

/// The recording identifiers to resolve, one per tracklist entry, in order.
pub fn resolution_targets(p: &Playlist) -> (r: Vec<Uuid>)
    ensures
        r@ == spec_targets(p.tracklist@),
{
    let n = p.tracklist.len();
    let mut out: Vec<Uuid> = Vec::new();
    let mut i: usize = 0;
    while i < n
        invariant
            i <= n,
            n == p.tracklist@.len(),
            out@ == spec_targets(p.tracklist@.take(i as int)),
        decreases n - i,
    {
        out.push(p.tracklist[i].recording_id);
        proof {
            assert(out@ =~= spec_targets(p.tracklist@.take((i + 1) as int)));
        }
        i += 1;
    }
    proof {
        assert(p.tracklist@.take(n as int) =~= p.tracklist@);
    }
    out
}

/// Aggregates per-identity outcomes: success only when every identity
/// resolved; otherwise one failure naming every unresolved identifier, in
/// order, so that a single miss never hides the rest.
pub fn aggregate_outcomes(outcomes: &Vec<Result<(), EdaboError>>) -> (r: Result<(), EdaboError>)
    requires
        forall|k: int| 0 <= k < outcomes@.len() ==> is_resolution(#[trigger] outcomes@[k]),
    ensures
        spec_missing(outcomes@).len() == 0 ==> r is Ok,
        spec_missing(outcomes@).len() > 0 ==> (r matches Err(e) && e.detail is None && (e.kind
            matches ErrorKind::PartialResolutionFailure(v) && v@ == spec_missing(outcomes@))),
{
    let n = outcomes.len();
    let mut missing: Vec<Uuid> = Vec::new();
    proof {
        assert(outcomes@.take(0) =~= Seq::<Result<(), EdaboError>>::empty());
    }
    let mut i: usize = 0;
    while i < n
        invariant
            i <= n,
            n == outcomes@.len(),
            missing@ == spec_missing(outcomes@.take(i as int)),
        decreases n - i,
    {
        match &outcomes[i] {
            Ok(_) => (),
            Err(e) => match &e.kind {
                ErrorKind::MissingInLibrary(u) => {
                    missing.push(*u);
                },
                _ => (),
            },
        }
        proof {
            assert(outcomes@.take((i + 1) as int) =~= outcomes@.take(i as int).push(
                outcomes@[i as int],
            ));
            lemma_missing_snoc(outcomes@.take(i as int), outcomes@[i as int]);
            assert(missing@ =~= spec_missing(outcomes@.take((i + 1) as int)));
        }
        i += 1;
    }
    proof {
        assert(outcomes@.take(n as int) =~= outcomes@);
    }
    if missing.len() == 0 {
        Ok(())
    } else {
        Err(
            EdaboError {
                kind: ErrorKind::PartialResolutionFailure(missing),
                detail: None,
            },
        )
    }
}

/// The identities of the whole live queue, as the `print` and `add --all`
/// commands see it: every entry must denote an identity, and the result is a
/// fresh playlist named `Current` holding them under set semantics.  The
/// first entry that denotes none fails the whole reading, with its typed
/// failure.
pub fn playlist_from_queue(queue: &Vec<Song>) -> (r: Result<Playlist, EdaboError>)
    ensures
        (forall|k: int| 0 <= k < queue@.len() ==> #[trigger] spec_song_track(queue@[k]) is Some)
            ==> (r matches Ok(p) && {
            &&& p@.name == "Current"@
            &&& p@.description == Some("The current playlist"@)
            &&& p@.tracklist == spec_merge(
                Seq::<Track>::empty(),
                queue@.map_values(|s: Song| spec_song_track(s)->0),
            )
            &&& p.wf()
        }),
        !(forall|k: int| 0 <= k < queue@.len() ==> #[trigger] spec_song_track(queue@[k]) is Some)
            ==> (r matches Err(e) && exists|k: int|
            {
                &&& 0 <= k < queue@.len()
                &&& (forall|j: int| 0 <= j < k ==> #[trigger] spec_song_track(queue@[j]) is Some)
                &&& spec_song_track(queue@[k]) is None
                &&& is_song_error(queue@[k], e)
            }),
{
    let n = queue.len();
    let mut tracks: Vec<Track> = Vec::new();
    let mut i: usize = 0;
    while i < n
        invariant
            i <= n,
            n == queue@.len(),
            forall|j: int| 0 <= j < i ==> #[trigger] spec_song_track(queue@[j]) is Some,
            tracks@ == queue@.take(i as int).map_values(|s: Song| spec_song_track(s)->0),
        decreases n - i,
    {
        match Track::from_song(&queue[i]) {
            Ok(t) => {
                tracks.push(t);
                proof {
                    assert(tracks@ =~= queue@.take((i + 1) as int).map_values(
                        |s: Song| spec_song_track(s)->0,
                    ));
                }
            },
            Err(e) => {
                proof {
                    assert(spec_song_track(queue@[i as int]) is None);
                }
                return Err(e);
            },
        }
        i += 1;
    }
    proof {
        assert(queue@.take(n as int) =~= queue@);
    }
    let p = Playlist::new(
        String::from_str("Current"),
        Some(String::from_str("The current playlist")),
        tracks,
    );
    Ok(p)
}

/// The identity of the currently playing entry, for `add` without `--all`:
/// nothing playing is the `NoCurrentSong` failure; otherwise the entry must
/// denote an identity.
pub fn track_from_current(current: Option<Song>) -> (r: Result<Track, EdaboError>)
    ensures
        current is None ==> (r matches Err(e) && e.detail is None && e.kind matches
            ErrorKind::NoCurrentSong),
        current matches Some(song) ==> match spec_song_track(song) {
            Some(t) => r == Ok::<Track, EdaboError>(t),
            None => r matches Err(e) && is_song_error(song, e),
        },
{
    match current {
        None => Err(
            EdaboError {
                kind: ErrorKind::NoCurrentSong,
                detail: None,
            },
        ),
        Some(song) => Track::from_song(&song),
    }
}

/// The playlist the `add` command merges into: the stored one when it
/// loaded, a fresh empty playlist of the requested name when none is
/// stored; any other loading failure stands.
pub fn target_playlist(loaded: Result<Playlist, EdaboError>, name: &str) -> (r: Result<
    Playlist,
    EdaboError,
>)
    ensures
        loaded matches Ok(p) ==> r == Ok::<Playlist, EdaboError>(p),
        (loaded matches Err(e) && e.kind matches ErrorKind::NotFound) ==> (r matches Ok(p) && {
            &&& p@.name == name@
            &&& p@.description is None
            &&& p@.tracklist.len() == 0
            &&& p.wf()
        }),
        (loaded matches Err(e) && !(e.kind matches ErrorKind::NotFound)) ==> r == loaded,
{
    match loaded {
        Ok(p) => Ok(p),
        Err(e) => match &e.kind {
            ErrorKind::NotFound => {
                let p = Playlist::new(String::from_str(name), None, Vec::new());
                proof {
                    assert(p@.tracklist.len() == 0);
                }
                Ok(p)
            },
            _ => Err(e),
        },
    }
}

} // verus!
