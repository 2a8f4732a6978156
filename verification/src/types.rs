//! The identity model: tracks addressed by content identifiers, and named
//! playlists holding an unordered, duplicate-free collection of them.

use vstd::prelude::*;
use crate::ids::{Uuid, spec_parse_uuid_all};
use crate::errors::{EdaboError, ErrorKind};
use vstd::string::StringExecFns;

verus! {

/// One track's content address.  Two tracks are the same identity only if
/// all three fields agree; the optional fields being absent is a distinct
/// identity from their being present.
#[derive(Clone, Copy, PartialEq, Eq, Structural, Hash, Debug)]
pub struct Track {
    pub recording_id: Uuid,
    pub release_id: Option<Uuid>,
    pub release_track_id: Option<Uuid>,
}

/// One live-queue entry as the external library client reports it: the
/// entry's file and its tag pairs.
#[derive(Debug, Clone)]
pub struct Song {
    pub file: String,
    pub tags: Vec<(String, String)>,
}

/// The value of the first pair listed under `name`, if any.
pub open spec fn spec_tag_value(tags: Seq<(String, String)>, name: Seq<char>) -> Option<Seq<char>>
    decreases tags.len(),
{
    if tags.len() == 0 {
        None
    } else if tags[0].0@ == name {
        Some(tags[0].1@)
    } else {
        spec_tag_value(tags.skip(1), name)
    }
}

/// An optional identifier field read from a tag: absent when the tag is
/// absent, and also absent when the tag's value does not parse.
pub open spec fn spec_opt_id_tag(tags: Seq<(String, String)>, name: Seq<char>) -> Option<Uuid> {
    match spec_tag_value(tags, name) {
        None => None,
        Some(v) => match spec_parse_uuid_all(v) {
            None => None,
            Some(u) => Some(Uuid { value: u }),
        },
    }
}

/// Looks a tag up by name, returning the first value listed for it.
pub fn tag_value<'a>(tags: &'a Vec<(String, String)>, name: &str) -> (r: Option<&'a String>)
    ensures
        match r {
            Some(v) => spec_tag_value(tags@, name@) == Some(v@),
            None => spec_tag_value(tags@, name@) is None,
        },
{
    let name_string = String::from_str(name);
    let n = tags.len();
    proof {
        assert(tags@.skip(0) =~= tags@);
    }
    let mut i: usize = 0;
    while i < n
        invariant
            i <= n,
            n == tags@.len(),
            name_string@ == name@,
            spec_tag_value(tags@, name@) == spec_tag_value(tags@.skip(i as int), name@),
        decreases n - i,
    {
        proof {
            assert(tags@.skip(i as int)[0] == tags@[i as int]);
            crate::ids::lemma_skip_skip(tags@, i as int, 1);
        }
        if tags[i].0 == name_string {
            return Some(&tags[i].1);
        }
        i += 1;
    }
    proof {
        assert(tags@.skip(n as int).len() == 0);
    }
    None
}

/// Parses an optional identifier tag; a present but malformed value is
/// treated as absent.
fn opt_id_tag(tags: &Vec<(String, String)>, name: &str) -> (r: Option<Uuid>)
    ensures
        r == spec_opt_id_tag(tags@, name@),
{
    match tag_value(tags, name) {
        None => None,
        Some(v) => Uuid::parse_str(v.as_str()),
    }
}

/// The identity a live-queue entry denotes, if it denotes one: the required
/// recording identifier must be present and well formed; the optional fields
/// are absent when their tag is absent or malformed.
pub open spec fn spec_song_track(song: Song) -> Option<Track> {
    match spec_tag_value(song.tags@, "MUSICBRAINZ_TRACKID"@) {
        None => None,
        Some(v) => match spec_parse_uuid_all(v) {
            None => None,
            Some(u) => Some(
                Track {
                    recording_id: Uuid { value: u },
                    release_id: spec_opt_id_tag(song.tags@, "MUSICBRAINZ_ALBUMID"@),
                    release_track_id: spec_opt_id_tag(song.tags@, "MUSICBRAINZ_RELEASETRACKID"@),
                },
            ),
        },
    }
}

/// The typed failure that extraction from `song` yields: `MissingTag` when
/// the recording identifier tag is absent, `InvalidIdentifier` when its
/// value does not parse; either way it names the entry's file and the
/// identifier, and never a partial identity.
pub open spec fn is_song_error(song: Song, e: EdaboError) -> bool {
    match spec_tag_value(song.tags@, "MUSICBRAINZ_TRACKID"@) {
        None => e.detail is None && (e.kind matches ErrorKind::MissingTag(f, t) && f@ == song.file@
            && t@ == "recordingid"@),
        Some(v) => spec_parse_uuid_all(v) is None && e.detail is None && (e.kind matches
        ErrorKind::InvalidIdentifier(f, t) && f@ == song.file@ && t@ == "recordingid"@),
    }
}

impl Track {
    /// Extracts a track identity from one live-queue entry.  The recording
    /// identifier is required: a missing tag and a malformed value are the
    /// two typed failures, and no partial identity is ever returned.  The
    /// release and release-track identifiers are optional; a malformed value
    /// there is treated as absent.
    pub fn from_song(song: &Song) -> (r: Result<Track, EdaboError>)
        ensures
            match spec_song_track(*song) {
                Some(t) => r == Ok::<Track, EdaboError>(t),
                None => r matches Err(e) && is_song_error(*song, e),
            },
    {
        match tag_value(&song.tags, "MUSICBRAINZ_TRACKID") {
            None => Err(
                EdaboError {
                    kind: ErrorKind::MissingTag(song.file.clone(), String::from_str("recordingid")),
                    detail: None,
                },
            ),
            Some(v) => match Uuid::parse_str(v.as_str()) {
                None => Err(
                    EdaboError {
                        kind: ErrorKind::InvalidIdentifier(
                            song.file.clone(),
                            String::from_str("recordingid"),
                        ),
                        detail: None,
                    },
                ),
                Some(id) => Ok(
                    Track {
                        recording_id: id,
                        release_id: opt_id_tag(&song.tags, "MUSICBRAINZ_ALBUMID"),
                        release_track_id: opt_id_tag(&song.tags, "MUSICBRAINZ_RELEASETRACKID"),
                    },
                ),
            },
        }
    }
}

/// No track occurs twice.
pub open spec fn no_dup_tracks(s: Seq<Track>) -> bool {
    forall|i: int, j: int| 0 <= i < j < s.len() ==> s[i] != s[j]
}

/// Set-semantics insertion: a track already present leaves the list as it
/// is; a new one is appended.
pub open spec fn spec_insert_track(s: Seq<Track>, t: Track) -> Seq<Track> {
    if s.contains(t) {
        s
    } else {
        s.push(t)
    }
}

/// Inserts every track of `src` in order, deduplicating by whole identity.
pub open spec fn spec_merge(s: Seq<Track>, src: Seq<Track>) -> Seq<Track>
    decreases src.len(),
{
    if src.len() == 0 {
        s
    } else {
        spec_merge(spec_insert_track(s, src[0]), src.skip(1))
    }
}

/// The view of an optional string.
pub open spec fn opt_str_view(o: Option<String>) -> Option<Seq<char>> {
    match o {
        None => None,
        Some(s) => Some(s@),
    }
}

/// The mathematical content of a playlist.
pub ghost struct PlaylistData {
    pub name: Seq<char>,
    pub description: Option<Seq<char>>,
    pub tracklist: Seq<Track>,
    pub timestamp: Seq<char>,
    pub uuid: u128,
}

/// A named, identified, timestamped collection of track identities with set
/// semantics: the order of `tracklist` is the storage order and carries no
/// meaning, and a well-formed playlist holds no track twice.
#[derive(Debug)]
pub struct Playlist {
    pub name: String,
    pub description: Option<String>,
    pub tracklist: Vec<Track>,
    pub timestamp: String,
    pub uuid: Uuid,
}

impl View for Playlist {
    type V = PlaylistData;

    open spec fn view(&self) -> PlaylistData {
        PlaylistData {
            name: self.name@,
            description: opt_str_view(self.description),
            tracklist: self.tracklist@,
            timestamp: self.timestamp@,
            uuid: self.uuid.value,
        }
    }
}

/// Whether `list` holds `t`.
pub fn tracklist_contains(list: &Vec<Track>, t: &Track) -> (r: bool)
    ensures
        r == list@.contains(*t),
{
    let n = list.len();
    let mut i: usize = 0;
    while i < n
        invariant
            i <= n,
            n == list@.len(),
            forall|q: int| 0 <= q < i ==> list@[q] != *t,
        decreases n - i,
    {
        if list[i] == *t {
            return true;
        }
        i += 1;
    }
    false
}

/// Whether every track of `a` also stands in `b`.
fn tracklist_subset(a: &Vec<Track>, b: &Vec<Track>) -> (r: bool)
    ensures
        r == forall|t: Track| a@.contains(t) ==> b@.contains(t),
{
    let n = a.len();
    let mut i: usize = 0;
    while i < n
        invariant
            i <= n,
            n == a@.len(),
            forall|q: int| 0 <= q < i ==> b@.contains(a@[q]),
        decreases n - i,
    {
        if !tracklist_contains(b, &a[i]) {
            return false;
        }
        i += 1;
    }
    true
}

impl Playlist {
    /// A well-formed playlist holds no track twice.
    pub open spec fn wf(&self) -> bool {
        no_dup_tracks(self.tracklist@)
    }

    /// Inserts one track under set semantics: a present identity is a no-op,
    /// a new one is appended.
    pub fn insert_track(&mut self, t: Track)
        ensures
            final(self)@ == (PlaylistData {
                tracklist: spec_insert_track(old(self)@.tracklist, t),
                ..old(self)@
            }),
            old(self).wf() ==> final(self).wf(),
    {
        if !tracklist_contains(&self.tracklist, &t) {
            self.tracklist.push(t);
            proof {
                if no_dup_tracks(old(self)@.tracklist) {
                    assert forall|i: int, j: int|
                        0 <= i < j < self.tracklist@.len() implies self.tracklist@[i]
                        != self.tracklist@[j] by {
                        if j < self.tracklist@.len() - 1 {
                            assert(old(self)@.tracklist[i] != old(self)@.tracklist[j]);
                        } else {
                            assert(!old(self)@.tracklist.contains(t));
                        }
                    }
                }
            }
        }
    }

    /// Merges every track of `source`, in order, into this playlist's
    /// tracklist, deduplicating by whole identity.  The name, description,
    /// identifier and timestamp are untouched.
    pub fn merge_from(&mut self, source: &Vec<Track>)
        ensures
            final(self)@ == (PlaylistData {
                tracklist: spec_merge(old(self)@.tracklist, source@),
                ..old(self)@
            }),
            old(self).wf() ==> final(self).wf(),
    {
        let n = source.len();
        let mut k: usize = 0;
        while k < n
            invariant
                k <= n,
                n == source@.len(),
                self@ == (PlaylistData {
                    tracklist: spec_merge(old(self)@.tracklist, source@.take(k as int)),
                    ..old(self)@
                }),
                old(self).wf() ==> self.wf(),
            decreases n - k,
        {
            self.insert_track(source[k]);
            proof {
                assert(source@.take((k + 1) as int) =~= source@.take(k as int).push(
                    source@[k as int],
                ));
                lemma_merge_snoc(old(self)@.tracklist, source@.take(k as int), source@[k as int]);
            }
            k += 1;
        }
        proof {
            assert(source@.take(n as int) =~= source@);
        }
    }
}

impl Playlist {
    /// A fresh playlist: a new identifier and creation time are drawn, and
    /// the given tracks are taken over under set semantics, keeping their
    /// first-seen order.
    pub fn new(name: String, description: Option<String>, tracklist: Vec<Track>) -> (r: Playlist)
        ensures
            r@.name == name@,
            r@.description == opt_str_view(description),
            r@.tracklist == spec_merge(Seq::<Track>::empty(), tracklist@),
            r.wf(),
    {
        let mut p = Playlist {
            name,
            description,
            tracklist: Vec::new(),
            timestamp: crate::foreign::now_rfc3339(),
            uuid: crate::foreign::fresh_uuid(),
        };
        p.merge_from(&tracklist);
        p
    }
}

/// Whether two optional strings hold the same text.
fn opt_string_eq(a: &Option<String>, b: &Option<String>) -> (r: bool)
    ensures
        r == (opt_str_view(*a) == opt_str_view(*b)),
{
    match a {
        Option::None => b.is_none(),
        Option::Some(x) => match b {
            Option::None => false,
            Option::Some(y) => x.eq(y),
        },
    }
}

impl PartialEq for Playlist {
    /// Playlist equality compares the name, the description, the tracklist
    /// as a set of identities, and the identifier; the timestamp never
    /// participates.
    fn eq(&self, other: &Playlist) -> (r: bool) {
        let names_eq = self.name == other.name;
        let desc_eq = opt_string_eq(&self.description, &other.description);
        let tracks_eq = tracklist_subset(&self.tracklist, &other.tracklist) && tracklist_subset(
            &other.tracklist,
            &self.tracklist,
        );
        let uuid_eq = self.uuid == other.uuid;
        proof {
            if tracks_eq {
                assert(self.tracklist@.to_set() =~= other.tracklist@.to_set());
            } else {
                if self.tracklist@.to_set() == other.tracklist@.to_set() {
                    assert forall|t: Track| self.tracklist@.contains(t) implies other.tracklist@.contains(
                        t,
                    ) by {
                        assert(self.tracklist@.to_set().contains(t));
                    }
                    assert forall|t: Track| other.tracklist@.contains(t) implies self.tracklist@.contains(
                        t,
                    ) by {
                        assert(other.tracklist@.to_set().contains(t));
                    }
                }
            }
        }
        names_eq && desc_eq && tracks_eq && uuid_eq
    }
}

impl vstd::std_specs::cmp::PartialEqSpecImpl for Playlist {
    open spec fn obeys_eq_spec() -> bool {
        true
    }

    open spec fn eq_spec(&self, other: &Playlist) -> bool {
        &&& self.name@ == other.name@
        &&& opt_str_view(self.description) == opt_str_view(other.description)
        &&& self.tracklist@.to_set() == other.tracklist@.to_set()
        &&& self.uuid == other.uuid
    }
}

/// A pushed element is in the sequence, and nothing else changes membership.
pub proof fn lemma_push_contains(s: Seq<Track>, t: Track)
    ensures
        forall|x: Track| s.push(t).contains(x) <==> (s.contains(x) || x == t),
{
    assert forall|x: Track| s.push(t).contains(x) implies (s.contains(x) || x == t) by {
        let i = choose|i: int| 0 <= i < s.push(t).len() && s.push(t)[i] == x;
        if i < s.len() {
            assert(s[i] == x);
        }
    }
    assert forall|x: Track| s.contains(x) implies s.push(t).contains(x) by {
        let i = choose|i: int| 0 <= i < s.len() && s[i] == x;
        assert(s.push(t)[i] == x);
    }
    assert(s.push(t)[s.len() as int] == t);
}

/// Deduplication goes by the whole three-field identity: inserting the same
/// identity twice yields one new entry, and two identities that differ in
/// any field yield two.
pub proof fn lemma_track_dedup(s: Seq<Track>, t1: Track, t2: Track)
    requires
        !s.contains(t1),
        !s.contains(t2),
    ensures
        (t1 == t2) <==> (t1.recording_id == t2.recording_id && t1.release_id == t2.release_id
            && t1.release_track_id == t2.release_track_id),
        t1 == t2 ==> spec_insert_track(spec_insert_track(s, t1), t2).len() == s.len() + 1,
        t1 != t2 ==> spec_insert_track(spec_insert_track(s, t1), t2).len() == s.len() + 2,
{
    lemma_push_contains(s, t1);
    if t1 != t2 {
        assert(!s.push(t1).contains(t2));
    }
}

/// What a merge holds: exactly the tracks of either side.
pub proof fn lemma_merge_contains(s: Seq<Track>, src: Seq<Track>)
    ensures
        forall|x: Track| spec_merge(s, src).contains(x) <==> (s.contains(x) || src.contains(x)),
    decreases src.len(),
{
    if src.len() == 0 {
    } else {
        let s1 = spec_insert_track(s, src[0]);
        lemma_merge_contains(s1, src.skip(1));
        lemma_push_contains(s, src[0]);
        assert forall|x: Track| src.contains(x) implies (x == src[0] || src.skip(1).contains(
            x,
        )) by {
            let i = choose|i: int| 0 <= i < src.len() && src[i] == x;
            if i > 0 {
                assert(src.skip(1)[i - 1] == x);
            }
        }
        assert forall|x: Track| src.skip(1).contains(x) implies src.contains(x) by {
            let i = choose|i: int| 0 <= i < src.skip(1).len() && src.skip(1)[i] == x;
            assert(src[i + 1] == x);
        }
        assert(src.contains(src[0]));
    }
}

/// Merging a source whose tracks are all present already changes nothing.
pub proof fn lemma_merge_absorbed(s: Seq<Track>, src: Seq<Track>)
    requires
        forall|x: Track| src.contains(x) ==> s.contains(x),
    ensures
        spec_merge(s, src) == s,
    decreases src.len(),
{
    if src.len() > 0 {
        assert(src.contains(src[0]));
        assert(spec_insert_track(s, src[0]) == s);
        assert forall|x: Track| src.skip(1).contains(x) implies s.contains(x) by {
            let i = choose|i: int| 0 <= i < src.skip(1).len() && src.skip(1)[i] == x;
            assert(src[i + 1] == x);
        }
        lemma_merge_absorbed(s, src.skip(1));
    }
}

/// Merge idempotence: merging the same source into a target twice yields
/// the same tracklist as merging it once.
pub proof fn lemma_merge_idempotent(s: Seq<Track>, src: Seq<Track>)
    ensures
        spec_merge(spec_merge(s, src), src) == spec_merge(s, src),
{
    lemma_merge_contains(s, src);
    lemma_merge_absorbed(spec_merge(s, src), src);
}

/// With nothing shared and no duplicates in the source, a merge is plain
/// concatenation.
pub proof fn lemma_merge_disjoint(s0: Seq<Track>, src: Seq<Track>)
    requires
        no_dup_tracks(src),
        forall|x: Track| src.contains(x) ==> !s0.contains(x),
    ensures
        spec_merge(s0, src) == s0 + src,
    decreases src.len(),
{
    if src.len() == 0 {
        assert(s0 + src =~= s0);
    } else {
        let t = src[0];
        assert(src.contains(t));
        let s1 = s0.push(t);
        assert(spec_insert_track(s0, t) == s1);
        lemma_push_contains(s0, t);
        assert forall|i: int, j: int|
            0 <= i < j < src.skip(1).len() implies src.skip(1)[i] != src.skip(1)[j] by {
            assert(src.skip(1)[i] == src[i + 1]);
            assert(src.skip(1)[j] == src[j + 1]);
        }
        assert forall|x: Track| src.skip(1).contains(x) implies !s1.contains(x) by {
            let i = choose|i: int| 0 <= i < src.skip(1).len() && src.skip(1)[i] == x;
            assert(src[i + 1] == x);
            assert(src.contains(x));
            assert(src[0] != src[i + 1]);
        }
        lemma_merge_disjoint(s1, src.skip(1));
        assert(s0 + src =~= s1 + src.skip(1));
    }
}

/// A duplicate-free tracklist merged into an empty one comes out unchanged.
pub proof fn lemma_merge_into_empty(src: Seq<Track>)
    requires
        no_dup_tracks(src),
    ensures
        spec_merge(Seq::<Track>::empty(), src) == src,
{
    lemma_merge_disjoint(Seq::empty(), src);
    assert(Seq::<Track>::empty() + src =~= src);
}

/// Merging one more track at the end is inserting it after the rest.
pub proof fn lemma_merge_snoc(s: Seq<Track>, src: Seq<Track>, t: Track)
    ensures
        spec_merge(s, src.push(t)) == spec_insert_track(spec_merge(s, src), t),
    decreases src.len(),
{
    if src.len() == 0 {
        let one = src.push(t);
        assert(one[0] == t);
        assert(one.skip(1) =~= Seq::<Track>::empty());
        assert(spec_merge(spec_insert_track(s, t), one.skip(1)) == spec_insert_track(s, t));
        assert(spec_merge(s, src) == s);
    } else {
        assert(src.push(t)[0] == src[0]);
        assert(src.push(t).skip(1) =~= src.skip(1).push(t));
        lemma_merge_snoc(spec_insert_track(s, src[0]), src.skip(1), t);
    }
}

} // verus!
