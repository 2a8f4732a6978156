//! The storage naming rules of the playlist store: one file per playlist,
//! named after the playlist with the `.edabo` extension.  Reading and
//! writing the files themselves is the caller's concern.

use vstd::prelude::*;
use vstd::string::StrSliceExecFns;
use vstd::string::StringExecFns;

verus! {

/// Whether a directory entry's name is a stored playlist: it carries the
/// `.edabo` extension.
pub open spec fn spec_is_playlist_file(name: Seq<char>) -> bool {
    name.len() >= 6 && name.skip(name.len() - 6) == ".edabo"@
}

/// Whether `s` ends in the playlist storage extension.
pub fn has_playlist_ext(s: &str) -> (r: bool)
    ensures
        r == spec_is_playlist_file(s@),
{
    let n = s.unicode_len();
    if n < 6 {
        return false;
    }
    let ext = ".edabo";
    proof {
        reveal_strlit(".edabo");
    }
    let mut j: usize = 0;
    while j < 6
        invariant
            j <= 6,
            6 <= n,
            n == s@.len(),
            ext@ == ".edabo"@,
            ext@.len() == 6,
            forall|q: int| 0 <= q < j ==> s@[n - 6 + q] == ".edabo"@[q],
        decreases 6 - j,
    {
        if s.get_char(n - 6 + j) != ext.get_char(j) {
            proof {
                assert(s@.skip(n as int - 6)[j as int] == s@[n - 6 + j as int]);
                assert(s@.skip(n as int - 6) != ".edabo"@);
            }
            return false;
        }
        j += 1;
    }
    proof {
        assert(s@.skip(n as int - 6) =~= ".edabo"@);
    }
    true
}

/// The stored playlists among a directory's entries, in the directory's own
/// order.
pub open spec fn spec_playlist_files(entries: Seq<String>) -> Seq<String>
    decreases entries.len(),
{
    if entries.len() == 0 {
        Seq::empty()
    } else {
        let rest = spec_playlist_files(entries.drop_last());
        if spec_is_playlist_file(entries.last()@) {
            rest.push(entries.last())
        } else {
            rest
        }
    }
}

/// Filters a directory listing down to the stored playlists, keeping the
/// listing's own order; the order carries no meaning.
pub fn get_playlist_filenames(entries: &Vec<String>) -> (r: Vec<String>)
    ensures
        r@ == spec_playlist_files(entries@),
{
    let n = entries.len();
    let mut out: Vec<String> = Vec::new();
    proof {
        assert(entries@.take(0) =~= Seq::<String>::empty());
    }
    let mut i: usize = 0;
    while i < n
        invariant
            i <= n,
            n == entries@.len(),
            out@ == spec_playlist_files(entries@.take(i as int)),
        decreases n - i,
    {
        proof {
            assert(entries@.take((i + 1) as int).drop_last() =~= entries@.take(i as int));
            assert(entries@.take((i + 1) as int).last() == entries@[i as int]);
        }
        if has_playlist_ext(entries[i].as_str()) {
            out.push(entries[i].clone());
        }
        i += 1;
    }
    proof {
        assert(entries@.take(n as int) =~= entries@);
    }
    out
}

/// The file name that stores the playlist of the given name.
pub fn playlist_file_name(name: &str) -> (r: String)
    ensures
        r@ == name@ + ".edabo"@,
{
    let mut out = String::from_str(name);
    out.append(".edabo");
    out
}

} // verus!
