//! The failure taxonomy of the library.

use vstd::prelude::*;
use crate::ids::Uuid;

verus! {

/// What went wrong, with enough structure to print a useful message.
#[derive(Debug, Clone, PartialEq, Eq)]
pub enum ErrorKind {
    /// A live-queue entry lacks a required tag.  The fields are the entry's
    /// file and the name of the missing identifier.
    MissingTag(String, String),
    /// A tag is present but its value is not a well-formed identifier.  The
    /// fields are the entry's file and the name of the identifier.
    InvalidIdentifier(String, String),
    /// No playlist of the requested name is stored.
    NotFound,
    /// The stored bytes do not decode as a playlist.
    CorruptData,
    /// The playlist could not be persisted.
    WriteFailure,
    /// The live library could not be reached or answered with an error.
    LibraryUnavailable,
    /// One identity has no matching entry in the live library.
    MissingInLibrary(Uuid),
    /// Some identities of a playlist could not be resolved; the field lists
    /// every unresolved recording identifier, in tracklist order.
    PartialResolutionFailure(Vec<Uuid>),
    /// The library reports nothing playing.
    NoCurrentSong,
    /// The playlist storage directory could not be resolved.
    StorageDirectoryUnavailable,
}

/// An error together with optional free-form detail.
#[derive(Debug, Clone, PartialEq, Eq)]
pub struct EdaboError {
    pub kind: ErrorKind,
    pub detail: Option<String>,
}

} // verus!
