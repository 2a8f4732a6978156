//! Named, persisted playlists of content-addressed track identities.
//!
//! A playlist stores abstract track identities (recording, release and
//! release-track identifiers) rather than file paths.  This crate holds the
//! identity model, the canonical JSON representation with its round-trip
//! guarantee, the merge and deduplication rules, and the decision logic of
//! reconciling a playlist against a live media library.

pub mod engine;
pub mod errors;
pub mod foreign;
pub mod ids;
pub mod json;
pub mod store;
pub mod text;
pub mod types;

pub use errors::EdaboError;
pub use errors::ErrorKind;
pub use ids::Uuid;
pub use types::Playlist;
pub use types::Song;
pub use types::Track;
