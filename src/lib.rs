//! Storage engine for a personal music library: a byte-exact catalogue file
//! (string pool, artists, albums, songs) and per-playlist files that refer to
//! catalogue songs by numeric id, with the append, soft delete, edit and
//! compaction operations that keep the two consistent. Around it: the
//! ranking of metadata candidates from a fingerprint lookup, and the choice
//! of cover images and releases from the lookup services' answers.
use vstd::prelude::*;

pub mod codec;
pub mod records;
pub mod string_table;
pub mod catalogue;
pub mod audio;
pub mod blob;
pub mod library;
pub mod deletion;
pub mod compaction;
pub mod view;
pub mod playlist;
pub mod playlist_files;
pub mod layout;
pub mod ranking;
pub mod musicbrainz;
pub mod cover;

verus! {

} // verus!
