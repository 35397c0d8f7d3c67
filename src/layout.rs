//! Names of the library's directories and files, and what is reported
//! about a library directory.
use vstd::prelude::*;

verus! {

/// Directory under the chosen base path that holds the whole library.
pub const JP3_DIR: &'static str = "jp3";

/// Directory of the blob tree.
pub const MUSIC_DIR: &'static str = "music";

/// Directory of the catalogue file.
pub const METADATA_DIR: &'static str = "metadata";

/// Directory of the playlist files.
pub const PLAYLISTS_DIR: &'static str = "playlists";

/// File name of the catalogue.
pub const LIBRARY_BIN: &'static str = "library.bin";

/// What is known of a library directory.
#[derive(Clone, Debug)]
pub struct LibraryInfo {
    pub initialized: bool,
    pub jp3_path: Option<String>,
    pub music_buckets: u32,
    pub has_library_bin: bool,
}

impl LibraryInfo {
    /// The report for a base path with no library in it.
    pub fn uninitialized() -> (r: Self)
        ensures
            !r.initialized,
            r.jp3_path is None,
            r.music_buckets == 0,
            !r.has_library_bin,
    {
        LibraryInfo { initialized: false, jp3_path: None, music_buckets: 0, has_library_bin: false }
    }
}

} // verus!
