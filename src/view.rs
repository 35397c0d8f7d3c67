//! Read-only views of a catalogue: the listing shown to the user (live
//! songs only, names resolved) and the statistics that drive compaction.
use vstd::prelude::*;

use crate::catalogue::{catalogue_of, consistent, Catalogue, CatalogueError, CatalogueModel};
use crate::deletion::live_count;
use crate::library::active;

verus! {

/// An artist as listed.
#[derive(Clone, Debug)]
pub struct ParsedArtist {
    pub id: u32,
    pub name: String,
}

/// An album as listed.
#[derive(Clone, Debug)]
pub struct ParsedAlbum {
    pub id: u32,
    pub name: String,
    pub artist_id: u32,
    pub artist_name: String,
    pub year: u16,
}

/// A live song as listed.
#[derive(Clone, Debug)]
pub struct ParsedSong {
    pub id: u32,
    pub title: String,
    pub artist_id: u32,
    pub artist_name: String,
    pub album_id: u32,
    pub album_name: String,
    pub path: String,
    pub track_number: u16,
    pub duration_sec: u16,
}

/// The whole listing of a catalogue.
#[derive(Clone, Debug)]
pub struct ParsedLibrary {
    pub version: u32,
    pub artists: Vec<ParsedArtist>,
    pub albums: Vec<ParsedAlbum>,
    pub songs: Vec<ParsedSong>,
}

/// Indices of the live songs, in order.
pub open spec fn live_ids(songs: Seq<crate::records::SongEntry>) -> Seq<int>
    decreases songs.len(),
{
    if songs.len() == 0 {
        Seq::empty()
    } else {
        live_ids(songs.drop_last()) + if active(songs.last()) {
            seq![songs.len() - 1]
        } else {
            Seq::empty()
        }
    }
}

/// Whether `p` lists artist `a` of `m`.
pub open spec fn lists_artist(m: CatalogueModel, a: int, p: ParsedArtist) -> bool {
    &&& p.id == a
    &&& p.name@ == m.strings[m.artists[a].name_string_id as int]
}

/// Whether `p` lists album `l` of `m`.
pub open spec fn lists_album(m: CatalogueModel, l: int, p: ParsedAlbum) -> bool {
    let row = m.albums[l];
    &&& p.id == l
    &&& p.name@ == m.strings[row.name_string_id as int]
    &&& p.artist_id == row.artist_id
    &&& p.artist_name@ == m.strings[m.artists[row.artist_id as int].name_string_id as int]
    &&& p.year == row.year
}

/// Whether `p` lists song `k` of `m`.
pub open spec fn lists_song(m: CatalogueModel, k: int, p: ParsedSong) -> bool {
    let row = m.songs[k];
    &&& p.id == k
    &&& p.title@ == m.strings[row.title_string_id as int]
    &&& p.artist_id == row.artist_id
    &&& p.artist_name@ == m.strings[m.artists[row.artist_id as int].name_string_id as int]
    &&& p.album_id == row.album_id
    &&& p.album_name@ == m.strings[m.albums[row.album_id as int].name_string_id as int]
    &&& p.path@ == m.strings[row.path_string_id as int]
    &&& p.track_number == row.track_number
    &&& p.duration_sec == row.duration_sec
}

/// Statistics of a catalogue file.
#[derive(Clone, Copy, Debug, PartialEq, Eq, Structural)]
pub struct LibraryStats {
    /// Song rows, deleted ones included.
    pub total_songs: u32,
    pub active_songs: u32,
    pub deleted_songs: u32,
    pub total_artists: u32,
    pub total_albums: u32,
    pub total_strings: u32,
    /// Whether more than a fifth of the song rows are deleted.
    pub should_compact: bool,
    pub file_size_bytes: u64,
}

/// The pool string with id `id`, which a consistent catalogue holds.
fn string_at(c: &Catalogue, id: u32) -> (r: String)
    requires
        (id as int) < c@.strings.len(),
    ensures
        r@ == c@.strings[id as int],
{
    match c.strings.get(id) {
        Some(s) => s.to_owned(),
        None => {
            proof {
                assert(false);
            }
            String::new()
        },
    }
}

impl Catalogue {
    /// The listing: every artist and album, and the live songs in order,
    /// each with its names resolved.
    pub fn listing(&self, version: u32) -> (r: ParsedLibrary)
        requires
            consistent(self@),
        ensures
            r.version == version,
            r.artists@.len() == self@.artists.len(),
            forall|a: int| 0 <= a < r.artists@.len() ==> lists_artist(self@, a, #[trigger] r.artists@[a]),
            r.albums@.len() == self@.albums.len(),
            forall|l: int| 0 <= l < r.albums@.len() ==> lists_album(self@, l, #[trigger] r.albums@[l]),
            r.songs@.len() == live_ids(self@.songs).len(),
            forall|i: int|
                0 <= i < r.songs@.len() ==> lists_song(
                    self@,
                    live_ids(self@.songs)[i],
                    #[trigger] r.songs@[i],
                ),
    {
        let mut artists: Vec<ParsedArtist> = Vec::new();
        let mut i: usize = 0;
        while i < self.artists.len()
            invariant
                consistent(self@),
                i <= self@.artists.len(),
                artists@.len() == i,
                forall|a: int| 0 <= a < i ==> lists_artist(self@, a, #[trigger] artists@[a]),
            decreases self@.artists.len() - i,
        {
            let name = string_at(self, self.artists[i].name_string_id);
            artists.push(ParsedArtist { id: i as u32, name });
            i = i + 1;
        }
        let mut albums: Vec<ParsedAlbum> = Vec::new();
        let mut i: usize = 0;
        while i < self.albums.len()
            invariant
                consistent(self@),
                i <= self@.albums.len(),
                albums@.len() == i,
                forall|l: int| 0 <= l < i ==> lists_album(self@, l, #[trigger] albums@[l]),
            decreases self@.albums.len() - i,
        {
            let row = self.albums[i];
            let name = string_at(self, row.name_string_id);
            let artist_name = string_at(self, self.artists[row.artist_id as usize].name_string_id);
            albums.push(
                ParsedAlbum { id: i as u32, name, artist_id: row.artist_id, artist_name, year: row.year },
            );
            i = i + 1;
        }
        let mut songs: Vec<ParsedSong> = Vec::new();
        let mut k: usize = 0;
        while k < self.songs.len()
            invariant
                consistent(self@),
                k <= self@.songs.len(),
                songs@.len() == live_ids(self@.songs.subrange(0, k as int)).len(),
                forall|i: int|
                    0 <= i < songs@.len() ==> lists_song(
                        self@,
                        live_ids(self@.songs.subrange(0, k as int))[i],
                        #[trigger] songs@[i],
                    ),
                forall|i: int|
                    0 <= i < live_ids(self@.songs.subrange(0, k as int)).len() ==> 0 <= #[trigger] live_ids(
                        self@.songs.subrange(0, k as int),
                    )[i] < k,
            decreases self@.songs.len() - k,
        {
            let ghost prev = live_ids(self@.songs.subrange(0, k as int));
            proof {
                let p = self@.songs.subrange(0, k + 1);
                assert(p.drop_last() =~= self@.songs.subrange(0, k as int));
            }
            let row = self.songs[k];
            if row.is_active() {
                let title = string_at(self, row.title_string_id);
                let artist_name = string_at(self, self.artists[row.artist_id as usize].name_string_id);
                let album_name = string_at(self, self.albums[row.album_id as usize].name_string_id);
                let path = string_at(self, row.path_string_id);
                songs.push(
                    ParsedSong {
                        id: k as u32,
                        title,
                        artist_id: row.artist_id,
                        artist_name,
                        album_id: row.album_id,
                        album_name,
                        path,
                        track_number: row.track_number,
                        duration_sec: row.duration_sec,
                    },
                );
            }
            k = k + 1;
            proof {
                let cur = live_ids(self@.songs.subrange(0, k as int));
                assert forall|i: int| 0 <= i < songs@.len() implies lists_song(
                    self@,
                    cur[i],
                    #[trigger] songs@[i],
                ) by {
                    if i < prev.len() {
                        assert(cur[i] == prev[i]);
                    }
                }
                assert forall|i: int| 0 <= i < cur.len() implies 0 <= #[trigger] cur[i] < k by {
                    if i < prev.len() {
                        assert(cur[i] == prev[i]);
                    }
                }
            }
        }
        assert(self@.songs.subrange(0, k as int) =~= self@.songs);
        ParsedLibrary { version, artists, albums, songs }
    }

    /// Counts of rows and strings, the live/deleted split, and whether
    /// compaction is due (more than a fifth of the song rows deleted).
    pub fn stats(&self, file_size_bytes: u64) -> (r: LibraryStats)
        requires
            consistent(self@),
        ensures
            r.total_songs == self@.songs.len(),
            r.active_songs == live_count(self@.songs),
            r.deleted_songs == self@.songs.len() - live_count(self@.songs),
            r.total_artists == self@.artists.len(),
            r.total_albums == self@.albums.len(),
            r.total_strings == self@.strings.len(),
            r.should_compact == (5 * r.deleted_songs > r.total_songs),
            r.file_size_bytes == file_size_bytes,
    {
        let mut live: u32 = 0;
        let mut k: usize = 0;
        while k < self.songs.len()
            invariant
                consistent(self@),
                k <= self@.songs.len(),
                live == live_count(self@.songs.subrange(0, k as int)),
                live <= k,
            decreases self@.songs.len() - k,
        {
            proof {
                let p = self@.songs.subrange(0, k + 1);
                assert(p.drop_last() =~= self@.songs.subrange(0, k as int));
            }
            if self.songs[k].is_active() {
                live = live + 1;
            }
            k = k + 1;
        }
        assert(self@.songs.subrange(0, k as int) =~= self@.songs);
        let total = self.songs.len() as u32;
        let deleted = total - live;
        LibraryStats {
            total_songs: total,
            active_songs: live,
            deleted_songs: deleted,
            total_artists: self.artists.len() as u32,
            total_albums: self.albums.len() as u32,
            total_strings: self.strings.len() as u32,
            should_compact: (deleted as u64) * 5 > total as u64,
            file_size_bytes,
        }
    }
}

/// Parses a catalogue file and lists it.
pub fn load_library(data: &[u8]) -> (r: Result<ParsedLibrary, CatalogueError>)
    ensures
        r matches Err(e) ==> catalogue_of(data@) == Err::<CatalogueModel, CatalogueError>(e),
        r is Ok <==> catalogue_of(data@) is Ok,
        r matches Ok(l) ==> {
            let m = catalogue_of(data@)->Ok_0;
            &&& l.version == crate::records::header_at(data@).version
            &&& l.artists@.len() == m.artists.len()
            &&& (forall|a: int| 0 <= a < l.artists@.len() ==> lists_artist(m, a, #[trigger] l.artists@[a]))
            &&& l.albums@.len() == m.albums.len()
            &&& (forall|x: int| 0 <= x < l.albums@.len() ==> lists_album(m, x, #[trigger] l.albums@[x]))
            &&& l.songs@.len() == live_ids(m.songs).len()
            &&& (forall|i: int|
                0 <= i < l.songs@.len() ==> lists_song(m, live_ids(m.songs)[i], #[trigger] l.songs@[i]))
        },
{
    let c = match Catalogue::parse(data) {
        Ok(c) => c,
        Err(e) => {
            return Err(e);
        },
    };
    let version = crate::codec::get_le32(data, 4);
    Ok(c.listing(version))
}

/// Parses a catalogue file and gives its statistics.
pub fn library_stats(data: &[u8]) -> (r: Result<LibraryStats, CatalogueError>)
    ensures
        r matches Err(e) ==> catalogue_of(data@) == Err::<CatalogueModel, CatalogueError>(e),
        r is Ok <==> catalogue_of(data@) is Ok,
        r matches Ok(s) ==> {
            let m = catalogue_of(data@)->Ok_0;
            &&& s.total_songs == m.songs.len()
            &&& s.active_songs == live_count(m.songs)
            &&& s.deleted_songs == m.songs.len() - live_count(m.songs)
            &&& s.total_artists == m.artists.len()
            &&& s.total_albums == m.albums.len()
            &&& s.total_strings == m.strings.len()
            &&& s.should_compact == (5 * s.deleted_songs > s.total_songs)
            &&& s.file_size_bytes == data@.len()
        },
{
    let c = match Catalogue::parse(data) {
        Ok(c) => c,
        Err(e) => {
            return Err(e);
        },
    };
    Ok(c.stats(data.len() as u64))
}

} // verus!
