//! Catalogue lifecycle: ingest with deduplication, soft delete, edit, and
//! statistics. Every operation works on the in-memory catalogue; reading and
//! writing the file, and copying or removing blobs, is left to the caller,
//! which is told exactly which blob goes where.
use vstd::prelude::*;

use crate::audio::{metadata_complete, missing_of, AudioMetadata, RequiredField};
use crate::blob::{blob_path, blob_path_of, has_next_slot, next_slot_of, BlobCursor};
use crate::catalogue::{consistent, Catalogue, CatalogueModel};
use crate::records::{flags_deleted, lemma_flag_values, AlbumEntry, ArtistEntry, SongEntry, SONG_DELETED};
use crate::string_table::{fits_entry, is_first_index};

verus! {

/// Whether a song row is live.
pub open spec fn active(s: SongEntry) -> bool {
    !flags_deleted(s.flags)
}

/// Whether artist row `a` carries the name `name`.
pub open spec fn artist_named(m: CatalogueModel, a: int, name: Seq<char>) -> bool {
    m.strings[m.artists[a].name_string_id as int] == name
}

/// Whether `a` is the first artist row named `name`.
pub open spec fn is_first_artist(m: CatalogueModel, a: int, name: Seq<char>) -> bool {
    &&& 0 <= a < m.artists.len()
    &&& artist_named(m, a, name)
    &&& forall|j: int| 0 <= j < a ==> !artist_named(m, j, name)
}

/// Whether album row `l` belongs to artist `artist_id` and is named `name`.
pub open spec fn album_named(m: CatalogueModel, l: int, artist_id: int, name: Seq<char>) -> bool {
    &&& m.albums[l].artist_id == artist_id
    &&& m.strings[m.albums[l].name_string_id as int] == name
}

/// Whether `l` is the first album row of artist `artist_id` named `name`.
pub open spec fn is_first_album(m: CatalogueModel, l: int, artist_id: int, name: Seq<char>) -> bool {
    &&& 0 <= l < m.albums.len()
    &&& album_named(m, l, artist_id, name)
    &&& forall|j: int| 0 <= j < l ==> !album_named(m, j, artist_id, name)
}

/// Whether two rows have the same duplicate-detection key.
pub open spec fn same_key(a: SongEntry, b: SongEntry) -> bool {
    &&& a.title_string_id == b.title_string_id
    &&& a.artist_id == b.artist_id
    &&& a.album_id == b.album_id
}

/// Whether no two live songs share a key.
pub open spec fn unique_active(m: CatalogueModel) -> bool {
    forall|i: int, j: int|
        0 <= i < m.songs.len() && 0 <= j < m.songs.len() && i != j && active(#[trigger] m.songs[i])
            && active(#[trigger] m.songs[j]) ==> !same_key(m.songs[i], m.songs[j])
}

/// Whether `new` holds all of `old` unchanged, with rows only appended.
pub open spec fn extends(old: CatalogueModel, new: CatalogueModel) -> bool {
    &&& old.strings.len() <= new.strings.len()
    &&& new.strings.subrange(0, old.strings.len() as int) == old.strings
    &&& old.artists.len() <= new.artists.len()
    &&& new.artists.subrange(0, old.artists.len() as int) == old.artists
    &&& old.albums.len() <= new.albums.len()
    &&& new.albums.subrange(0, old.albums.len() as int) == old.albums
    &&& old.songs.len() <= new.songs.len()
    &&& new.songs.subrange(0, old.songs.len() as int) == old.songs
}

/// Whether live song `s` is the song of title `t` by artist `a` on album
/// `l`, with artist row `artist_id` and album row `album_id`, all found by
/// their first match.
pub open spec fn song_for(
    m: CatalogueModel,
    s: int,
    t: Seq<char>,
    a: Seq<char>,
    l: Seq<char>,
    artist_id: int,
    album_id: int,
) -> bool {
    &&& 0 <= s < m.songs.len()
    &&& active(m.songs[s])
    &&& is_first_index(m.strings, t, m.songs[s].title_string_id as int)
    &&& m.songs[s].artist_id == artist_id
    &&& m.songs[s].album_id == album_id
    &&& is_first_artist(m, artist_id, a)
    &&& is_first_album(m, album_id, artist_id, l)
}

/// Whether `m` has room for one more song with new strings, artist and album.
pub open spec fn has_room(m: CatalogueModel) -> bool {
    &&& m.strings.len() + 4 < u32::MAX
    &&& m.artists.len() < u32::MAX
    &&& m.albums.len() < u32::MAX
    &&& m.songs.len() < u32::MAX
}

/// One audio file to add: where it is, the extension its blob keeps, and
/// its metadata.
#[derive(Clone, Debug)]
pub struct FileToSave {
    pub source_path: String,
    pub extension: String,
    pub metadata: AudioMetadata,
}

/// What became of one file of an ingest batch.
#[derive(Clone, Debug)]
pub enum IngestOutcome {
    /// A new song row was appended; the file is to be copied to
    /// `relative_path` in the blob tree.
    Added { song_id: u32, artist_id: u32, album_id: u32, relative_path: String },
    /// A live song with the same title, artist and album already exists.
    Duplicate { song_id: u32, artist_id: u32, album_id: u32 },
    /// A required field is missing.
    Missing(RequiredField),
    /// A string is too long for the pool's 16-bit length field.
    TooLong,
    /// The catalogue's ids or the blob tree's bucket numbers are exhausted.
    Full,
}

/// Summary of an ingest batch.
#[derive(Clone, Debug)]
pub struct SaveToLibraryResult {
    /// Files whose blob is to be copied (one per added song).
    pub files_saved: u32,
    pub artists_added: u32,
    pub albums_added: u32,
    pub songs_added: u32,
    pub duplicates_skipped: u32,
    /// Ids of the appended songs, in batch order.
    pub song_ids: Vec<u32>,
    /// Ids of the existing songs that files duplicated, in batch order.
    pub duplicate_song_ids: Vec<u32>,
    /// What became of each file, in batch order.
    pub outcomes: Vec<IngestOutcome>,
}

/// Why an edit was refused.
#[derive(Clone, Copy, Debug, PartialEq, Eq, Structural)]
pub enum EditError {
    /// The song id names no row.
    NotFound,
    /// A required field of the new metadata is missing.
    Missing(RequiredField),
    /// A string is too long for the pool's 16-bit length field.
    TooLong,
    /// The catalogue's ids are exhausted.
    Full,
}

/// Outcome of an edit.
#[derive(Clone, Copy, Debug, PartialEq, Eq, Structural)]
pub struct EditSongResult {
    /// Id of the replacement row (the old row is flagged deleted).
    pub new_song_id: u32,
    pub artist_created: bool,
    pub album_created: bool,
    /// Playlists rewritten to refer to the new id.
    pub playlists_updated: u32,
}

/// Whether `k` names a live song of `m`.
pub open spec fn live_song(m: CatalogueModel, k: int) -> bool {
    0 <= k < m.songs.len() && active(m.songs[k])
}

/// Whether metadata can replace a song's in `m`.
pub open spec fn edit_admissible(m: CatalogueModel, md: AudioMetadata) -> bool {
    &&& metadata_complete(md)
    &&& fits_entry(md.title->Some_0@)
    &&& fits_entry(md.artist->Some_0@)
    &&& fits_entry(md.album->Some_0@)
    &&& has_room(m)
}

/// The blob path the next placement from `c` gives a file with extension `ext`.
pub open spec fn next_path(c: BlobCursor, ext: Seq<char>) -> Seq<char> {
    blob_path_of(next_slot_of(c).0 as nat, next_slot_of(c).1 as nat, ext)
}

/// Whether a file can be ingested into `m` with the blob cursor at `c`.
pub open spec fn admissible(m: CatalogueModel, f: FileToSave, c: BlobCursor) -> bool {
    &&& metadata_complete(f.metadata)
    &&& fits_entry(f.metadata.title->Some_0@)
    &&& fits_entry(f.metadata.artist->Some_0@)
    &&& fits_entry(f.metadata.album->Some_0@)
    &&& has_next_slot(c)
    &&& fits_entry(next_path(c, f.extension@))
    &&& has_room(m)
}

/// The year a new album row gets from metadata: the year truncated to 16
/// bits, or 0 when absent.
pub open spec fn year_of(md: AudioMetadata) -> u16 {
    match md.year {
        Some(y) => y as u16,
        None => 0,
    }
}

/// Whether some artist row of `m` is named `name`.
pub open spec fn artist_resolves(m: CatalogueModel, name: Seq<char>) -> bool {
    exists|j: int| 0 <= j < m.artists.len() && artist_named(m, j, name)
}

/// Whether some album row of `m` belongs to `artist_id` and is named `name`.
pub open spec fn album_resolves(m: CatalogueModel, artist_id: int, name: Seq<char>) -> bool {
    exists|j: int| 0 <= j < m.albums.len() && album_named(m, j, artist_id, name)
}

/// The artist row of a song outcome.
pub open spec fn outcome_artist(o: IngestOutcome) -> u32 {
    match o {
        IngestOutcome::Added { artist_id, .. } => artist_id,
        IngestOutcome::Duplicate { artist_id, .. } => artist_id,
        _ => 0,
    }
}

/// The album row of a song outcome.
pub open spec fn outcome_album(o: IngestOutcome) -> u32 {
    match o {
        IngestOutcome::Added { album_id, .. } => album_id,
        IngestOutcome::Duplicate { album_id, .. } => album_id,
        _ => 0,
    }
}

/// What ingesting file `f` into `m0` with the blob cursor at `c0` does,
/// giving outcome `o`, catalogue `m1` and cursor `c1`: the file becomes a
/// song exactly when it is admissible; a refused file changes nothing; an
/// artist or album row is appended only when the name does not resolve
/// yet; a file is added exactly when no live song has its title, artist
/// and album, and its blob then takes the cursor's next slot.
pub open spec fn ingest_step(
    m0: CatalogueModel,
    c0: BlobCursor,
    f: FileToSave,
    o: IngestOutcome,
    m1: CatalogueModel,
    c1: BlobCursor,
) -> bool {
    &&& consistent(m1)
    &&& extends(m0, m1)
    &&& (unique_active(m0) ==> unique_active(m1))
    &&& (m0.strings.no_duplicates() ==> m1.strings.no_duplicates())
    &&& (is_song(o) <==> admissible(m0, f, c0))
    &&& (!is_song(o) ==> m1 == m0 && c1 == c0)
    &&& (o matches IngestOutcome::Missing(x) ==> !metadata_complete(f.metadata) && x == missing_of(
        f.metadata,
    )[0])
    &&& (!metadata_complete(f.metadata) ==> o is Missing)
    &&& (o is TooLong <==> metadata_complete(f.metadata) && (!fits_entry(f.metadata.title->Some_0@)
        || !fits_entry(f.metadata.artist->Some_0@) || !fits_entry(f.metadata.album->Some_0@) || (
    has_next_slot(c0) && !fits_entry(next_path(c0, f.extension@)))))
    &&& outcome_in(m1, f, o)
    &&& m1.strings.len() <= m0.strings.len() + 4
    &&& (is_song(o) ==> {
        &&& m1.artists.len() == m0.artists.len() + if artist_resolves(
            m0,
            f.metadata.artist->Some_0@,
        ) {
            0int
        } else {
            1int
        }
        &&& m1.albums.len() == m0.albums.len() + if album_resolves(
            m0,
            outcome_artist(o) as int,
            f.metadata.album->Some_0@,
        ) {
            0int
        } else {
            1int
        }
        &&& (!album_resolves(m0, outcome_artist(o) as int, f.metadata.album->Some_0@)
            ==> m1.albums[outcome_album(o) as int].year == year_of(f.metadata))
    })
    &&& (o matches IngestOutcome::Added { song_id, relative_path, .. } ==> {
        &&& song_id == m0.songs.len()
        &&& m1.songs.len() == m0.songs.len() + 1
        &&& relative_path@ == next_path(c0, f.extension@)
        &&& c1.bucket == next_slot_of(c0).0
        &&& c1.files_in_bucket == next_slot_of(c0).1
        &&& m1.songs[song_id as int].track_number == f.metadata.track_number.unwrap_or(0) as u16
        &&& m1.songs[song_id as int].duration_sec == f.metadata.duration_secs.unwrap_or(0) as u16
        &&& forall|i: int|
            0 <= i < m0.songs.len() && active(#[trigger] m0.songs[i]) ==> !same_key(
                m0.songs[i],
                m1.songs[song_id as int],
            )
    })
    &&& (o matches IngestOutcome::Duplicate { song_id, .. } ==> {
        &&& song_id < m0.songs.len()
        &&& m1.songs == m0.songs
        &&& c1 == c0
    })
}

/// Whether `ms` and `cs` are the catalogues and cursors a batch passes
/// through: from `m_start`, `c_start` to `m_end`, `c_end`, file `k` taking
/// `ms[k]`, `cs[k]` to `ms[k + 1]`, `cs[k + 1]` with outcome `os[k]`.
pub open spec fn ingest_trace(
    m_start: CatalogueModel,
    c_start: BlobCursor,
    files: Seq<FileToSave>,
    os: Seq<IngestOutcome>,
    ms: Seq<CatalogueModel>,
    cs: Seq<BlobCursor>,
    m_end: CatalogueModel,
    c_end: BlobCursor,
) -> bool {
    &&& os.len() == files.len()
    &&& ms.len() == files.len() + 1
    &&& cs.len() == files.len() + 1
    &&& ms[0] == m_start
    &&& cs[0] == c_start
    &&& ms[files.len() as int] == m_end
    &&& cs[files.len() as int] == c_end
    &&& forall|k: int|
        0 <= k < files.len() ==> ingest_step(ms[k], cs[k], #[trigger] files[k], os[k], ms[k + 1], cs[k + 1])
}

/// Whether `o` reports a song of `f`'s title, artist and album in `m`.
pub open spec fn outcome_in(m: CatalogueModel, f: FileToSave, o: IngestOutcome) -> bool {
    match o {
        IngestOutcome::Added { song_id, artist_id, album_id, relative_path } => {
            &&& song_for(
                m,
                song_id as int,
                f.metadata.title->Some_0@,
                f.metadata.artist->Some_0@,
                f.metadata.album->Some_0@,
                artist_id as int,
                album_id as int,
            )
            &&& m.strings[m.songs[song_id as int].path_string_id as int] == relative_path@
        },
        IngestOutcome::Duplicate { song_id, artist_id, album_id } => song_for(
            m,
            song_id as int,
            f.metadata.title->Some_0@,
            f.metadata.artist->Some_0@,
            f.metadata.album->Some_0@,
            artist_id as int,
            album_id as int,
        ),
        _ => true,
    }
}

/// Whether an outcome is a song (added or already present).
pub open spec fn is_song(o: IngestOutcome) -> bool {
    o is Added || o is Duplicate
}

/// The song ids of the added files, in order.
pub open spec fn added_ids(os: Seq<IngestOutcome>) -> Seq<u32>
    decreases os.len(),
{
    if os.len() == 0 {
        Seq::empty()
    } else {
        added_ids(os.drop_last()) + match os.last() {
            IngestOutcome::Added { song_id, .. } => seq![song_id],
            _ => Seq::empty(),
        }
    }
}

/// The song ids the duplicate files were found to be, in order.
pub open spec fn duplicate_ids(os: Seq<IngestOutcome>) -> Seq<u32>
    decreases os.len(),
{
    if os.len() == 0 {
        Seq::empty()
    } else {
        duplicate_ids(os.drop_last()) + match os.last() {
            IngestOutcome::Duplicate { song_id, .. } => seq![song_id],
            _ => Seq::empty(),
        }
    }
}

/// Whether the outcome of file `k` of a batch is right: a missing field is
/// reported exactly for incomplete metadata (the first missing one), a song
/// outcome names the song in `m`, and the batch ran out of room only when
/// the counts at the start, grown by at most one file per earlier file,
/// reach the format's limits.
pub open spec fn batch_outcome_ok(
    m0: CatalogueModel,
    c0: BlobCursor,
    m: CatalogueModel,
    f: FileToSave,
    o: IngestOutcome,
    k: int,
) -> bool {
    &&& (o is Missing <==> !metadata_complete(f.metadata))
    &&& (o matches IngestOutcome::Missing(x) ==> x == missing_of(f.metadata)[0])
    &&& (o is TooLong ==> metadata_complete(f.metadata))
    &&& (o is Full ==> {
        ||| m0.strings.len() + 4 * k + 4 >= u32::MAX
        ||| m0.artists.len() + k >= u32::MAX
        ||| m0.albums.len() + k >= u32::MAX
        ||| m0.songs.len() + k >= u32::MAX
        ||| c0.bucket + k >= u32::MAX
    })
    &&& outcome_in(m, f, o)
}

/// Every catalogue extends itself.
pub proof fn lemma_extends_refl(m: CatalogueModel)
    ensures
        extends(m, m),
{
    assert(m.strings.subrange(0, m.strings.len() as int) =~= m.strings);
    assert(m.artists.subrange(0, m.artists.len() as int) =~= m.artists);
    assert(m.albums.subrange(0, m.albums.len() as int) =~= m.albums);
    assert(m.songs.subrange(0, m.songs.len() as int) =~= m.songs);
}

/// First-match facts about `old` still hold in a catalogue that extends it.
pub proof fn lemma_extends_keeps(old: CatalogueModel, new: CatalogueModel)
    requires
        consistent(old),
        extends(old, new),
    ensures
        forall|a: int, n: Seq<char>| #[trigger]
            is_first_artist(old, a, n) ==> is_first_artist(new, a, n),
        forall|l: int, a: int, n: Seq<char>| #[trigger]
            is_first_album(old, l, a, n) ==> is_first_album(new, l, a, n),
        forall|t: Seq<char>, i: int| #[trigger]
            is_first_index(old.strings, t, i) ==> is_first_index(new.strings, t, i),
        forall|s: int, t: Seq<char>, a: Seq<char>, l: Seq<char>, x: int, y: int| #[trigger]
            song_for(old, s, t, a, l, x, y) ==> song_for(new, s, t, a, l, x, y),
        forall|j: int, n: Seq<char>|
            0 <= j < old.artists.len() ==> #[trigger] artist_named(new, j, n) == artist_named(old, j, n),
        forall|j: int, a: int, n: Seq<char>|
            0 <= j < old.albums.len() ==> #[trigger] album_named(new, j, a, n) == album_named(
                old,
                j,
                a,
                n,
            ),
{
    assert forall|j: int| 0 <= j < old.strings.len() implies new.strings[j] == old.strings[j] by {
        assert(new.strings.subrange(0, old.strings.len() as int)[j] == new.strings[j]);
    }
    assert forall|j: int| 0 <= j < old.artists.len() implies new.artists[j] == old.artists[j] by {
        assert(new.artists.subrange(0, old.artists.len() as int)[j] == new.artists[j]);
    }
    assert forall|j: int| 0 <= j < old.albums.len() implies new.albums[j] == old.albums[j] by {
        assert(new.albums.subrange(0, old.albums.len() as int)[j] == new.albums[j]);
    }
    assert forall|j: int| 0 <= j < old.songs.len() implies new.songs[j] == old.songs[j] by {
        assert(new.songs.subrange(0, old.songs.len() as int)[j] == new.songs[j]);
    }
    assert forall|j: int, n: Seq<char>| 0 <= j < old.artists.len() implies artist_named(new, j, n)
        == artist_named(old, j, n) by {
        assert(old.artists[j].name_string_id < old.strings.len());
    }
    assert forall|j: int, a: int, n: Seq<char>| 0 <= j < old.albums.len() implies album_named(
        new,
        j,
        a,
        n,
    ) == album_named(old, j, a, n) by {
        assert(old.albums[j].name_string_id < old.strings.len());
    }
}

/// A reported outcome stays true as the catalogue grows.
pub proof fn lemma_outcome_stable(m1: CatalogueModel, m2: CatalogueModel, f: FileToSave, o: IngestOutcome)
    requires
        consistent(m1),
        extends(m1, m2),
        outcome_in(m1, f, o),
    ensures
        outcome_in(m2, f, o),
{
    lemma_extends_keeps(m1, m2);
    match o {
        IngestOutcome::Added { song_id, .. } => {
            let s = song_id as int;
            assert(m2.songs[s] == m2.songs.subrange(0, m1.songs.len() as int)[s]);
            let pid = m1.songs[s].path_string_id as int;
            assert(m2.strings[pid] == m2.strings.subrange(0, m1.strings.len() as int)[pid]);
        },
        _ => {},
    }
}

/// First-match facts do not depend on the song table.
pub proof fn lemma_first_ignores_songs(m1: CatalogueModel, m2: CatalogueModel)
    requires
        m1.strings == m2.strings,
        m1.artists == m2.artists,
        m1.albums == m2.albums,
    ensures
        forall|a: int, n: Seq<char>| #[trigger]
            is_first_artist(m1, a, n) ==> is_first_artist(m2, a, n),
        forall|l: int, a: int, n: Seq<char>| #[trigger]
            is_first_album(m1, l, a, n) ==> is_first_album(m2, l, a, n),
{
    assert forall|j: int, n: Seq<char>| artist_named(m1, j, n) == artist_named(m2, j, n) by {}
    assert forall|j: int, a: int, n: Seq<char>| album_named(m1, j, a, n) == album_named(m2, j, a, n) by {}
}

/// Extension is transitive.
pub proof fn lemma_extends_trans(a: CatalogueModel, b: CatalogueModel, c: CatalogueModel)
    requires
        extends(a, b),
        extends(b, c),
    ensures
        extends(a, c),
{
    assert(c.strings.subrange(0, a.strings.len() as int) =~= c.strings.subrange(
        0,
        b.strings.len() as int,
    ).subrange(0, a.strings.len() as int));
    assert(c.artists.subrange(0, a.artists.len() as int) =~= c.artists.subrange(
        0,
        b.artists.len() as int,
    ).subrange(0, a.artists.len() as int));
    assert(c.albums.subrange(0, a.albums.len() as int) =~= c.albums.subrange(
        0,
        b.albums.len() as int,
    ).subrange(0, a.albums.len() as int));
    assert(c.songs.subrange(0, a.songs.len() as int) =~= c.songs.subrange(
        0,
        b.songs.len() as int,
    ).subrange(0, a.songs.len() as int));
}

/// The song of an outcome.
pub open spec fn outcome_song(o: IngestOutcome) -> u32 {
    match o {
        IngestOutcome::Added { song_id, .. } => song_id,
        IngestOutcome::Duplicate { song_id, .. } => song_id,
        _ => 0,
    }
}

/// Whether two files carry the same title, artist and album.
pub open spec fn same_names(f1: FileToSave, f2: FileToSave) -> bool {
    &&& f1.metadata.title->Some_0@ == f2.metadata.title->Some_0@
    &&& f1.metadata.artist->Some_0@ == f2.metadata.artist->Some_0@
    &&& f1.metadata.album->Some_0@ == f2.metadata.album->Some_0@
}

/// In a catalogue whose live songs have distinct keys, a title, artist and
/// album name at most one live song: two song outcomes for files with the
/// same three names report the same song, artist and album.
pub proof fn lemma_same_names_same_song(
    m: CatalogueModel,
    f1: FileToSave,
    o1: IngestOutcome,
    f2: FileToSave,
    o2: IngestOutcome,
)
    requires
        unique_active(m),
        is_song(o1),
        is_song(o2),
        outcome_in(m, f1, o1),
        outcome_in(m, f2, o2),
        same_names(f1, f2),
    ensures
        outcome_song(o1) == outcome_song(o2),
{
    let s1 = outcome_song(o1) as int;
    let s2 = outcome_song(o2) as int;
    let t = f1.metadata.title->Some_0@;
    let a = f1.metadata.artist->Some_0@;
    let l = f1.metadata.album->Some_0@;
    let x1 = m.songs[s1];
    let x2 = m.songs[s2];
    assert(is_first_artist(m, x1.artist_id as int, a));
    assert(is_first_artist(m, x2.artist_id as int, a));
    if x1.artist_id < x2.artist_id {
        assert(!artist_named(m, x1.artist_id as int, a));
    } else if x2.artist_id < x1.artist_id {
        assert(!artist_named(m, x2.artist_id as int, a));
    }
    assert(is_first_album(m, x1.album_id as int, x1.artist_id as int, l));
    assert(is_first_album(m, x2.album_id as int, x1.artist_id as int, l));
    if x1.album_id < x2.album_id {
        assert(!album_named(m, x1.album_id as int, x1.artist_id as int, l));
    } else if x2.album_id < x1.album_id {
        assert(!album_named(m, x2.album_id as int, x1.artist_id as int, l));
    }
    if x1.title_string_id < x2.title_string_id {
        assert(m.strings[x1.title_string_id as int] != t);
    } else if x2.title_string_id < x1.title_string_id {
        assert(m.strings[x2.title_string_id as int] != t);
    }
    assert(same_key(x1, x2));
    if s1 != s2 {
        assert(!same_key(m.songs[s1], m.songs[s2]));
    }
}

/// Ingesting a title, artist and album a second time, after a first ingest
/// that left a song for them, reports that song as a duplicate: no second
/// row is appended and no second blob is placed.
pub proof fn lemma_ingest_twice(
    mid: CatalogueModel,
    end: CatalogueModel,
    f1: FileToSave,
    o1: IngestOutcome,
    f2: FileToSave,
    o2: IngestOutcome,
)
    requires
        consistent(mid),
        extends(mid, end),
        unique_active(end),
        is_song(o1),
        outcome_in(mid, f1, o1),
        is_song(o2),
        outcome_in(end, f2, o2),
        o2 is Added ==> outcome_song(o2) >= mid.songs.len(),
        same_names(f1, f2),
    ensures
        o2 is Duplicate,
        outcome_song(o2) == outcome_song(o1),
{
    lemma_outcome_stable(mid, end, f1, o1);
    lemma_same_names_same_song(end, f1, o1, f2, o2);
}

/// Every catalogue of an ingest trace from a consistent one is consistent.
pub proof fn lemma_trace_consistent(
    m_start: CatalogueModel,
    c_start: BlobCursor,
    files: Seq<FileToSave>,
    os: Seq<IngestOutcome>,
    ms: Seq<CatalogueModel>,
    cs: Seq<BlobCursor>,
    m_end: CatalogueModel,
    c_end: BlobCursor,
    a: int,
)
    requires
        ingest_trace(m_start, c_start, files, os, ms, cs, m_end, c_end),
        consistent(m_start),
        0 <= a <= files.len(),
    ensures
        consistent(ms[a]),
{
    if a > 0 {
        assert(ingest_step(ms[a - 1], cs[a - 1], files[a - 1], os[a - 1], ms[a], cs[a]));
    }
}

/// From any point `a` of an ingest trace on, the catalogue only grows:
/// every later catalogue extends `ms[a]`, the final one included, and live
/// keys that were distinct stay distinct.
pub proof fn lemma_trace_suffix(
    m_start: CatalogueModel,
    c_start: BlobCursor,
    files: Seq<FileToSave>,
    os: Seq<IngestOutcome>,
    ms: Seq<CatalogueModel>,
    cs: Seq<BlobCursor>,
    m_end: CatalogueModel,
    c_end: BlobCursor,
    a: int,
    b: int,
)
    requires
        ingest_trace(m_start, c_start, files, os, ms, cs, m_end, c_end),
        consistent(m_start),
        0 <= a <= b <= files.len(),
    ensures
        consistent(ms[a]),
        extends(ms[a], ms[b]),
        ms[a].songs.len() <= ms[b].songs.len(),
        unique_active(ms[a]) ==> unique_active(ms[b]),
    decreases b - a,
{
    lemma_trace_consistent(m_start, c_start, files, os, ms, cs, m_end, c_end, a);
    if b == a {
        lemma_extends_refl(ms[a]);
    } else {
        lemma_trace_suffix(m_start, c_start, files, os, ms, cs, m_end, c_end, a, b - 1);
        assert(ingest_step(ms[b - 1], cs[b - 1], files[b - 1], os[b - 1], ms[b], cs[b]));
        lemma_extends_trans(ms[a], ms[b - 1], ms[b]);
    }
}

/// Within one ingest batch, from a catalogue whose live songs have
/// distinct keys: any two files with the same title, artist and album that
/// became songs name the same song, and the later one is reported as a
/// duplicate. So however many such files a batch holds, at most one row
/// and one blob are added for them.
pub proof fn lemma_batch_dedup(
    m_start: CatalogueModel,
    c_start: BlobCursor,
    files: Seq<FileToSave>,
    os: Seq<IngestOutcome>,
    ms: Seq<CatalogueModel>,
    cs: Seq<BlobCursor>,
    m_end: CatalogueModel,
    c_end: BlobCursor,
    j: int,
    k: int,
)
    requires
        ingest_trace(m_start, c_start, files, os, ms, cs, m_end, c_end),
        consistent(m_start),
        unique_active(m_start),
        0 <= j < k < files.len(),
        is_song(os[j]),
        is_song(os[k]),
        same_names(files[j], files[k]),
    ensures
        outcome_song(os[j]) == outcome_song(os[k]),
        os[k] is Duplicate,
{
    let n = files.len() as int;
    assert(ingest_step(ms[j], cs[j], files[j], os[j], ms[j + 1], cs[j + 1]));
    assert(ingest_step(ms[k], cs[k], files[k], os[k], ms[k + 1], cs[k + 1]));
    lemma_trace_suffix(m_start, c_start, files, os, ms, cs, m_end, c_end, 0, n);
    lemma_trace_suffix(m_start, c_start, files, os, ms, cs, m_end, c_end, j + 1, n);
    lemma_trace_suffix(m_start, c_start, files, os, ms, cs, m_end, c_end, k + 1, n);
    lemma_trace_suffix(m_start, c_start, files, os, ms, cs, m_end, c_end, j + 1, k);
    lemma_outcome_stable(ms[j + 1], m_end, files[j], os[j]);
    lemma_outcome_stable(ms[k + 1], m_end, files[k], os[k]);
    lemma_same_names_same_song(m_end, files[j], os[j], files[k], os[k]);
    if os[k] is Added {
        assert(outcome_song(os[j]) < ms[j + 1].songs.len());
        assert(outcome_song(os[k]) == ms[k].songs.len());
    }
}

impl Catalogue {
    /// The first artist row named `name`, if any.
    pub fn find_artist(&self, name: &String) -> (r: Option<u32>)
        requires
            consistent(self@),
        ensures
            r matches Some(a) ==> is_first_artist(self@, a as int, name@),
            r is None ==> forall|j: int| 0 <= j < self@.artists.len() ==> !artist_named(self@, j, name@),
    {
        let mut i: usize = 0;
        while i < self.artists.len()
            invariant
                consistent(self@),
                i <= self@.artists.len(),
                forall|j: int| 0 <= j < i ==> !artist_named(self@, j, name@),
            decreases self@.artists.len() - i,
        {
            if self.strings.entry_is(self.artists[i].name_string_id, name) {
                return Some(i as u32);
            }
            i = i + 1;
        }
        None
    }

    /// The first album row of artist `artist_id` named `name`, if any.
    pub fn find_album(&self, artist_id: u32, name: &String) -> (r: Option<u32>)
        requires
            consistent(self@),
        ensures
            r matches Some(l) ==> is_first_album(self@, l as int, artist_id as int, name@),
            r is None ==> forall|j: int|
                0 <= j < self@.albums.len() ==> !album_named(self@, j, artist_id as int, name@),
    {
        let mut i: usize = 0;
        while i < self.albums.len()
            invariant
                consistent(self@),
                i <= self@.albums.len(),
                forall|j: int| 0 <= j < i ==> !album_named(self@, j, artist_id as int, name@),
            decreases self@.albums.len() - i,
        {
            let a = self.albums[i];
            if a.artist_id == artist_id && self.strings.entry_is(a.name_string_id, name) {
                return Some(i as u32);
            }
            i = i + 1;
        }
        None
    }

    /// The first live song with the given key, if any.
    pub fn find_active_song(&self, title_id: u32, artist_id: u32, album_id: u32) -> (r: Option<
        u32,
    >)
        requires
            self@.songs.len() <= u32::MAX,
        ensures
            r matches Some(s) ==> {
                &&& s < self@.songs.len()
                &&& active(self@.songs[s as int])
                &&& self@.songs[s as int].title_string_id == title_id
                &&& self@.songs[s as int].artist_id == artist_id
                &&& self@.songs[s as int].album_id == album_id
            },
            r is None ==> forall|j: int|
                0 <= j < self@.songs.len() && active(#[trigger] self@.songs[j]) ==> !(
                self@.songs[j].title_string_id == title_id && self@.songs[j].artist_id == artist_id
                    && self@.songs[j].album_id == album_id),
    {
        let mut i: usize = 0;
        while i < self.songs.len()
            invariant
                i <= self@.songs.len(),
                self@.songs.len() <= u32::MAX,
                forall|j: int|
                    0 <= j < i && active(#[trigger] self@.songs[j]) ==> !(
                    self@.songs[j].title_string_id == title_id && self@.songs[j].artist_id
                        == artist_id && self@.songs[j].album_id == album_id),
            decreases self@.songs.len() - i,
        {
            let s = self.songs[i];
            if s.is_active() && s.title_string_id == title_id && s.artist_id == artist_id
                && s.album_id == album_id {
                return Some(i as u32);
            }
            i = i + 1;
        }
        None
    }

    /// The first artist row named `name`, appended (with its name interned)
    /// when there is none. Returns the row and whether it was created.
    fn resolve_artist(&mut self, name: &String) -> (r: (u32, bool))
        requires
            consistent(old(self)@),
            has_room(old(self)@),
            fits_entry(name@),
        ensures
            consistent(final(self)@),
            extends(old(self)@, final(self)@),
            final(self)@.albums == old(self)@.albums,
            final(self)@.songs == old(self)@.songs,
            final(self)@.strings.len() <= old(self)@.strings.len() + 1,
            is_first_artist(final(self)@, r.0 as int, name@),
            old(self)@.strings.no_duplicates() ==> final(self)@.strings.no_duplicates(),
            r.1 == !artist_resolves(old(self)@, name@),
            r.1 ==> final(self)@.artists.len() == old(self)@.artists.len() + 1,
            !r.1 ==> final(self)@.artists.len() == old(self)@.artists.len(),
    {
        match self.find_artist(name) {
            Some(a) => {
                assert(self@.strings.subrange(0, self@.strings.len() as int) =~= self@.strings);
                assert(self@.artists.subrange(0, self@.artists.len() as int) =~= self@.artists);
                assert(self@.albums.subrange(0, self@.albums.len() as int) =~= self@.albums);
                assert(self@.songs.subrange(0, self@.songs.len() as int) =~= self@.songs);
                (a, false)
            },
            None => {
                let ghost before = self@;
                let id = self.artists.len() as u32;
                let name_id = self.strings.add(name.as_str());
                self.artists.push(ArtistEntry { name_string_id: name_id });
                proof {
                    let m = self@;
                    assert(m.strings.subrange(0, before.strings.len() as int) =~= before.strings);
                    assert(m.artists.subrange(0, before.artists.len() as int) =~= before.artists);
                    assert(m.albums.subrange(0, before.albums.len() as int) =~= before.albums);
                    assert(m.songs.subrange(0, before.songs.len() as int) =~= before.songs);
                    lemma_extends_keeps(before, m);
                    assert forall|j: int| 0 <= j < m.strings.len() implies fits_entry(
                        #[trigger] m.strings[j],
                    ) by {
                        if j < before.strings.len() {
                            assert(m.strings[j] == m.strings.subrange(
                                0,
                                before.strings.len() as int,
                            )[j]);
                        }
                    }
                    assert forall|j: int| 0 <= j < id implies !artist_named(m, j, name@) by {
                        assert(m.artists[j] == before.artists[j]);
                        assert(before.artists[j].name_string_id < before.strings.len());
                        assert(m.strings[m.artists[j].name_string_id as int]
                            == before.strings[before.artists[j].name_string_id as int]);
                        assert(!artist_named(before, j, name@));
                    }
                    assert(consistent(m));
                }
                (id, true)
            },
        }
    }

    /// The first album row of artist `artist_id` named `name`, appended (with
    /// its name interned and year `year`) when there is none. Returns the row
    /// and whether it was created.
    fn resolve_album(&mut self, artist_id: u32, name: &String, year: u16) -> (r: (u32, bool))
        requires
            consistent(old(self)@),
            old(self)@.strings.len() + 3 < u32::MAX,
            old(self)@.albums.len() < u32::MAX,
            fits_entry(name@),
            artist_id < old(self)@.artists.len(),
        ensures
            consistent(final(self)@),
            extends(old(self)@, final(self)@),
            final(self)@.artists == old(self)@.artists,
            final(self)@.songs == old(self)@.songs,
            final(self)@.strings.len() <= old(self)@.strings.len() + 1,
            is_first_album(final(self)@, r.0 as int, artist_id as int, name@),
            old(self)@.strings.no_duplicates() ==> final(self)@.strings.no_duplicates(),
            r.1 == !album_resolves(old(self)@, artist_id as int, name@),
            r.1 ==> final(self)@.albums.len() == old(self)@.albums.len() + 1,
            r.1 ==> final(self)@.albums[r.0 as int].year == year,
            !r.1 ==> final(self)@.albums.len() == old(self)@.albums.len(),
    {
        match self.find_album(artist_id, name) {
            Some(l) => {
                assert(self@.strings.subrange(0, self@.strings.len() as int) =~= self@.strings);
                assert(self@.artists.subrange(0, self@.artists.len() as int) =~= self@.artists);
                assert(self@.albums.subrange(0, self@.albums.len() as int) =~= self@.albums);
                assert(self@.songs.subrange(0, self@.songs.len() as int) =~= self@.songs);
                (l, false)
            },
            None => {
                let ghost before = self@;
                let id = self.albums.len() as u32;
                let name_id = self.strings.add(name.as_str());
                self.albums.push(AlbumEntry { name_string_id: name_id, artist_id, year });
                proof {
                    let m = self@;
                    assert(m.strings.subrange(0, before.strings.len() as int) =~= before.strings);
                    assert(m.artists.subrange(0, before.artists.len() as int) =~= before.artists);
                    assert(m.albums.subrange(0, before.albums.len() as int) =~= before.albums);
                    assert(m.songs.subrange(0, before.songs.len() as int) =~= before.songs);
                    lemma_extends_keeps(before, m);
                    assert forall|j: int| 0 <= j < m.strings.len() implies fits_entry(
                        #[trigger] m.strings[j],
                    ) by {
                        if j < before.strings.len() {
                            assert(m.strings[j] == m.strings.subrange(
                                0,
                                before.strings.len() as int,
                            )[j]);
                        }
                    }
                    assert forall|j: int| 0 <= j < id implies !album_named(
                        m,
                        j,
                        artist_id as int,
                        name@,
                    ) by {
                        assert(m.albums[j] == before.albums[j]);
                        assert(before.albums[j].name_string_id < before.strings.len());
                        assert(m.strings[m.albums[j].name_string_id as int]
                            == before.strings[before.albums[j].name_string_id as int]);
                        assert(!album_named(before, j, artist_id as int, name@));
                    }
                    assert(consistent(m));
                }
                (id, true)
            },
        }
    }

    /// Ingests one file: resolves or creates its artist and album, then either
    /// reports the live song it duplicates or appends a new live song whose
    /// blob takes the cursor's next slot. A file that is refused leaves the
    /// catalogue and the cursor as they were.
    pub fn ingest_one(&mut self, f: &FileToSave, cursor: &mut BlobCursor) -> (r: IngestOutcome)
        requires
            consistent(old(self)@),
        ensures
            ingest_step(old(self)@, *old(cursor), *f, r, final(self)@, *final(cursor)),
    {
        let ghost m0 = self@;
        proof {
            lemma_extends_refl(m0);
        }
        let md = &f.metadata;
        let title = match &md.title {
            Some(t) => t,
            None => {
                return IngestOutcome::Missing(RequiredField::Title);
            },
        };
        let artist = match &md.artist {
            Some(a) => a,
            None => {
                return IngestOutcome::Missing(RequiredField::Artist);
            },
        };
        let album = match &md.album {
            Some(a) => a,
            None => {
                return IngestOutcome::Missing(RequiredField::Album);
            },
        };
        if title.as_str().as_bytes().len() > 0xffff || artist.as_str().as_bytes().len() > 0xffff
            || album.as_str().as_bytes().len() > 0xffff {
            return IngestOutcome::TooLong;
        }
        let slot = match cursor.next_slot() {
            Some(s) => s,
            None => {
                return IngestOutcome::Full;
            },
        };
        let path = blob_path(slot.0, slot.1, f.extension.as_str());
        if path.as_str().as_bytes().len() > 0xffff {
            return IngestOutcome::TooLong;
        }
        if self.strings.len() >= 0xffff_fffb || self.artists.len() >= 0xffff_ffff
            || self.albums.len() >= 0xffff_ffff || self.songs.len() >= 0xffff_ffff {
            return IngestOutcome::Full;
        }
        assert(admissible(m0, *f, *old(cursor)));
        let (artist_id, artist_new) = self.resolve_artist(artist);
        let ghost m1 = self@;
        let year = match md.year {
            Some(y) => #[verifier::truncate] (y as u16),
            None => 0,
        };
        let (album_id, album_new) = self.resolve_album(artist_id, album, year);
        let ghost m2 = self@;
        proof {
            lemma_extends_keeps(m0, m1);
            assert(album_resolves(m1, artist_id as int, album@) == album_resolves(m0, artist_id as int, album@)) by {
                if album_resolves(m1, artist_id as int, album@) {
                    let j = choose|j: int| 0 <= j < m1.albums.len() && album_named(m1, j, artist_id as int, album@);
                    assert(album_named(m0, j, artist_id as int, album@));
                }
                if album_resolves(m0, artist_id as int, album@) {
                    let j = choose|j: int| 0 <= j < m0.albums.len() && album_named(m0, j, artist_id as int, album@);
                    assert(album_named(m1, j, artist_id as int, album@));
                }
            }
            assert(year == year_of(f.metadata));
            assert(m2.artists.len() == m0.artists.len() + if artist_resolves(m0, artist@) { 0int } else { 1int });
            assert(m2.albums.len() == m0.albums.len() + if album_resolves(m0, artist_id as int, album@) { 0int } else { 1int });
            assert(!album_resolves(m0, artist_id as int, album@) ==> m2.albums[album_id as int].year == year_of(f.metadata));
            lemma_extends_keeps(m1, m2);
            assert(m2.strings.subrange(0, m0.strings.len() as int) =~= m0.strings) by {
                assert(m1.strings.subrange(0, m0.strings.len() as int) == m0.strings);
                assert(m2.strings.subrange(0, m0.strings.len() as int) =~= m2.strings.subrange(
                    0,
                    m1.strings.len() as int,
                ).subrange(0, m0.strings.len() as int));
            }
            assert(m2.artists.subrange(0, m0.artists.len() as int) =~= m0.artists) by {
                assert(m1.artists.subrange(0, m0.artists.len() as int) == m0.artists);
            }
            assert(m2.albums.subrange(0, m0.albums.len() as int) =~= m0.albums);
            assert(m2.songs.subrange(0, m0.songs.len() as int) =~= m0.songs);
        }
        if let Some(tid) = self.strings.get_or_peek(title.as_str()) {
            if let Some(existing) = self.find_active_song(tid, artist_id, album_id) {
                assert(song_for(
                    self@,
                    existing as int,
                    title@,
                    artist@,
                    album@,
                    artist_id as int,
                    album_id as int,
                ));
                return IngestOutcome::Duplicate { song_id: existing, artist_id, album_id };
            }
        }
        let title_id = self.strings.add(title.as_str());
        let ghost m3 = self@;
        let path_id = self.strings.add(path.as_str());
        let ghost m4 = self@;
        let song_id = self.songs.len() as u32;
        let track = match md.track_number {
            Some(t) => #[verifier::truncate] (t as u16),
            None => 0,
        };
        let duration = match md.duration_secs {
            Some(d) => #[verifier::truncate] (d as u16),
            None => 0,
        };
        self.songs.push(SongEntry::new(title_id, artist_id, album_id, path_id, track, duration));
        cursor.advance();
        proof {
            let m = self@;
            assert(m.strings.subrange(0, m2.strings.len() as int) =~= m2.strings);
            assert(m.artists.subrange(0, m2.artists.len() as int) =~= m2.artists);
            assert(m.albums.subrange(0, m2.albums.len() as int) =~= m2.albums);
            assert(m.songs.subrange(0, m2.songs.len() as int) =~= m2.songs);
            lemma_extends_keeps(m2, m);
            assert(m.strings.subrange(0, m0.strings.len() as int) =~= m0.strings) by {
                assert(m.strings.subrange(0, m0.strings.len() as int) =~= m.strings.subrange(
                    0,
                    m2.strings.len() as int,
                ).subrange(0, m0.strings.len() as int));
            }
            assert(m.artists.subrange(0, m0.artists.len() as int) =~= m0.artists);
            assert(m.albums.subrange(0, m0.albums.len() as int) =~= m0.albums);
            assert(m.songs.subrange(0, m0.songs.len() as int) =~= m0.songs);
            assert forall|j: int| 0 <= j < m.strings.len() implies fits_entry(
                #[trigger] m.strings[j],
            ) by {
                if j < m2.strings.len() {
                    assert(m.strings[j] == m.strings.subrange(0, m2.strings.len() as int)[j]);
                }
            }
            assert(is_first_index(m.strings, title@, title_id as int));
            assert(m.songs[song_id as int].title_string_id == title_id);
            assert forall|i: int|
                0 <= i < m0.songs.len() && active(#[trigger] m0.songs[i]) implies !same_key(
                m0.songs[i],
                m.songs[song_id as int],
            ) by {
                assert(m2.songs[i] == m0.songs[i]);
                assert(m0.songs[i].title_string_id < m2.strings.len());
                if m0.songs[i].title_string_id == title_id && m0.songs[i].artist_id == artist_id
                    && m0.songs[i].album_id == album_id {
                    assert(is_first_index(m2.strings, title@, title_id as int));
                    assert(m2.strings.contains(title@));
                }
            }
            assert(consistent(m));
            lemma_flag_values();
            assert(m.strings[path_id as int] == path@);
            assert(is_first_artist(m2, artist_id as int, artist@));
            assert(is_first_artist(m, artist_id as int, artist@));
            assert(is_first_album(m, album_id as int, artist_id as int, album@));
            assert(song_for(m, song_id as int, title@, artist@, album@, artist_id as int, album_id as int));
            if unique_active(m0) {
                assert forall|i: int, j: int|
                    0 <= i < m.songs.len() && 0 <= j < m.songs.len() && i != j && active(
                        #[trigger] m.songs[i],
                    ) && active(#[trigger] m.songs[j]) implies !same_key(
                    m.songs[i],
                    m.songs[j],
                ) by {
                    if i < m0.songs.len() && j < m0.songs.len() {
                        assert(m.songs[i] == m0.songs[i]);
                        assert(m.songs[j] == m0.songs[j]);
                    } else if i < m0.songs.len() {
                        assert(m.songs[i] == m0.songs[i]);
                    } else {
                        assert(m.songs[j] == m0.songs[j]);
                    }
                }
            }
        }
        IngestOutcome::Added { song_id, artist_id, album_id, relative_path: path }
    }


    /// Ingests a batch of files in order. Each file is deduplicated against
    /// the catalogue as it stands when its turn comes, so files that repeat
    /// an earlier file of the same batch are reported as duplicates of it; a
    /// refused file does not stop the others.
    pub fn ingest(&mut self, files: &Vec<FileToSave>, cursor: &mut BlobCursor) -> (r:
        SaveToLibraryResult)
        requires
            consistent(old(self)@),
            files@.len() <= u32::MAX,
        ensures
            consistent(final(self)@),
            extends(old(self)@, final(self)@),
            unique_active(old(self)@) ==> unique_active(final(self)@),
            old(self)@.strings.no_duplicates() ==> final(self)@.strings.no_duplicates(),
            r.outcomes@.len() == files@.len(),
            exists|ms: Seq<CatalogueModel>, cs: Seq<BlobCursor>|
                #[trigger] ingest_trace(
                    old(self)@,
                    *old(cursor),
                    files@,
                    r.outcomes@,
                    ms,
                    cs,
                    final(self)@,
                    *final(cursor),
                ),
            forall|k: int|
                0 <= k < files@.len() ==> batch_outcome_ok(
                    old(self)@,
                    *old(cursor),
                    final(self)@,
                    #[trigger] files@[k],
                    r.outcomes@[k],
                    k,
                ),
            r.song_ids@ == added_ids(r.outcomes@),
            r.song_ids@ == Seq::new(
                (final(self)@.songs.len() - old(self)@.songs.len()) as nat,
                |i: int| (old(self)@.songs.len() + i) as u32,
            ),
            r.duplicate_song_ids@ == duplicate_ids(r.outcomes@),
            r.songs_added == final(self)@.songs.len() - old(self)@.songs.len(),
            r.files_saved == r.songs_added,
            r.artists_added == final(self)@.artists.len() - old(self)@.artists.len(),
            r.albums_added == final(self)@.albums.len() - old(self)@.albums.len(),
            r.duplicates_skipped == r.duplicate_song_ids@.len(),
    {
        let ghost m0 = self@;
        let ghost c0 = *cursor;
        proof {
            lemma_extends_refl(m0);
        }
        let n_songs0 = self.songs.len();
        let n_artists0 = self.artists.len();
        let n_albums0 = self.albums.len();
        let mut outcomes: Vec<IngestOutcome> = Vec::new();
        let mut song_ids: Vec<u32> = Vec::new();
        let mut duplicate_song_ids: Vec<u32> = Vec::new();
        let ghost mut ms: Seq<CatalogueModel> = seq![m0];
        let ghost mut cs: Seq<BlobCursor> = seq![c0];
        let mut k: usize = 0;
        while k < files.len()
            invariant
                ms.len() == k + 1,
                cs.len() == k + 1,
                ms[0] == m0,
                cs[0] == c0,
                ms[k as int] == self@,
                cs[k as int] == *cursor,
                forall|j: int|
                    0 <= j < k ==> ingest_step(
                        ms[j],
                        cs[j],
                        #[trigger] files@[j],
                        outcomes@[j],
                        ms[j + 1],
                        cs[j + 1],
                    ),
                k <= files@.len(),
                files@.len() <= u32::MAX,
                n_songs0 == m0.songs.len(),
                n_artists0 == m0.artists.len(),
                n_albums0 == m0.albums.len(),
                consistent(m0),
                consistent(self@),
                extends(m0, self@),
                unique_active(m0) ==> unique_active(self@),
                m0.strings.no_duplicates() ==> self@.strings.no_duplicates(),
                outcomes@.len() == k,
                forall|j: int|
                    0 <= j < k ==> batch_outcome_ok(
                        m0,
                        c0,
                        self@,
                        #[trigger] files@[j],
                        outcomes@[j],
                        j,
                    ),
                self@.strings.len() <= m0.strings.len() + 4 * k,
                self@.artists.len() <= m0.artists.len() + k,
                self@.albums.len() <= m0.albums.len() + k,
                self@.songs.len() <= m0.songs.len() + k,
                cursor.bucket <= c0.bucket + k,
                song_ids@ == added_ids(outcomes@),
                song_ids@ == Seq::new(
                    (self@.songs.len() - m0.songs.len()) as nat,
                    |i: int| (m0.songs.len() + i) as u32,
                ),
                duplicate_song_ids@ == duplicate_ids(outcomes@),
                duplicate_song_ids@.len() <= k,
            decreases files@.len() - k,
        {
            let ghost m1 = self@;
            let ghost c1 = *cursor;
            let o = self.ingest_one(&files[k], cursor);
            let ghost m2 = self@;
            let ghost ms_prev = ms;
            let ghost cs_prev = cs;
            proof {
                ms = ms.push(m2);
                cs = cs.push(*cursor);
                assert forall|j: int| 0 <= j <= k implies ms[j] == ms_prev[j] && cs[j] == cs_prev[j] by {}
            }
            proof {
                lemma_extends_trans(m0, m1, m2);
                assert forall|j: int| 0 <= j < k implies batch_outcome_ok(
                    m0,
                    c0,
                    m2,
                    #[trigger] files@[j],
                    outcomes@[j],
                    j,
                ) by {
                    assert(batch_outcome_ok(m0, c0, m1, files@[j], outcomes@[j], j));
                    lemma_outcome_stable(m1, m2, files@[j], outcomes@[j]);
                }
                if o is Full {
                    assert(!has_room(m1) || !has_next_slot(c1));
                }
            }
            let ghost old_out = outcomes@;
            let ghost og = o;
            match &o {
                IngestOutcome::Added { song_id, .. } => {
                    song_ids.push(*song_id);
                },
                IngestOutcome::Duplicate { song_id, .. } => {
                    duplicate_song_ids.push(*song_id);
                },
                _ => {},
            }
            outcomes.push(o);
            proof {
                assert(outcomes@.drop_last() =~= old_out);
                assert(outcomes@.last() == og);
                assert(added_ids(outcomes@) == added_ids(old_out) + match og {
                    IngestOutcome::Added { song_id, .. } => seq![song_id],
                    _ => Seq::<u32>::empty(),
                });
                assert(duplicate_ids(outcomes@) == duplicate_ids(old_out) + match og {
                    IngestOutcome::Duplicate { song_id, .. } => seq![song_id],
                    _ => Seq::<u32>::empty(),
                });
                assert(song_ids@ =~= added_ids(outcomes@));
                assert(duplicate_song_ids@ =~= duplicate_ids(outcomes@));
                assert(song_ids@ =~= Seq::new(
                    (self@.songs.len() - m0.songs.len()) as nat,
                    |i: int| (m0.songs.len() + i) as u32,
                ));
                assert forall|j: int| 0 <= j < k + 1 implies ingest_step(
                    ms[j],
                    cs[j],
                    #[trigger] files@[j],
                    outcomes@[j],
                    ms[j + 1],
                    cs[j + 1],
                ) by {
                    if j < k {
                        assert(outcomes@[j] == outcomes@.drop_last()[j]);
                        assert(ingest_step(ms_prev[j], cs_prev[j], files@[j], old_out[j], ms_prev[j + 1], cs_prev[j + 1]));
                    }
                }
                assert forall|j: int| 0 <= j < k + 1 implies batch_outcome_ok(
                    m0,
                    c0,
                    m2,
                    #[trigger] files@[j],
                    outcomes@[j],
                    j,
                ) by {
                    if j < k {
                        assert(outcomes@[j] == outcomes@.drop_last()[j]);
                    }
                }
            }
            k = k + 1;
        }
        assert(ingest_trace(m0, c0, files@, outcomes@, ms, cs, self@, *cursor));
        let songs_added = (self.songs.len() - n_songs0) as u32;
        let duplicates_skipped = duplicate_song_ids.len() as u32;
        SaveToLibraryResult {
            files_saved: songs_added,
            artists_added: (self.artists.len() - n_artists0) as u32,
            albums_added: (self.albums.len() - n_albums0) as u32,
            songs_added,
            duplicates_skipped,
            song_ids,
            duplicate_song_ids,
            outcomes,
        }
    }


    /// Replaces the metadata of live song `song_id` (a deleted or unknown id
    /// is not found): the old row is flagged deleted and a new live row is
    /// appended with the new title, artist and album (created only if they
    /// do not resolve yet) and the old row's blob path. The new row has a
    /// fresh id. A refused edit changes nothing.
    pub fn edit_song(&mut self, song_id: u32, md: &AudioMetadata) -> (r: Result<
        EditSongResult,
        EditError,
    >)
        requires
            consistent(old(self)@),
        ensures
            consistent(final(self)@),
            old(self)@.strings.no_duplicates() ==> final(self)@.strings.no_duplicates(),
            r is Err ==> final(self)@ == old(self)@,
            r matches Err(e) ==> (e == EditError::NotFound <==> !live_song(old(self)@, song_id as int)),
            r matches Err(e) ==> (e is Missing ==> !metadata_complete(*md)),
            live_song(old(self)@, song_id as int) && !metadata_complete(*md) ==> r == Err::<
                EditSongResult,
                EditError,
            >(EditError::Missing(missing_of(*md)[0])),
            r is Ok <==> live_song(old(self)@, song_id as int) && edit_admissible(old(self)@, *md),
            r matches Ok(e) ==> {
                let old_row = old(self)@.songs[song_id as int];
                let new_row = final(self)@.songs[e.new_song_id as int];
                &&& e.new_song_id == old(self)@.songs.len()
                &&& e.new_song_id != song_id
                &&& final(self)@.songs.len() == old(self)@.songs.len() + 1
                &&& final(self)@.songs[song_id as int] == (SongEntry { flags: SONG_DELETED, ..old_row })
                &&& (forall|i: int|
                    0 <= i < old(self)@.songs.len() && i != song_id ==> final(self)@.songs[i]
                        == old(self)@.songs[i])
                &&& final(self)@.strings.subrange(0, old(self)@.strings.len() as int) == old(self)@.strings
                &&& final(self)@.artists.subrange(0, old(self)@.artists.len() as int) == old(self)@.artists
                &&& final(self)@.albums.subrange(0, old(self)@.albums.len() as int) == old(self)@.albums
                &&& new_row.path_string_id == old_row.path_string_id
                &&& active(new_row)
                &&& is_first_index(final(self)@.strings, md.title->Some_0@, new_row.title_string_id as int)
                &&& is_first_artist(final(self)@, new_row.artist_id as int, md.artist->Some_0@)
                &&& is_first_album(
                    final(self)@,
                    new_row.album_id as int,
                    new_row.artist_id as int,
                    md.album->Some_0@,
                )
                &&& new_row.track_number == md.track_number.unwrap_or(0) as u16
                &&& new_row.duration_sec == md.duration_secs.unwrap_or(0) as u16
                &&& final(self)@.strings.len() >= old(self)@.strings.len()
                &&& e.artist_created == !artist_resolves(old(self)@, md.artist->Some_0@)
                &&& final(self)@.artists.len() == old(self)@.artists.len() + if e.artist_created {
                    1int
                } else {
                    0int
                }
                &&& e.album_created == !album_resolves(
                    old(self)@,
                    new_row.artist_id as int,
                    md.album->Some_0@,
                )
                &&& final(self)@.albums.len() == old(self)@.albums.len() + if e.album_created {
                    1int
                } else {
                    0int
                }
                &&& e.album_created ==> final(self)@.albums[new_row.album_id as int].year == year_of(*md)
                &&& e.playlists_updated == 0
            },
    {
        let ghost m0 = self@;
        if song_id as usize >= self.songs.len() || !self.songs[song_id as usize].is_active() {
            return Err(EditError::NotFound);
        }
        let title = match &md.title {
            Some(t) => t,
            None => {
                return Err(EditError::Missing(RequiredField::Title));
            },
        };
        let artist = match &md.artist {
            Some(a) => a,
            None => {
                return Err(EditError::Missing(RequiredField::Artist));
            },
        };
        let album = match &md.album {
            Some(a) => a,
            None => {
                return Err(EditError::Missing(RequiredField::Album));
            },
        };
        if title.as_str().as_bytes().len() > 0xffff || artist.as_str().as_bytes().len() > 0xffff
            || album.as_str().as_bytes().len() > 0xffff {
            return Err(EditError::TooLong);
        }
        if self.strings.len() >= 0xffff_fffb || self.artists.len() >= 0xffff_ffff
            || self.albums.len() >= 0xffff_ffff || self.songs.len() >= 0xffff_ffff {
            return Err(EditError::Full);
        }
        let (artist_id, artist_new) = self.resolve_artist(artist);
        let ghost m1 = self@;
        let year = match md.year {
            Some(y) => #[verifier::truncate] (y as u16),
            None => 0,
        };
        let (album_id, album_new) = self.resolve_album(artist_id, album, year);
        let ghost m2 = self@;
        proof {
            lemma_extends_keeps(m0, m1);
            assert(album_resolves(m1, artist_id as int, album@) == album_resolves(m0, artist_id as int, album@)) by {
                if album_resolves(m1, artist_id as int, album@) {
                    let j = choose|j: int| 0 <= j < m1.albums.len() && album_named(m1, j, artist_id as int, album@);
                    assert(album_named(m0, j, artist_id as int, album@));
                }
                if album_resolves(m0, artist_id as int, album@) {
                    let j = choose|j: int| 0 <= j < m0.albums.len() && album_named(m0, j, artist_id as int, album@);
                    assert(album_named(m1, j, artist_id as int, album@));
                }
            }
            assert(year == year_of(*md));
        }
        let title_id = self.strings.add(title.as_str());
        let ghost m3 = self@;
        let old_row = self.songs[song_id as usize];
        let track = match md.track_number {
            Some(t) => #[verifier::truncate] (t as u16),
            None => 0,
        };
        let duration = match md.duration_secs {
            Some(d) => #[verifier::truncate] (d as u16),
            None => 0,
        };
        let new_song_id = self.songs.len() as u32;
        self.songs.set(song_id as usize, SongEntry { flags: SONG_DELETED, ..old_row });
        self.songs.push(
            SongEntry::new(title_id, artist_id, album_id, old_row.path_string_id, track, duration),
        );
        proof {
            let m = self@;
            lemma_flag_values();
            lemma_extends_keeps(m1, m2);
            lemma_extends_trans(m0, m1, m2);
            assert(m3.artists == m2.artists && m3.albums == m2.albums && m3.songs == m2.songs);
            assert(m3.strings.subrange(0, m2.strings.len() as int) =~= m2.strings);
            assert(m3.artists.subrange(0, m2.artists.len() as int) =~= m2.artists);
            assert(m3.albums.subrange(0, m2.albums.len() as int) =~= m2.albums);
            assert(m3.songs.subrange(0, m2.songs.len() as int) =~= m2.songs);
            assert(extends(m2, m3));
            lemma_extends_keeps(m2, m3);
            lemma_extends_trans(m0, m2, m3);
            assert forall|j: int| 0 <= j < m.strings.len() implies fits_entry(
                #[trigger] m.strings[j],
            ) by {
                if j < m2.strings.len() {
                    assert(m.strings[j] == m3.strings.subrange(0, m2.strings.len() as int)[j]);
                }
            }
            assert forall|i: int| 0 <= i < m.songs.len() implies {
                &&& (#[trigger] m.songs[i]).title_string_id < m.strings.len()
                &&& m.songs[i].path_string_id < m.strings.len()
                &&& m.songs[i].artist_id < m.artists.len()
                &&& m.songs[i].album_id < m.albums.len()
            } by {
                if i < m0.songs.len() {
                    assert(m3.songs[i] == m0.songs[i]) by {
                        assert(m3.songs.subrange(0, m0.songs.len() as int)[i] == m3.songs[i]);
                    }
                }
            }
            assert(consistent(m));
            assert forall|i: int| 0 <= i < m0.songs.len() && i != song_id implies m.songs[i]
                == m0.songs[i] by {
                assert(m3.songs.subrange(0, m0.songs.len() as int)[i] == m3.songs[i]);
            }
            assert(m.strings == m3.strings && m.artists == m3.artists && m.albums == m3.albums);
            assert(is_first_artist(m3, artist_id as int, artist@));
            assert(is_first_album(m3, album_id as int, artist_id as int, album@));
            lemma_first_ignores_songs(m3, m);
            assert(m.strings.subrange(0, m0.strings.len() as int) == m0.strings);
            assert(old_row == m0.songs[song_id as int]) by {
                assert(m3.songs.subrange(0, m0.songs.len() as int)[song_id as int] == m3.songs[song_id as int]);
            }
            let new_row = m.songs[new_song_id as int];
            assert(m.songs[song_id as int] == (SongEntry { flags: SONG_DELETED, ..m0.songs[song_id as int] }));
            assert(m.artists.subrange(0, m0.artists.len() as int) == m0.artists);
            assert(m.albums.subrange(0, m0.albums.len() as int) == m0.albums);
            assert(new_row.path_string_id == m0.songs[song_id as int].path_string_id);
            assert(active(new_row));
            assert(is_first_index(m.strings, title@, new_row.title_string_id as int));
            assert(is_first_artist(m, new_row.artist_id as int, artist@));
            assert(is_first_album(m, new_row.album_id as int, new_row.artist_id as int, album@));
        }
        Ok(
            EditSongResult {
                new_song_id,
                artist_created: artist_new,
                album_created: album_new,
                playlists_updated: 0,
            },
        )
    }

}

} // verus!
