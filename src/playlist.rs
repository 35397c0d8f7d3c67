//! Playlist files and the operations on a playlist's song ids. A playlist
//! refers to catalogue songs by id only; when the catalogue renumbers songs
//! (edit, compaction) the ids are remapped here.
use vstd::prelude::*;
use vstd::utf8::*;

use crate::catalogue::{lemma_rows_bytes, rows_bytes, utf8_to_string};
use crate::codec::{get_le32, le16, le32, lemma_le16_read, lemma_le32_read, push_le32, read_le16, read_le32};
use crate::records::{playlist_header_accepted, playlist_magic, PlaylistHeader, PLAYLIST_VERSION};
use crate::audio::AudioMetadata;
use crate::library::{is_song, outcome_song, IngestOutcome, SaveToLibraryResult};
use crate::string_table::{fits_entry, utf8_of};

verus! {

/// Why a playlist file was refused, or could not be written.
#[derive(Clone, Copy, Debug, PartialEq, Eq, Structural)]
pub enum PlaylistError {
    /// Shorter than a header, or the tag is not the playlist tag.
    BadHeader,
    /// The file ends inside the name or the song ids.
    Truncated,
    /// The name is not well-formed UTF-8.
    BadName,
    /// The name is too long for its 16-bit length field.
    NameTooLong,
}

/// A playlist as read from its file.
#[derive(Clone, Debug)]
pub struct ParsedPlaylist {
    /// Playlist id (from the file name).
    pub id: u32,
    pub name: String,
    pub song_count: u32,
    /// Song ids in playback order; repeats allowed.
    pub song_ids: Vec<u32>,
}

/// The bytes of a list of song ids.
pub open spec fn ids_bytes(ids: Seq<u32>) -> Seq<u8> {
    rows_bytes(ids, |x: u32| le32(x))
}

/// The bytes of a playlist file.
pub open spec fn playlist_file_bytes(name: Seq<char>, ids: Seq<u32>) -> Seq<u8> {
    playlist_magic() + le32(PLAYLIST_VERSION) + le32(ids.len() as u32) + le16(
        utf8_of(name).len() as u16,
    ) + utf8_of(name) + ids_bytes(ids)
}

/// The name and song ids a playlist file holds, or why it is refused.
pub open spec fn playlist_of(b: Seq<u8>) -> Result<(Seq<char>, Seq<u32>), PlaylistError> {
    if !playlist_header_accepted(b) {
        Err(PlaylistError::BadHeader)
    } else {
        let n = read_le16(b, 12) as int;
        let count = read_le32(b, 8) as int;
        if 14 + n > b.len() {
            Err(PlaylistError::Truncated)
        } else if !valid_utf8(b.subrange(14, 14 + n)) {
            Err(PlaylistError::BadName)
        } else if 14 + n + 4 * count > b.len() {
            Err(PlaylistError::Truncated)
        } else {
            Ok(
                (
                    decode_utf8(b.subrange(14, 14 + n)),
                    Seq::new(count as nat, |i: int| read_le32(b, 14 + n + 4 * i)),
                ),
            )
        }
    }
}

/// The bytes of a playlist file named `name` holding `song_ids`; refused
/// when the name does not fit its 16-bit length field.
pub fn encode_playlist(name: &str, song_ids: &Vec<u32>) -> (r: Result<Vec<u8>, PlaylistError>)
    requires
        song_ids@.len() <= u32::MAX,
    ensures
        r is Ok <==> fits_entry(name@),
        r matches Ok(b) ==> b@ == playlist_file_bytes(name@, song_ids@),
        r matches Err(e) ==> e == PlaylistError::NameTooLong,
{
    let name_bytes = name.as_bytes();
    if name_bytes.len() > 0xffff {
        return Err(PlaylistError::NameTooLong);
    }
    let header = PlaylistHeader::new(song_ids.len() as u32, name_bytes.len() as u16);
    let mut out = header.to_bytes();
    let mut i: usize = 0;
    let ghost start = out@;
    while i < name_bytes.len()
        invariant
            i <= name_bytes@.len(),
            out@ == start + name_bytes@.subrange(0, i as int),
        decreases name_bytes@.len() - i,
    {
        out.push(name_bytes[i]);
        i = i + 1;
        assert(out@ =~= start + name_bytes@.subrange(0, i as int));
    }
    assert(name_bytes@.subrange(0, i as int) =~= name_bytes@);
    let ghost mid = out@;
    let mut k: usize = 0;
    while k < song_ids.len()
        invariant
            k <= song_ids@.len(),
            out@ == mid + ids_bytes(song_ids@.subrange(0, k as int)),
        decreases song_ids@.len() - k,
    {
        push_le32(&mut out, song_ids[k]);
        proof {
            let p = song_ids@.subrange(0, k + 1);
            assert(p.drop_last() =~= song_ids@.subrange(0, k as int));
        }
        k = k + 1;
        assert(out@ =~= mid + ids_bytes(song_ids@.subrange(0, k as int)));
    }
    assert(song_ids@.subrange(0, k as int) =~= song_ids@);
    assert(header.magic@ == playlist_magic());
    assert(out@ =~= playlist_file_bytes(name@, song_ids@));
    Ok(out)
}

/// Parses a playlist file; `playlist_id` is the id its file name gives.
pub fn parse_playlist(data: &[u8], playlist_id: u32) -> (r: Result<ParsedPlaylist, PlaylistError>)
    ensures
        r matches Ok(p) ==> {
            &&& playlist_of(data@) == Ok::<(Seq<char>, Seq<u32>), PlaylistError>((p.name@, p.song_ids@))
            &&& p.id == playlist_id
            &&& p.song_count == p.song_ids@.len()
        },
        r matches Err(e) ==> playlist_of(data@) == Err::<(Seq<char>, Seq<u32>), PlaylistError>(e),
{
    let header = match PlaylistHeader::from_bytes(data) {
        Some(h) => h,
        None => {
            return Err(PlaylistError::BadHeader);
        },
    };
    let len = data.len();
    let n = header.name_length as usize;
    if n > len - 14 {
        return Err(PlaylistError::Truncated);
    }
    let name_bytes = vstd::slice::slice_to_vec(vstd::slice::slice_subrange(data, 14, 14 + n));
    let name = match utf8_to_string(name_bytes) {
        Some(s) => s,
        None => {
            return Err(PlaylistError::BadName);
        },
    };
    let count = header.song_count as usize;
    let start = 14 + n;
    if (len - start) / 4 < count {
        proof {
            assert(start + 4 * count > len) by (nonlinear_arith)
                requires
                    (len - start) / 4 < count,
                    start <= len,
            ;
        }
        return Err(PlaylistError::Truncated);
    }
    assert(start + 4 * count <= len) by (nonlinear_arith)
        requires
            (len - start) / 4 >= count,
            start <= len,
    ;
    let mut ids: Vec<u32> = Vec::with_capacity(count);
    let mut i: usize = 0;
    while i < count
        invariant
            i <= count,
            start + 4 * count <= len,
            len == data@.len(),
            ids@ == Seq::new(i as nat, |j: int| read_le32(data@, start + 4 * j)),
        decreases count - i,
    {
        assert(4 * i + 4 <= 4 * count) by (nonlinear_arith)
            requires
                i < count,
        ;
        ids.push(get_le32(data, start + 4 * i));
        i = i + 1;
        assert(ids@ =~= Seq::new(i as nat, |j: int| read_le32(data@, start + 4 * j)));
    }
    Ok(ParsedPlaylist { id: playlist_id, name, song_count: header.song_count, song_ids: ids })
}

/// A playlist written out reads back as the same name and song ids.
pub proof fn lemma_playlist_round_trip(name: Seq<char>, ids: Seq<u32>)
    requires
        fits_entry(name),
        ids.len() <= u32::MAX,
    ensures
        playlist_of(playlist_file_bytes(name, ids)) == Ok::<(Seq<char>, Seq<u32>), PlaylistError>(
            (name, ids),
        ),
{
    let b = playlist_file_bytes(name, ids);
    let u = utf8_of(name);
    let n = u.len() as int;
    let f = |x: u32| le32(x);
    assert forall|x: u32| #[trigger] f(x).len() == 4 by {}
    lemma_rows_bytes(ids, f, 4);
    let t = ids_bytes(ids);
    assert(b.subrange(0, 4) =~= playlist_magic());
    assert(b.subrange(8, 12) =~= le32(ids.len() as u32));
    lemma_le32_read(b, 8, ids.len() as u32);
    assert(b.subrange(12, 14) =~= le16(n as u16));
    lemma_le16_read(b, 12, n as u16);
    assert(b.subrange(14, 14 + n) =~= u);
    encode_utf8_valid_utf8(name);
    encode_utf8_decode_utf8(name);
    assert(b.subrange(14 + n, b.len() as int) =~= t);
    let got = Seq::new(ids.len(), |i: int| read_le32(b, 14 + n + 4 * i));
    assert forall|i: int| 0 <= i < ids.len() implies got[i] == ids[i] by {
        assert(0 <= 4 * i && 4 * i + 4 <= 4 * ids.len()) by (nonlinear_arith)
            requires
                0 <= i < ids.len(),
        ;
        assert(b.subrange(14 + n + 4 * i, 14 + n + 4 * i + 4) =~= t.subrange(4 * i, 4 * i + 4));
        lemma_le32_read(b, 14 + n + 4 * i, ids[i]);
    }
    assert(got =~= ids);
}

/// `ids` with every occurrence of `old_id` replaced by `new_id`.
pub open spec fn replaced(ids: Seq<u32>, old_id: u32, new_id: u32) -> Seq<u32> {
    Seq::new(ids.len(), |i: int| if ids[i] == old_id { new_id } else { ids[i] })
}

/// `ids` renumbered through `map`: ids with no entry are dropped, the
/// others replaced by their entry, order kept.
pub open spec fn renumbered(ids: Seq<u32>, map: Seq<Option<u32>>) -> Seq<u32>
    decreases ids.len(),
{
    if ids.len() == 0 {
        Seq::empty()
    } else {
        let x = ids.last() as int;
        renumbered(ids.drop_last(), map) + if x < map.len() && map[x] is Some {
            seq![map[x]->Some_0]
        } else {
            Seq::empty()
        }
    }
}

/// `ids` followed by the ids of `new` that `ids` does not hold, in order.
pub open spec fn with_added(ids: Seq<u32>, new: Seq<u32>) -> Seq<u32>
    decreases new.len(),
{
    if new.len() == 0 {
        ids
    } else {
        with_added(ids, new.drop_last()) + if ids.contains(new.last()) {
            Seq::empty()
        } else {
            seq![new.last()]
        }
    }
}

/// The ids of `ids` that `remove` does not hold, in order.
pub open spec fn without(ids: Seq<u32>, remove: Seq<u32>) -> Seq<u32>
    decreases ids.len(),
{
    if ids.len() == 0 {
        Seq::empty()
    } else {
        without(ids.drop_last(), remove) + if remove.contains(ids.last()) {
            Seq::empty()
        } else {
            seq![ids.last()]
        }
    }
}

/// Replaces each occurrence of `old_id` by `new_id`, keeping order and
/// repeats; also says whether there was any occurrence.
pub fn remap_song_id(ids: &Vec<u32>, old_id: u32, new_id: u32) -> (r: (Vec<u32>, bool))
    ensures
        r.0@ == replaced(ids@, old_id, new_id),
        r.1 == ids@.contains(old_id),
{
    let mut out: Vec<u32> = Vec::with_capacity(ids.len());
    let mut found = false;
    let mut i: usize = 0;
    while i < ids.len()
        invariant
            i <= ids@.len(),
            out@ == replaced(ids@.subrange(0, i as int), old_id, new_id),
            found == ids@.subrange(0, i as int).contains(old_id),
        decreases ids@.len() - i,
    {
        let ghost prev = ids@.subrange(0, i as int);
        let x = ids[i];
        if x == old_id {
            out.push(new_id);
            found = true;
        } else {
            out.push(x);
        }
        i = i + 1;
        proof {
            let cur = ids@.subrange(0, i as int);
            assert(cur =~= prev.push(x));
            assert(out@ =~= replaced(cur, old_id, new_id));
            if x == old_id {
                assert(cur[i - 1] == old_id);
            } else if prev.contains(old_id) {
                let j = choose|j: int| 0 <= j < prev.len() && prev[j] == old_id;
                assert(cur[j] == old_id);
            } else {
                assert forall|j: int| 0 <= j < cur.len() implies cur[j] != old_id by {
                    if j < prev.len() {
                        assert(cur[j] == prev[j]);
                    }
                }
            }
        }
    }
    assert(ids@.subrange(0, i as int) =~= ids@);
    (out, found)
}

/// Renumbers a playlist's ids through compaction's song map: ids of
/// removed songs (and ids past the map) are dropped, the rest renumbered,
/// order and repeats kept.
pub fn remap_for_compaction(ids: &Vec<u32>, song_map: &Vec<Option<u32>>) -> (r: Vec<u32>)
    ensures
        r@ == renumbered(ids@, song_map@),
{
    let mut out: Vec<u32> = Vec::new();
    let mut i: usize = 0;
    while i < ids.len()
        invariant
            i <= ids@.len(),
            out@ == renumbered(ids@.subrange(0, i as int), song_map@),
        decreases ids@.len() - i,
    {
        let x = ids[i];
        if (x as usize) < song_map.len() {
            if let Some(y) = song_map[x as usize] {
                out.push(y);
            }
        }
        proof {
            let p = ids@.subrange(0, i + 1);
            assert(p.drop_last() =~= ids@.subrange(0, i as int));
        }
        i = i + 1;
        assert(out@ =~= renumbered(ids@.subrange(0, i as int), song_map@));
    }
    assert(ids@.subrange(0, i as int) =~= ids@);
    out
}

/// Appends the ids of `new` that the playlist does not already hold;
/// returns the new list and how many were appended.
pub fn add_songs(ids: &Vec<u32>, new: &Vec<u32>) -> (r: (Vec<u32>, u32))
    requires
        ids@.len() + new@.len() <= u32::MAX,
    ensures
        r.0@ == with_added(ids@, new@),
        r.1 == r.0@.len() - ids@.len(),
{
    let mut out: Vec<u32> = ids.clone();
    let mut added: u32 = 0;
    let mut i: usize = 0;
    while i < new.len()
        invariant
            i <= new@.len(),
            ids@.len() + new@.len() <= u32::MAX,
            out@ == with_added(ids@, new@.subrange(0, i as int)),
            out@.len() == ids@.len() + added,
            added <= i,
        decreases new@.len() - i,
    {
        let x = new[i];
        let mut present = false;
        let mut j: usize = 0;
        while j < ids.len()
            invariant
                j <= ids@.len(),
                present == ids@.subrange(0, j as int).contains(x),
            decreases ids@.len() - j,
        {
            proof {
                let p = ids@.subrange(0, j as int);
                let q = ids@.subrange(0, j + 1);
                assert(q =~= p.push(ids@[j as int]));
                if p.contains(x) {
                    let w = choose|w: int| 0 <= w < p.len() && p[w] == x;
                    assert(q[w] == x);
                }
                if ids@[j as int] == x {
                    assert(q[j as int] == x);
                }
                if q.contains(x) && ids@[j as int] != x {
                    let w = choose|w: int| 0 <= w < q.len() && q[w] == x;
                    assert(p[w] == x);
                }
            }
            if ids[j] == x {
                present = true;
            }
            j = j + 1;
        }
        assert(ids@.subrange(0, j as int) =~= ids@);
        if !present {
            out.push(x);
            added = added + 1;
        }
        proof {
            let p = new@.subrange(0, i + 1);
            assert(p.drop_last() =~= new@.subrange(0, i as int));
        }
        i = i + 1;
        assert(out@ =~= with_added(ids@, new@.subrange(0, i as int)));
    }
    assert(new@.subrange(0, i as int) =~= new@);
    (out, added)
}

/// Removes every occurrence of the ids in `remove`; returns the new list
/// and how many entries went.
pub fn remove_songs(ids: &Vec<u32>, remove: &Vec<u32>) -> (r: (Vec<u32>, u32))
    requires
        ids@.len() <= u32::MAX,
    ensures
        r.0@ == without(ids@, remove@),
        r.1 == ids@.len() - r.0@.len(),
{
    let mut out: Vec<u32> = Vec::new();
    let mut i: usize = 0;
    while i < ids.len()
        invariant
            i <= ids@.len(),
            out@ == without(ids@.subrange(0, i as int), remove@),
            out@.len() <= i,
        decreases ids@.len() - i,
    {
        let x = ids[i];
        let mut hit = false;
        let mut j: usize = 0;
        while j < remove.len()
            invariant
                j <= remove@.len(),
                hit == remove@.subrange(0, j as int).contains(x),
            decreases remove@.len() - j,
        {
            proof {
                let p = remove@.subrange(0, j as int);
                let q = remove@.subrange(0, j + 1);
                assert(q =~= p.push(remove@[j as int]));
                if p.contains(x) {
                    let w = choose|w: int| 0 <= w < p.len() && p[w] == x;
                    assert(q[w] == x);
                }
                if remove@[j as int] == x {
                    assert(q[j as int] == x);
                }
                if q.contains(x) && remove@[j as int] != x {
                    let w = choose|w: int| 0 <= w < q.len() && q[w] == x;
                    assert(p[w] == x);
                }
            }
            if remove[j] == x {
                hit = true;
            }
            j = j + 1;
        }
        assert(remove@.subrange(0, j as int) =~= remove@);
        if !hit {
            out.push(x);
        }
        proof {
            let p = ids@.subrange(0, i + 1);
            assert(p.drop_last() =~= ids@.subrange(0, i as int));
        }
        i = i + 1;
        assert(out@ =~= without(ids@.subrange(0, i as int), remove@));
    }
    assert(ids@.subrange(0, i as int) =~= ids@);
    let removed = (ids.len() - out.len()) as u32;
    (out, removed)
}

/// The largest of `ids`, or 0 when there is none.
pub open spec fn max_id(ids: Seq<u32>) -> u32
    decreases ids.len(),
{
    if ids.len() == 0 {
        0
    } else if max_id(ids.drop_last()) >= ids.last() {
        max_id(ids.drop_last())
    } else {
        ids.last()
    }
}

/// The id for a new playlist: one more than the largest id in use (1 when
/// there is none); `None` when the largest id in use is the last one.
pub fn next_playlist_id(existing: &Vec<u32>) -> (r: Option<u32>)
    ensures
        r is Some <==> max_id(existing@) < u32::MAX,
        r matches Some(id) ==> id == max_id(existing@) + 1,
{
    let mut best: u32 = 0;
    let mut i: usize = 0;
    while i < existing.len()
        invariant
            i <= existing@.len(),
            best == max_id(existing@.subrange(0, i as int)),
        decreases existing@.len() - i,
    {
        proof {
            let p = existing@.subrange(0, i + 1);
            assert(p.drop_last() =~= existing@.subrange(0, i as int));
        }
        if existing[i] > best {
            best = existing[i];
        }
        i = i + 1;
    }
    assert(existing@.subrange(0, i as int) =~= existing@);
    if best == u32::MAX {
        None
    } else {
        Some(best + 1)
    }
}

/// After an edit gives a song a new id, rewriting a playlist through
/// `remap_song_id` puts the new id exactly where the old one stood, keeps
/// every other entry and the order, and leaves no reference to the old id.
pub proof fn lemma_edit_remap(ids: Seq<u32>, old_id: u32, new_id: u32)
    requires
        old_id != new_id,
    ensures
        replaced(ids, old_id, new_id).len() == ids.len(),
        !replaced(ids, old_id, new_id).contains(old_id),
        forall|i: int|
            0 <= i < ids.len() ==> (#[trigger] replaced(ids, old_id, new_id)[i]) == if ids[i]
                == old_id {
                new_id
            } else {
                ids[i]
            },
{
    let r = replaced(ids, old_id, new_id);
    if r.contains(old_id) {
        let i = choose|i: int| 0 <= i < r.len() && r[i] == old_id;
        assert(r[i] == if ids[i] == old_id { new_id } else { ids[i] });
    }
}

/// A request to create a playlist.
#[derive(Clone, Debug)]
pub struct CreatePlaylistInput {
    pub name: String,
    pub song_ids: Vec<u32>,
}

/// Outcome of creating a playlist or changing its songs.
#[derive(Clone, Copy, Debug, PartialEq, Eq, Structural)]
pub struct CreatePlaylistResult {
    pub playlist_id: u32,
    /// Songs added (or, for a removal, removed).
    pub songs_added: u32,
}

/// One file to ingest and enroll into a new playlist.
#[derive(Clone, Debug)]
pub struct FileToSaveWithPlaylist {
    pub source_path: String,
    pub extension: String,
    pub metadata: AudioMetadata,
}

/// Outcome of ingesting files and creating a playlist of them.
#[derive(Clone, Debug)]
pub struct SaveToPlaylistResult {
    pub files_saved: u32,
    pub artists_added: u32,
    pub albums_added: u32,
    pub songs_added: u32,
    pub duplicates_skipped: u32,
    pub playlist_id: u32,
    pub playlist_name: String,
    /// Album of each song enrolled, in playlist order.
    pub album_ids: Vec<u32>,
}

/// Outcome of deleting a playlist.
#[derive(Clone, Copy, Debug, PartialEq, Eq, Structural)]
pub struct DeletePlaylistResult {
    pub deleted: bool,
}

/// A playlist in a listing.
#[derive(Clone, Debug)]
pub struct PlaylistSummary {
    pub id: u32,
    pub name: String,
    pub song_count: u32,
}

/// Outcome of renaming a playlist.
#[derive(Clone, Debug)]
pub struct RenamePlaylistResult {
    pub success: bool,
    pub old_name: String,
    pub new_name: String,
}

/// The songs of a batch's song outcomes (added or found as duplicates), in
/// batch order.
pub open spec fn enrolled_songs(os: Seq<IngestOutcome>) -> Seq<u32>
    decreases os.len(),
{
    if os.len() == 0 {
        Seq::empty()
    } else {
        enrolled_songs(os.drop_last()) + if is_song(os.last()) {
            seq![outcome_song(os.last())]
        } else {
            Seq::empty()
        }
    }
}

/// The albums of a batch's song outcomes, in batch order.
pub open spec fn enrolled_albums(os: Seq<IngestOutcome>) -> Seq<u32>
    decreases os.len(),
{
    if os.len() == 0 {
        Seq::empty()
    } else {
        enrolled_albums(os.drop_last()) + match os.last() {
            IngestOutcome::Added { album_id, .. } => seq![album_id],
            IngestOutcome::Duplicate { album_id, .. } => seq![album_id],
            _ => Seq::empty(),
        }
    }
}

/// The song ids and album ids a batch enrolls into a playlist: every file
/// that became a song, new or already present, in batch order.
pub fn playlist_songs_of(outcomes: &Vec<IngestOutcome>) -> (r: (Vec<u32>, Vec<u32>))
    ensures
        r.0@ == enrolled_songs(outcomes@),
        r.1@ == enrolled_albums(outcomes@),
{
    let mut songs: Vec<u32> = Vec::new();
    let mut albums: Vec<u32> = Vec::new();
    let mut i: usize = 0;
    while i < outcomes.len()
        invariant
            i <= outcomes@.len(),
            songs@ == enrolled_songs(outcomes@.subrange(0, i as int)),
            albums@ == enrolled_albums(outcomes@.subrange(0, i as int)),
        decreases outcomes@.len() - i,
    {
        proof {
            let p = outcomes@.subrange(0, i + 1);
            assert(p.drop_last() =~= outcomes@.subrange(0, i as int));
        }
        match &outcomes[i] {
            IngestOutcome::Added { song_id, album_id, .. } => {
                songs.push(*song_id);
                albums.push(*album_id);
            },
            IngestOutcome::Duplicate { song_id, album_id, .. } => {
                songs.push(*song_id);
                albums.push(*album_id);
            },
            _ => {},
        }
        i = i + 1;
    }
    assert(outcomes@.subrange(0, i as int) =~= outcomes@);
    (songs, albums)
}

impl SaveToPlaylistResult {
    /// The combined summary of an ingest batch and the playlist created
    /// from it.
    pub fn from_parts(
        saved: &SaveToLibraryResult,
        playlist_id: u32,
        playlist_name: String,
        album_ids: Vec<u32>,
    ) -> (r: Self)
        ensures
            r.files_saved == saved.files_saved,
            r.artists_added == saved.artists_added,
            r.albums_added == saved.albums_added,
            r.songs_added == saved.songs_added,
            r.duplicates_skipped == saved.duplicates_skipped,
            r.playlist_id == playlist_id,
            r.playlist_name == playlist_name,
            r.album_ids == album_ids,
    {
        SaveToPlaylistResult {
            files_saved: saved.files_saved,
            artists_added: saved.artists_added,
            albums_added: saved.albums_added,
            songs_added: saved.songs_added,
            duplicates_skipped: saved.duplicates_skipped,
            playlist_id,
            playlist_name,
            album_ids,
        }
    }
}

impl ParsedPlaylist {
    /// The playlist's entry in a listing.
    pub fn summary(&self) -> (r: PlaylistSummary)
        ensures
            r.id == self.id,
            r.name@ == self.name@,
            r.song_count == self.song_count,
    {
        PlaylistSummary { id: self.id, name: self.name.clone(), song_count: self.song_count }
    }
}

} // verus!
