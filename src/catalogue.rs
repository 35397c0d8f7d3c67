//! The catalogue file: header, string pool, artist, album and song tables.
//! Parsing is all-or-nothing: a file that is not exactly what the format
//! describes is reported as corrupt and nothing of it is returned.
use vstd::prelude::*;
use vstd::utf8::*;

use crate::records::{
    album_bytes, artist_bytes, header_bytes, lemma_album_round_trip, lemma_artist_round_trip,
    lemma_header_round_trip, lemma_song_round_trip, library_magic, song_bytes, LibraryHeader,
    LIBRARY_VERSION, album_at, artist_at, header_accepted, header_at, read_album, read_artist, read_song, song_at,
    AlbumEntry, ArtistEntry, HeaderModel, SongEntry, ALBUM_ENTRY_SIZE, ARTIST_ENTRY_SIZE,
    HEADER_SIZE, SONG_ENTRY_SIZE,
};
use crate::string_table::{fits_entry, lemma_pool_round_trip, parse_pool, pool_bytes, StringTable};

verus! {

/// Why a catalogue file was refused.
#[derive(Clone, Copy, Debug, PartialEq, Eq, Structural)]
pub enum CatalogueError {
    /// Shorter than a header, or the tag is not the catalogue tag.
    BadHeader,
    /// Section offsets out of order, or a table's size does not match its count.
    BadLayout,
    /// The string pool is not a run of complete UTF-8 entries.
    BadStringTable,
    /// A row refers to a string, artist or album that does not exist, or the
    /// pool holds a string too long for its length field.
    BadReference,
    /// The encoded file would not fit the format's 32-bit offsets.
    TooLarge,
}

/// The contents of a catalogue.
pub struct CatalogueModel {
    pub strings: Seq<Seq<char>>,
    pub artists: Seq<ArtistEntry>,
    pub albums: Seq<AlbumEntry>,
    pub songs: Seq<SongEntry>,
}

/// Rows laid out one after another, each encoded by `f`.
pub open spec fn rows_bytes<T>(rows: Seq<T>, f: spec_fn(T) -> Seq<u8>) -> Seq<u8>
    decreases rows.len(),
{
    if rows.len() == 0 {
        Seq::empty()
    } else {
        rows_bytes(rows.drop_last(), f) + f(rows.last())
    }
}

/// The `n` artist rows stored from `b[at..]`.
pub open spec fn artists_at(b: Seq<u8>, at: int, n: nat) -> Seq<ArtistEntry> {
    Seq::new(n, |i: int| artist_at(b, at + 8 * i))
}

/// The `n` album rows stored from `b[at..]`.
pub open spec fn albums_at(b: Seq<u8>, at: int, n: nat) -> Seq<AlbumEntry> {
    Seq::new(n, |i: int| album_at(b, at + 16 * i))
}

/// The `n` song rows stored from `b[at..]`.
pub open spec fn songs_at(b: Seq<u8>, at: int, n: nat) -> Seq<SongEntry> {
    Seq::new(n, |i: int| song_at(b, at + 24 * i))
}

/// Whether the header's sections are in order, start after the header, and
/// each table holds exactly its count of rows, the song table ending the file.
pub open spec fn layout_ok(h: HeaderModel, len: int) -> bool {
    &&& HEADER_SIZE <= h.string_table_offset <= h.artist_table_offset
    &&& h.artist_table_offset + ARTIST_ENTRY_SIZE * h.artist_count == h.album_table_offset
    &&& h.album_table_offset + ALBUM_ENTRY_SIZE * h.album_count == h.song_table_offset
    &&& h.song_table_offset + SONG_ENTRY_SIZE * h.song_count == len
}

/// Whether every id in every row resolves, and the pool fits its id and
/// length fields.
pub open spec fn consistent(m: CatalogueModel) -> bool {
    &&& m.strings.len() < u32::MAX
    &&& m.artists.len() <= u32::MAX
    &&& m.albums.len() <= u32::MAX
    &&& m.songs.len() <= u32::MAX
    &&& forall|i: int| 0 <= i < m.strings.len() ==> fits_entry(#[trigger] m.strings[i])
    &&& forall|i: int|
        0 <= i < m.artists.len() ==> (#[trigger] m.artists[i]).name_string_id < m.strings.len()
    &&& forall|i: int|
        0 <= i < m.albums.len() ==> {
            &&& (#[trigger] m.albums[i]).name_string_id < m.strings.len()
            &&& m.albums[i].artist_id < m.artists.len()
        }
    &&& forall|i: int|
        0 <= i < m.songs.len() ==> {
            &&& (#[trigger] m.songs[i]).title_string_id < m.strings.len()
            &&& m.songs[i].path_string_id < m.strings.len()
            &&& m.songs[i].artist_id < m.artists.len()
            &&& m.songs[i].album_id < m.albums.len()
        }
}

/// What a catalogue file holds, or why it is refused.
pub open spec fn catalogue_of(b: Seq<u8>) -> Result<CatalogueModel, CatalogueError> {
    if !header_accepted(b) {
        Err(CatalogueError::BadHeader)
    } else {
        let h = header_at(b);
        if !layout_ok(h, b.len() as int) {
            Err(CatalogueError::BadLayout)
        } else {
            match parse_pool(
                b.subrange(h.string_table_offset as int, h.artist_table_offset as int),
            ) {
                None => Err(CatalogueError::BadStringTable),
                Some(pool) => {
                    let m = CatalogueModel {
                        strings: pool,
                        artists: artists_at(b, h.artist_table_offset as int, h.artist_count as nat),
                        albums: albums_at(b, h.album_table_offset as int, h.album_count as nat),
                        songs: songs_at(b, h.song_table_offset as int, h.song_count as nat),
                    };
                    if consistent(m) {
                        Ok(m)
                    } else {
                        Err(CatalogueError::BadReference)
                    }
                },
            }
        }
    }
}

/// `acc` followed by the strings of `rest`, if `rest` parsed.
pub open spec fn after(acc: Seq<Seq<char>>, rest: Option<Seq<Seq<char>>>) -> Option<
    Seq<Seq<char>>,
> {
    match rest {
        Some(r) => Some(acc + r),
        None => None,
    }
}

/// Relies on `String::from_utf8`: it succeeds exactly on well-formed UTF-8,
/// and the string then holds the characters those bytes encode.
#[verifier::external_body]
pub(crate) fn utf8_to_string(bytes: Vec<u8>) -> (r: Option<String>)
    ensures
        r is Some <==> valid_utf8(bytes@),
        r matches Some(s) ==> s@ == decode_utf8(bytes@),
{
    String::from_utf8(bytes).ok()
}

/// Parses the string pool held in `data[start..end]`.
pub fn parse_string_table(data: &[u8], start: usize, end: usize) -> (r: Result<
    Vec<String>,
    CatalogueError,
>)
    requires
        start <= end <= data@.len(),
    ensures
        r matches Ok(v) ==> parse_pool(data@.subrange(start as int, end as int)) == Some(
            Seq::new(v@.len(), |i: int| v@[i]@),
        ),
        r matches Err(e) ==> e == CatalogueError::BadStringTable && parse_pool(
            data@.subrange(start as int, end as int),
        ) is None,
{
    let ghost whole = data@.subrange(start as int, end as int);
    let mut strings: Vec<String> = Vec::new();
    let mut pos: usize = start;
    while pos < end
        invariant
            start <= pos <= end <= data@.len(),
            whole == data@.subrange(start as int, end as int),
            parse_pool(whole) == after(
                Seq::new(strings@.len(), |i: int| strings@[i]@),
                parse_pool(data@.subrange(pos as int, end as int)),
            ),
        decreases end - pos,
    {
        let ghost acc = Seq::new(strings@.len(), |i: int| strings@[i]@);
        let ghost cur = data@.subrange(pos as int, end as int);
        if end - pos < 2 {
            return Err(CatalogueError::BadStringTable);
        }
        let n = crate::codec::get_le16(data, pos) as usize;
        assert(crate::codec::read_le16(cur, 0) == crate::codec::read_le16(data@, pos as int));
        if end - pos - 2 < n {
            return Err(CatalogueError::BadStringTable);
        }
        let piece = vstd::slice::slice_to_vec(
            vstd::slice::slice_subrange(data, pos + 2, pos + 2 + n),
        );
        assert(piece@ =~= cur.subrange(2, 2 + n as int));
        assert(cur.subrange(2 + n as int, cur.len() as int) =~= data@.subrange(
            (pos + 2 + n) as int,
            end as int,
        ));
        match utf8_to_string(piece) {
            None => {
                return Err(CatalogueError::BadStringTable);
            },
            Some(s) => {
                strings.push(s);
                pos = pos + 2 + n;
                assert(Seq::new(strings@.len(), |i: int| strings@[i]@) =~= acc + seq![s@]);
                proof {
                    match parse_pool(data@.subrange(pos as int, end as int)) {
                        Some(rest) => {
                            assert(acc + (seq![s@] + rest) =~= acc + seq![s@] + rest);
                        },
                        None => {},
                    }
                }
            },
        }
    }
    assert(data@.subrange(pos as int, end as int) =~= Seq::<u8>::empty());
    assert(Seq::new(strings@.len(), |i: int| strings@[i]@) + Seq::<Seq<char>>::empty()
        =~= Seq::new(strings@.len(), |i: int| strings@[i]@));
    Ok(strings)
}

/// Parses `count` artist rows starting at `data[start]`; refused when the
/// table would run past the end of `data`.
pub fn parse_artist_table(data: &[u8], start: usize, count: usize) -> (r: Result<
    Vec<ArtistEntry>,
    CatalogueError,
>)
    ensures
        r is Ok <==> start + ARTIST_ENTRY_SIZE * count <= data@.len(),
        r matches Ok(v) ==> v@ == artists_at(data@, start as int, count as nat),
        r matches Err(e) ==> e == CatalogueError::BadLayout,
{
    let len = data.len();
    if start > len || (len - start) / 8 < count {
        proof {
            if start <= len {
                assert(start + 8 * count > len) by (nonlinear_arith)
                    requires
                        (len - start) / 8 < count,
                        start <= len,
                ;
            }
        }
        return Err(CatalogueError::BadLayout);
    }
    assert(start + 8 * count <= len) by (nonlinear_arith)
        requires
            (len - start) / 8 >= count,
            start <= len,
    ;
    let mut rows: Vec<ArtistEntry> = Vec::with_capacity(count);
    let mut i: usize = 0;
    while i < count
        invariant
            i <= count,
            start + 8 * count <= len,
            len == data@.len(),
            rows@ == artists_at(data@, start as int, i as nat),
        decreases count - i,
    {
        assert(8 * i + 8 <= 8 * count) by (nonlinear_arith)
            requires
                i < count,
        ;
        rows.push(read_artist(data, start + 8 * i));
        i = i + 1;
        assert(rows@ =~= artists_at(data@, start as int, i as nat));
    }
    Ok(rows)
}

/// Parses `count` album rows starting at `data[start]`; refused when the
/// table would run past the end of `data`.
pub fn parse_album_table(data: &[u8], start: usize, count: usize) -> (r: Result<
    Vec<AlbumEntry>,
    CatalogueError,
>)
    ensures
        r is Ok <==> start + ALBUM_ENTRY_SIZE * count <= data@.len(),
        r matches Ok(v) ==> v@ == albums_at(data@, start as int, count as nat),
        r matches Err(e) ==> e == CatalogueError::BadLayout,
{
    let len = data.len();
    if start > len || (len - start) / 16 < count {
        proof {
            if start <= len {
                assert(start + 16 * count > len) by (nonlinear_arith)
                    requires
                        (len - start) / 16 < count,
                        start <= len,
                ;
            }
        }
        return Err(CatalogueError::BadLayout);
    }
    assert(start + 16 * count <= len) by (nonlinear_arith)
        requires
            (len - start) / 16 >= count,
            start <= len,
    ;
    let mut rows: Vec<AlbumEntry> = Vec::with_capacity(count);
    let mut i: usize = 0;
    while i < count
        invariant
            i <= count,
            start + 16 * count <= len,
            len == data@.len(),
            rows@ == albums_at(data@, start as int, i as nat),
        decreases count - i,
    {
        assert(16 * i + 16 <= 16 * count) by (nonlinear_arith)
            requires
                i < count,
        ;
        rows.push(read_album(data, start + 16 * i));
        i = i + 1;
        assert(rows@ =~= albums_at(data@, start as int, i as nat));
    }
    Ok(rows)
}

/// Parses `count` song rows starting at `data[start]`; refused when the
/// table would run past the end of `data`.
pub fn parse_song_table(data: &[u8], start: usize, count: usize) -> (r: Result<
    Vec<SongEntry>,
    CatalogueError,
>)
    ensures
        r is Ok <==> start + SONG_ENTRY_SIZE * count <= data@.len(),
        r matches Ok(v) ==> v@ == songs_at(data@, start as int, count as nat),
        r matches Err(e) ==> e == CatalogueError::BadLayout,
{
    let len = data.len();
    if start > len || (len - start) / 24 < count {
        proof {
            if start <= len {
                assert(start + 24 * count > len) by (nonlinear_arith)
                    requires
                        (len - start) / 24 < count,
                        start <= len,
                ;
            }
        }
        return Err(CatalogueError::BadLayout);
    }
    assert(start + 24 * count <= len) by (nonlinear_arith)
        requires
            (len - start) / 24 >= count,
            start <= len,
    ;
    let mut rows: Vec<SongEntry> = Vec::with_capacity(count);
    let mut i: usize = 0;
    while i < count
        invariant
            i <= count,
            start + 24 * count <= len,
            len == data@.len(),
            rows@ == songs_at(data@, start as int, i as nat),
        decreases count - i,
    {
        assert(24 * i + 24 <= 24 * count) by (nonlinear_arith)
            requires
                i < count,
        ;
        rows.push(read_song(data, start + 24 * i));
        i = i + 1;
        assert(rows@ =~= songs_at(data@, start as int, i as nat));
    }
    Ok(rows)
}


/// A catalogue held in memory: the pool and the three tables.
#[derive(Debug)]
pub struct Catalogue {
    pub strings: StringTable,
    pub artists: Vec<ArtistEntry>,
    pub albums: Vec<AlbumEntry>,
    pub songs: Vec<SongEntry>,
}

impl View for Catalogue {
    type V = CatalogueModel;

    open spec fn view(&self) -> CatalogueModel {
        CatalogueModel {
            strings: self.strings@,
            artists: self.artists@,
            albums: self.albums@,
            songs: self.songs@,
        }
    }
}

/// The bytes of the artist table.
pub open spec fn artist_table_bytes(rows: Seq<ArtistEntry>) -> Seq<u8> {
    rows_bytes(rows, |a: ArtistEntry| artist_bytes(a))
}

/// The bytes of the album table.
pub open spec fn album_table_bytes(rows: Seq<AlbumEntry>) -> Seq<u8> {
    rows_bytes(rows, |a: AlbumEntry| album_bytes(a))
}

/// The bytes of the song table.
pub open spec fn song_table_bytes(rows: Seq<SongEntry>) -> Seq<u8> {
    rows_bytes(rows, |s: SongEntry| song_bytes(s))
}

/// Byte length of the file that holds `m`.
pub open spec fn file_size(m: CatalogueModel) -> int {
    HEADER_SIZE + pool_bytes(m.strings).len() + ARTIST_ENTRY_SIZE * m.artists.len()
        + ALBUM_ENTRY_SIZE * m.albums.len() + SONG_ENTRY_SIZE * m.songs.len()
}

/// The header written for `m`: current tag and version, its counts, and the
/// sections placed one after another right after the header.
pub open spec fn header_for(m: CatalogueModel) -> HeaderModel {
    let artist_off = HEADER_SIZE + pool_bytes(m.strings).len();
    let album_off = artist_off + ARTIST_ENTRY_SIZE * m.artists.len();
    let song_off = album_off + ALBUM_ENTRY_SIZE * m.albums.len();
    HeaderModel {
        magic: library_magic(),
        version: LIBRARY_VERSION,
        song_count: m.songs.len() as u32,
        artist_count: m.artists.len() as u32,
        album_count: m.albums.len() as u32,
        string_table_offset: HEADER_SIZE,
        artist_table_offset: artist_off as u32,
        album_table_offset: album_off as u32,
        song_table_offset: song_off as u32,
    }
}

/// The bytes of the file that holds `m`.
pub open spec fn file_bytes(m: CatalogueModel) -> Seq<u8> {
    header_bytes(header_for(m)) + pool_bytes(m.strings) + artist_table_bytes(m.artists)
        + album_table_bytes(m.albums) + song_table_bytes(m.songs)
}

/// The catalogue with no strings and no rows.
pub open spec fn empty_model() -> CatalogueModel {
    CatalogueModel {
        strings: Seq::empty(),
        artists: Seq::empty(),
        albums: Seq::empty(),
        songs: Seq::empty(),
    }
}

/// Appends the encoded artist rows.
fn push_artist_rows(out: &mut Vec<u8>, rows: &Vec<ArtistEntry>)
    ensures
        final(out)@ == old(out)@ + artist_table_bytes(rows@),
{
    let ghost start = out@;
    let mut i: usize = 0;
    while i < rows.len()
        invariant
            i <= rows@.len(),
            out@ == start + artist_table_bytes(rows@.subrange(0, i as int)),
        decreases rows@.len() - i,
    {
        let mut b = rows[i].to_bytes();
        out.append(&mut b);
        proof {
            let p = rows@.subrange(0, i + 1);
            assert(p.drop_last() =~= rows@.subrange(0, i as int));
        }
        i = i + 1;
        assert(out@ =~= start + artist_table_bytes(rows@.subrange(0, i as int)));
    }
    assert(rows@.subrange(0, i as int) =~= rows@);
}

/// Appends the encoded album rows.
fn push_album_rows(out: &mut Vec<u8>, rows: &Vec<AlbumEntry>)
    ensures
        final(out)@ == old(out)@ + album_table_bytes(rows@),
{
    let ghost start = out@;
    let mut i: usize = 0;
    while i < rows.len()
        invariant
            i <= rows@.len(),
            out@ == start + album_table_bytes(rows@.subrange(0, i as int)),
        decreases rows@.len() - i,
    {
        let mut b = rows[i].to_bytes();
        out.append(&mut b);
        proof {
            let p = rows@.subrange(0, i + 1);
            assert(p.drop_last() =~= rows@.subrange(0, i as int));
        }
        i = i + 1;
        assert(out@ =~= start + album_table_bytes(rows@.subrange(0, i as int)));
    }
    assert(rows@.subrange(0, i as int) =~= rows@);
}

/// Appends the encoded song rows.
fn push_song_rows(out: &mut Vec<u8>, rows: &Vec<SongEntry>)
    ensures
        final(out)@ == old(out)@ + song_table_bytes(rows@),
{
    let ghost start = out@;
    let mut i: usize = 0;
    while i < rows.len()
        invariant
            i <= rows@.len(),
            out@ == start + song_table_bytes(rows@.subrange(0, i as int)),
        decreases rows@.len() - i,
    {
        let mut b = rows[i].to_bytes();
        out.append(&mut b);
        proof {
            let p = rows@.subrange(0, i + 1);
            assert(p.drop_last() =~= rows@.subrange(0, i as int));
        }
        i = i + 1;
        assert(out@ =~= start + song_table_bytes(rows@.subrange(0, i as int)));
    }
    assert(rows@.subrange(0, i as int) =~= rows@);
}

/// Rows encoded at a fixed width `k` take `k` bytes each, and row `i`
/// occupies bytes `k * i .. k * i + k`.
pub proof fn lemma_rows_bytes<T>(rows: Seq<T>, f: spec_fn(T) -> Seq<u8>, k: int)
    requires
        k >= 0,
        forall|x: T| #[trigger] f(x).len() == k,
    ensures
        rows_bytes(rows, f).len() == k * rows.len(),
        forall|i: int|
            0 <= i < rows.len() ==> rows_bytes(rows, f).subrange(k * i, k * i + k) == f(
                #[trigger] rows[i],
            ),
    decreases rows.len(),
{
    if rows.len() > 0 {
        let init = rows.drop_last();
        lemma_rows_bytes(init, f, k);
        let n = init.len() as int;
        let b = rows_bytes(rows, f);
        assert(k * n + k == k * (n + 1)) by (nonlinear_arith);
        assert forall|i: int| 0 <= i < rows.len() implies b.subrange(k * i, k * i + k) == f(
            #[trigger] rows[i],
        ) by {
            if i < n {
                assert(k * i + k <= k * n) by (nonlinear_arith)
                    requires
                        i < n,
                        k >= 0,
                ;
                assert(0 <= k * i) by (nonlinear_arith)
                    requires
                        0 <= i,
                        k >= 0,
                ;
                assert(init[i] == rows[i]);
                assert(b.subrange(k * i, k * i + k) =~= rows_bytes(init, f).subrange(
                    k * i,
                    k * i + k,
                ));
            } else {
                assert(b.subrange(k * i, k * i + k) =~= f(rows.last()));
            }
        }
    }
}

/// Whether every id in `c` resolves and the pool fits its fields.
fn check_consistent(c: &Catalogue) -> (r: bool)
    ensures
        r == consistent(c@),
{
    let n_strings = c.strings.len();
    let n_artists = c.artists.len();
    let n_albums = c.albums.len();
    if n_strings >= 0xffff_ffff || n_artists > 0xffff_ffff || n_albums > 0xffff_ffff
        || c.songs.len() > 0xffff_ffff {
        return false;
    }
    let mut i: usize = 0;
    while i < n_strings
        invariant
            i <= n_strings,
            n_strings == c@.strings.len(),
            n_strings < 0xffff_ffff,
            forall|j: int| 0 <= j < i ==> fits_entry(#[trigger] c@.strings[j]),
        decreases n_strings - i,
    {
        match c.strings.get(i as u32) {
            Some(s) => {
                if s.as_bytes().len() > 0xffff {
                    return false;
                }
            },
            None => {},
        }
        i = i + 1;
    }
    let mut i: usize = 0;
    while i < n_artists
        invariant
            i <= n_artists,
            n_artists == c@.artists.len(),
            n_strings == c@.strings.len(),
            forall|j: int| 0 <= j < i ==> (#[trigger] c@.artists[j]).name_string_id < n_strings,
        decreases n_artists - i,
    {
        if c.artists[i].name_string_id as usize >= n_strings {
            return false;
        }
        i = i + 1;
    }
    let mut i: usize = 0;
    while i < n_albums
        invariant
            i <= n_albums,
            n_albums == c@.albums.len(),
            n_artists == c@.artists.len(),
            n_strings == c@.strings.len(),
            forall|j: int|
                0 <= j < i ==> {
                    &&& (#[trigger] c@.albums[j]).name_string_id < n_strings
                    &&& c@.albums[j].artist_id < n_artists
                },
        decreases n_albums - i,
    {
        let a = c.albums[i];
        if a.name_string_id as usize >= n_strings || a.artist_id as usize >= n_artists {
            return false;
        }
        i = i + 1;
    }
    let mut i: usize = 0;
    while i < c.songs.len()
        invariant
            i <= c@.songs.len(),
            n_albums == c@.albums.len(),
            n_artists == c@.artists.len(),
            n_strings == c@.strings.len(),
            forall|j: int|
                0 <= j < i ==> {
                    &&& (#[trigger] c@.songs[j]).title_string_id < n_strings
                    &&& c@.songs[j].path_string_id < n_strings
                    &&& c@.songs[j].artist_id < n_artists
                    &&& c@.songs[j].album_id < n_albums
                },
        decreases c@.songs.len() - i,
    {
        let s = c.songs[i];
        if s.title_string_id as usize >= n_strings || s.path_string_id as usize >= n_strings
            || s.artist_id as usize >= n_artists || s.album_id as usize >= n_albums {
            return false;
        }
        i = i + 1;
    }
    true
}

impl Catalogue {
    /// A catalogue with no strings and no rows.
    pub fn empty() -> (r: Self)
        ensures
            r@ == empty_model(),
    {
        let r = Catalogue {
            strings: StringTable::new(),
            artists: Vec::new(),
            albums: Vec::new(),
            songs: Vec::new(),
        };
        assert(r@.artists =~= Seq::<ArtistEntry>::empty());
        assert(r@.albums =~= Seq::<AlbumEntry>::empty());
        assert(r@.songs =~= Seq::<SongEntry>::empty());
        r
    }

    /// Parses a whole catalogue file; any departure from the format is
    /// refused with the first check that fails, and nothing is returned.
    pub fn parse(data: &[u8]) -> (r: Result<Self, CatalogueError>)
        ensures
            r matches Ok(c) ==> catalogue_of(data@) == Ok::<CatalogueModel, CatalogueError>(c@),
            r matches Err(e) ==> catalogue_of(data@) == Err::<CatalogueModel, CatalogueError>(e),
    {
        let header = match LibraryHeader::from_bytes(data) {
            Some(h) => h,
            None => {
                return Err(CatalogueError::BadHeader);
            },
        };
        let len = data.len();
        let ghost h = header@;
        let sto = header.string_table_offset as u64;
        let ato = header.artist_table_offset as u64;
        let alo = header.album_table_offset as u64;
        let soo = header.song_table_offset as u64;
        if !(40 <= sto && sto <= ato && ato + 8 * (header.artist_count as u64) == alo && alo + 16
            * (header.album_count as u64) == soo && soo + 24 * (header.song_count as u64)
            == len as u64) {
            return Err(CatalogueError::BadLayout);
        }
        assert(layout_ok(h, data@.len() as int));
        let strings = match parse_string_table(data, sto as usize, ato as usize) {
            Ok(v) => v,
            Err(e) => {
                return Err(e);
            },
        };
        let artists = match parse_artist_table(data, ato as usize, header.artist_count as usize) {
            Ok(v) => v,
            Err(e) => {
                return Err(e);
            },
        };
        let albums = match parse_album_table(data, alo as usize, header.album_count as usize) {
            Ok(v) => v,
            Err(e) => {
                return Err(e);
            },
        };
        let songs = match parse_song_table(data, soo as usize, header.song_count as usize) {
            Ok(v) => v,
            Err(e) => {
                return Err(e);
            },
        };
        let c = Catalogue { strings: StringTable::from_vec(strings), artists, albums, songs };
        if !check_consistent(&c) {
            return Err(CatalogueError::BadReference);
        }
        Ok(c)
    }

    /// The file that holds this catalogue; refused when it would be too
    /// large for the format's 32-bit offsets.
    pub fn to_bytes(&self) -> (r: Result<Vec<u8>, CatalogueError>)
        requires
            forall|i: int| 0 <= i < self@.strings.len() ==> fits_entry(#[trigger] self@.strings[i]),
        ensures
            r is Ok <==> file_size(self@) <= u32::MAX,
            r matches Ok(b) ==> b@ == file_bytes(self@),
            r matches Err(e) ==> e == CatalogueError::TooLarge,
    {
        let pool = self.strings.to_bytes();
        let n_pool = pool.len() as u64;
        let n_artists = self.artists.len() as u64;
        let n_albums = self.albums.len() as u64;
        let n_songs = self.songs.len() as u64;
        if n_pool > 0xffff_ffff || n_artists > 0xffff_ffff || n_albums > 0xffff_ffff || n_songs
            > 0xffff_ffff {
            return Err(CatalogueError::TooLarge);
        }
        let total = 40 + n_pool + 8 * n_artists + 16 * n_albums + 24 * n_songs;
        if total > 0xffff_ffff {
            return Err(CatalogueError::TooLarge);
        }
        let artist_off = (40 + n_pool) as u32;
        let album_off = (40 + n_pool + 8 * n_artists) as u32;
        let song_off = (40 + n_pool + 8 * n_artists + 16 * n_albums) as u32;
        let header = LibraryHeader {
            magic: crate::records::LIBRARY_MAGIC,
            version: LIBRARY_VERSION,
            song_count: n_songs as u32,
            artist_count: n_artists as u32,
            album_count: n_albums as u32,
            string_table_offset: 40,
            artist_table_offset: artist_off,
            album_table_offset: album_off,
            song_table_offset: song_off,
        };
        assert(header@.magic =~= library_magic());
        assert(header@ == header_for(self@));
        let mut out = header.to_bytes();
        let mut pool_mut = pool;
        out.append(&mut pool_mut);
        push_artist_rows(&mut out, &self.artists);
        push_album_rows(&mut out, &self.albums);
        push_song_rows(&mut out, &self.songs);
        Ok(out)
    }
}


/// Artist rows encoded at `b[off..]` read back as the same rows.
proof fn lemma_artist_table_read(b: Seq<u8>, off: int, rows: Seq<ArtistEntry>)
    requires
        0 <= off,
        off + 8 * rows.len() <= b.len(),
        b.subrange(off, off + 8 * rows.len()) == artist_table_bytes(rows),
    ensures
        artists_at(b, off, rows.len()) == rows,
{
    let f = |a: ArtistEntry| artist_bytes(a);
    assert forall|x: ArtistEntry| #[trigger] f(x).len() == 8 by {}
    lemma_rows_bytes(rows, f, 8);
    let t = artist_table_bytes(rows);
    let got = artists_at(b, off, rows.len());
    assert forall|i: int| 0 <= i < rows.len() implies got[i] == rows[i] by {
        assert(0 <= 8 * i && 8 * i + 8 <= 8 * rows.len()) by (nonlinear_arith)
            requires
                0 <= i < rows.len(),
        ;
        assert(b.subrange(off + 8 * i, off + 8 * i + 8) =~= t.subrange(8 * i, 8 * i + 8));
        lemma_artist_round_trip(b, off + 8 * i, rows[i]);
    }
    assert(got =~= rows);
}

/// Album rows encoded at `b[off..]` read back as the same rows.
proof fn lemma_album_table_read(b: Seq<u8>, off: int, rows: Seq<AlbumEntry>)
    requires
        0 <= off,
        off + 16 * rows.len() <= b.len(),
        b.subrange(off, off + 16 * rows.len()) == album_table_bytes(rows),
    ensures
        albums_at(b, off, rows.len()) == rows,
{
    let f = |a: AlbumEntry| album_bytes(a);
    assert forall|x: AlbumEntry| #[trigger] f(x).len() == 16 by {}
    lemma_rows_bytes(rows, f, 16);
    let t = album_table_bytes(rows);
    let got = albums_at(b, off, rows.len());
    assert forall|i: int| 0 <= i < rows.len() implies got[i] == rows[i] by {
        assert(0 <= 16 * i && 16 * i + 16 <= 16 * rows.len()) by (nonlinear_arith)
            requires
                0 <= i < rows.len(),
        ;
        assert(b.subrange(off + 16 * i, off + 16 * i + 16) =~= t.subrange(16 * i, 16 * i + 16));
        lemma_album_round_trip(b, off + 16 * i, rows[i]);
    }
    assert(got =~= rows);
}

/// Song rows encoded at `b[off..]` read back as the same rows.
proof fn lemma_song_table_read(b: Seq<u8>, off: int, rows: Seq<SongEntry>)
    requires
        0 <= off,
        off + 24 * rows.len() <= b.len(),
        b.subrange(off, off + 24 * rows.len()) == song_table_bytes(rows),
    ensures
        songs_at(b, off, rows.len()) == rows,
{
    let f = |x: SongEntry| song_bytes(x);
    assert forall|x: SongEntry| #[trigger] f(x).len() == 24 by {}
    lemma_rows_bytes(rows, f, 24);
    let t = song_table_bytes(rows);
    let got = songs_at(b, off, rows.len());
    assert forall|i: int| 0 <= i < rows.len() implies got[i] == rows[i] by {
        assert(0 <= 24 * i && 24 * i + 24 <= 24 * rows.len()) by (nonlinear_arith)
            requires
                0 <= i < rows.len(),
        ;
        assert(b.subrange(off + 24 * i, off + 24 * i + 24) =~= t.subrange(24 * i, 24 * i + 24));
        lemma_song_round_trip(b, off + 24 * i, rows[i]);
    }
    assert(got =~= rows);
}

/// The byte lengths of the three tables.
proof fn lemma_table_lengths(m: CatalogueModel)
    ensures
        artist_table_bytes(m.artists).len() == 8 * m.artists.len(),
        album_table_bytes(m.albums).len() == 16 * m.albums.len(),
        song_table_bytes(m.songs).len() == 24 * m.songs.len(),
{
    let fa = |a: ArtistEntry| artist_bytes(a);
    let fl = |a: AlbumEntry| album_bytes(a);
    let fs = |x: SongEntry| song_bytes(x);
    assert forall|x: ArtistEntry| #[trigger] fa(x).len() == 8 by {}
    assert forall|x: AlbumEntry| #[trigger] fl(x).len() == 16 by {}
    assert forall|x: SongEntry| #[trigger] fs(x).len() == 24 by {}
    lemma_rows_bytes(m.artists, fa, 8);
    lemma_rows_bytes(m.albums, fl, 16);
    lemma_rows_bytes(m.songs, fs, 24);
}

/// Writing a consistent catalogue and reading the file back gives the same
/// strings, artists, albums and songs, in the same order.
#[verifier::rlimit(60)]
pub proof fn lemma_catalogue_round_trip(m: CatalogueModel)
    requires
        consistent(m),
        file_size(m) <= u32::MAX,
    ensures
        catalogue_of(file_bytes(m)) == Ok::<CatalogueModel, CatalogueError>(m),
{
    lemma_table_lengths(m);
    let p = pool_bytes(m.strings);
    let ta = artist_table_bytes(m.artists);
    let tl = album_table_bytes(m.albums);
    let ts = song_table_bytes(m.songs);
    let h = header_for(m);
    let b = file_bytes(m);
    let rest = p + ta + tl + ts;
    assert(b =~= header_bytes(h) + rest);
    lemma_header_round_trip(h, rest);
    let ato = 40 + p.len();
    let alo = ato + ta.len();
    let soo = alo + tl.len();
    assert(b.len() == soo + ts.len());
    assert(layout_ok(h, b.len() as int));
    assert(b.subrange(40, ato as int) =~= p);
    lemma_pool_round_trip(m.strings);
    assert(b.subrange(ato as int, alo as int) =~= ta);
    assert(b.subrange(alo as int, soo as int) =~= tl);
    assert(b.subrange(soo as int, b.len() as int) =~= ts);
    lemma_artist_table_read(b, ato as int, m.artists);
    lemma_album_table_read(b, alo as int, m.albums);
    lemma_song_table_read(b, soo as int, m.songs);
}

impl Catalogue {
    /// The catalogue an ingest merges into: a file whose header counts no
    /// songs counts as no catalogue (an empty one); a file that is too short
    /// for a header or has a bad tag is refused; otherwise the parsed file.
    pub fn open_for_merge(data: &[u8]) -> (r: Result<Self, CatalogueError>)
        ensures
            !header_accepted(data@) ==> r == Err::<Self, CatalogueError>(CatalogueError::BadHeader),
            header_accepted(data@) && header_at(data@).song_count == 0 ==> (r matches Ok(c) && c@
                == empty_model()),
            header_accepted(data@) && header_at(data@).song_count != 0 ==> {
                &&& r matches Ok(c) ==> catalogue_of(data@) == Ok::<CatalogueModel, CatalogueError>(c@)
                &&& r matches Err(e) ==> catalogue_of(data@) == Err::<CatalogueModel, CatalogueError>(e)
            },
    {
        match LibraryHeader::from_bytes(data) {
            None => Err(CatalogueError::BadHeader),
            Some(h) => {
                if h.song_count == 0 {
                    Ok(Catalogue::empty())
                } else {
                    Catalogue::parse(data)
                }
            },
        }
    }
}

} // verus!
