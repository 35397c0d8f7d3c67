//! Fixed-size records of the catalogue and playlist files, and their exact
//! byte layouts. Reserved bytes are written as zero and ignored on read.
use vstd::prelude::*;

use crate::codec::{
    get_le16, get_le32, lemma_le16_read, lemma_le32_read, le16, le32, push_le16, push_le32,
    read_le16, read_le32,
};

verus! {

/// Tag at the start of every catalogue file ("LIB1").
pub const LIBRARY_MAGIC: [u8; 4] = [76, 73, 66, 49];

/// Format version written into new catalogue files.
pub const LIBRARY_VERSION: u32 = 1;

/// Byte length of the catalogue header.
pub const HEADER_SIZE: u32 = 40;

/// Tag at the start of every playlist file ("PLY1").
pub const PLAYLIST_MAGIC: [u8; 4] = [80, 76, 89, 49];

/// Format version written into new playlist files.
pub const PLAYLIST_VERSION: u32 = 1;

/// Byte length of the playlist header.
pub const PLAYLIST_HEADER_SIZE: usize = 14;

/// Flag byte of a live song row.
pub const SONG_ACTIVE: u8 = 0;

/// Flag byte of a tombstoned song row.
pub const SONG_DELETED: u8 = 1;

/// The catalogue tag as a sequence of bytes.
pub open spec fn library_magic() -> Seq<u8> {
    seq![76u8, 73u8, 66u8, 49u8]
}

/// The playlist tag as a sequence of bytes.
pub open spec fn playlist_magic() -> Seq<u8> {
    seq![80u8, 76u8, 89u8, 49u8]
}

/// `n` zero bytes.
pub open spec fn zeros(n: nat) -> Seq<u8> {
    Seq::new(n, |i: int| 0u8)
}

/// Catalogue header: counts of each table and the byte offset where each
/// section starts.
#[derive(Clone, Copy, Debug)]
pub struct LibraryHeader {
    pub magic: [u8; 4],
    pub version: u32,
    pub song_count: u32,
    pub artist_count: u32,
    pub album_count: u32,
    pub string_table_offset: u32,
    pub artist_table_offset: u32,
    pub album_table_offset: u32,
    pub song_table_offset: u32,
}

/// The values a catalogue header holds.
pub struct HeaderModel {
    pub magic: Seq<u8>,
    pub version: u32,
    pub song_count: u32,
    pub artist_count: u32,
    pub album_count: u32,
    pub string_table_offset: u32,
    pub artist_table_offset: u32,
    pub album_table_offset: u32,
    pub song_table_offset: u32,
}

impl View for LibraryHeader {
    type V = HeaderModel;

    open spec fn view(&self) -> HeaderModel {
        HeaderModel {
            magic: self.magic@,
            version: self.version,
            song_count: self.song_count,
            artist_count: self.artist_count,
            album_count: self.album_count,
            string_table_offset: self.string_table_offset,
            artist_table_offset: self.artist_table_offset,
            album_table_offset: self.album_table_offset,
            song_table_offset: self.song_table_offset,
        }
    }
}

/// The 40 bytes of a catalogue header.
pub open spec fn header_bytes(h: HeaderModel) -> Seq<u8> {
    h.magic + le32(h.version) + le32(h.song_count) + le32(h.artist_count) + le32(h.album_count)
        + le32(h.string_table_offset) + le32(h.artist_table_offset) + le32(h.album_table_offset)
        + le32(h.song_table_offset) + le32(0)
}

/// The header stored at the start of `b`.
pub open spec fn header_at(b: Seq<u8>) -> HeaderModel {
    HeaderModel {
        magic: b.subrange(0, 4),
        version: read_le32(b, 4),
        song_count: read_le32(b, 8),
        artist_count: read_le32(b, 12),
        album_count: read_le32(b, 16),
        string_table_offset: read_le32(b, 20),
        artist_table_offset: read_le32(b, 24),
        album_table_offset: read_le32(b, 28),
        song_table_offset: read_le32(b, 32),
    }
}

/// Whether `b` is long enough for a header and starts with the catalogue tag.
pub open spec fn header_accepted(b: Seq<u8>) -> bool {
    b.len() >= HEADER_SIZE && b.subrange(0, 4) == library_magic()
}

impl LibraryHeader {
    /// Header of a catalogue with no rows: all counts zero and every table
    /// starting right after the header.
    pub fn new_empty() -> (r: Self)
        ensures
            r@.magic == library_magic(),
            r.version == LIBRARY_VERSION,
            r.song_count == 0,
            r.artist_count == 0,
            r.album_count == 0,
            r.string_table_offset == HEADER_SIZE,
            r.artist_table_offset == HEADER_SIZE,
            r.album_table_offset == HEADER_SIZE,
            r.song_table_offset == HEADER_SIZE,
    {
        let r = LibraryHeader {
            magic: LIBRARY_MAGIC,
            version: LIBRARY_VERSION,
            song_count: 0,
            artist_count: 0,
            album_count: 0,
            string_table_offset: HEADER_SIZE,
            artist_table_offset: HEADER_SIZE,
            album_table_offset: HEADER_SIZE,
            song_table_offset: HEADER_SIZE,
        };
        assert(r@.magic =~= library_magic());
        r
    }

    /// The header's bytes, little-endian, with the reserved word zeroed.
    pub fn to_bytes(&self) -> (r: Vec<u8>)
        ensures
            r@ == header_bytes(self@),
            r@.len() == HEADER_SIZE,
    {
        let mut bytes: Vec<u8> = Vec::with_capacity(40);
        bytes.push(self.magic[0]);
        bytes.push(self.magic[1]);
        bytes.push(self.magic[2]);
        bytes.push(self.magic[3]);
        assert(bytes@ =~= self@.magic);
        push_le32(&mut bytes, self.version);
        push_le32(&mut bytes, self.song_count);
        push_le32(&mut bytes, self.artist_count);
        push_le32(&mut bytes, self.album_count);
        push_le32(&mut bytes, self.string_table_offset);
        push_le32(&mut bytes, self.artist_table_offset);
        push_le32(&mut bytes, self.album_table_offset);
        push_le32(&mut bytes, self.song_table_offset);
        push_le32(&mut bytes, 0);
        bytes
    }

    /// Parses the header at the start of `bytes`; `None` when the slice is
    /// shorter than a header or does not start with the catalogue tag.
    pub fn from_bytes(bytes: &[u8]) -> (r: Option<Self>)
        ensures
            r is Some <==> header_accepted(bytes@),
            r matches Some(h) ==> h@ == header_at(bytes@),
    {
        if bytes.len() < 40 {
            return None;
        }
        if bytes[0] != 76 || bytes[1] != 73 || bytes[2] != 66 || bytes[3] != 49 {
            proof {
                assert(bytes@.subrange(0, 4) != library_magic()) by {
                    if bytes@.subrange(0, 4) == library_magic() {
                        assert(bytes@[0] == bytes@.subrange(0, 4)[0]);
                        assert(bytes@[1] == bytes@.subrange(0, 4)[1]);
                        assert(bytes@[2] == bytes@.subrange(0, 4)[2]);
                        assert(bytes@[3] == bytes@.subrange(0, 4)[3]);
                    }
                }
            }
            return None;
        }
        let magic: [u8; 4] = [bytes[0], bytes[1], bytes[2], bytes[3]];
        assert(magic@ =~= bytes@.subrange(0, 4));
        assert(bytes@.subrange(0, 4) =~= library_magic());
        Some(
            LibraryHeader {
                magic,
                version: get_le32(bytes, 4),
                song_count: get_le32(bytes, 8),
                artist_count: get_le32(bytes, 12),
                album_count: get_le32(bytes, 16),
                string_table_offset: get_le32(bytes, 20),
                artist_table_offset: get_le32(bytes, 24),
                album_table_offset: get_le32(bytes, 28),
                song_table_offset: get_le32(bytes, 32),
            },
        )
    }
}

/// Decoding an encoded header gives back every field: for any header whose
/// tag is the catalogue tag, the bytes written are accepted and read back as
/// the same header, whatever else follows them.
pub proof fn lemma_header_round_trip(h: HeaderModel, rest: Seq<u8>)
    requires
        h.magic == library_magic(),
    ensures
        header_accepted(header_bytes(h) + rest),
        header_at(header_bytes(h) + rest) == h,
{
    let b = header_bytes(h) + rest;
    assert(header_bytes(h).len() == 40);
    assert(b.subrange(0, 4) =~= h.magic);
    assert(b.subrange(4, 8) =~= le32(h.version));
    assert(b.subrange(8, 12) =~= le32(h.song_count));
    assert(b.subrange(12, 16) =~= le32(h.artist_count));
    assert(b.subrange(16, 20) =~= le32(h.album_count));
    assert(b.subrange(20, 24) =~= le32(h.string_table_offset));
    assert(b.subrange(24, 28) =~= le32(h.artist_table_offset));
    assert(b.subrange(28, 32) =~= le32(h.album_table_offset));
    assert(b.subrange(32, 36) =~= le32(h.song_table_offset));
    lemma_le32_read(b, 4, h.version);
    lemma_le32_read(b, 8, h.song_count);
    lemma_le32_read(b, 12, h.artist_count);
    lemma_le32_read(b, 16, h.album_count);
    lemma_le32_read(b, 20, h.string_table_offset);
    lemma_le32_read(b, 24, h.artist_table_offset);
    lemma_le32_read(b, 28, h.album_table_offset);
    lemma_le32_read(b, 32, h.song_table_offset);
}


/// Artist row: the string-pool id of the artist's name.
#[derive(Clone, Copy, Debug, PartialEq, Eq, Structural)]
pub struct ArtistEntry {
    pub name_string_id: u32,
}

/// Album row: name, owning artist and release year.
#[derive(Clone, Copy, Debug, PartialEq, Eq, Structural)]
pub struct AlbumEntry {
    pub name_string_id: u32,
    pub artist_id: u32,
    pub year: u16,
}

/// Song row: title, owning artist and album, blob path, track number,
/// duration in seconds and the active/deleted flag byte.
#[derive(Clone, Copy, Debug, PartialEq, Eq, Structural)]
pub struct SongEntry {
    pub title_string_id: u32,
    pub artist_id: u32,
    pub album_id: u32,
    pub path_string_id: u32,
    pub track_number: u16,
    pub duration_sec: u16,
    pub flags: u8,
}

/// Byte length of an artist row.
pub const ARTIST_ENTRY_SIZE: u32 = 8;

/// Byte length of an album row.
pub const ALBUM_ENTRY_SIZE: u32 = 16;

/// Byte length of a song row.
pub const SONG_ENTRY_SIZE: u32 = 24;

/// Offset of the flag byte within a song row.
pub const SONG_FLAGS_OFFSET: u32 = 20;

/// The 8 bytes of an artist row.
pub open spec fn artist_bytes(a: ArtistEntry) -> Seq<u8> {
    le32(a.name_string_id) + le32(0)
}

/// The 16 bytes of an album row.
pub open spec fn album_bytes(a: AlbumEntry) -> Seq<u8> {
    le32(a.name_string_id) + le32(a.artist_id) + le16(a.year) + zeros(6)
}

/// The 24 bytes of a song row.
pub open spec fn song_bytes(s: SongEntry) -> Seq<u8> {
    le32(s.title_string_id) + le32(s.artist_id) + le32(s.album_id) + le32(s.path_string_id)
        + le16(s.track_number) + le16(s.duration_sec) + seq![s.flags] + zeros(3)
}

/// The artist row stored at `b[at..]`.
pub open spec fn artist_at(b: Seq<u8>, at: int) -> ArtistEntry {
    ArtistEntry { name_string_id: read_le32(b, at) }
}

/// The album row stored at `b[at..]`.
pub open spec fn album_at(b: Seq<u8>, at: int) -> AlbumEntry {
    AlbumEntry {
        name_string_id: read_le32(b, at),
        artist_id: read_le32(b, at + 4),
        year: read_le16(b, at + 8),
    }
}

/// The song row stored at `b[at..]`.
pub open spec fn song_at(b: Seq<u8>, at: int) -> SongEntry {
    SongEntry {
        title_string_id: read_le32(b, at),
        artist_id: read_le32(b, at + 4),
        album_id: read_le32(b, at + 8),
        path_string_id: read_le32(b, at + 12),
        track_number: read_le16(b, at + 16),
        duration_sec: read_le16(b, at + 18),
        flags: b[at + 20],
    }
}

/// Whether a flag byte marks its row as deleted.
pub open spec fn flags_deleted(flags: u8) -> bool {
    flags & SONG_DELETED != 0
}

/// The active flag byte is not deleted; the deleted one is.
pub proof fn lemma_flag_values()
    ensures
        !flags_deleted(SONG_ACTIVE),
        flags_deleted(SONG_DELETED),
{
    assert(0u8 & 1u8 == 0u8) by (bit_vector);
    assert(1u8 & 1u8 != 0u8) by (bit_vector);
}

impl ArtistEntry {
    /// The row's bytes: the name id and a zeroed reserved word.
    pub fn to_bytes(&self) -> (r: Vec<u8>)
        ensures
            r@ == artist_bytes(*self),
    {
        let mut bytes: Vec<u8> = Vec::with_capacity(8);
        push_le32(&mut bytes, self.name_string_id);
        push_le32(&mut bytes, 0);
        assert(bytes@ =~= artist_bytes(*self));
        bytes
    }
}

impl AlbumEntry {
    /// The row's bytes: name id, artist id, year and six zeroed bytes.
    pub fn to_bytes(&self) -> (r: Vec<u8>)
        ensures
            r@ == album_bytes(*self),
    {
        let mut bytes: Vec<u8> = Vec::with_capacity(16);
        push_le32(&mut bytes, self.name_string_id);
        push_le32(&mut bytes, self.artist_id);
        push_le16(&mut bytes, self.year);
        let mut i: usize = 0;
        while i < 6
            invariant
                i <= 6,
                bytes@ == le32(self.name_string_id) + le32(self.artist_id) + le16(self.year)
                    + zeros(i as nat),
            decreases 6 - i,
        {
            bytes.push(0);
            i = i + 1;
            assert(bytes@ =~= le32(self.name_string_id) + le32(self.artist_id) + le16(self.year)
                + zeros(i as nat));
        }
        bytes
    }
}

impl SongEntry {
    /// A new active row.
    pub fn new(
        title_string_id: u32,
        artist_id: u32,
        album_id: u32,
        path_string_id: u32,
        track_number: u16,
        duration_sec: u16,
    ) -> (r: Self)
        ensures
            r == (SongEntry {
                title_string_id,
                artist_id,
                album_id,
                path_string_id,
                track_number,
                duration_sec,
                flags: SONG_ACTIVE,
            }),
    {
        SongEntry {
            title_string_id,
            artist_id,
            album_id,
            path_string_id,
            track_number,
            duration_sec,
            flags: SONG_ACTIVE,
        }
    }

    /// Whether the row carries the deleted flag.
    pub fn is_deleted(&self) -> (r: bool)
        ensures
            r == flags_deleted(self.flags),
    {
        self.flags & SONG_DELETED != 0
    }

    /// Whether the row is live, i.e. not deleted.
    pub fn is_active(&self) -> (r: bool)
        ensures
            r == !flags_deleted(self.flags),
    {
        !self.is_deleted()
    }

    /// The row's bytes, reserved bytes zeroed.
    pub fn to_bytes(&self) -> (r: Vec<u8>)
        ensures
            r@ == song_bytes(*self),
    {
        let mut bytes: Vec<u8> = Vec::with_capacity(24);
        push_le32(&mut bytes, self.title_string_id);
        push_le32(&mut bytes, self.artist_id);
        push_le32(&mut bytes, self.album_id);
        push_le32(&mut bytes, self.path_string_id);
        push_le16(&mut bytes, self.track_number);
        push_le16(&mut bytes, self.duration_sec);
        bytes.push(self.flags);
        bytes.push(0);
        bytes.push(0);
        bytes.push(0);
        assert(bytes@ =~= song_bytes(*self));
        bytes
    }

    /// Parses a row from the first 24 bytes of `data`; `None` when fewer
    /// bytes are given.
    pub fn from_bytes(data: &[u8]) -> (r: Option<Self>)
        ensures
            r is Some <==> data@.len() >= SONG_ENTRY_SIZE,
            r matches Some(s) ==> s == song_at(data@, 0),
    {
        if data.len() < 24 {
            return None;
        }
        Some(read_song(data, 0))
    }
}

/// The artist row at `data[at..]`.
pub fn read_artist(data: &[u8], at: usize) -> (r: ArtistEntry)
    requires
        at + 4 <= data@.len(),
    ensures
        r == artist_at(data@, at as int),
{
    let len = data.len();
    assert(at + 4 <= len);
    ArtistEntry { name_string_id: get_le32(data, at) }
}

/// The album row at `data[at..]`.
pub fn read_album(data: &[u8], at: usize) -> (r: AlbumEntry)
    requires
        at + 10 <= data@.len(),
    ensures
        r == album_at(data@, at as int),
{
    let len = data.len();
    assert(at + 10 <= len);
    AlbumEntry {
        name_string_id: get_le32(data, at),
        artist_id: get_le32(data, at + 4),
        year: get_le16(data, at + 8),
    }
}

/// The song row at `data[at..]`.
pub fn read_song(data: &[u8], at: usize) -> (r: SongEntry)
    requires
        at + 21 <= data@.len(),
    ensures
        r == song_at(data@, at as int),
{
    let len = data.len();
    assert(at + 21 <= len);
    SongEntry {
        title_string_id: get_le32(data, at),
        artist_id: get_le32(data, at + 4),
        album_id: get_le32(data, at + 8),
        path_string_id: get_le32(data, at + 12),
        track_number: get_le16(data, at + 16),
        duration_sec: get_le16(data, at + 18),
        flags: data[at + 20],
    }
}

/// An artist row reads back from its bytes wherever they stand.
pub proof fn lemma_artist_round_trip(b: Seq<u8>, at: int, a: ArtistEntry)
    requires
        0 <= at,
        at + 8 <= b.len(),
        b.subrange(at, at + 8) == artist_bytes(a),
    ensures
        artist_at(b, at) == a,
{
    assert(b.subrange(at, at + 4) =~= b.subrange(at, at + 8).subrange(0, 4));
    assert(b.subrange(at, at + 8).subrange(0, 4) =~= le32(a.name_string_id));
    lemma_le32_read(b, at, a.name_string_id);
}

/// An album row reads back from its bytes wherever they stand.
pub proof fn lemma_album_round_trip(b: Seq<u8>, at: int, a: AlbumEntry)
    requires
        0 <= at,
        at + 16 <= b.len(),
        b.subrange(at, at + 16) == album_bytes(a),
    ensures
        album_at(b, at) == a,
{
    let r = b.subrange(at, at + 16);
    assert(b.subrange(at, at + 4) =~= r.subrange(0, 4));
    assert(r.subrange(0, 4) =~= le32(a.name_string_id));
    assert(b.subrange(at + 4, at + 8) =~= r.subrange(4, 8));
    assert(r.subrange(4, 8) =~= le32(a.artist_id));
    assert(b.subrange(at + 8, at + 10) =~= r.subrange(8, 10));
    assert(r.subrange(8, 10) =~= le16(a.year));
    lemma_le32_read(b, at, a.name_string_id);
    lemma_le32_read(b, at + 4, a.artist_id);
    lemma_le16_read(b, at + 8, a.year);
}

/// A song row reads back from its bytes wherever they stand.
pub proof fn lemma_song_round_trip(b: Seq<u8>, at: int, s: SongEntry)
    requires
        0 <= at,
        at + 24 <= b.len(),
        b.subrange(at, at + 24) == song_bytes(s),
    ensures
        song_at(b, at) == s,
{
    let r = b.subrange(at, at + 24);
    assert(b.subrange(at, at + 4) =~= r.subrange(0, 4));
    assert(r.subrange(0, 4) =~= le32(s.title_string_id));
    assert(b.subrange(at + 4, at + 8) =~= r.subrange(4, 8));
    assert(r.subrange(4, 8) =~= le32(s.artist_id));
    assert(b.subrange(at + 8, at + 12) =~= r.subrange(8, 12));
    assert(r.subrange(8, 12) =~= le32(s.album_id));
    assert(b.subrange(at + 12, at + 16) =~= r.subrange(12, 16));
    assert(r.subrange(12, 16) =~= le32(s.path_string_id));
    assert(b.subrange(at + 16, at + 18) =~= r.subrange(16, 18));
    assert(r.subrange(16, 18) =~= le16(s.track_number));
    assert(b.subrange(at + 18, at + 20) =~= r.subrange(18, 20));
    assert(r.subrange(18, 20) =~= le16(s.duration_sec));
    assert(b[at + 20] == r[20]);
    lemma_le32_read(b, at, s.title_string_id);
    lemma_le32_read(b, at + 4, s.artist_id);
    lemma_le32_read(b, at + 8, s.album_id);
    lemma_le32_read(b, at + 12, s.path_string_id);
    lemma_le16_read(b, at + 16, s.track_number);
    lemma_le16_read(b, at + 18, s.duration_sec);
}

/// Playlist header: song count and the byte length of the name that follows.
#[derive(Clone, Copy, Debug)]
pub struct PlaylistHeader {
    pub magic: [u8; 4],
    pub version: u32,
    pub song_count: u32,
    pub name_length: u16,
}

/// The 14 bytes of a playlist header.
pub open spec fn playlist_header_bytes(h: PlaylistHeader) -> Seq<u8> {
    h.magic@ + le32(h.version) + le32(h.song_count) + le16(h.name_length)
}

/// Whether `b` is long enough for a playlist header and starts with the
/// playlist tag.
pub open spec fn playlist_header_accepted(b: Seq<u8>) -> bool {
    b.len() >= PLAYLIST_HEADER_SIZE && b.subrange(0, 4) == playlist_magic()
}

impl PlaylistHeader {
    /// Header of the current version for a playlist of `song_count` ids and
    /// a name of `name_length` bytes.
    pub fn new(song_count: u32, name_length: u16) -> (r: Self)
        ensures
            r.magic@ == playlist_magic(),
            r.version == PLAYLIST_VERSION,
            r.song_count == song_count,
            r.name_length == name_length,
    {
        let r = PlaylistHeader {
            magic: PLAYLIST_MAGIC,
            version: PLAYLIST_VERSION,
            song_count,
            name_length,
        };
        assert(r.magic@ =~= playlist_magic());
        r
    }

    /// The header's bytes, little-endian.
    pub fn to_bytes(&self) -> (r: Vec<u8>)
        ensures
            r@ == playlist_header_bytes(*self),
    {
        let mut bytes: Vec<u8> = Vec::with_capacity(14);
        bytes.push(self.magic[0]);
        bytes.push(self.magic[1]);
        bytes.push(self.magic[2]);
        bytes.push(self.magic[3]);
        assert(bytes@ =~= self.magic@);
        push_le32(&mut bytes, self.version);
        push_le32(&mut bytes, self.song_count);
        push_le16(&mut bytes, self.name_length);
        bytes
    }

    /// Parses the header at the start of `bytes`; `None` when the slice is
    /// too short or does not start with the playlist tag.
    pub fn from_bytes(bytes: &[u8]) -> (r: Option<Self>)
        ensures
            r is Some <==> playlist_header_accepted(bytes@),
            r matches Some(h) ==> {
                &&& h.magic@ == bytes@.subrange(0, 4)
                &&& h.version == read_le32(bytes@, 4)
                &&& h.song_count == read_le32(bytes@, 8)
                &&& h.name_length == read_le16(bytes@, 12)
            },
    {
        if bytes.len() < 14 {
            return None;
        }
        if bytes[0] != 80 || bytes[1] != 76 || bytes[2] != 89 || bytes[3] != 49 {
            proof {
                if bytes@.subrange(0, 4) == playlist_magic() {
                    assert(bytes@[0] == bytes@.subrange(0, 4)[0]);
                    assert(bytes@[1] == bytes@.subrange(0, 4)[1]);
                    assert(bytes@[2] == bytes@.subrange(0, 4)[2]);
                    assert(bytes@[3] == bytes@.subrange(0, 4)[3]);
                }
            }
            return None;
        }
        let magic: [u8; 4] = [bytes[0], bytes[1], bytes[2], bytes[3]];
        assert(magic@ =~= bytes@.subrange(0, 4));
        assert(bytes@.subrange(0, 4) =~= playlist_magic());
        Some(
            PlaylistHeader {
                magic,
                version: get_le32(bytes, 4),
                song_count: get_le32(bytes, 8),
                name_length: get_le16(bytes, 12),
            },
        )
    }
}

} // verus!
