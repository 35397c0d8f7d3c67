use jp3_organiser::audio::{
    process_audio_fingerprint, AudioFingerprintResult, AudioMetadata, MetadataSource, MetadataStatus,
    ProcessedFilesResult, TrackedAudioFile,
};
use jp3_organiser::catalogue::{parse_string_table, Catalogue, CatalogueError};
use jp3_organiser::codec::{get_le16, get_le32, push_le16, push_le32};
use jp3_organiser::records::{
    AlbumEntry, ArtistEntry, LibraryHeader, PlaylistHeader, SongEntry, HEADER_SIZE, LIBRARY_MAGIC,
    SONG_ACTIVE, SONG_DELETED,
};
use jp3_organiser::playlist_files::{
    find_playlist_by_name, highest_bucket, parse_decimal_range, parse_playlist_id, playlist_file_name,
    validate_rename, RenameError,
};
use jp3_organiser::string_table::StringTable;

#[test]
fn le_integers_round_trip() {
    let mut b = Vec::new();
    push_le32(&mut b, 0x1234_5678);
    push_le16(&mut b, 0xabcd);
    assert_eq!(b, vec![0x78, 0x56, 0x34, 0x12, 0xcd, 0xab]);
    assert_eq!(get_le32(&b, 0), 0x1234_5678);
    assert_eq!(get_le16(&b, 4), 0xabcd);
}

#[test]
fn empty_header_layout() {
    let h = LibraryHeader::new_empty();
    let b = h.to_bytes();
    assert_eq!(b.len(), HEADER_SIZE as usize);
    assert_eq!(&b[0..4], b"LIB1");
    assert_eq!(get_le32(&b, 4), 1);
    for at in [8usize, 12, 16] {
        assert_eq!(get_le32(&b, at), 0);
    }
    for at in [20usize, 24, 28, 32] {
        assert_eq!(get_le32(&b, at), 40);
    }
    assert_eq!(get_le32(&b, 36), 0);
}

#[test]
fn header_round_trip() {
    let h = LibraryHeader {
        magic: LIBRARY_MAGIC,
        version: 7,
        song_count: 3,
        artist_count: 2,
        album_count: 1,
        string_table_offset: 40,
        artist_table_offset: 100,
        album_table_offset: 116,
        song_table_offset: 132,
    };
    let d = LibraryHeader::from_bytes(&h.to_bytes()).unwrap();
    assert_eq!(d.magic, h.magic);
    assert_eq!(d.version, 7);
    assert_eq!(d.song_count, 3);
    assert_eq!(d.artist_count, 2);
    assert_eq!(d.album_count, 1);
    assert_eq!(d.string_table_offset, 40);
    assert_eq!(d.artist_table_offset, 100);
    assert_eq!(d.album_table_offset, 116);
    assert_eq!(d.song_table_offset, 132);
}

#[test]
fn header_rejects_bad_magic_and_short_input() {
    let mut b = LibraryHeader::new_empty().to_bytes();
    assert!(LibraryHeader::from_bytes(&b[..39]).is_none());
    b[0] = b'X';
    assert!(LibraryHeader::from_bytes(&b).is_none());
}

#[test]
fn record_layouts() {
    let a = ArtistEntry { name_string_id: 5 };
    assert_eq!(a.to_bytes(), vec![5, 0, 0, 0, 0, 0, 0, 0]);
    let al = AlbumEntry { name_string_id: 1, artist_id: 2, year: 2020 };
    assert_eq!(al.to_bytes(), vec![1, 0, 0, 0, 2, 0, 0, 0, 0xe4, 0x07, 0, 0, 0, 0, 0, 0]);
    let s = SongEntry::new(1, 2, 3, 4, 5, 180);
    let b = s.to_bytes();
    assert_eq!(b.len(), 24);
    assert_eq!(b[20], SONG_ACTIVE);
    assert_eq!(&b[21..24], &[0, 0, 0]);
    let back = SongEntry::from_bytes(&b).unwrap();
    assert_eq!(back, s);
    assert!(SongEntry::from_bytes(&b[..23]).is_none());
}

#[test]
fn song_flags() {
    let mut s = SongEntry::new(0, 0, 0, 0, 0, 0);
    assert!(s.is_active());
    assert!(!s.is_deleted());
    s.flags = SONG_DELETED;
    assert!(s.is_deleted());
    assert!(!s.is_active());
}

#[test]
fn interning_is_idempotent() {
    let mut t = StringTable::new();
    assert!(t.is_empty());
    let a = t.add("Test Album");
    let len_after_first = t.len();
    let b = t.add("Test Album");
    assert_eq!(a, b);
    assert_eq!(t.len(), len_after_first);
    assert_eq!(t.len(), 1);
    let c = t.add("test album");
    assert_ne!(a, c);
    assert_eq!(t.len(), 2);
    assert_eq!(t.get_or_peek("Test Album"), Some(0));
    assert_eq!(t.get_or_peek("missing"), None);
    assert_eq!(t.get(1), Some("test album"));
    assert_eq!(t.get(2), None);
}

#[test]
fn string_pool_bytes_and_parse() {
    let mut t = StringTable::new();
    t.add("ab");
    t.add("é");
    let b = t.to_bytes();
    assert_eq!(b, vec![2, 0, b'a', b'b', 2, 0, 0xc3, 0xa9]);
    let back = parse_string_table(&b, 0, b.len()).unwrap();
    assert_eq!(back, vec!["ab".to_string(), "é".to_string()]);
    assert_eq!(parse_string_table(&b, 0, 3), Err(CatalogueError::BadStringTable));
    let bad = vec![1, 0, 0xff];
    assert_eq!(parse_string_table(&bad, 0, 3), Err(CatalogueError::BadStringTable));
}

fn sample_catalogue() -> Catalogue {
    let mut strings = StringTable::new();
    let artist = strings.add("Artist");
    let album = strings.add("Album");
    let title = strings.add("Song");
    let path = strings.add("00/001.mp3");
    Catalogue {
        strings,
        artists: vec![ArtistEntry { name_string_id: artist }],
        albums: vec![AlbumEntry { name_string_id: album, artist_id: 0, year: 2020 }],
        songs: vec![SongEntry::new(title, 0, 0, path, 1, 180)],
    }
}

#[test]
fn catalogue_write_then_read() {
    let c = sample_catalogue();
    let b = c.to_bytes().unwrap();
    let h = LibraryHeader::from_bytes(&b).unwrap();
    assert_eq!(h.song_count, 1);
    assert_eq!(h.artist_count, 1);
    assert_eq!(h.album_count, 1);
    assert_eq!(h.string_table_offset, 40);
    assert_eq!(h.song_table_offset as usize + 24, b.len());
    let back = Catalogue::parse(&b).unwrap();
    assert_eq!(back.artists, c.artists);
    assert_eq!(back.albums, c.albums);
    assert_eq!(back.songs, c.songs);
    assert_eq!(back.strings.len(), 4);
    assert_eq!(back.strings.get(3), Some("00/001.mp3"));
}

#[test]
fn catalogue_refuses_corruption() {
    let b = sample_catalogue().to_bytes().unwrap();
    assert_eq!(Catalogue::parse(&b[..20]).err(), Some(CatalogueError::BadHeader));
    let mut bad_magic = b.clone();
    bad_magic[3] = b'2';
    assert_eq!(Catalogue::parse(&bad_magic).err(), Some(CatalogueError::BadHeader));
    assert_eq!(Catalogue::parse(&b[..b.len() - 1]).err(), Some(CatalogueError::BadLayout));
    let mut bad_pool = b.clone();
    bad_pool[42] = 0xff;
    assert_eq!(Catalogue::parse(&bad_pool).err(), Some(CatalogueError::BadStringTable));
    let mut bad_ref = b.clone();
    let soo = get_le32(&b, 32) as usize;
    bad_ref[soo + 4] = 9;
    assert_eq!(Catalogue::parse(&bad_ref).err(), Some(CatalogueError::BadReference));
}

#[test]
fn playlist_header_layout() {
    let h = PlaylistHeader::new(3, 5);
    let b = h.to_bytes();
    assert_eq!(b, vec![b'P', b'L', b'Y', b'1', 1, 0, 0, 0, 3, 0, 0, 0, 5, 0]);
    let back = PlaylistHeader::from_bytes(&b).unwrap();
    assert_eq!(back.song_count, 3);
    assert_eq!(back.name_length, 5);
    assert!(PlaylistHeader::from_bytes(&b[..13]).is_none());
}

#[test]
fn metadata_completeness_and_missing_fields() {
    let mut md = AudioMetadata::empty();
    assert!(!md.is_complete());
    assert_eq!(md.missing_fields(), vec!["title", "artist", "album"]);
    md.title = Some("T".to_string());
    md.album = Some("L".to_string());
    assert_eq!(md.missing_fields(), vec!["artist"]);
    md.artist = Some("A".to_string());
    assert!(md.is_complete());
    assert!(md.missing_fields().is_empty());
}

#[test]
fn playlist_names_and_ids() {
    assert_eq!(parse_playlist_id("123.bin"), Some(123));
    assert_eq!(parse_playlist_id("+7.bin"), Some(7));
    assert_eq!(parse_playlist_id("4294967295.bin"), Some(u32::MAX));
    assert_eq!(parse_playlist_id("4294967296.bin"), None);
    assert_eq!(parse_playlist_id(".bin"), None);
    assert_eq!(parse_playlist_id("12.txt"), None);
    assert_eq!(parse_playlist_id("1a.bin"), None);
    assert_eq!(playlist_file_name(42), "42.bin");
    let names = vec!["Road Trip".to_string(), "Chill".to_string()];
    assert_eq!(validate_rename("  Morning  ", &names), Ok("Morning".to_string()));
    assert_eq!(validate_rename("   ", &names), Err(RenameError::EmptyName));
    assert_eq!(validate_rename("road trip", &names), Err(RenameError::DuplicateName));
    assert_eq!(find_playlist_by_name(&names, &"Chill".to_string()), Some(1));
    assert_eq!(find_playlist_by_name(&names, &"chill".to_string()), None);
}

#[test]
fn cover_key_normalises_names() {
    assert_eq!(jp3_organiser::cover::cover_key("  Queen ", "JAZZ"), "queen|||jazz");
    assert_eq!(jp3_organiser::blob::bucket_dir_name(3), "03");
    assert_eq!(jp3_organiser::blob::bucket_dir_name(123), "123");
}

#[test]
fn fingerprint_outcomes() {
    let ok = process_audio_fingerprint(
        Ok(AudioFingerprintResult { fingerprint: "AQAA".to_string(), duration_seconds: 193 }),
        "t1".to_string(),
    );
    assert_eq!(ok.fingerprint_id, "AQAA");
    assert_eq!(ok.fingerprint_status, MetadataStatus::Success);
    assert_eq!(ok.duration_seconds, 193);
    assert_eq!(ok.tracking_id, "t1");
    let failed = process_audio_fingerprint(Err("no audio track".to_string()), "t2".to_string());
    assert_eq!(failed.fingerprint_id, "");
    assert_eq!(failed.fingerprint_status, MetadataStatus::Failed);
    assert_eq!(failed.error_message, Some("no audio track".to_string()));
    assert_eq!(failed.duration_seconds, 0);
}

#[test]
fn tracked_file_status_and_batch_counts() {
    let mut f = TrackedAudioFile {
        tracking_id: "x".to_string(),
        file_path: "/music/a.mp3".to_string(),
        file_name: "a.mp3".to_string(),
        file_extension: "mp3".to_string(),
        file_size: 10,
        metadata_status: MetadataStatus::Pending,
        metadata_source: MetadataSource::Unknown,
        metadata: AudioMetadata::empty(),
        error_message: None,
    };
    f.update_status();
    assert_eq!(f.metadata_status, MetadataStatus::Incomplete);
    f.metadata.title = Some("T".to_string());
    f.metadata.artist = Some("A".to_string());
    f.metadata.album = Some("L".to_string());
    f.update_status();
    assert_eq!(f.metadata_status, MetadataStatus::Complete);
    let mut g = f.clone();
    g.error_message = Some("unreadable".to_string());
    g.update_status();
    assert_eq!(g.metadata_status, MetadataStatus::Error);
    let r = ProcessedFilesResult::from_files(vec![f.clone(), g, f]);
    assert_eq!((r.complete_count, r.incomplete_count, r.error_count), (2, 0, 1));
    assert_eq!(MetadataStatus::default(), MetadataStatus::Pending);
    assert_eq!(MetadataSource::default(), MetadataSource::Unknown);
}

#[test]
fn bucket_numbers_from_directory_names() {
    let names = vec!["00".to_string(), "07".to_string(), "notes".to_string(), "03".to_string()];
    assert_eq!(highest_bucket(&names), 7);
    assert_eq!(highest_bucket(&vec![]), 0);
    assert_eq!(parse_decimal_range("x12y", 1, 3), Some(12));
    assert_eq!(parse_decimal_range("+", 0, 1), None);
}

#[test]
fn blob_paths_are_zero_padded() {
    assert_eq!(jp3_organiser::blob::blob_path(0, 1, "mp3"), "00/001.mp3");
    assert_eq!(jp3_organiser::blob::blob_path(12, 256, "flac"), "12/256.flac");
    assert_eq!(jp3_organiser::blob::blob_path(100, 7, "ogg"), "100/007.ogg");
}
