use jp3_organiser::audio::AudioMetadata;
use jp3_organiser::blob::BlobCursor;
use jp3_organiser::catalogue::{Catalogue, CatalogueError};
use jp3_organiser::deletion::{plan_delete, DeletePlan};
use jp3_organiser::library::{EditError, EditSongResult, FileToSave, IngestOutcome, SaveToLibraryResult};
use jp3_organiser::playlist::{
    add_songs, encode_playlist, next_playlist_id, parse_playlist, remap_for_compaction, remap_song_id,
    remove_songs, PlaylistError,
};
use jp3_organiser::records::{LibraryHeader, SONG_DELETED};
use jp3_organiser::view::{library_stats, load_library, LibraryStats, ParsedLibrary};

/// A library kept in memory: the catalogue file, the blob tree's files, the
/// blob cursor and the playlist files.
struct Store {
    catalogue: Vec<u8>,
    blobs: Vec<String>,
    cursor: BlobCursor,
    playlists: Vec<(u32, Vec<u8>)>,
}

fn new_store() -> Store {
    Store {
        catalogue: LibraryHeader::new_empty().to_bytes(),
        blobs: Vec::new(),
        cursor: BlobCursor::new(0, 0),
        playlists: Vec::new(),
    }
}

fn metadata(title: &str, artist: &str, album: &str, year: i32, track: u32) -> AudioMetadata {
    AudioMetadata {
        title: Some(title.to_string()),
        artist: Some(artist.to_string()),
        album: Some(album.to_string()),
        track_number: Some(track),
        year: Some(year),
        duration_secs: Some(180),
        release_mbid: None,
        artist_mbid: None,
    }
}

fn file(source: &str, title: &str, artist: &str, album: &str, year: i32, track: u32) -> FileToSave {
    FileToSave {
        source_path: source.to_string(),
        extension: "mp3".to_string(),
        metadata: metadata(title, artist, album, year, track),
    }
}

fn save(store: &mut Store, files: Vec<FileToSave>) -> SaveToLibraryResult {
    let mut c = Catalogue::parse(&store.catalogue).unwrap();
    let r = c.ingest(&files, &mut store.cursor);
    for o in &r.outcomes {
        if let IngestOutcome::Added { relative_path, .. } = o {
            store.blobs.push(relative_path.clone());
        }
    }
    store.catalogue = c.to_bytes().unwrap();
    r
}

fn delete(store: &mut Store, ids: Vec<u32>) -> (DeletePlan, u32) {
    let plan = plan_delete(&store.catalogue, &ids).unwrap();
    for off in &plan.flag_offsets {
        store.catalogue[*off as usize] = SONG_DELETED;
    }
    let mut files_deleted = 0u32;
    for p in plan.blob_paths.iter().flatten() {
        if let Some(i) = store.blobs.iter().position(|b| b == p) {
            store.blobs.remove(i);
            files_deleted += 1;
        }
    }
    (plan, files_deleted)
}

fn create_playlist(store: &mut Store, name: &str, ids: Vec<u32>) -> u32 {
    let existing: Vec<u32> = store.playlists.iter().map(|p| p.0).collect();
    let id = next_playlist_id(&existing).unwrap();
    store.playlists.push((id, encode_playlist(name, &ids).unwrap()));
    id
}

fn load_playlist_ids(store: &Store, id: u32) -> Vec<u32> {
    let (_, bytes) = store.playlists.iter().find(|p| p.0 == id).unwrap();
    parse_playlist(bytes, id).unwrap().song_ids
}

fn edit(store: &mut Store, song_id: u32, md: AudioMetadata) -> Result<EditSongResult, EditError> {
    let mut c = Catalogue::parse(&store.catalogue).unwrap();
    let mut r = c.edit_song(song_id, &md)?;
    store.catalogue = c.to_bytes().unwrap();
    for entry in store.playlists.iter_mut() {
        let p = parse_playlist(&entry.1, entry.0).unwrap();
        let (ids, changed) = remap_song_id(&p.song_ids, song_id, r.new_song_id);
        if changed {
            entry.1 = encode_playlist(&p.name, &ids).unwrap();
            r.playlists_updated += 1;
        }
    }
    Ok(r)
}

fn compact(store: &mut Store) -> jp3_organiser::compaction::Compaction {
    let c = Catalogue::parse(&store.catalogue).unwrap();
    let plan = c.compact();
    for p in &plan.removed_blob_paths {
        store.blobs.retain(|b| b != p);
    }
    store.catalogue = plan.catalogue.to_bytes().unwrap();
    for entry in store.playlists.iter_mut() {
        let p = parse_playlist(&entry.1, entry.0).unwrap();
        let ids = remap_for_compaction(&p.song_ids, &plan.song_map);
        entry.1 = encode_playlist(&p.name, &ids).unwrap();
    }
    plan
}

fn stats(store: &Store) -> LibraryStats {
    library_stats(&store.catalogue).unwrap()
}

fn load(store: &Store) -> ParsedLibrary {
    load_library(&store.catalogue).unwrap()
}

#[test]
fn library_tests_test_string_deduplication_across_batches() {
    let mut store = new_store();
    let result1 = save(&mut store, vec![file("test1.mp3", "Song One", "Test Artist", "Test Album", 2020, 1)]);
    assert_eq!(result1.files_saved, 1);
    assert_eq!(result1.artists_added, 1);
    assert_eq!(result1.albums_added, 1);

    let result2 = save(&mut store, vec![file("test2.mp3", "Song Two", "Test Artist", "Test Album", 2020, 2)]);
    assert_eq!(result2.artists_added, 0, "Should add 0 new artists");
    assert_eq!(result2.albums_added, 0, "Should add 0 new albums");

    let library = load(&store);
    assert_eq!(library.songs.len(), 2, "Should have 2 songs");
    assert_eq!(library.artists.len(), 1, "Should have 1 artist (deduplicated)");
    assert_eq!(library.albums.len(), 1, "Should have 1 album (deduplicated)");

    let c = Catalogue::parse(&store.catalogue).unwrap();
    let mut album_count = 0;
    for i in 0..c.strings.len() {
        if c.strings.get(i as u32) == Some("Test Album") {
            album_count += 1;
        }
    }
    assert_eq!(album_count, 1, "String 'Test Album' should appear exactly once");
}

#[test]
fn test_duplicate_song_detection_across_batches() {
    let mut store = new_store();
    let first = save(&mut store, vec![file("test1.mp3", "Unique Song", "Test Artist", "Test Album", 2020, 1)]);
    assert_eq!(first.files_saved, 1, "First save should save 1 file");
    assert_eq!(first.songs_added, 1, "First save should add 1 song");
    assert_eq!(first.duplicates_skipped, 0, "First save should skip 0 duplicates");

    let second = save(&mut store, vec![file("test2.mp3", "Unique Song", "Test Artist", "Test Album", 2020, 1)]);
    assert_eq!(second.files_saved, 0, "Second save should save 0 files (duplicate)");
    assert_eq!(second.songs_added, 0, "Second save should add 0 songs (duplicate)");
    assert_eq!(second.duplicates_skipped, 1, "Second save should skip 1 duplicate");
    assert_eq!(second.duplicate_song_ids, vec![0]);

    let library = load(&store);
    assert_eq!(library.songs.len(), 1, "Library should have exactly 1 song");
    assert_eq!(store.blobs.len(), 1, "Music directory should have exactly 1 file");
}

#[test]
fn test_duplicate_detection_within_same_batch() {
    let mut store = new_store();
    let r = save(
        &mut store,
        vec![
            file("test1.mp3", "Same Song", "Same Artist", "Same Album", 2020, 1),
            file("test2.mp3", "Same Song", "Same Artist", "Same Album", 2020, 1),
        ],
    );
    assert_eq!(r.files_saved, 1, "Should save 1 file");
    assert_eq!(r.songs_added, 1, "Should add 1 song");
    assert_eq!(r.duplicates_skipped, 1, "Should skip 1 duplicate in batch");
    assert_eq!(r.song_ids, vec![0]);
    assert_eq!(r.duplicate_song_ids, vec![0]);
    assert_eq!(load(&store).songs.len(), 1, "Library should have exactly 1 song");
}

#[test]
fn library_tests_test_soft_delete_songs() {
    let mut store = new_store();
    save(
        &mut store,
        vec![
            file("test1.mp3", "Song One", "Artist", "Album", 2020, 1),
            file("test2.mp3", "Song Two", "Artist", "Album", 2020, 2),
        ],
    );
    assert_eq!(load(&store).songs.len(), 2, "Should have 2 songs before delete");
    assert!(store.blobs.contains(&"00/001.mp3".to_string()), "Audio file 1 should exist before delete");
    assert!(store.blobs.contains(&"00/002.mp3".to_string()), "Audio file 2 should exist before delete");

    let size_before = store.catalogue.len();
    let (plan, files_deleted) = delete(&mut store, vec![0]);
    assert_eq!(plan.deleted_ids.len(), 1, "Should delete 1 song");
    assert_eq!(files_deleted, 1, "Should delete 1 audio file");
    assert!(plan.not_found.is_empty(), "Should not have any not_found");
    assert_eq!(store.catalogue.len(), size_before);

    assert!(!store.blobs.contains(&"00/001.mp3".to_string()), "Audio file 1 should be deleted");
    assert!(store.blobs.contains(&"00/002.mp3".to_string()), "Audio file 2 should still exist");

    let library = load(&store);
    assert_eq!(library.songs.len(), 1, "Should have 1 song after delete");
    assert_eq!(library.songs[0].title, "Song Two", "Remaining song should be Song Two");

    let s = stats(&store);
    assert_eq!(s.total_songs, 2, "Total songs should still be 2");
    assert_eq!(s.active_songs, 1, "Active songs should be 1");
    assert_eq!(s.deleted_songs, 1, "Deleted songs should be 1");
    assert!(s.should_compact);
}

#[test]
fn library_tests_test_delete_nonexistent_song() {
    let mut store = new_store();
    save(&mut store, vec![file("test.mp3", "Song One", "Artist", "Album", 2020, 1)]);
    let (plan, _) = delete(&mut store, vec![5, 10, 100]);
    assert_eq!(plan.deleted_ids.len(), 0, "Should delete 0 songs");
    assert_eq!(plan.not_found.len(), 3, "Should have 3 not_found");
    assert_eq!(plan.not_found, vec![5, 10, 100]);
}

#[test]
fn library_tests_test_edit_song_metadata() {
    let mut store = new_store();
    save(&mut store, vec![file("test.mp3", "Wrong Title", "Wrong Artist", "Wrong Album", 2020, 1)]);
    let edit_result = edit(&mut store, 0, metadata("Correct Title", "Correct Artist", "Correct Album", 2021, 1)).unwrap();
    assert!(edit_result.artist_created, "Should create new artist");
    assert!(edit_result.album_created, "Should create new album");

    let library = load(&store);
    assert_eq!(library.songs.len(), 1, "Should have 1 active song");
    assert_eq!(library.songs[0].title, "Correct Title");
    assert_eq!(library.songs[0].artist_name, "Correct Artist");
    assert_eq!(library.songs[0].album_name, "Correct Album");
    assert_eq!(library.songs[0].path, "00/001.mp3");

    let s = stats(&store);
    assert_eq!(s.total_songs, 2, "Total songs should be 2 (old + new)");
    assert_eq!(s.active_songs, 1, "Active songs should be 1");
    assert_eq!(s.deleted_songs, 1, "Deleted songs should be 1");
}

#[test]
fn library_tests_test_compact_library() {
    let mut store = new_store();
    save(
        &mut store,
        vec![
            file("test1.mp3", "Song One", "Artist One", "Album One", 2020, 1),
            file("test2.mp3", "Song Two", "Artist Two", "Album Two", 2021, 1),
            file("test3.mp3", "Song Three", "Artist One", "Album One", 2020, 2),
        ],
    );
    let before = stats(&store);
    assert_eq!(before.total_artists, 2, "Should have 2 artists");
    assert_eq!(before.total_albums, 2, "Should have 2 albums");

    delete(&mut store, vec![1]);
    let deleted = stats(&store);
    assert_eq!(deleted.deleted_songs, 1);
    assert_eq!(deleted.total_artists, 2, "Artists still 2 before compact");

    let old_size = store.catalogue.len() as u64;
    let result = compact(&mut store);
    let new_size = store.catalogue.len() as u64;
    assert_eq!(result.songs_removed, 1, "Should remove 1 song");
    assert_eq!(result.artists_removed, 1, "Should remove orphaned Artist Two");
    assert_eq!(result.albums_removed, 1, "Should remove orphaned Album Two");
    assert!(old_size.saturating_sub(new_size) > 0, "Should save some bytes");

    let after = stats(&store);
    assert_eq!(after.total_songs, 2, "Should have 2 songs");
    assert_eq!(after.deleted_songs, 0, "Should have 0 deleted");
    assert_eq!(after.total_artists, 1, "Should have 1 artist");
    assert_eq!(after.total_albums, 1, "Should have 1 album");

    let library = load(&store);
    assert_eq!(library.songs.len(), 2);
    let titles: Vec<_> = library.songs.iter().map(|s| s.title.as_str()).collect();
    assert!(titles.contains(&"Song One"));
    assert!(titles.contains(&"Song Three"));
    assert!(!titles.contains(&"Song Two"));
}

#[test]
fn test_edit_song_remaps_playlist_ids() {
    let mut store = new_store();
    let save_result = save(
        &mut store,
        vec![
            file("song1.mp3", "Song One", "Artist", "Album", 2020, 1),
            file("song2.mp3", "Song Two", "Artist", "Album", 2020, 2),
            file("song3.mp3", "Song Three", "Artist", "Album", 2020, 3),
        ],
    );
    assert_eq!(save_result.songs_added, 3);
    let playlist_id = create_playlist(&mut store, "My Playlist", vec![0, 1, 2]);
    assert_eq!(load_playlist_ids(&store, playlist_id), vec![0, 1, 2]);

    let edit_result = edit(&mut store, 1, metadata("Song Two (Edited)", "Artist", "Album", 2020, 2)).unwrap();
    assert_eq!(edit_result.new_song_id, 3, "New song should have ID 3");
    assert_eq!(edit_result.playlists_updated, 1, "Should update 1 playlist");
    assert_eq!(load_playlist_ids(&store, playlist_id), vec![0, 3, 2], "Playlist should have remapped ID 1 to 3");

    let library = load(&store);
    assert_eq!(library.songs.len(), 3, "Should have 3 active songs");
    let edited = library.songs.iter().find(|s| s.id == 3).expect("Should find song with ID 3");
    assert_eq!(edited.title, "Song Two (Edited)");
}

#[test]
fn test_edit_song_no_playlists_affected() {
    let mut store = new_store();
    save(&mut store, vec![file("test.mp3", "Test Song", "Artist", "Album", 2020, 1)]);
    create_playlist(&mut store, "Playlist", vec![0]);
    save(&mut store, vec![file("test2.mp3", "Another Song", "Artist", "Album", 2020, 2)]);
    let edit_result = edit(&mut store, 1, metadata("Another Song (Edited)", "Artist", "Album", 2020, 2)).unwrap();
    assert_eq!(edit_result.playlists_updated, 0, "No playlists should be updated");
}

#[test]
fn edit_refuses_unknown_song_and_missing_fields() {
    let mut store = new_store();
    save(&mut store, vec![file("a.mp3", "A", "B", "C", 2020, 1)]);
    assert_eq!(edit(&mut store, 7, metadata("X", "Y", "Z", 2020, 1)), Err(EditError::NotFound));
    let mut md = metadata("X", "Y", "Z", 2020, 1);
    md.artist = None;
    assert_eq!(
        edit(&mut store, 0, md),
        Err(EditError::Missing(jp3_organiser::audio::RequiredField::Artist))
    );
    assert_eq!(stats(&store).deleted_songs, 0);
}

#[test]
fn example_scenario_ingest_delete_compact() {
    let mut store = new_store();
    let r1 = save(&mut store, vec![file("one.mp3", "Song One", "Artist", "Album", 2020, 1)]);
    assert_eq!(r1.song_ids, vec![0]);
    let r2 = save(&mut store, vec![file("two.mp3", "Song Two", "Artist", "Album", 2020, 2)]);
    assert_eq!(r2.artists_added, 0);
    assert_eq!(r2.albums_added, 0);
    let s = stats(&store);
    assert_eq!((s.total_artists, s.total_albums, s.total_songs), (1, 1, 2));

    let (_, files_deleted) = delete(&mut store, vec![0]);
    assert_eq!(files_deleted, 1);
    let s = stats(&store);
    assert_eq!(s.active_songs, 1);
    assert_eq!(s.deleted_songs, 1);
    assert_eq!(store.blobs, vec!["00/002.mp3".to_string()]);

    let pid = create_playlist(&mut store, "Mix", vec![1, 0, 1]);
    let result = compact(&mut store);
    assert_eq!(result.songs_removed, 1);
    assert_eq!(result.artists_removed, 0);
    assert_eq!(result.albums_removed, 0);
    assert_eq!(result.song_map, vec![None, Some(0)]);
    assert_eq!(load_playlist_ids(&store, pid), vec![0, 0]);
    let s = stats(&store);
    assert_eq!((s.total_artists, s.total_albums, s.total_songs), (1, 1, 1));
}

#[test]
fn ingest_reports_missing_fields_and_continues() {
    let mut store = new_store();
    let mut bad = file("bad.mp3", "T", "A", "L", 2020, 1);
    bad.metadata.album = None;
    let r = save(&mut store, vec![bad, file("ok.mp3", "T", "A", "L", 2020, 1)]);
    assert!(matches!(r.outcomes[0], IngestOutcome::Missing(jp3_organiser::audio::RequiredField::Album)));
    assert!(matches!(r.outcomes[1], IngestOutcome::Added { song_id: 0, .. }));
    assert_eq!(r.songs_added, 1);
}

#[test]
fn same_album_title_under_two_artists_is_two_albums() {
    let mut store = new_store();
    let r = save(
        &mut store,
        vec![
            file("a.mp3", "Song", "Artist A", "Greatest Hits", 2020, 1),
            file("b.mp3", "Song", "Artist B", "Greatest Hits", 2020, 1),
        ],
    );
    assert_eq!(r.albums_added, 2);
    assert_eq!(r.songs_added, 2);
    let lib = load(&store);
    assert_eq!(lib.albums[1].artist_name, "Artist B");
}

#[test]
fn blob_placement_rolls_over_full_bucket() {
    let mut store = new_store();
    store.cursor = BlobCursor::new(3, 256);
    let r = save(&mut store, vec![file("x.flac", "S", "A", "L", 2020, 1)]);
    if let IngestOutcome::Added { relative_path, .. } = &r.outcomes[0] {
        assert_eq!(relative_path, "04/001.mp3");
    } else {
        panic!("expected an added song");
    }
    assert_eq!(store.cursor, BlobCursor::new(4, 1));
    let mut c = BlobCursor::new(0, 9);
    assert_eq!(c.next_slot(), Some((0, 10)));
    c.advance();
    assert_eq!(c, BlobCursor::new(0, 10));
    assert_eq!(BlobCursor::new(u32::MAX, 256).next_slot(), None);
}

#[test]
fn playlist_file_round_trip_and_truncation() {
    let b = encode_playlist("Road trip", &vec![3, 1, 3]).unwrap();
    assert_eq!(b.len(), 14 + 9 + 12);
    let p = parse_playlist(&b, 12).unwrap();
    assert_eq!(p.id, 12);
    assert_eq!(p.name, "Road trip");
    assert_eq!(p.song_count, 3);
    assert_eq!(p.song_ids, vec![3, 1, 3]);
    assert_eq!(parse_playlist(&b[..20], 12).err(), Some(PlaylistError::Truncated));
    assert_eq!(parse_playlist(&b[..30], 12).err(), Some(PlaylistError::Truncated));
    assert_eq!(parse_playlist(&b[..10], 12).err(), Some(PlaylistError::BadHeader));
    let mut bad = b.clone();
    bad[14] = 0xff;
    assert_eq!(parse_playlist(&bad, 12).err(), Some(PlaylistError::BadName));
}

#[test]
fn playlist_song_list_operations() {
    let (ids, added) = add_songs(&vec![1, 2], &vec![2, 3, 4]);
    assert_eq!(ids, vec![1, 2, 3, 4]);
    assert_eq!(added, 2);
    let (ids, removed) = remove_songs(&vec![1, 2, 1, 3], &vec![1]);
    assert_eq!(ids, vec![2, 3]);
    assert_eq!(removed, 2);
    let (ids, changed) = remap_song_id(&vec![5, 1, 5], 5, 9);
    assert_eq!(ids, vec![9, 1, 9]);
    assert!(changed);
    let (_, changed) = remap_song_id(&vec![1, 2], 5, 9);
    assert!(!changed);
    assert_eq!(remap_for_compaction(&vec![0, 1, 2, 7], &vec![Some(0), None, Some(1)]), vec![0, 1]);
    assert_eq!(next_playlist_id(&vec![]), Some(1));
    assert_eq!(next_playlist_id(&vec![4, 9, 2]), Some(10));
    assert_eq!(next_playlist_id(&vec![u32::MAX]), None);
}

#[test]
fn edited_song_keeps_its_blob_through_compaction_and_redelete() {
    let mut store = new_store();
    save(&mut store, vec![file("a.mp3", "Wrong", "Artist", "Album", 2020, 1)]);
    let e = edit(&mut store, 0, metadata("Right", "Artist", "Album", 2020, 1)).unwrap();
    assert_eq!(e.new_song_id, 1);
    let (plan, files_deleted) = delete(&mut store, vec![0]);
    assert_eq!(plan.blob_paths, vec![None]);
    assert_eq!(files_deleted, 0);
    let result = compact(&mut store);
    assert!(result.removed_blob_paths.is_empty());
    assert_eq!(store.blobs, vec!["00/001.mp3".to_string()]);
    let lib = load(&store);
    assert_eq!(lib.songs.len(), 1);
    assert_eq!(lib.songs[0].path, "00/001.mp3");
}

#[test]
fn one_album_name_under_two_artists_shares_its_string() {
    let mut store = new_store();
    let r = save(
        &mut store,
        vec![file("f1.mp3", "T1", "A1", "X", 2020, 1), file("f2.mp3", "T2", "A2", "X", 2020, 1)],
    );
    assert_eq!(r.artists_added, 2);
    assert_eq!(r.albums_added, 2);
    let c = Catalogue::parse(&store.catalogue).unwrap();
    assert_eq!(c.albums[0].artist_id, 0);
    assert_eq!(c.albums[1].artist_id, 1);
    assert_eq!(c.albums[0].name_string_id, c.albums[1].name_string_id);
    let mut count = 0;
    for i in 0..c.strings.len() {
        if c.strings.get(i as u32) == Some("X") {
            count += 1;
        }
    }
    assert_eq!(count, 1);
}

#[test]
fn empty_catalogue_counts_as_none_for_merging() {
    let header_only = LibraryHeader::new_empty().to_bytes();
    let c = Catalogue::open_for_merge(&header_only).unwrap();
    assert_eq!(c.songs.len(), 0);
    assert_eq!(Catalogue::open_for_merge(&[1, 2, 3]).err(), Some(CatalogueError::BadHeader));
    let mut bad = header_only.clone();
    bad[0] = b'X';
    assert!(Catalogue::open_for_merge(&bad).is_err());
    let mut store = new_store();
    save(&mut store, vec![file("a.mp3", "A", "B", "C", 2020, 1)]);
    assert_eq!(Catalogue::open_for_merge(&store.catalogue).unwrap().songs.len(), 1);
}

#[test]
fn edit_reports_new_rows_only_when_names_do_not_resolve() {
    let mut store = new_store();
    save(
        &mut store,
        vec![file("a.mp3", "A", "Artist", "Album", 2020, 1), file("b.mp3", "B", "Other", "Else", 2019, 1)],
    );
    let e = edit(&mut store, 0, metadata("A2", "Other", "Else", 2020, 1)).unwrap();
    assert!(!e.artist_created);
    assert!(!e.album_created);
    let e = edit(&mut store, 1, metadata("B2", "Other", "New Album", 1999, 1)).unwrap();
    assert!(!e.artist_created);
    assert!(e.album_created);
    let lib = load(&store);
    let album = lib.albums.iter().find(|a| a.name == "New Album").unwrap();
    assert_eq!(album.year, 1999);
}

#[test]
fn editing_a_deleted_song_is_not_found() {
    let mut store = new_store();
    save(&mut store, vec![file("a.mp3", "A", "B", "C", 2020, 1)]);
    delete(&mut store, vec![0]);
    assert_eq!(edit(&mut store, 0, metadata("X", "B", "C", 2020, 1)), Err(EditError::NotFound));
    assert_eq!(stats(&store).total_songs, 1);
}
