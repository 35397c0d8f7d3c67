use jp3_organiser::ranking::{
    build_audio_metadata, extract_metadata, oldest_release_date, rank_scores, AcoustIdResponse,
    AcoustIdResult, Artist, MetadataError, Recording, Release, ReleaseDate, ReleaseGroup,
};

fn artist(id: &str, name: &str) -> Artist {
    Artist { id: id.to_string(), name: name.to_string() }
}

fn release(id: &str, year: Option<i32>, month: Option<u32>, day: Option<u32>) -> Release {
    Release {
        id: id.to_string(),
        country: None,
        date: Some(ReleaseDate { year, month, day }),
        medium_count: None,
        track_count: None,
    }
}

fn group(id: &str, kind: &str, title: &str, releases: Option<Vec<Release>>) -> ReleaseGroup {
    ReleaseGroup {
        id: id.to_string(),
        release_type: Some(kind.to_string()),
        title: title.to_string(),
        artists: None,
        releases,
    }
}

fn recording(id: &str, title: &str, sources: u32, artists: Vec<Artist>, groups: Vec<ReleaseGroup>) -> Recording {
    Recording {
        id: id.to_string(),
        title: title.to_string(),
        sources: Some(sources),
        artists: Some(artists),
        releasegroups: Some(groups),
    }
}

fn response(results: Vec<Vec<Recording>>) -> AcoustIdResponse {
    AcoustIdResponse {
        status: "ok".to_string(),
        results: Some(
            results
                .into_iter()
                .enumerate()
                .map(|(i, recs)| AcoustIdResult { id: format!("result-{}", i + 1), recordings: Some(recs) })
                .collect(),
        ),
    }
}

fn jealousy_response() -> AcoustIdResponse {
    let mut jazz = group(
        "c192ea46-7377-34f0-b332-dd9810edd560",
        "Album",
        "Jazz",
        Some(vec![Release {
            id: "993f394d-895d-4fbb-9733-f9e98e0afdd6".to_string(),
            country: Some("GB".to_string()),
            date: Some(ReleaseDate { year: Some(1978), month: Some(11), day: Some(10) }),
            medium_count: Some(1),
            track_count: Some(13),
        }]),
    );
    jazz.artists = Some(vec![artist("0383dadf-2a4e-4d10-a46a-e9e041da8eb3", "Queen")]);
    let rec = recording(
        "cca05c80-3941-4e26-a855-d4316c9cad6d",
        "Jealousy",
        2518,
        vec![artist("0383dadf-2a4e-4d10-a46a-e9e041da8eb3", "Queen")],
        vec![jazz],
    );
    response(vec![vec![rec]])
}

#[test]
fn metadata_ranking_tests_test_extract_metadata_basic() {
    let result = extract_metadata(&jealousy_response()).unwrap();
    assert_eq!(result.title, Some("Jealousy".to_string()));
    assert_eq!(result.artist, Some("Queen".to_string()));
    assert_eq!(result.album, Some("Jazz".to_string()));
    assert_eq!(result.year, Some(1978));
    assert_eq!(result.track_number, None);
    assert_eq!(result.duration_secs, None);
}

fn low_high_response() -> AcoustIdResponse {
    let low = recording(
        "low-sources",
        "Song Low",
        100,
        vec![artist("1", "Artist")],
        vec![group("rg1", "Album", "Album Low", Some(vec![release("r1", Some(1990), None, None)]))],
    );
    let high = recording(
        "high-sources",
        "Song High",
        5000,
        vec![artist("2", "Artist")],
        vec![group("rg2", "Album", "Album High", Some(vec![release("r2", Some(1978), None, None)]))],
    );
    response(vec![vec![low, high]])
}

#[test]
fn test_ranking_prefers_higher_sources_when_dates_favor_same() {
    let result = extract_metadata(&low_high_response()).unwrap();
    assert_eq!(result.title, Some("Song High".to_string()));
    assert_eq!(result.album, Some("Album High".to_string()));
}

#[test]
fn test_ranking_prefers_higher_sources() {
    let result = extract_metadata(&low_high_response()).unwrap();
    assert_eq!(result.title, Some("Song High".to_string()));
    assert_eq!(result.album, Some("Album High".to_string()));
}

#[test]
fn metadata_ranking_service_test_extract_metadata_basic() {
    let result = extract_metadata(&jealousy_response()).unwrap();
    assert_eq!(result.title, Some("Jealousy".to_string()));
    assert_eq!(result.artist, Some("Queen".to_string()));
    assert_eq!(result.album, Some("Jazz".to_string()));
    assert_eq!(result.year, Some(1978));
    assert_eq!(result.track_number, None);
    assert_eq!(result.duration_secs, None);
}

#[test]
fn metadata_ranking_service_test_no_recordings_returns_error() {
    let resp = AcoustIdResponse { status: "ok".to_string(), results: Some(vec![]) };
    assert!(extract_metadata(&resp).is_err());
}

#[test]
fn metadata_ranking_service_test_missing_title_field_handled() {
    assert!(extract_metadata(&untitled_only_response()).is_err());
}

#[test]
fn metadata_ranking_service_test_skips_recordings_without_title() {
    let result = extract_metadata(&untitled_then_titled_response()).unwrap();
    assert_eq!(result.title, Some("Good Song".to_string()));
    assert_eq!(result.album, Some("Good Album".to_string()));
}

#[test]
fn metadata_ranking_tests_test_no_recordings_returns_error() {
    let resp = AcoustIdResponse { status: "ok".to_string(), results: Some(vec![]) };
    let result = extract_metadata(&resp);
    assert!(result.is_err());
    assert!(matches!(result, Err(MetadataError::NoRecordings)));
}

fn untitled_only_response() -> AcoustIdResponse {
    let rec = Recording {
        id: "no-title-recording".to_string(),
        title: String::new(),
        sources: Some(100),
        artists: Some(vec![artist("1", "Artist")]),
        releasegroups: Some(vec![group("rg1", "Album", "Album", None)]),
    };
    response(vec![vec![rec]])
}

#[test]
fn metadata_ranking_tests_test_missing_title_field_handled() {
    let result = extract_metadata(&untitled_only_response());
    assert!(result.is_err());
}

fn untitled_then_titled_response() -> AcoustIdResponse {
    let untitled = Recording {
        id: "no-title-recording".to_string(),
        title: String::new(),
        sources: Some(5000),
        artists: Some(vec![artist("1", "Artist")]),
        releasegroups: Some(vec![group("rg1", "Album", "Album", None)]),
    };
    let titled = recording(
        "has-title-recording",
        "Good Song",
        100,
        vec![artist("2", "Good Artist")],
        vec![group("rg2", "Album", "Good Album", None)],
    );
    response(vec![vec![untitled, titled]])
}

#[test]
fn metadata_ranking_tests_test_skips_recordings_without_title() {
    let result = extract_metadata(&untitled_then_titled_response()).unwrap();
    assert_eq!(result.title, Some("Good Song".to_string()));
    assert_eq!(result.album, Some("Good Album".to_string()));
}

#[test]
fn test_error_status_returns_error() {
    let resp = AcoustIdResponse { status: "error".to_string(), results: None };
    let result = extract_metadata(&resp);
    assert!(result.is_err());
    match result {
        Err(MetadataError::Status(s)) => assert_eq!(s, "error"),
        _ => panic!("expected a status error"),
    }
}

#[test]
fn test_multiple_results_all_recordings_considered() {
    let r1 = recording(
        "rec-1",
        "Song From Result 1",
        100,
        vec![artist("1", "Artist 1")],
        vec![group("rg1", "Album", "Album 1", Some(vec![release("r1", Some(2020), None, None)]))],
    );
    let r2 = recording(
        "rec-2",
        "Song From Result 2",
        5000,
        vec![artist("2", "Artist 2")],
        vec![group("rg2", "Album", "Album 2", Some(vec![release("r2", Some(1978), None, None)]))],
    );
    let result = extract_metadata(&response(vec![vec![r1], vec![r2]])).unwrap();
    assert_eq!(result.title, Some("Song From Result 2".to_string()));
    assert_eq!(result.album, Some("Album 2".to_string()));
}

#[test]
fn scores_follow_places_by_sources_and_date() {
    let sources = vec![100, 5000, 0, 300, 300, 7, 1];
    let dates = vec![Some(19900101), Some(19781231), None, Some(19781231), None, Some(2000), Some(3000)];
    let scores = rank_scores(&sources, &dates);
    // places by sources: 5000, 300(3), 300(4), 100, 7, 1; zero sources earn nothing
    // places by date: 2000, 3000, 19781231(1), 19781231(3), 19900101; unknown dates earn nothing
    assert_eq!(scores, vec![8 + 4, 20 + 12, 0, 16 + 8, 12, 4 + 20, 0 + 16]);
}

#[test]
fn oldest_date_spans_groups_and_ignores_undated() {
    let rec = recording(
        "r",
        "T",
        1,
        vec![artist("1", "A")],
        vec![
            group("g1", "Single", "S", Some(vec![release("a", Some(1990), Some(5), None), release("b", None, None, None)])),
            group("g2", "Album", "L", Some(vec![release("c", Some(1990), Some(4), Some(2))])),
        ],
    );
    let d = oldest_release_date(&rec).unwrap();
    assert_eq!(d, ReleaseDate { year: Some(1990), month: Some(4), day: Some(2) });
    let none = recording("r", "T", 1, vec![], vec![group("g", "Album", "L", None)]);
    assert_eq!(oldest_release_date(&none), None);
}

#[test]
fn metadata_prefers_album_group_and_earliest_year() {
    let rec = recording(
        "r",
        "Title",
        1,
        vec![artist("0", ""), artist("1", "Named")],
        vec![
            group("g1", "Single", "First", None),
            group("g2", "Album", "The Album", Some(vec![release("a", Some(2001), None, None), release("b", Some(1999), None, None)])),
        ],
    );
    let md = build_audio_metadata(&rec).unwrap();
    assert_eq!(md.artist, Some("Named".to_string()));
    assert_eq!(md.album, Some("The Album".to_string()));
    assert_eq!(md.year, Some(1999));
    let fallback = recording("r", "Title", 1, vec![artist("1", "A")], vec![group("g1", "Album", "", None), group("g2", "Single", "S", None)]);
    assert!(matches!(build_audio_metadata(&fallback), Err(MetadataError::NoReleaseGroup)));
    let first = recording("r", "Title", 1, vec![artist("1", "A")], vec![group("g1", "Single", "S", None)]);
    assert_eq!(build_audio_metadata(&first).unwrap().album, Some("S".to_string()));
    let no_artist = recording("r", "Title", 1, vec![artist("1", "")], vec![group("g1", "Single", "S", None)]);
    assert!(matches!(build_audio_metadata(&no_artist), Err(MetadataError::NoArtist)));
}
