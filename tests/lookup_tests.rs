use jp3_organiser::cover::{
    album_cover_url, artist_cover_url, deezer_album_cover_url, CoverArtAlbumResponse, CoverArtImage,
    CoverArtThumbnails, DeezerAlbumInfo, DeezerAlbumSearchItem, DeezerAlbumSearchResponse, DeezerArtist,
    DeezerSearchResponse,
};
use jp3_organiser::musicbrainz::{
    best_release, Artist, ArtistCredit, MusicBrainzRelease, MusicBrainzSearchResponse, SearchReleaseMbidResult,
};

fn thumbs(s500: Option<&str>, s250: Option<&str>, large: Option<&str>, small: Option<&str>) -> CoverArtThumbnails {
    CoverArtThumbnails {
        size_500: s500.map(String::from),
        size_250: s250.map(String::from),
        size_1200: None,
        large: large.map(String::from),
        small: small.map(String::from),
    }
}

fn image(front: bool, t: CoverArtThumbnails) -> CoverArtImage {
    CoverArtImage { front, back: !front, thumbnails: t, image: "full".to_string() }
}

#[test]
fn album_cover_prefers_front_image_and_500px() {
    let resp = CoverArtAlbumResponse {
        images: vec![
            image(false, thumbs(Some("back500"), None, None, None)),
            image(true, thumbs(None, Some("front250"), Some("frontL"), None)),
        ],
        release: "r".to_string(),
    };
    assert_eq!(album_cover_url(&resp), Some("front250".to_string()));
    let no_front = CoverArtAlbumResponse {
        images: vec![image(false, thumbs(None, None, None, Some("small")))],
        release: "r".to_string(),
    };
    assert_eq!(album_cover_url(&no_front), Some("small".to_string()));
    let empty = CoverArtAlbumResponse { images: vec![], release: "r".to_string() };
    assert_eq!(album_cover_url(&empty), None);
    let bare = CoverArtAlbumResponse { images: vec![image(true, thumbs(None, None, None, None))], release: "r".to_string() };
    assert_eq!(album_cover_url(&bare), None);
}

#[test]
fn deezer_pictures_follow_preference() {
    let resp = DeezerSearchResponse {
        data: vec![
            DeezerArtist { name: "A".to_string(), picture_big: None, picture_medium: Some("m".to_string()), picture_xl: Some("xl".to_string()) },
            DeezerArtist { name: "B".to_string(), picture_big: Some("b".to_string()), picture_medium: None, picture_xl: None },
        ],
    };
    assert_eq!(artist_cover_url(&resp), Some("xl".to_string()));
    assert_eq!(artist_cover_url(&DeezerSearchResponse { data: vec![] }), None);
    let albums = DeezerAlbumSearchResponse {
        data: vec![DeezerAlbumSearchItem {
            album: DeezerAlbumInfo { cover_big: None, cover_medium: Some("m".to_string()), cover_xl: None },
        }],
    };
    assert_eq!(deezer_album_cover_url(&albums), Some("m".to_string()));
}

#[test]
fn best_release_is_first_hit() {
    let hit = MusicBrainzRelease {
        id: "mbid-1".to_string(),
        title: "Jazz".to_string(),
        score: None,
        artist_credit: Some(vec![ArtistCredit {
            name: Some("credit".to_string()),
            artist: Some(Artist { id: "a".to_string(), name: "Queen".to_string() }),
        }]),
        date: Some("1978-11-10".to_string()),
        release_group: None,
    };
    let mut second = hit.clone();
    second.id = "mbid-2".to_string();
    let resp = MusicBrainzSearchResponse { releases: Some(vec![hit, second]), count: Some(2) };
    let best = best_release(&resp).unwrap();
    assert_eq!(best.release_mbid, "mbid-1");
    assert_eq!(best.artist, Some("Queen".to_string()));
    assert_eq!(best.score, 0);
    assert_eq!(best.date, Some("1978-11-10".to_string()));
    let report = SearchReleaseMbidResult::from_search(Some(best));
    assert!(report.found);
    assert_eq!(report.mbid, Some("mbid-1".to_string()));
    assert!(best_release(&MusicBrainzSearchResponse { releases: Some(vec![]), count: Some(0) }).is_none());
    assert!(!SearchReleaseMbidResult::from_search(None).found);
}
