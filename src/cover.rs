//! Cover images are stored under a name derived from the artist and album
//! names (not their ids, which compaction renumbers). This module builds
//! the normalised key the name is derived from, and chooses the image URL
//! from the cover services' answers.
use vstd::prelude::*;

use crate::playlist_files::{lower_of, lowercase, trim, trimmed_of};
use vstd::string::StringExecFns;

verus! {

/// Which kind of cover an image is.
#[derive(Clone, Copy, Debug, PartialEq, Eq, Structural)]
pub enum ImageCoverType {
    Artist,
    Album,
}

/// Why a cover could not be fetched or saved.
#[derive(Clone, Debug)]
pub enum CoverArtError {
    RequestError(String),
    NotFound,
    ParseError(String),
    IoError(String),
}

/// The key a cover's file name is derived from: artist and album names,
/// each lowercased and trimmed, joined by `|||`. An artist's own cover uses
/// the artist name in both places.
pub fn cover_key(artist: &str, album: &str) -> (r: String)
    ensures
        r@ == trimmed_of(lower_of(artist@)) + seq!['|', '|', '|'] + trimmed_of(lower_of(album@)),
{
    let mut key = trim(lowercase(artist).as_str());
    let b = trim(lowercase(album).as_str());
    key.append("|||");
    key.append(b.as_str());
    proof {
        reveal_strlit("|||");
        assert(key@ =~= trimmed_of(lower_of(artist@)) + seq!['|', '|', '|'] + trimmed_of(lower_of(album@)));
    }
    key
}

/// Thumbnail URLs of a Cover Art Archive image.
#[derive(Clone, Debug)]
pub struct CoverArtThumbnails {
    pub size_500: Option<String>,
    pub size_250: Option<String>,
    pub size_1200: Option<String>,
    pub large: Option<String>,
    pub small: Option<String>,
}

/// One image of a release on the Cover Art Archive.
#[derive(Clone, Debug)]
pub struct CoverArtImage {
    pub front: bool,
    pub back: bool,
    pub thumbnails: CoverArtThumbnails,
    pub image: String,
}

/// The Cover Art Archive's answer for a release.
#[derive(Clone, Debug)]
pub struct CoverArtAlbumResponse {
    pub images: Vec<CoverArtImage>,
    pub release: String,
}

/// An artist found by a Deezer search.
#[derive(Clone, Debug)]
pub struct DeezerArtist {
    pub name: String,
    pub picture_big: Option<String>,
    pub picture_medium: Option<String>,
    pub picture_xl: Option<String>,
}

/// A Deezer artist search answer.
#[derive(Clone, Debug)]
pub struct DeezerSearchResponse {
    pub data: Vec<DeezerArtist>,
}

/// Album pictures of a Deezer search hit.
#[derive(Clone, Debug)]
pub struct DeezerAlbumInfo {
    pub cover_big: Option<String>,
    pub cover_medium: Option<String>,
    pub cover_xl: Option<String>,
}

/// One Deezer track search hit, with its album.
#[derive(Clone, Debug)]
pub struct DeezerAlbumSearchItem {
    pub album: DeezerAlbumInfo,
}

/// A Deezer track search answer.
#[derive(Clone, Debug)]
pub struct DeezerAlbumSearchResponse {
    pub data: Vec<DeezerAlbumSearchItem>,
}

/// The first present URL of three, in order of preference.
pub open spec fn first_of(a: Option<String>, b: Option<String>, c: Option<String>) -> Option<Seq<char>> {
    match a {
        Some(x) => Some(x@),
        None => match b {
            Some(y) => Some(y@),
            None => match c {
                Some(z) => Some(z@),
                None => None,
            },
        },
    }
}

/// The first present of three optional URLs.
fn pick_url(a: &Option<String>, b: &Option<String>, c: &Option<String>) -> (r: Option<String>)
    ensures
        match r {
            Some(s) => first_of(*a, *b, *c) == Some(s@),
            None => first_of(*a, *b, *c) is None,
        },
{
    match a {
        Some(x) => Some(x.clone()),
        None => match b {
            Some(y) => Some(y.clone()),
            None => match c {
                Some(z) => Some(z.clone()),
                None => None,
            },
        },
    }
}

/// The thumbnail used of an image: 500 px, else 250 px, else large, else small.
pub open spec fn thumbnail_of(t: CoverArtThumbnails) -> Option<Seq<char>> {
    match first_of(t.size_500, t.size_250, t.large) {
        Some(x) => Some(x),
        None => match t.small {
            Some(y) => Some(y@),
            None => None,
        },
    }
}

/// The image whose thumbnail is used: the first front image, else the
/// first image; -1 when there is none.
pub open spec fn cover_image_index(images: Seq<CoverArtImage>) -> int {
    if exists|i: int| 0 <= i < images.len() && images[i].front {
        choose|i: int| 0 <= i < images.len() && images[i].front && forall|j: int| 0 <= j < i ==> !images[j].front
    } else if images.len() > 0 {
        0
    } else {
        -1
    }
}

/// The URL of a release's cover thumbnail: from the first front image (or
/// the first image), the 500 px thumbnail, else 250 px, else large, else
/// small; `None` when there is no image or no thumbnail.
pub fn album_cover_url(resp: &CoverArtAlbumResponse) -> (r: Option<String>)
    ensures
        cover_image_index(resp.images@) < 0 ==> r is None,
        cover_image_index(resp.images@) >= 0 ==> {
            let t = resp.images@[cover_image_index(resp.images@)].thumbnails;
            match r {
                Some(s) => thumbnail_of(t) == Some(s@),
                None => thumbnail_of(t) is None,
            }
        },
{
    let images = &resp.images;
    let mut i: usize = 0;
    while i < images.len() && !images[i].front
        invariant
            i <= images@.len(),
            forall|j: int| 0 <= j < i ==> !images@[j].front,
        decreases images@.len() - i,
    {
        i = i + 1;
    }
    let chosen: usize = if i < images.len() && images[i].front {
        proof {
            let k = cover_image_index(images@);
            assert(exists|x: int| 0 <= x < images@.len() && images@[x].front);
            if k != i as int {
                if k < i as int {
                    assert(!images@[k].front);
                } else {
                    assert(images@[i as int].front);
                }
            }
        }
        i
    } else if images.len() > 0 {
        proof {
            assert(i == images@.len());
            assert(!exists|x: int| 0 <= x < images@.len() && images@[x].front);
        }
        0
    } else {
        return None;
    };
    let t = &images[chosen].thumbnails;
    match pick_url(&t.size_500, &t.size_250, &t.large) {
        Some(u) => Some(u),
        None => match &t.small {
            Some(x) => Some(x.clone()),
            None => None,
        },
    }
}

/// The URL of an artist's picture from a Deezer search: from the first
/// hit, the big picture, else the extra-large one, else the medium one.
pub fn artist_cover_url(resp: &DeezerSearchResponse) -> (r: Option<String>)
    ensures
        resp.data@.len() == 0 ==> r is None,
        resp.data@.len() > 0 ==> {
            let a = resp.data@[0];
            match r {
                Some(s) => first_of(a.picture_big, a.picture_xl, a.picture_medium) == Some(s@),
                None => first_of(a.picture_big, a.picture_xl, a.picture_medium) is None,
            }
        },
{
    if resp.data.len() == 0 {
        return None;
    }
    let a = &resp.data[0];
    pick_url(&a.picture_big, &a.picture_xl, &a.picture_medium)
}

/// The URL of an album cover from a Deezer track search: from the first
/// hit's album, the big cover, else the extra-large one, else the medium one.
pub fn deezer_album_cover_url(resp: &DeezerAlbumSearchResponse) -> (r: Option<String>)
    ensures
        resp.data@.len() == 0 ==> r is None,
        resp.data@.len() > 0 ==> {
            let a = resp.data@[0].album;
            match r {
                Some(s) => first_of(a.cover_big, a.cover_xl, a.cover_medium) == Some(s@),
                None => first_of(a.cover_big, a.cover_xl, a.cover_medium) is None,
            }
        },
{
    if resp.data.len() == 0 {
        return None;
    }
    let a = &resp.data[0].album;
    pick_url(&a.cover_big, &a.cover_xl, &a.cover_medium)
}

/// Outcome of fetching a cover for the user interface.
#[derive(Clone, Debug)]
pub struct FetchCoverResult {
    pub success: bool,
    pub path: Option<String>,
    pub error: Option<String>,
    pub was_cached: bool,
}

/// Where a cached cover is, if it is.
#[derive(Clone, Debug)]
pub struct GetCoverPathResult {
    pub exists: bool,
    pub path: Option<String>,
}

/// An artist and album to look a release up for.
#[derive(Clone, Debug)]
pub struct AlbumQuery {
    pub artist: String,
    pub album: String,
}

/// Outcome of clearing the cover cache.
#[derive(Clone, Debug)]
pub struct ClearCoverCacheResult {
    pub success: bool,
    pub albums_cleared: u32,
    pub artists_cleared: u32,
    pub error: Option<String>,
}

} // verus!
