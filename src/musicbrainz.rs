//! The MusicBrainz release search: its settings, the answer's shape, and
//! the choice of the release reported.
use vstd::prelude::*;

verus! {

/// Least time between two requests, in milliseconds (the service allows
/// one per second; a margin is kept).
pub const MIN_REQUEST_INTERVAL_MS: u64 = 1100;

/// Request timeout, in seconds.
pub const REQUEST_TIMEOUT_SECS: u64 = 30;

/// User-Agent sent with every request: application, version and contact.
pub const USER_AGENT: &'static str = "JP3Organiser/1.0.0 (https://github.com/jp3-organiser)";

/// Why a release search failed.
#[derive(Clone, Debug)]
pub enum MusicBrainzError {
    RequestError(String),
    RateLimitExceeded,
    NotFound,
    ParseError(String),
}

/// The best release found for an artist and album.
#[derive(Clone, Debug)]
pub struct ReleaseSearchResult {
    pub release_mbid: String,
    pub title: String,
    pub artist: Option<String>,
    /// Search score, 0 to 100.
    pub score: u32,
    pub date: Option<String>,
}

/// An artist of a release's credit.
#[derive(Clone, Debug)]
pub struct Artist {
    pub id: String,
    pub name: String,
}

/// One credit of a release.
#[derive(Clone, Debug)]
pub struct ArtistCredit {
    pub name: Option<String>,
    pub artist: Option<Artist>,
}

/// The release group of a release.
#[derive(Clone, Debug)]
pub struct ReleaseGroup {
    pub id: String,
    pub primary_type: Option<String>,
}

/// One release found by a search.
#[derive(Clone, Debug)]
pub struct MusicBrainzRelease {
    pub id: String,
    pub title: String,
    pub score: Option<u32>,
    pub artist_credit: Option<Vec<ArtistCredit>>,
    pub date: Option<String>,
    pub release_group: Option<ReleaseGroup>,
}

/// A release search answer, best match first.
#[derive(Clone, Debug)]
pub struct MusicBrainzSearchResponse {
    pub releases: Option<Vec<MusicBrainzRelease>>,
    pub count: Option<u32>,
}

/// The artist name reported for a release: that of the artist of its
/// first credit, if any.
pub open spec fn credited_artist(r: MusicBrainzRelease) -> Option<Seq<char>> {
    match r.artist_credit {
        Some(v) => if v@.len() > 0 {
            match v@[0].artist {
                Some(a) => Some(a.name@),
                None => None,
            }
        } else {
            None
        },
        None => None,
    }
}

/// The release reported from a search: the first (best) one, with its id,
/// title, credited artist, score (0 when absent) and date; `None` when the
/// search found nothing.
pub fn best_release(resp: &MusicBrainzSearchResponse) -> (r: Option<ReleaseSearchResult>)
    ensures
        r is None <==> (resp.releases is None || resp.releases->Some_0@.len() == 0),
        r matches Some(x) ==> {
            let b = resp.releases->Some_0@[0];
            &&& x.release_mbid@ == b.id@
            &&& x.title@ == b.title@
            &&& match x.artist {
                Some(a) => credited_artist(b) == Some(a@),
                None => credited_artist(b) is None,
            }
            &&& x.score == b.score.unwrap_or(0)
            &&& match x.date {
                Some(d) => b.date matches Some(e) && e@ == d@,
                None => b.date is None,
            }
        },
{
    let releases = match &resp.releases {
        Some(v) => v,
        None => {
            return None;
        },
    };
    if releases.len() == 0 {
        return None;
    }
    let best = &releases[0];
    let artist = match &best.artist_credit {
        Some(credits) => if credits.len() > 0 {
            match &credits[0].artist {
                Some(a) => Some(a.name.clone()),
                None => None,
            }
        } else {
            None
        },
        None => None,
    };
    let date = match &best.date {
        Some(d) => Some(d.clone()),
        None => None,
    };
    Some(
        ReleaseSearchResult {
            release_mbid: best.id.clone(),
            title: best.title.clone(),
            artist,
            score: match best.score {
                Some(s) => s,
                None => 0,
            },
            date,
        },
    )
}

/// What a release search reports to the user interface.
#[derive(Clone, Debug)]
pub struct SearchReleaseMbidResult {
    pub found: bool,
    pub mbid: Option<String>,
    pub title: Option<String>,
    pub artist: Option<String>,
    pub score: Option<u32>,
}

impl SearchReleaseMbidResult {
    /// The report of a search's outcome: found with the release's id,
    /// title, artist and score, or not found with nothing else.
    pub fn from_search(found: Option<ReleaseSearchResult>) -> (r: Self)
        ensures
            r.found == found is Some,
            found is None ==> r.mbid is None && r.title is None && r.artist is None && r.score is None,
            found matches Some(x) ==> r.mbid == Some(x.release_mbid) && r.title == Some(x.title)
                && r.artist == x.artist && r.score == Some(x.score),
    {
        match found {
            Some(x) => SearchReleaseMbidResult {
                found: true,
                mbid: Some(x.release_mbid),
                title: Some(x.title),
                artist: x.artist,
                score: Some(x.score),
            },
            None => SearchReleaseMbidResult { found: false, mbid: None, title: None, artist: None, score: None },
        }
    }
}

} // verus!
