//! Ranking of metadata candidates from a fingerprint lookup: recordings
//! earn points for being among the best five by number of sources and by
//! oldest release date, and the best recording gives the metadata.
use vstd::prelude::*;

use crate::audio::AudioMetadata;

verus! {

/// A release date whose parts may be unknown.
#[derive(Clone, Copy, Debug, PartialEq, Eq, Structural)]
pub struct ReleaseDate {
    pub year: Option<i32>,
    pub month: Option<u32>,
    pub day: Option<u32>,
}

/// The date as the number YYYYMMDD, unknown parts counted as late as
/// possible (year 9999, month 12, day 31).
pub open spec fn sortable_of(d: ReleaseDate) -> int {
    d.year.unwrap_or(9999) as int * 10000 + d.month.unwrap_or(12) as int * 100 + d.day.unwrap_or(
        31,
    ) as int
}

impl ReleaseDate {
    /// The date as a number that orders dates oldest first: year, month
    /// and day in the decimal places of YYYYMMDD, unknown parts taken as the
    /// latest possible.
    pub fn to_sortable_int(&self) -> (r: i64)
        ensures
            r == sortable_of(*self),
    {
        let year: i64 = match self.year {
            Some(y) => y as i64,
            None => 9999,
        };
        let month: i64 = match self.month {
            Some(m) => m as i64,
            None => 12,
        };
        let day: i64 = match self.day {
            Some(d) => d as i64,
            None => 31,
        };
        year * 10000 + month * 100 + day
    }
}

/// A release of a release group.
#[derive(Clone, Debug)]
pub struct Release {
    pub id: String,
    pub country: Option<String>,
    pub date: Option<ReleaseDate>,
    pub medium_count: Option<u32>,
    pub track_count: Option<u32>,
}

/// An artist credited on a recording or release group.
#[derive(Clone, Debug)]
pub struct Artist {
    pub id: String,
    pub name: String,
}

/// A release group (album, single, compilation, ...).
#[derive(Clone, Debug)]
pub struct ReleaseGroup {
    pub id: String,
    pub release_type: Option<String>,
    pub title: String,
    pub artists: Option<Vec<Artist>>,
    pub releases: Option<Vec<Release>>,
}

/// A candidate recording.
#[derive(Clone, Debug)]
pub struct Recording {
    pub id: String,
    pub title: String,
    pub sources: Option<u32>,
    pub artists: Option<Vec<Artist>>,
    pub releasegroups: Option<Vec<ReleaseGroup>>,
}

/// One result of a lookup, with its candidate recordings.
#[derive(Clone, Debug)]
pub struct AcoustIdResult {
    pub id: String,
    pub recordings: Option<Vec<Recording>>,
}

/// A whole lookup response.
#[derive(Clone, Debug)]
pub struct AcoustIdResponse {
    pub status: String,
    pub results: Option<Vec<AcoustIdResult>>,
}

/// Why no metadata could be taken from a response.
#[derive(Clone, Debug)]
pub enum MetadataError {
    /// The service reported a status other than `ok`.
    Status(String),
    /// No recording with a title.
    NoRecordings,
    /// The best recording has an empty title.
    EmptyTitle,
    /// The best recording credits no artist with a name.
    NoArtist,
    /// The best recording has no release group with a title.
    NoReleaseGroup,
}

/// The release groups of a recording (none when absent).
pub open spec fn groups_of(rec: Recording) -> Seq<ReleaseGroup> {
    match rec.releasegroups {
        Some(g) => g@,
        None => Seq::empty(),
    }
}

/// The releases of a release group (none when absent).
pub open spec fn releases_of(g: ReleaseGroup) -> Seq<Release> {
    match g.releases {
        Some(r) => r@,
        None => Seq::empty(),
    }
}

/// Whether release `k` of group `g` of `rec` has a date with a year.
pub open spec fn dated(rec: Recording, g: int, k: int) -> bool {
    &&& 0 <= g < groups_of(rec).len()
    &&& 0 <= k < releases_of(groups_of(rec)[g]).len()
    &&& releases_of(groups_of(rec)[g])[k].date is Some
    &&& releases_of(groups_of(rec)[g])[k].date->Some_0.year is Some
}

/// The date of release `k` of group `g`.
pub open spec fn date_at(rec: Recording, g: int, k: int) -> ReleaseDate {
    releases_of(groups_of(rec)[g])[k].date->Some_0
}

/// Whether `d` is the oldest dated release date of `rec` (the first one in
/// group and release order when several are equally old), or `None` when
/// no release has a dated year.
pub open spec fn is_oldest(rec: Recording, d: Option<ReleaseDate>) -> bool {
    match d {
        None => forall|g: int, k: int| !dated(rec, g, k),
        Some(x) => exists|g: int, k: int|
            {
                &&& dated(rec, g, k)
                &&& date_at(rec, g, k) == x
                &&& forall|g2: int, k2: int|
                    dated(rec, g2, k2) ==> sortable_of(x) <= sortable_of(#[trigger] date_at(rec, g2, k2))
                &&& forall|g2: int, k2: int|
                    dated(rec, g2, k2) && (g2 < g || (g2 == g && k2 < k)) ==> sortable_of(
                        x,
                    ) < sortable_of(#[trigger] date_at(rec, g2, k2))
            },
    }
}

/// The oldest dated release date of a recording, across all its release
/// groups; the first one found when several are equally old.
pub fn oldest_release_date(rec: &Recording) -> (r: Option<ReleaseDate>)
    ensures
        is_oldest(*rec, r),
{
    let groups = match &rec.releasegroups {
        Some(g) => g,
        None => {
            return None;
        },
    };
    let mut best: Option<ReleaseDate> = None;
    let mut best_key: i64 = 0;
    let ghost mut bg: int = 0;
    let ghost mut bk: int = 0;
    let mut g: usize = 0;
    while g < groups.len()
        invariant
            groups_of(*rec) == groups@,
            g <= groups@.len(),
            best is None ==> forall|g2: int, k2: int| 0 <= g2 < g ==> !dated(*rec, g2, k2),
            best matches Some(x) ==> {
                &&& best_key == sortable_of(x)
                &&& dated(*rec, bg, bk)
                &&& bg < g
                &&& date_at(*rec, bg, bk) == x
                &&& forall|g2: int, k2: int|
                    0 <= g2 < g && dated(*rec, g2, k2) ==> sortable_of(x) <= sortable_of(
                        #[trigger] date_at(*rec, g2, k2),
                    )
                &&& forall|g2: int, k2: int|
                    dated(*rec, g2, k2) && (g2 < bg || (g2 == bg && k2 < bk)) ==> sortable_of(x)
                        < sortable_of(#[trigger] date_at(*rec, g2, k2))
            },
        decreases groups@.len() - g,
    {
        if let Some(releases) = &groups[g].releases {
            let mut k: usize = 0;
            while k < releases.len()
                invariant
                    groups_of(*rec) == groups@,
                    g < groups@.len(),
                    releases_of(groups@[g as int]) == releases@,
                    k <= releases@.len(),
                    best is None ==> forall|g2: int, k2: int|
                        (0 <= g2 < g || (g2 == g && 0 <= k2 < k)) ==> !dated(*rec, g2, k2),
                    best matches Some(x) ==> {
                        &&& best_key == sortable_of(x)
                        &&& dated(*rec, bg, bk)
                        &&& (bg < g || (bg == g && bk < k))
                        &&& date_at(*rec, bg, bk) == x
                        &&& forall|g2: int, k2: int|
                            (0 <= g2 < g || (g2 == g && 0 <= k2 < k)) && dated(*rec, g2, k2)
                                ==> sortable_of(x) <= sortable_of(#[trigger] date_at(*rec, g2, k2))
                        &&& forall|g2: int, k2: int|
                            dated(*rec, g2, k2) && (g2 < bg || (g2 == bg && k2 < bk))
                                ==> sortable_of(x) < sortable_of(#[trigger] date_at(*rec, g2, k2))
                    },
                decreases releases@.len() - k,
            {
                if let Some(d) = releases[k].date {
                    if d.year.is_some() {
                        let key = d.to_sortable_int();
                        let better = match best {
                            None => true,
                            Some(_) => key < best_key,
                        };
                        if better {
                            best = Some(d);
                            best_key = key;
                            proof {
                                bg = g as int;
                                bk = k as int;
                            }
                        }
                    }
                }
                k = k + 1;
            }
        }
        g = g + 1;
    }
    proof {
        match best {
            Some(x) => {
                assert forall|g2: int, k2: int| dated(*rec, g2, k2) implies sortable_of(x) <= sortable_of(
                    #[trigger] date_at(*rec, g2, k2),
                ) by {}
                assert(is_oldest(*rec, best));
            },
            None => {},
        }
    }
    best
}

/// Points for places one to five of a ranking.
pub open spec fn points(rank: nat) -> nat {
    if rank < 5 {
        (20 - 4 * rank) as nat
    } else {
        0
    }
}

/// Number of the first `n` candidates placed before candidate `i` when
/// ordered by `keys`, highest first, ties kept in candidate order.
pub open spec fn rank_desc(keys: Seq<int>, i: int, n: int) -> nat
    decreases n,
{
    if n <= 0 {
        0
    } else {
        rank_desc(keys, i, n - 1) + if keys[n - 1] > keys[i] || (n - 1 < i && keys[n - 1]
            == keys[i]) {
            1nat
        } else {
            0nat
        }
    }
}

/// Whether date key `a` orders before `b`: older first, unknown last.
pub open spec fn date_before(a: Option<int>, b: Option<int>) -> bool {
    match (a, b) {
        (Some(x), Some(y)) => x < y,
        (Some(_), None) => true,
        _ => false,
    }
}

/// Number of the first `n` candidates placed before candidate `i` when
/// ordered by date key, oldest first, unknown last, ties kept in order.
pub open spec fn rank_by_date(keys: Seq<Option<int>>, i: int, n: int) -> nat
    decreases n,
{
    if n <= 0 {
        0
    } else {
        rank_by_date(keys, i, n - 1) + if date_before(keys[n - 1], keys[i]) || (n - 1 < i
            && keys[n - 1] == keys[i]) {
            1nat
        } else {
            0nat
        }
    }
}

/// Score of candidate `i`: points for its place by sources (when it has
/// any) plus points for its place by oldest date (when it has one).
pub open spec fn score_of(sources: Seq<int>, dates: Seq<Option<int>>, i: int) -> nat {
    (if sources[i] > 0 {
        points(rank_desc(sources, i, sources.len() as int))
    } else {
        0nat
    }) + (if dates[i] is Some {
        points(rank_by_date(dates, i, dates.len() as int))
    } else {
        0nat
    })
}

/// Points for a place counted from zero.
fn points_for(rank: usize) -> (r: u32)
    ensures
        r == points(rank as nat),
{
    if rank < 5 {
        20 - 4 * (rank as u32)
    } else {
        0
    }
}

/// The score of each candidate from its number of sources and its date key.
pub fn rank_scores(sources: &Vec<u32>, dates: &Vec<Option<i64>>) -> (r: Vec<u32>)
    requires
        sources@.len() == dates@.len(),
    ensures
        r@.len() == sources@.len(),
        forall|i: int|
            0 <= i < r@.len() ==> (#[trigger] r@[i]) == score_of(
                Seq::new(sources@.len(), |j: int| sources@[j] as int),
                Seq::new(
                    dates@.len(),
                    |j: int|
                        match dates@[j] {
                            Some(x) => Some(x as int),
                            None => None,
                        },
                ),
                i,
            ),
{
    let ghost sk = Seq::new(sources@.len(), |j: int| sources@[j] as int);
    let ghost dk = Seq::new(
        dates@.len(),
        |j: int|
            match dates@[j] {
                Some(x) => Some(x as int),
                None => None,
            },
    );
    let n = sources.len();
    let mut scores: Vec<u32> = Vec::new();
    let mut i: usize = 0;
    while i < n
        invariant
            n == sources@.len(),
            n == dates@.len(),
            i <= n,
            sk == Seq::new(sources@.len(), |j: int| sources@[j] as int),
            dk == Seq::new(
                dates@.len(),
                |j: int|
                    match dates@[j] {
                        Some(x) => Some(x as int),
                        None => None,
                    },
            ),
            scores@.len() == i,
            forall|x: int| 0 <= x < i ==> (#[trigger] scores@[x]) == score_of(sk, dk, x),
        decreases n - i,
    {
        let mut rs: usize = 0;
        let mut rd: usize = 0;
        let mut j: usize = 0;
        while j < n
            invariant
                n == sources@.len(),
                n == dates@.len(),
                i < n,
                j <= n,
                sk == Seq::new(sources@.len(), |q: int| sources@[q] as int),
                dk == Seq::new(
                    dates@.len(),
                    |q: int|
                        match dates@[q] {
                            Some(x) => Some(x as int),
                            None => None,
                        },
                ),
                rs == rank_desc(sk, i as int, j as int),
                rd == rank_by_date(dk, i as int, j as int),
                rs <= j,
                rd <= j,
            decreases n - j,
        {
            let a = sources[j];
            let b = sources[i];
            if a > b || (j < i && a == b) {
                rs = rs + 1;
            }
            let before = match (dates[j], dates[i]) {
                (Some(x), Some(y)) => x < y,
                (Some(_), None) => true,
                _ => false,
            };
            let same = match (dates[j], dates[i]) {
                (Some(x), Some(y)) => x == y,
                (None, None) => true,
                _ => false,
            };
            if before || (j < i && same) {
                rd = rd + 1;
            }
            j = j + 1;
        }
        let mut score: u32 = 0;
        if sources[i] > 0 {
            score = points_for(rs);
        }
        if dates[i].is_some() {
            score = score + points_for(rd);
        }
        scores.push(score);
        i = i + 1;
    }
    scores
}

/// The first candidate with the highest score.
pub fn best_index(scores: &Vec<u32>) -> (r: usize)
    requires
        scores@.len() > 0,
    ensures
        r < scores@.len(),
        forall|j: int| 0 <= j < scores@.len() ==> scores@[j] <= scores@[r as int],
        forall|j: int| 0 <= j < r ==> scores@[j] < scores@[r as int],
{
    let mut best: usize = 0;
    let mut i: usize = 1;
    while i < scores.len()
        invariant
            1 <= i <= scores@.len(),
            best < i,
            forall|j: int| 0 <= j < i ==> scores@[j] <= scores@[best as int],
            forall|j: int| 0 <= j < best ==> scores@[j] < scores@[best as int],
        decreases scores@.len() - i,
    {
        if scores[i] > scores[best] {
            best = i;
        }
        i = i + 1;
    }
    best
}

/// The artists credited on a recording (none when absent).
pub open spec fn artists_of(rec: Recording) -> Seq<Artist> {
    match rec.artists {
        Some(a) => a@,
        None => Seq::empty(),
    }
}

/// Index of the first artist with a non-empty name, or -1.
pub open spec fn first_named(arts: Seq<Artist>) -> int
    decreases arts.len(),
{
    if arts.len() == 0 {
        -1
    } else if first_named(arts.drop_last()) >= 0 {
        first_named(arts.drop_last())
    } else if arts.last().name@.len() > 0 {
        arts.len() - 1
    } else {
        -1
    }
}

/// Whether a release group is of type `Album`.
pub open spec fn is_album(g: ReleaseGroup) -> bool {
    g.release_type is Some && g.release_type->Some_0@ == "Album"@
}

/// Index of the first album-type release group, or -1.
pub open spec fn first_album(gs: Seq<ReleaseGroup>) -> int
    decreases gs.len(),
{
    if gs.len() == 0 {
        -1
    } else if first_album(gs.drop_last()) >= 0 {
        first_album(gs.drop_last())
    } else if is_album(gs.last()) {
        gs.len() - 1
    } else {
        -1
    }
}

/// The release group the album name comes from: the first album-type
/// group if its title is not empty, else the first group if its title is
/// not empty; -1 when neither.
pub open spec fn chosen_group(gs: Seq<ReleaseGroup>) -> int {
    let a = first_album(gs);
    if a >= 0 && gs[a].title@.len() > 0 {
        a
    } else if gs.len() > 0 && gs[0].title@.len() > 0 {
        0
    } else {
        -1
    }
}

/// The earliest year among the dated releases, if any.
pub open spec fn min_year(rs: Seq<Release>) -> Option<i32>
    decreases rs.len(),
{
    if rs.len() == 0 {
        None
    } else {
        let rest = min_year(rs.drop_last());
        let here = match rs.last().date {
            Some(d) => d.year,
            None => None,
        };
        match (rest, here) {
            (Some(a), Some(b)) => Some(if b < a { b } else { a }),
            (Some(a), None) => Some(a),
            (None, h) => h,
        }
    }
}

/// Whether `md` is the metadata recording `rec` gives: its title, its
/// first named artist, the chosen release group's title, and that group's
/// earliest year; no track, duration or identifiers.
pub open spec fn describes(rec: Recording, md: AudioMetadata) -> bool {
    let gs = groups_of(rec);
    let g = chosen_group(gs);
    &&& md.title is Some && md.title->Some_0@ == rec.title@
    &&& md.artist is Some && md.artist->Some_0@ == artists_of(rec)[first_named(artists_of(rec))].name@
    &&& md.album is Some && md.album->Some_0@ == gs[g].title@
    &&& md.year == min_year(releases_of(gs[g]))
    &&& md.track_number is None && md.duration_secs is None
    &&& md.release_mbid is None && md.artist_mbid is None
}

/// Builds the metadata of a recording: its title, its first artist with a
/// name, the title of its first album-type release group (falling back to
/// its first release group) and the earliest year among that group's
/// releases.
pub fn build_audio_metadata(rec: &Recording) -> (r: Result<AudioMetadata, MetadataError>)
    ensures
        r is Ok <==> rec.title@.len() > 0 && first_named(artists_of(*rec)) >= 0 && chosen_group(
            groups_of(*rec),
        ) >= 0,
        r matches Err(e) ==> (e is EmptyTitle <==> rec.title@.len() == 0),
        r matches Err(e) ==> (e is NoArtist <==> rec.title@.len() > 0 && first_named(
            artists_of(*rec),
        ) < 0),
        r matches Err(e) ==> (e is NoReleaseGroup <==> rec.title@.len() > 0 && first_named(
            artists_of(*rec),
        ) >= 0 && chosen_group(groups_of(*rec)) < 0),
        r matches Ok(md) ==> describes(*rec, md),
{
    if rec.title.as_str().unicode_len() == 0 {
        return Err(MetadataError::EmptyTitle);
    }
    let empty_artists: Vec<Artist> = Vec::new();
    let arts = match &rec.artists {
        Some(a) => a,
        None => &empty_artists,
    };
    assert(arts@ == artists_of(*rec));
    let mut ai: usize = 0;
    let mut found_artist = false;
    while ai < arts.len() && !found_artist
        invariant
            ai <= arts@.len(),
            first_named(arts@.subrange(0, ai as int)) < 0,
            found_artist ==> ai < arts@.len() && arts@[ai as int].name@.len() > 0,
        decreases arts@.len() - ai + if found_artist { 0int } else { 1int },
    {
        proof {
            let p = arts@.subrange(0, ai + 1);
            assert(p.drop_last() =~= arts@.subrange(0, ai as int));
        }
        if arts[ai].name.as_str().unicode_len() > 0 {
            found_artist = true;
        } else {
            ai = ai + 1;
        }
    }
    proof {
        lemma_first_named_extends(arts@, ai as int);
    }
    if !found_artist {
        assert(arts@.subrange(0, ai as int) =~= arts@);
        return Err(MetadataError::NoArtist);
    }
    let empty_groups: Vec<ReleaseGroup> = Vec::new();
    let groups = match &rec.releasegroups {
        Some(g) => g,
        None => &empty_groups,
    };
    assert(groups@ == groups_of(*rec));
    let album_word = "Album".to_owned();
    let mut gi: usize = 0;
    let mut found_album = false;
    while gi < groups.len() && !found_album
        invariant
            gi <= groups@.len(),
            album_word@ == "Album"@,
            first_album(groups@.subrange(0, gi as int)) < 0,
            found_album ==> gi < groups@.len() && is_album(groups@[gi as int]),
        decreases groups@.len() - gi + if found_album { 0int } else { 1int },
    {
        proof {
            let p = groups@.subrange(0, gi + 1);
            assert(p.drop_last() =~= groups@.subrange(0, gi as int));
        }
        let is_album_group = match &groups[gi].release_type {
            Some(t) => *t == album_word,
            None => false,
        };
        if is_album_group {
            found_album = true;
        } else {
            gi = gi + 1;
        }
    }
    proof {
        lemma_first_album_extends(groups@, gi as int);
    }
    if !found_album {
        assert(groups@.subrange(0, gi as int) =~= groups@);
    }
    let chosen: usize = if found_album && groups[gi].title.as_str().unicode_len() > 0 {
        gi
    } else if groups.len() > 0 && groups[0].title.as_str().unicode_len() > 0 {
        0
    } else {
        return Err(MetadataError::NoReleaseGroup);
    };
    let group = &groups[chosen];
    let empty_releases: Vec<Release> = Vec::new();
    let releases = match &group.releases {
        Some(r) => r,
        None => &empty_releases,
    };
    assert(releases@ == releases_of(group_at(groups@, chosen as int)));
    let mut year: Option<i32> = None;
    let mut k: usize = 0;
    while k < releases.len()
        invariant
            k <= releases@.len(),
            year == min_year(releases@.subrange(0, k as int)),
        decreases releases@.len() - k,
    {
        proof {
            let p = releases@.subrange(0, k + 1);
            assert(p.drop_last() =~= releases@.subrange(0, k as int));
        }
        let here = match releases[k].date {
            Some(d) => d.year,
            None => None,
        };
        year = match (year, here) {
            (Some(a), Some(b)) => Some(if b < a { b } else { a }),
            (Some(a), None) => Some(a),
            (None, h) => h,
        };
        k = k + 1;
    }
    assert(releases@.subrange(0, k as int) =~= releases@);
    Ok(
        AudioMetadata {
            title: Some(rec.title.clone()),
            artist: Some(arts[ai].name.clone()),
            album: Some(group.title.clone()),
            track_number: None,
            year,
            duration_secs: None,
            release_mbid: None,
            artist_mbid: None,
        },
    )
}

/// Group `i` of a sequence of release groups.
pub open spec fn group_at(gs: Seq<ReleaseGroup>, i: int) -> ReleaseGroup {
    gs[i]
}

/// Once a prefix has a named artist at its end, that is the first.
proof fn lemma_first_named_extends(arts: Seq<Artist>, i: int)
    requires
        0 <= i <= arts.len(),
        first_named(arts.subrange(0, i)) < 0,
    ensures
        i < arts.len() && arts[i].name@.len() > 0 ==> first_named(arts) == i,
        i == arts.len() ==> first_named(arts) < 0,
    decreases arts.len() - i,
{
    if i < arts.len() && arts[i].name@.len() > 0 {
        let p = arts.subrange(0, i + 1);
        assert(p.drop_last() =~= arts.subrange(0, i));
        lemma_first_named_keeps(arts, i + 1);
    }
    if i == arts.len() {
        assert(arts.subrange(0, i) =~= arts);
    }
}

/// A prefix's first named artist is the whole sequence's.
proof fn lemma_first_named_keeps(arts: Seq<Artist>, n: int)
    requires
        0 <= n <= arts.len(),
        first_named(arts.subrange(0, n)) >= 0,
    ensures
        first_named(arts) == first_named(arts.subrange(0, n)),
    decreases arts.len() - n,
{
    if n < arts.len() {
        let p = arts.subrange(0, n + 1);
        assert(p.drop_last() =~= arts.subrange(0, n));
        lemma_first_named_keeps(arts, n + 1);
    } else {
        assert(arts.subrange(0, n) =~= arts);
    }
}

/// Once a prefix has an album group at its end, that is the first.
proof fn lemma_first_album_extends(gs: Seq<ReleaseGroup>, i: int)
    requires
        0 <= i <= gs.len(),
        first_album(gs.subrange(0, i)) < 0,
    ensures
        i < gs.len() && is_album(gs[i]) ==> first_album(gs) == i,
        i == gs.len() ==> first_album(gs) < 0,
    decreases gs.len() - i,
{
    if i < gs.len() && is_album(gs[i]) {
        let p = gs.subrange(0, i + 1);
        assert(p.drop_last() =~= gs.subrange(0, i));
        lemma_first_album_keeps(gs, i + 1);
    }
    if i == gs.len() {
        assert(gs.subrange(0, i) =~= gs);
    }
}

/// A prefix's first album group is the whole sequence's.
proof fn lemma_first_album_keeps(gs: Seq<ReleaseGroup>, n: int)
    requires
        0 <= n <= gs.len(),
        first_album(gs.subrange(0, n)) >= 0,
    ensures
        first_album(gs) == first_album(gs.subrange(0, n)),
    decreases gs.len() - n,
{
    if n < gs.len() {
        let p = gs.subrange(0, n + 1);
        assert(p.drop_last() =~= gs.subrange(0, n));
        lemma_first_album_keeps(gs, n + 1);
    } else {
        assert(gs.subrange(0, n) =~= gs);
    }
}

/// The results of a response (none when absent).
pub open spec fn results_of(resp: AcoustIdResponse) -> Seq<AcoustIdResult> {
    match resp.results {
        Some(v) => v@,
        None => Seq::empty(),
    }
}

/// The recordings of a result (none when absent).
pub open spec fn recordings_of(r: AcoustIdResult) -> Seq<Recording> {
    match r.recordings {
        Some(v) => v@,
        None => Seq::empty(),
    }
}

/// The recordings with a non-empty title, in order.
pub open spec fn titled(rs: Seq<Recording>) -> Seq<Recording>
    decreases rs.len(),
{
    if rs.len() == 0 {
        Seq::empty()
    } else {
        titled(rs.drop_last()) + if rs.last().title@.len() > 0 {
            seq![rs.last()]
        } else {
            Seq::empty()
        }
    }
}

/// The candidates of a response: the titled recordings of every result,
/// in order.
pub open spec fn candidates(results: Seq<AcoustIdResult>) -> Seq<Recording>
    decreases results.len(),
{
    if results.len() == 0 {
        Seq::empty()
    } else {
        candidates(results.drop_last()) + titled(recordings_of(results.last()))
    }
}

/// Whether `k` is a recording's date key: its oldest release date as a
/// sortable number, or `None` without one.
pub open spec fn date_key_of(rec: Recording, k: Option<int>) -> bool {
    exists|d: Option<ReleaseDate>|
        is_oldest(rec, d) && k == match d {
            Some(x) => Some(sortable_of(x)),
            None => None,
        }
}

/// The source counts of the candidates, missing counts as zero.
pub open spec fn source_keys(cs: Seq<Recording>) -> Seq<int> {
    Seq::new(cs.len(), |i: int| cs[i].sources.unwrap_or(0) as int)
}

/// Whether candidate `b` is the pick: with `dk` the date keys, it has the
/// highest score and no earlier candidate has as high a score.
pub open spec fn is_pick(cs: Seq<Recording>, dk: Seq<Option<int>>, b: int) -> bool {
    &&& dk.len() == cs.len()
    &&& forall|i: int| 0 <= i < cs.len() ==> date_key_of(cs[i], #[trigger] dk[i])
    &&& 0 <= b < cs.len()
    &&& forall|j: int|
        0 <= j < cs.len() ==> score_of(source_keys(cs), dk, j) <= score_of(source_keys(cs), dk, b)
    &&& forall|j: int|
        0 <= j < b ==> score_of(source_keys(cs), dk, j) < score_of(source_keys(cs), dk, b)
}

/// A date key as a mathematical integer.
pub open spec fn widen(k: Option<i64>) -> Option<int> {
    match k {
        Some(v) => Some(v as int),
        None => None,
    }
}

/// Takes metadata from a lookup response: the status must be `ok`; the
/// candidates are all recordings with a title; each earns points for its
/// place by sources and by oldest release date; the first candidate with
/// the highest score gives the metadata.
pub fn extract_metadata(resp: &AcoustIdResponse) -> (r: Result<AudioMetadata, MetadataError>)
    ensures
        r matches Err(MetadataError::Status(s)) ==> s@ == resp.status@,
        (r is Err && r->Err_0 is Status) <==> resp.status@ != "ok"@,
        (r is Err && r->Err_0 is NoRecordings) <==> resp.status@ == "ok"@ && candidates(
            results_of(*resp),
        ).len() == 0,
        r matches Ok(md) ==> exists|b: int, dk: Seq<Option<int>>|
            #[trigger] is_pick(candidates(results_of(*resp)), dk, b) && describes(
                candidates(results_of(*resp))[b],
                md,
            ),
        r matches Err(e) ==> (e is NoArtist || e is NoReleaseGroup) ==> exists|
            b: int,
            dk: Seq<Option<int>>,
        |
            #[trigger] is_pick(candidates(results_of(*resp)), dk, b) && (e is NoArtist <==> first_named(
                artists_of(candidates(results_of(*resp))[b]),
            ) < 0),
{
    let ok_word = "ok".to_owned();
    if !(resp.status == ok_word) {
        return Err(MetadataError::Status(resp.status.clone()));
    }
    let empty_results: Vec<AcoustIdResult> = Vec::new();
    let results = match &resp.results {
        Some(v) => v,
        None => &empty_results,
    };
    assert(results@ == results_of(*resp));
    let mut picks: Vec<(usize, usize)> = Vec::new();
    let mut ri: usize = 0;
    while ri < results.len()
        invariant
            ri <= results@.len(),
            forall|i: int| 0 <= i < picks@.len() ==> {
                &&& (#[trigger] picks@[i]).0 < results@.len()
                &&& picks@[i].1 < recordings_of(results@[picks@[i].0 as int]).len()
            },
            Seq::new(picks@.len(), |i: int| recordings_of(results@[picks@[i].0 as int])[picks@[i].1 as int])
                == candidates(results@.subrange(0, ri as int)),
        decreases results@.len() - ri,
    {
        let empty_recs: Vec<Recording> = Vec::new();
        let recs = match &results[ri].recordings {
            Some(v) => v,
            None => &empty_recs,
        };
        assert(recs@ == recordings_of(results@[ri as int]));
        let ghost base = candidates(results@.subrange(0, ri as int));
        let mut k: usize = 0;
        while k < recs.len()
            invariant
                ri < results@.len(),
                recs@ == recordings_of(results@[ri as int]),
                k <= recs@.len(),
                forall|i: int| 0 <= i < picks@.len() ==> {
                    &&& (#[trigger] picks@[i]).0 < results@.len()
                    &&& picks@[i].1 < recordings_of(results@[picks@[i].0 as int]).len()
                },
                Seq::new(picks@.len(), |i: int| recordings_of(results@[picks@[i].0 as int])[picks@[i].1 as int])
                    == base + titled(recs@.subrange(0, k as int)),
            decreases recs@.len() - k,
        {
            proof {
                let p = recs@.subrange(0, k + 1);
                assert(p.drop_last() =~= recs@.subrange(0, k as int));
            }
            let ghost before = picks@;
            let ghost old_view = Seq::new(
                before.len(),
                |i: int| recordings_of(results@[before[i].0 as int])[before[i].1 as int],
            );
            let ghost here = recs@[k as int];
            if recs[k].title.as_str().unicode_len() > 0 {
                picks.push((ri, k));
            }
            k = k + 1;
            proof {
                let new_view = Seq::new(
                    picks@.len(),
                    |i: int| recordings_of(results@[picks@[i].0 as int])[picks@[i].1 as int],
                );
                let extra = if here.title@.len() > 0 {
                    seq![here]
                } else {
                    Seq::<Recording>::empty()
                };
                assert(titled(recs@.subrange(0, k as int)) == titled(recs@.subrange(0, k - 1)) + extra);
                assert(new_view =~= old_view + extra);
                assert(new_view =~= base + titled(recs@.subrange(0, k as int)));
            }
        }
        assert(recs@.subrange(0, k as int) =~= recs@);
        proof {
            let p = results@.subrange(0, ri + 1);
            assert(p.drop_last() =~= results@.subrange(0, ri as int));
        }
        ri = ri + 1;
    }
    assert(results@.subrange(0, ri as int) =~= results@);
    let ghost cands = candidates(results_of(*resp));
    let n = picks.len();
    if n == 0 {
        return Err(MetadataError::NoRecordings);
    }
    let mut sources: Vec<u32> = Vec::new();
    let mut dates: Vec<Option<i64>> = Vec::new();
    let mut i: usize = 0;
    while i < n
        invariant
            n == picks@.len(),
            i <= n,
            forall|x: int| 0 <= x < picks@.len() ==> {
                &&& (#[trigger] picks@[x]).0 < results@.len()
                &&& picks@[x].1 < recordings_of(results@[picks@[x].0 as int]).len()
            },
            cands == Seq::new(picks@.len(), |x: int| recordings_of(results@[picks@[x].0 as int])[picks@[x].1 as int]),
            sources@.len() == i,
            dates@.len() == i,
            forall|x: int| 0 <= x < i ==> (#[trigger] sources@[x]) as int == source_keys(cands)[x],
            forall|x: int| 0 <= x < i ==> date_key_of(cands[x], widen(#[trigger] dates@[x])),
        decreases n - i,
    {
        let (a, b) = picks[i];
        let rec = match &results[a].recordings {
            Some(v) => &v[b],
            None => {
                proof {
                    assert(false);
                }
                return Err(MetadataError::NoRecordings);
            },
        };
        assert(*rec == cands[i as int]);
        sources.push(
            match rec.sources {
                Some(s) => s,
                None => 0,
            },
        );
        let od = oldest_release_date(rec);
        let key = match od {
            Some(d) => Some(d.to_sortable_int()),
            None => None,
        };
        dates.push(key);
        proof {
            assert(is_oldest(cands[i as int], od));
            assert(widen(key) == match od {
                Some(x) => Some(sortable_of(x)),
                None => None,
            });
            assert(date_key_of(cands[i as int], widen(key)));
            assert(dates@[i as int] == key);
        }
        i = i + 1;
    }
    let scores = rank_scores(&sources, &dates);
    let best = best_index(&scores);
    let ghost dk = Seq::new(
        dates@.len(),
        |j: int|
            match dates@[j] {
                Some(x) => Some(x as int),
                None => None,
            },
    );
    proof {
        assert(Seq::new(sources@.len(), |j: int| sources@[j] as int) =~= source_keys(cands));
        assert forall|x: int| 0 <= x < cands.len() implies date_key_of(cands[x], #[trigger] dk[x]) by {
            assert(dk[x] == widen(dates@[x]));
        }
        assert forall|j: int| 0 <= j < cands.len() implies score_of(source_keys(cands), dk, j)
            == (#[trigger] scores@[j]) by {}
        assert forall|j: int| 0 <= j < cands.len() implies score_of(source_keys(cands), dk, j)
            <= score_of(source_keys(cands), dk, best as int) by {
            assert(scores@[j] <= scores@[best as int]);
        }
        assert forall|j: int| 0 <= j < best implies score_of(source_keys(cands), dk, j)
            < score_of(source_keys(cands), dk, best as int) by {
            assert(scores@[j] < scores@[best as int]);
        }
        assert(is_pick(cands, dk, best as int));
    }
    let (a, b) = picks[best];
    let rec = match &results[a].recordings {
        Some(v) => &v[b],
        None => {
            proof {
                assert(false);
            }
            return Err(MetadataError::NoRecordings);
        },
    };
    assert(*rec == cands[best as int]);
    build_audio_metadata(rec)
}

} // verus!
