//! Compaction: rebuilds the catalogue from its live songs, dropping deleted
//! songs, the artists and albums no live song needs, and the strings no kept
//! row uses, and gives every kept row a fresh, contiguous id. The map from
//! old to new song ids is returned so that playlists can be rewritten.
use vstd::prelude::*;

use crate::catalogue::{consistent, Catalogue, CatalogueModel};
use crate::library::active;
use crate::records::{lemma_flag_values, AlbumEntry, ArtistEntry, SongEntry};
use crate::playlist::renumbered;
use crate::string_table::{fits_entry, is_first_index, StringTable};

verus! {

/// Whether live song `k` needs artist `a`, directly or through its album.
pub open spec fn song_needs_artist(m: CatalogueModel, k: int, a: int) -> bool {
    &&& active(m.songs[k])
    &&& (m.songs[k].artist_id == a || m.albums[m.songs[k].album_id as int].artist_id == a)
}

/// Whether some live song needs artist `a`.
pub open spec fn artist_needed(m: CatalogueModel, a: int) -> bool {
    exists|k: int| 0 <= k < m.songs.len() && song_needs_artist(m, k, a)
}

/// Whether some live song is on album `l`.
pub open spec fn album_needed(m: CatalogueModel, l: int) -> bool {
    exists|k: int| 0 <= k < m.songs.len() && active(m.songs[k]) && m.songs[k].album_id == l
}

/// Number of live songs among the first `k`.
pub open spec fn live_before(songs: Seq<SongEntry>, k: int) -> nat
    decreases k,
{
    if k <= 0 {
        0
    } else {
        live_before(songs, k - 1) + if active(songs[k - 1]) {
            1nat
        } else {
            0nat
        }
    }
}

/// The new id of each old song: its rank among the live songs, or `None`
/// for a deleted song.
pub open spec fn song_map_of(songs: Seq<SongEntry>) -> Seq<Option<u32>> {
    Seq::new(
        songs.len(),
        |k: int|
            if active(songs[k]) {
                Some(live_before(songs, k) as u32)
            } else {
                None
            },
    )
}

/// Whether new song `j` of `new` is old song `k` of `old`: same title,
/// path, artist name, album name and year, track and duration, and live.
pub open spec fn same_song(old: CatalogueModel, k: int, new: CatalogueModel, j: int) -> bool {
    let o = old.songs[k];
    let n = new.songs[j];
    &&& active(n)
    &&& new.strings[n.title_string_id as int] == old.strings[o.title_string_id as int]
    &&& new.strings[n.path_string_id as int] == old.strings[o.path_string_id as int]
    &&& new.strings[new.artists[n.artist_id as int].name_string_id as int]
        == old.strings[old.artists[o.artist_id as int].name_string_id as int]
    &&& new.strings[new.albums[n.album_id as int].name_string_id as int]
        == old.strings[old.albums[o.album_id as int].name_string_id as int]
    &&& new.albums[n.album_id as int].year == old.albums[o.album_id as int].year
    &&& n.track_number == o.track_number
    &&& n.duration_sec == o.duration_sec
}

/// Which artists and albums the live songs need.
fn mark_needed(c: &Catalogue) -> (r: (Vec<bool>, Vec<bool>))
    requires
        consistent(c@),
    ensures
        r.0@.len() == c@.artists.len(),
        r.1@.len() == c@.albums.len(),
        forall|a: int| 0 <= a < c@.artists.len() ==> (r.0@[a] <==> artist_needed(c@, a)),
        forall|l: int| 0 <= l < c@.albums.len() ==> (r.1@[l] <==> album_needed(c@, l)),
{
    let mut artists: Vec<bool> = Vec::new();
    let mut i: usize = 0;
    while i < c.artists.len()
        invariant
            i <= c@.artists.len(),
            artists@.len() == i,
            forall|a: int| 0 <= a < i ==> !artists@[a],
        decreases c@.artists.len() - i,
    {
        artists.push(false);
        i = i + 1;
    }
    let mut albums: Vec<bool> = Vec::new();
    let mut i: usize = 0;
    while i < c.albums.len()
        invariant
            i <= c@.albums.len(),
            albums@.len() == i,
            forall|l: int| 0 <= l < i ==> !albums@[l],
        decreases c@.albums.len() - i,
    {
        albums.push(false);
        i = i + 1;
    }
    let mut k: usize = 0;
    while k < c.songs.len()
        invariant
            consistent(c@),
            k <= c@.songs.len(),
            artists@.len() == c@.artists.len(),
            albums@.len() == c@.albums.len(),
            forall|a: int|
                0 <= a < c@.artists.len() ==> (artists@[a] <==> exists|x: int|
                    0 <= x < k && song_needs_artist(c@, x, a)),
            forall|l: int|
                0 <= l < c@.albums.len() ==> (albums@[l] <==> exists|x: int|
                    0 <= x < k && active(c@.songs[x]) && c@.songs[x].album_id == l),
        decreases c@.songs.len() - k,
    {
        let s = c.songs[k];
        if s.is_active() {
            let owner = c.albums[s.album_id as usize].artist_id;
            artists.set(s.artist_id as usize, true);
            artists.set(owner as usize, true);
            albums.set(s.album_id as usize, true);
        }
        proof {
            assert forall|a: int| 0 <= a < c@.artists.len() implies (artists@[a] <==> exists|x: int|
                0 <= x < k + 1 && song_needs_artist(c@, x, a)) by {
                if artists@[a] && !song_needs_artist(c@, k as int, a) {
                    let x = choose|x: int| 0 <= x < k && song_needs_artist(c@, x, a);
                    assert(0 <= x < k + 1 && song_needs_artist(c@, x, a));
                }
                if exists|x: int| 0 <= x < k + 1 && song_needs_artist(c@, x, a) {
                    let x = choose|x: int| 0 <= x < k + 1 && song_needs_artist(c@, x, a);
                    if x < k {
                        assert(exists|y: int| 0 <= y < k && song_needs_artist(c@, y, a));
                    }
                }
            }
            assert forall|l: int| 0 <= l < c@.albums.len() implies (albums@[l] <==> exists|x: int|
                0 <= x < k + 1 && active(c@.songs[x]) && c@.songs[x].album_id == l) by {
                if albums@[l] && !(active(c@.songs[k as int]) && c@.songs[k as int].album_id == l) {
                    let x = choose|x: int|
                        0 <= x < k && active(c@.songs[x]) && c@.songs[x].album_id == l;
                    assert(0 <= x < k + 1 && active(c@.songs[x]) && c@.songs[x].album_id == l);
                }
                if exists|x: int| 0 <= x < k + 1 && active(c@.songs[x]) && c@.songs[x].album_id == l {
                    let x = choose|x: int|
                        0 <= x < k + 1 && active(c@.songs[x]) && c@.songs[x].album_id == l;
                    if x < k {
                        assert(exists|y: int|
                            0 <= y < k && active(c@.songs[y]) && c@.songs[y].album_id == l);
                    }
                }
            }
        }
        k = k + 1;
    }
    (artists, albums)
}

/// Whether some artist row names string `x`.
pub open spec fn artist_rows_use(rows: Seq<ArtistEntry>, x: int) -> bool {
    exists|a: int| 0 <= a < rows.len() && rows[a].name_string_id == x
}

/// Whether some album row names string `x`.
pub open spec fn album_rows_use(rows: Seq<AlbumEntry>, x: int) -> bool {
    exists|a: int| 0 <= a < rows.len() && rows[a].name_string_id == x
}

/// Whether some song row has string `x` as title or path.
pub open spec fn song_rows_use(rows: Seq<SongEntry>, x: int) -> bool {
    exists|a: int| 0 <= a < rows.len() && (rows[a].title_string_id == x || rows[a].path_string_id == x)
}

/// Whether some row of `m` uses string `x`.
pub open spec fn string_used(m: CatalogueModel, x: int) -> bool {
    artist_rows_use(m.artists, x) || album_rows_use(m.albums, x) || song_rows_use(m.songs, x)
}

/// Number of `true` entries.
pub open spec fn count_true(s: Seq<bool>) -> nat
    decreases s.len(),
{
    if s.len() == 0 {
        0
    } else {
        count_true(s.drop_last()) + if s.last() {
            1nat
        } else {
            0nat
        }
    }
}

/// Number of artists among the first `n` that a live song needs.
pub open spec fn needed_artist_count(m: CatalogueModel, n: int) -> nat
    decreases n,
{
    if n <= 0 {
        0
    } else {
        needed_artist_count(m, n - 1) + if artist_needed(m, n - 1) {
            1nat
        } else {
            0nat
        }
    }
}

/// Number of albums among the first `n` that a live song is on.
pub open spec fn needed_album_count(m: CatalogueModel, n: int) -> nat
    decreases n,
{
    if n <= 0 {
        0
    } else {
        needed_album_count(m, n - 1) + if album_needed(m, n - 1) {
            1nat
        } else {
            0nat
        }
    }
}

/// Whether `np` holds distinct strings, each also held by `op`.
pub open spec fn pool_from(np: Seq<Seq<char>>, op: Seq<Seq<char>>) -> bool {
    &&& np.no_duplicates()
    &&& forall|i: int| 0 <= i < np.len() ==> op.contains(#[trigger] np[i])
}

/// A pool of distinct strings drawn from `op` is no longer than `op`.
pub proof fn lemma_pool_from_len(np: Seq<Seq<char>>, op: Seq<Seq<char>>)
    requires
        pool_from(np, op),
    ensures
        np.len() <= op.len(),
{
    np.unique_seq_to_set();
    op.lemma_cardinality_of_set();
    assert(np.to_set().subset_of(op.to_set())) by {
        assert forall|x: Seq<char>| np.to_set().contains(x) implies op.to_set().contains(x) by {
            let i = choose|i: int| 0 <= i < np.len() && np[i] == x;
            assert(op.contains(np[i]));
        }
    }
    vstd::set_lib::lemma_len_subset(np.to_set(), op.to_set());
}

/// Interns `s`, a string of `op`, into a pool drawn from `op`.
fn intern_from(np: &mut StringTable, s: &str, op: Ghost<Seq<Seq<char>>>) -> (r: u32)
    requires
        pool_from(old(np)@, op@),
        op@.contains(s@),
        op@.len() < u32::MAX,
    ensures
        pool_from(final(np)@, op@),
        is_first_index(final(np)@, s@, r as int),
        old(np)@.len() <= final(np)@.len() <= old(np)@.len() + 1,
        final(np)@.len() == old(np)@.len() + 1 ==> r == old(np)@.len(),
        final(np)@.subrange(0, old(np)@.len() as int) == old(np)@,
{
    proof {
        lemma_pool_from_len(np@, op@);
    }
    let ghost before = np@;
    let r = np.add(s);
    proof {
        if !before.contains(s@) {
            let after = np@;
            assert(after == before.push(s@));
            assert forall|i: int, j: int| 0 <= i < after.len() && 0 <= j < after.len() && i != j implies after[i] != after[j] by {
                if i == before.len() as int && j < before.len() {
                    assert(after[j] == before[j]);
                    assert(before.contains(before[j]));
                } else if j == before.len() as int && i < before.len() {
                    assert(after[i] == before[i]);
                    assert(before.contains(before[i]));
                }
            }
            assert forall|i: int| 0 <= i < after.len() implies op@.contains(#[trigger] after[i]) by {
                if i < before.len() {
                    assert(after[i] == before[i]);
                }
            }
        }
        assert(np@.subrange(0, before.len() as int) =~= before);
    }
    r
}

/// Keeps the needed artists, in their old order, with their names
/// interned into `np`. Returns the new rows, the new id of each old
/// artist, and the old id of each new artist.
fn rebuild_artists(
    c: &Catalogue,
    needed: &Vec<bool>,
    np: &mut StringTable,
) -> (r: (Vec<ArtistEntry>, Vec<Option<u32>>, Ghost<Seq<int>>))
    requires
        consistent(c@),
        needed@.len() == c@.artists.len(),
        pool_from(old(np)@, c@.strings),
    ensures
        pool_from(final(np)@, c@.strings),
        old(np)@.len() <= final(np)@.len(),
        final(np)@.subrange(0, old(np)@.len() as int) == old(np)@,
        r.1@.len() == c@.artists.len(),
        r.2@.len() == r.0@.len(),
        r.0@.len() == count_true(needed@),
        forall|x: int| old(np)@.len() <= x < final(np)@.len() ==> artist_rows_use(r.0@, x),
        r.0@.len() <= c@.artists.len(),
        forall|x: int| 0 <= x < c@.artists.len() ==> (r.1@[x] is Some <==> needed@[x]),
        forall|x: int|
            0 <= x < c@.artists.len() && r.1@[x] is Some ==> {
                &&& r.1@[x]->Some_0 < r.0@.len()
                &&& r.2@[r.1@[x]->Some_0 as int] == x
            },
        forall|a: int|
            0 <= a < r.0@.len() ==> {
                &&& 0 <= #[trigger] r.2@[a] < c@.artists.len()
                &&& needed@[r.2@[a]]
                &&& r.1@[r.2@[a]] == Some(a as u32)
                &&& r.0@[a].name_string_id < final(np)@.len()
                &&& final(np)@[r.0@[a].name_string_id as int] == c@.strings[c@.artists[r.2@[a]].name_string_id as int]
            },
{
    let ghost np0 = np@;
    let mut rows: Vec<ArtistEntry> = Vec::new();
    let mut map: Vec<Option<u32>> = Vec::new();
    let ghost mut origin: Seq<int> = Seq::empty();
    let mut i: usize = 0;
    while i < c.artists.len()
        invariant
            consistent(c@),
            needed@.len() == c@.artists.len(),
            i <= c@.artists.len(),
            pool_from(np@, c@.strings),
            np0.len() <= np@.len(),
            np@.subrange(0, np0.len() as int) == np0,
            map@.len() == i,
            origin.len() == rows@.len(),
            rows@.len() <= i,
            rows@.len() == count_true(needed@.subrange(0, i as int)),
            forall|x: int| np0.len() <= x < np@.len() ==> artist_rows_use(rows@, x),
            forall|x: int| 0 <= x < i ==> (map@[x] is Some <==> needed@[x]),
            forall|x: int|
                0 <= x < i && map@[x] is Some ==> {
                    &&& map@[x]->Some_0 < rows@.len()
                    &&& origin[map@[x]->Some_0 as int] == x
                },
            forall|a: int|
                0 <= a < rows@.len() ==> {
                    &&& 0 <= #[trigger] origin[a] < i
                    &&& needed@[origin[a]]
                    &&& map@[origin[a]] == Some(a as u32)
                    &&& rows@[a].name_string_id < np@.len()
                    &&& np@[rows@[a].name_string_id as int] == c@.strings[c@.artists[origin[a]].name_string_id as int]
                },
        decreases c@.artists.len() - i,
    {
        if needed[i] {
            let ghost np1 = np@;
            let ghost rows1 = rows@;
            let ghost origin1 = origin;
            let name_id = c.artists[i].name_string_id;
            let name = match c.strings.get(name_id) {
                Some(s) => s,
                None => {
                    proof {
                        assert(false);
                    }
                    ""
                },
            };
            assert(c@.strings.contains(name@)) by {
                assert(c@.strings[name_id as int] == name@);
            }
            let nid = intern_from(np, name, Ghost(c@.strings));
            let new_id = rows.len() as u32;
            rows.push(ArtistEntry { name_string_id: nid });
            map.push(Some(new_id));
            proof {
                origin = origin.push(i as int);
                assert forall|x: int| np0.len() <= x < np@.len() implies artist_rows_use(rows@, x) by {
                    if x < np1.len() {
                        assert(artist_rows_use(rows1, x));
                        let a = choose|a: int| 0 <= a < rows1.len() && rows1[a].name_string_id == x;
                        assert(rows@[a] == rows1[a]);
                    } else {
                        assert(rows@[rows1.len() as int].name_string_id == x);
                    }
                }
                assert(np@.subrange(0, np0.len() as int) =~= np@.subrange(0, np1.len() as int).subrange(0, np0.len() as int));
                assert forall|a: int| 0 <= a < rows1.len() implies np@[rows@[a].name_string_id as int] == np1[rows@[a].name_string_id as int] by {
                    assert(rows@[a] == rows1[a]);
                    assert(0 <= origin1[a] < i);
                    assert(np@.subrange(0, np1.len() as int)[rows1[a].name_string_id as int] == np@[rows1[a].name_string_id as int]);
                }
            }
        } else {
            map.push(None);
        }
        proof {
            let p = needed@.subrange(0, i + 1);
            assert(p.drop_last() =~= needed@.subrange(0, i as int));
        }
        i = i + 1;
    }
    assert(needed@.subrange(0, i as int) =~= needed@);
    (rows, map, Ghost(origin))
}

/// Keeps the needed albums, in their old order, with their names interned
/// into `np` and their artist renumbered through `artist_map`. Returns the
/// new rows, the new id of each old album, and the old id of each new album.
fn rebuild_albums(
    c: &Catalogue,
    needed: &Vec<bool>,
    artist_map: &Vec<Option<u32>>,
    n_new_artists: usize,
    np: &mut StringTable,
) -> (r: (Vec<AlbumEntry>, Vec<Option<u32>>, Ghost<Seq<int>>))
    requires
        consistent(c@),
        needed@.len() == c@.albums.len(),
        artist_map@.len() == c@.artists.len(),
        forall|l: int|
            0 <= l < c@.albums.len() && needed@[l] ==> {
                &&& (#[trigger] artist_map@[c@.albums[l].artist_id as int]) is Some
                &&& artist_map@[c@.albums[l].artist_id as int]->Some_0 < n_new_artists
            },
        pool_from(old(np)@, c@.strings),
    ensures
        pool_from(final(np)@, c@.strings),
        old(np)@.len() <= final(np)@.len(),
        final(np)@.subrange(0, old(np)@.len() as int) == old(np)@,
        r.1@.len() == c@.albums.len(),
        r.2@.len() == r.0@.len(),
        r.0@.len() == count_true(needed@),
        forall|x: int| old(np)@.len() <= x < final(np)@.len() ==> album_rows_use(r.0@, x),
        r.0@.len() <= c@.albums.len(),
        forall|x: int| 0 <= x < c@.albums.len() ==> (r.1@[x] is Some <==> needed@[x]),
        forall|x: int|
            0 <= x < c@.albums.len() && r.1@[x] is Some ==> {
                &&& r.1@[x]->Some_0 < r.0@.len()
                &&& r.2@[r.1@[x]->Some_0 as int] == x
            },
        forall|a: int|
            0 <= a < r.0@.len() ==> {
                &&& 0 <= #[trigger] r.2@[a] < c@.albums.len()
                &&& needed@[r.2@[a]]
                &&& r.1@[r.2@[a]] == Some(a as u32)
                &&& r.0@[a].name_string_id < final(np)@.len()
                &&& final(np)@[r.0@[a].name_string_id as int] == c@.strings[c@.albums[r.2@[a]].name_string_id as int]
                &&& r.0@[a].artist_id == artist_map@[c@.albums[r.2@[a]].artist_id as int]->Some_0
                &&& r.0@[a].artist_id < n_new_artists
                &&& r.0@[a].year == c@.albums[r.2@[a]].year
            },
{
    let ghost np0 = np@;
    let mut rows: Vec<AlbumEntry> = Vec::new();
    let mut map: Vec<Option<u32>> = Vec::new();
    let ghost mut origin: Seq<int> = Seq::empty();
    let mut i: usize = 0;
    while i < c.albums.len()
        invariant
            consistent(c@),
            needed@.len() == c@.albums.len(),
            artist_map@.len() == c@.artists.len(),
            forall|l: int|
                0 <= l < c@.albums.len() && needed@[l] ==> {
                    &&& (#[trigger] artist_map@[c@.albums[l].artist_id as int]) is Some
                    &&& artist_map@[c@.albums[l].artist_id as int]->Some_0 < n_new_artists
                },
            i <= c@.albums.len(),
            pool_from(np@, c@.strings),
            np0.len() <= np@.len(),
            np@.subrange(0, np0.len() as int) == np0,
            map@.len() == i,
            origin.len() == rows@.len(),
            rows@.len() <= i,
            rows@.len() == count_true(needed@.subrange(0, i as int)),
            forall|x: int| np0.len() <= x < np@.len() ==> album_rows_use(rows@, x),
            forall|x: int| 0 <= x < i ==> (map@[x] is Some <==> needed@[x]),
            forall|x: int|
                0 <= x < i && map@[x] is Some ==> {
                    &&& map@[x]->Some_0 < rows@.len()
                    &&& origin[map@[x]->Some_0 as int] == x
                },
            forall|a: int|
                0 <= a < rows@.len() ==> {
                    &&& 0 <= #[trigger] origin[a] < i
                    &&& needed@[origin[a]]
                    &&& map@[origin[a]] == Some(a as u32)
                    &&& rows@[a].name_string_id < np@.len()
                    &&& np@[rows@[a].name_string_id as int] == c@.strings[c@.albums[origin[a]].name_string_id as int]
                    &&& rows@[a].artist_id == artist_map@[c@.albums[origin[a]].artist_id as int]->Some_0
                    &&& rows@[a].artist_id < n_new_artists
                    &&& rows@[a].year == c@.albums[origin[a]].year
                },
        decreases c@.albums.len() - i,
    {
        if needed[i] {
            let ghost np1 = np@;
            let ghost rows1 = rows@;
            let ghost origin1 = origin;
            let old_row = c.albums[i];
            let name = match c.strings.get(old_row.name_string_id) {
                Some(s) => s,
                None => {
                    proof {
                        assert(false);
                    }
                    ""
                },
            };
            assert(c@.strings.contains(name@)) by {
                assert(c@.strings[old_row.name_string_id as int] == name@);
            }
            let nid = intern_from(np, name, Ghost(c@.strings));
            let artist_id = match artist_map[old_row.artist_id as usize] {
                Some(a) => a,
                None => {
                    proof {
                        assert(false);
                    }
                    0
                },
            };
            let new_id = rows.len() as u32;
            rows.push(AlbumEntry { name_string_id: nid, artist_id, year: old_row.year });
            map.push(Some(new_id));
            proof {
                origin = origin.push(i as int);
                assert forall|x: int| np0.len() <= x < np@.len() implies album_rows_use(rows@, x) by {
                    if x < np1.len() {
                        assert(album_rows_use(rows1, x));
                        let a = choose|a: int| 0 <= a < rows1.len() && rows1[a].name_string_id == x;
                        assert(rows@[a] == rows1[a]);
                    } else {
                        assert(rows@[rows1.len() as int].name_string_id == x);
                    }
                }
                assert(np@.subrange(0, np0.len() as int) =~= np@.subrange(0, np1.len() as int).subrange(0, np0.len() as int));
                assert forall|a: int| 0 <= a < rows1.len() implies np@[rows@[a].name_string_id as int] == np1[rows@[a].name_string_id as int] by {
                    assert(rows@[a] == rows1[a]);
                    assert(0 <= origin1[a] < i);
                    assert(np@.subrange(0, np1.len() as int)[rows1[a].name_string_id as int] == np@[rows1[a].name_string_id as int]);
                }
            }
        } else {
            map.push(None);
        }
        proof {
            let p = needed@.subrange(0, i + 1);
            assert(p.drop_last() =~= needed@.subrange(0, i as int));
        }
        i = i + 1;
    }
    assert(needed@.subrange(0, i as int) =~= needed@);
    (rows, map, Ghost(origin))
}

/// Whether a live song of `m` other than song `except` has blob path `p`.
pub open spec fn path_live(m: CatalogueModel, p: Seq<char>, except: int) -> bool {
    exists|k: int|
        0 <= k < m.songs.len() && k != except && active(m.songs[k]) && m.strings[m.songs[k].path_string_id as int]
            == p
}

/// The blob paths to remove among the first `k` songs, in order: those of
/// deleted songs whose path no live song uses (an edited song's new row
/// keeps the old row's blob).
pub open spec fn deleted_paths(m: CatalogueModel, k: int) -> Seq<Seq<char>>
    decreases k,
{
    if k <= 0 {
        Seq::empty()
    } else {
        let p = m.strings[m.songs[k - 1].path_string_id as int];
        deleted_paths(m, k - 1) + if active(m.songs[k - 1]) || path_live(m, p, k - 1) {
            Seq::empty()
        } else {
            seq![p]
        }
    }
}

/// Whether a live song of `c` other than song `except` has blob path `path`.
pub fn path_in_use(c: &Catalogue, path: &String, except: usize) -> (r: bool)
    requires
        consistent(c@),
    ensures
        r == path_live(c@, path@, except as int),
{
    let mut k: usize = 0;
    while k < c.songs.len()
        invariant
            consistent(c@),
            k <= c@.songs.len(),
            forall|j: int|
                0 <= j < k ==> !(j != except && active(c@.songs[j])
                    && c@.strings[c@.songs[j].path_string_id as int] == path@),
        decreases c@.songs.len() - k,
    {
        let song = c.songs[k];
        if k != except && song.is_active() && c.strings.entry_is(song.path_string_id, path) {
            return true;
        }
        k = k + 1;
    }
    false
}

/// Keeps the live songs, in order, with title and path interned into `np`
/// and artist and album renumbered. Returns the new rows, the new id of each
/// old song, and the blob paths of the deleted songs.
fn rebuild_songs(
    c: &Catalogue,
    artist_map: &Vec<Option<u32>>,
    n_new_artists: usize,
    album_map: &Vec<Option<u32>>,
    n_new_albums: usize,
    np: &mut StringTable,
) -> (r: (Vec<SongEntry>, Vec<Option<u32>>, Vec<String>))
    requires
        consistent(c@),
        artist_map@.len() == c@.artists.len(),
        album_map@.len() == c@.albums.len(),
        forall|k: int|
            0 <= k < c@.songs.len() && active(#[trigger] c@.songs[k]) ==> {
                &&& artist_map@[c@.songs[k].artist_id as int] is Some
                &&& artist_map@[c@.songs[k].artist_id as int]->Some_0 < n_new_artists
                &&& album_map@[c@.songs[k].album_id as int] is Some
                &&& album_map@[c@.songs[k].album_id as int]->Some_0 < n_new_albums
            },
        pool_from(old(np)@, c@.strings),
    ensures
        pool_from(final(np)@, c@.strings),
        old(np)@.len() <= final(np)@.len(),
        final(np)@.subrange(0, old(np)@.len() as int) == old(np)@,
        r.1@ == song_map_of(c@.songs),
        r.0@.len() == live_before(c@.songs, c@.songs.len() as int),
        r.0@.len() <= c@.songs.len(),
        forall|x: int| old(np)@.len() <= x < final(np)@.len() ==> song_rows_use(r.0@, x),
        Seq::new(r.2@.len(), |i: int| r.2@[i]@) == deleted_paths(c@, c@.songs.len() as int),
        forall|k: int|
            0 <= k < c@.songs.len() && active(#[trigger] c@.songs[k]) ==> {
                let n = r.0@[live_before(c@.songs, k) as int];
                let o = c@.songs[k];
                &&& live_before(c@.songs, k) < r.0@.len()
                &&& n.title_string_id < final(np)@.len()
                &&& n.path_string_id < final(np)@.len()
                &&& final(np)@[n.title_string_id as int] == c@.strings[o.title_string_id as int]
                &&& final(np)@[n.path_string_id as int] == c@.strings[o.path_string_id as int]
                &&& n.artist_id == artist_map@[o.artist_id as int]->Some_0
                &&& n.album_id == album_map@[o.album_id as int]->Some_0
                &&& n.track_number == o.track_number
                &&& n.duration_sec == o.duration_sec
                &&& active(n)
            },
        forall|j: int| 0 <= j < r.0@.len() ==> {
            &&& active(r.0@[j])
            &&& r.0@[j].artist_id < n_new_artists
            &&& r.0@[j].album_id < n_new_albums
            &&& r.0@[j].title_string_id < final(np)@.len()
            &&& r.0@[j].path_string_id < final(np)@.len()
        },
{
    let ghost np0 = np@;
    let mut rows: Vec<SongEntry> = Vec::new();
    let mut map: Vec<Option<u32>> = Vec::new();
    let mut removed: Vec<String> = Vec::new();
    let mut k: usize = 0;
    proof {
        lemma_flag_values();
    }
    while k < c.songs.len()
        invariant
            consistent(c@),
            !crate::records::flags_deleted(crate::records::SONG_ACTIVE),
            artist_map@.len() == c@.artists.len(),
            album_map@.len() == c@.albums.len(),
            forall|x: int|
                0 <= x < c@.songs.len() && active(#[trigger] c@.songs[x]) ==> {
                    &&& artist_map@[c@.songs[x].artist_id as int] is Some
                    &&& artist_map@[c@.songs[x].artist_id as int]->Some_0 < n_new_artists
                    &&& album_map@[c@.songs[x].album_id as int] is Some
                    &&& album_map@[c@.songs[x].album_id as int]->Some_0 < n_new_albums
                },
            k <= c@.songs.len(),
            pool_from(np@, c@.strings),
            np0.len() <= np@.len(),
            np@.subrange(0, np0.len() as int) == np0,
            map@ == song_map_of(c@.songs).subrange(0, k as int),
            rows@.len() == live_before(c@.songs, k as int),
            rows@.len() <= k,
            forall|x: int| np0.len() <= x < np@.len() ==> song_rows_use(rows@, x),
            Seq::new(removed@.len(), |i: int| removed@[i]@) == deleted_paths(c@, k as int),
            forall|x: int|
                0 <= x < k && active(#[trigger] c@.songs[x]) ==> {
                    let n = rows@[live_before(c@.songs, x) as int];
                    let o = c@.songs[x];
                    &&& live_before(c@.songs, x) < rows@.len()
                    &&& n.title_string_id < np@.len()
                    &&& n.path_string_id < np@.len()
                    &&& np@[n.title_string_id as int] == c@.strings[o.title_string_id as int]
                    &&& np@[n.path_string_id as int] == c@.strings[o.path_string_id as int]
                    &&& n.artist_id == artist_map@[o.artist_id as int]->Some_0
                    &&& n.album_id == album_map@[o.album_id as int]->Some_0
                    &&& n.track_number == o.track_number
                    &&& n.duration_sec == o.duration_sec
                    &&& active(n)
                },
            forall|j: int| 0 <= j < rows@.len() ==> {
                &&& active(#[trigger] rows@[j])
                &&& rows@[j].artist_id < n_new_artists
                &&& rows@[j].album_id < n_new_albums
                &&& rows@[j].title_string_id < np@.len()
                &&& rows@[j].path_string_id < np@.len()
            },
        decreases c@.songs.len() - k,
    {
        let ghost np1 = np@;
        let ghost rows1 = rows@;
        let ghost removed1 = removed@;
        let song = c.songs[k];
        let path = match c.strings.get(song.path_string_id) {
            Some(s) => s,
            None => {
                proof {
                    assert(false);
                }
                ""
            },
        };
        if song.is_active() {
            let title = match c.strings.get(song.title_string_id) {
                Some(s) => s,
                None => {
                    proof {
                        assert(false);
                    }
                    ""
                },
            };
            assert(c@.strings.contains(title@)) by {
                assert(c@.strings[song.title_string_id as int] == title@);
            }
            assert(c@.strings.contains(path@)) by {
                assert(c@.strings[song.path_string_id as int] == path@);
            }
            let tid = intern_from(np, title, Ghost(c@.strings));
            let ghost np2 = np@;
            let pid = intern_from(np, path, Ghost(c@.strings));
            let artist_id = match artist_map[song.artist_id as usize] {
                Some(a) => a,
                None => {
                    proof {
                        assert(false);
                    }
                    0
                },
            };
            let album_id = match album_map[song.album_id as usize] {
                Some(a) => a,
                None => {
                    proof {
                        assert(false);
                    }
                    0
                },
            };
            let new_id = rows.len() as u32;
            rows.push(
                SongEntry::new(tid, artist_id, album_id, pid, song.track_number, song.duration_sec),
            );
            map.push(Some(new_id));
            proof {
                assert forall|x: int| np0.len() <= x < np@.len() implies song_rows_use(rows@, x) by {
                    if x < np1.len() {
                        assert(song_rows_use(rows1, x));
                        let a = choose|a: int|
                            0 <= a < rows1.len() && (rows1[a].title_string_id == x
                                || rows1[a].path_string_id == x);
                        assert(rows@[a] == rows1[a]);
                    } else {
                        let last = rows@[rows1.len() as int];
                        if x < np2.len() {
                            assert(last.title_string_id == x);
                        } else {
                            assert(last.path_string_id == x);
                        }
                    }
                }
                assert(np@.subrange(0, np1.len() as int) =~= np1) by {
                    assert(np@.subrange(0, np1.len() as int) =~= np@.subrange(0, np2.len() as int).subrange(0, np1.len() as int));
                }
                assert(np@.subrange(0, np0.len() as int) =~= np@.subrange(0, np1.len() as int).subrange(0, np0.len() as int));
                assert(np@[tid as int] == np2[tid as int]) by {
                    assert(np@.subrange(0, np2.len() as int)[tid as int] == np@[tid as int]);
                }
                assert forall|j: int| 0 <= j < rows1.len() implies np@[#[trigger] rows1[j].title_string_id as int] == np1[rows1[j].title_string_id as int] && np@[rows1[j].path_string_id as int] == np1[rows1[j].path_string_id as int] by {
                    assert(rows1[j] == rows1[j]);
                    assert(np@.subrange(0, np1.len() as int)[rows1[j].title_string_id as int] == np@[rows1[j].title_string_id as int]);
                    assert(np@.subrange(0, np1.len() as int)[rows1[j].path_string_id as int] == np@[rows1[j].path_string_id as int]);
                }
                assert forall|x: int| 0 <= x < k && active(#[trigger] c@.songs[x]) implies rows@[live_before(c@.songs, x) as int] == rows1[live_before(c@.songs, x) as int] by {}
                assert(map@ =~= song_map_of(c@.songs).subrange(0, k + 1));
            }
        } else {
            map.push(None);
            let owned = path.to_owned();
            if !path_in_use(c, &owned, k) {
                removed.push(owned);
                proof {
                    assert(Seq::new(removed@.len(), |i: int| removed@[i]@) =~= Seq::new(removed1.len(), |i: int| removed1[i]@).push(path@));
                }
            }
            proof {
                assert(map@ =~= song_map_of(c@.songs).subrange(0, k + 1));
            }
        }
        assert(Seq::new(removed@.len(), |i: int| removed@[i]@) =~= deleted_paths(c@, k + 1));
        k = k + 1;
    }
    assert(song_map_of(c@.songs).subrange(0, k as int) =~= song_map_of(c@.songs));
    (rows, map, removed)
}

/// Counting marks that agree with `artist_needed` counts the needed artists.
proof fn lemma_count_needed_artists(m: CatalogueModel, marks: Seq<bool>, n: int)
    requires
        0 <= n <= marks.len(),
        forall|a: int| 0 <= a < marks.len() ==> (marks[a] <==> artist_needed(m, a)),
    ensures
        count_true(marks.subrange(0, n)) == needed_artist_count(m, n),
    decreases n,
{
    if n > 0 {
        lemma_count_needed_artists(m, marks, n - 1);
        assert(marks.subrange(0, n).drop_last() =~= marks.subrange(0, n - 1));
    } else {
        assert(marks.subrange(0, 0) =~= Seq::<bool>::empty());
    }
}

/// Counting marks that agree with `album_needed` counts the needed albums.
proof fn lemma_count_needed_albums(m: CatalogueModel, marks: Seq<bool>, n: int)
    requires
        0 <= n <= marks.len(),
        forall|l: int| 0 <= l < marks.len() ==> (marks[l] <==> album_needed(m, l)),
    ensures
        count_true(marks.subrange(0, n)) == needed_album_count(m, n),
    decreases n,
{
    if n > 0 {
        lemma_count_needed_albums(m, marks, n - 1);
        assert(marks.subrange(0, n).drop_last() =~= marks.subrange(0, n - 1));
    } else {
        assert(marks.subrange(0, 0) =~= Seq::<bool>::empty());
    }
}

/// A compacted catalogue and what compaction did.
#[derive(Debug)]
pub struct Compaction {
    /// The rebuilt catalogue.
    pub catalogue: Catalogue,
    /// For each old song id, its new id, or `None` for a deleted song.
    pub song_map: Vec<Option<u32>>,
    /// Blob paths of the deleted songs, to be removed from disk.
    pub removed_blob_paths: Vec<String>,
    pub songs_removed: u32,
    pub artists_removed: u32,
    pub albums_removed: u32,
    pub strings_removed: u32,
}

/// Rows of the new catalogue that the string pool, at some point of the
/// rebuild, already resolved keep resolving the same way in the final pool.
proof fn lemma_pool_prefix(p1: Seq<Seq<char>>, p2: Seq<Seq<char>>, i: int)
    requires
        p1.len() <= p2.len(),
        p2.subrange(0, p1.len() as int) == p1,
        0 <= i < p1.len(),
    ensures
        p2[i] == p1[i],
{
    assert(p2.subrange(0, p1.len() as int)[i] == p2[i]);
}

impl Catalogue {
    /// Rebuilds the catalogue from its live songs. Deleted songs go; an
    /// artist stays only if a live song or its album needs it, an album only
    /// if a live song is on it; the pool holds each kept string once; rows
    /// keep their order and get contiguous ids.
    pub fn compact(&self) -> (r: Compaction)
        requires
            consistent(self@),
        ensures
            consistent(r.catalogue@),
            r.catalogue@.strings.no_duplicates(),
            r.song_map@ == song_map_of(self@.songs),
            r.catalogue@.songs.len() == live_before(self@.songs, self@.songs.len() as int),
            forall|k: int|
                0 <= k < self@.songs.len() && active(#[trigger] self@.songs[k]) ==> same_song(
                    self@,
                    k,
                    r.catalogue@,
                    live_before(self@.songs, k) as int,
                ),
            forall|a: int| 0 <= a < r.catalogue@.artists.len() ==> artist_needed(r.catalogue@, a),
            forall|l: int| 0 <= l < r.catalogue@.albums.len() ==> album_needed(r.catalogue@, l),
            forall|j: int| 0 <= j < r.catalogue@.songs.len() ==> active(#[trigger] r.catalogue@.songs[j]),
            r.catalogue@.artists.len() == needed_artist_count(self@, self@.artists.len() as int),
            r.catalogue@.albums.len() == needed_album_count(self@, self@.albums.len() as int),
            forall|x: int| 0 <= x < r.catalogue@.strings.len() ==> string_used(r.catalogue@, x),
            Seq::new(r.removed_blob_paths@.len(), |i: int| r.removed_blob_paths@[i]@)
                == deleted_paths(self@, self@.songs.len() as int),
            r.songs_removed == self@.songs.len() - r.catalogue@.songs.len(),
            r.artists_removed == self@.artists.len() - r.catalogue@.artists.len(),
            r.albums_removed == self@.albums.len() - r.catalogue@.albums.len(),
            r.strings_removed == self@.strings.len() - r.catalogue@.strings.len(),
    {
        let (needed_artists, needed_albums) = mark_needed(self);
        let mut np = StringTable::new();
        assert(np@.no_duplicates());
        let (artists, artist_map, Ghost(artist_origin)) = rebuild_artists(
            self,
            &needed_artists,
            &mut np,
        );
        let ghost np_a = np@;
        proof {
            assert forall|l: int|
                0 <= l < self@.albums.len() && needed_albums@[l] implies {
                &&& (#[trigger] artist_map@[self@.albums[l].artist_id as int]) is Some
                &&& artist_map@[self@.albums[l].artist_id as int]->Some_0 < artists@.len()
            } by {
                assert(album_needed(self@, l));
                let k = choose|k: int|
                    0 <= k < self@.songs.len() && active(self@.songs[k]) && self@.songs[k].album_id
                        == l;
                assert(song_needs_artist(self@, k, self@.albums[l].artist_id as int));
                assert(artist_needed(self@, self@.albums[l].artist_id as int));
            }
        }
        let (albums, album_map, Ghost(album_origin)) = rebuild_albums(
            self,
            &needed_albums,
            &artist_map,
            artists.len(),
            &mut np,
        );
        let ghost np_l = np@;
        proof {
            assert forall|k: int|
                0 <= k < self@.songs.len() && active(#[trigger] self@.songs[k]) implies {
                &&& artist_map@[self@.songs[k].artist_id as int] is Some
                &&& artist_map@[self@.songs[k].artist_id as int]->Some_0 < artists@.len()
                &&& album_map@[self@.songs[k].album_id as int] is Some
                &&& album_map@[self@.songs[k].album_id as int]->Some_0 < albums@.len()
            } by {
                assert(song_needs_artist(self@, k, self@.songs[k].artist_id as int));
                assert(artist_needed(self@, self@.songs[k].artist_id as int));
                assert(album_needed(self@, self@.songs[k].album_id as int));
            }
        }
        let (songs, song_map, removed) = rebuild_songs(
            self,
            &artist_map,
            artists.len(),
            &album_map,
            albums.len(),
            &mut np,
        );
        let ghost np_s = np@;
        proof {
            lemma_pool_from_len(np@, self@.strings);
            assert(np_s.subrange(0, np_a.len() as int) =~= np_s.subrange(0, np_l.len() as int).subrange(0, np_a.len() as int));
        }
        let n_strings = np.len();
        let c = Catalogue { strings: np, artists, albums, songs };
        proof {
            let m = c@;
            let o = self@;
            assert forall|i: int| 0 <= i < m.strings.len() implies fits_entry(#[trigger] m.strings[i]) by {
                assert(o.strings.contains(m.strings[i]));
                let j = choose|j: int| 0 <= j < o.strings.len() && o.strings[j] == m.strings[i];
                assert(fits_entry(o.strings[j]));
            }
            assert forall|a: int| 0 <= a < m.artists.len() implies (#[trigger] m.artists[a]).name_string_id < m.strings.len() by {
                assert(0 <= artist_origin[a] < o.artists.len());
            }
            assert forall|l: int| 0 <= l < m.albums.len() implies {
                &&& (#[trigger] m.albums[l]).name_string_id < m.strings.len()
                &&& m.albums[l].artist_id < m.artists.len()
            } by {
                assert(0 <= album_origin[l] < o.albums.len());
            }
            assert forall|j: int| 0 <= j < m.songs.len() implies {
                &&& (#[trigger] m.songs[j]).title_string_id < m.strings.len()
                &&& m.songs[j].path_string_id < m.strings.len()
                &&& m.songs[j].artist_id < m.artists.len()
                &&& m.songs[j].album_id < m.albums.len()
            } by {
                assert(m.songs[j] == songs@[j]);
            }
            assert(consistent(m));
            assert forall|k: int|
                0 <= k < o.songs.len() && active(#[trigger] o.songs[k]) implies same_song(
                o,
                k,
                m,
                live_before(o.songs, k) as int,
            ) by {
                let j = live_before(o.songs, k) as int;
                let ok = o.songs[k];
                let nk = m.songs[j];
                let na = artist_map@[ok.artist_id as int]->Some_0 as int;
                let nl = album_map@[ok.album_id as int]->Some_0 as int;
                assert(artist_origin[na] == ok.artist_id as int);
                assert(album_origin[nl] == ok.album_id as int);
                assert(0 <= artist_origin[na] < o.artists.len());
                assert(0 <= album_origin[nl] < o.albums.len());
                lemma_pool_prefix(np_a, np_s, m.artists[na].name_string_id as int);
                lemma_pool_prefix(np_l, np_s, m.albums[nl].name_string_id as int);
            }
            assert forall|a: int| 0 <= a < m.artists.len() implies artist_needed(m, a) by {
                let i = artist_origin[a];
                assert(0 <= i < o.artists.len());
                assert(artist_needed(o, i));
                let k = choose|k: int| 0 <= k < o.songs.len() && song_needs_artist(o, k, i);
                let j = live_before(o.songs, k) as int;
                assert(active(o.songs[k]));
                let nl = album_map@[o.songs[k].album_id as int]->Some_0 as int;
                assert(album_origin[nl] == o.songs[k].album_id as int);
                assert(0 <= album_origin[nl] < o.albums.len());
                assert(song_needs_artist(m, j, a));
            }
            lemma_count_needed_artists(o, needed_artists@, o.artists.len() as int);
            lemma_count_needed_albums(o, needed_albums@, o.albums.len() as int);
            assert(needed_artists@.subrange(0, o.artists.len() as int) =~= needed_artists@);
            assert(needed_albums@.subrange(0, o.albums.len() as int) =~= needed_albums@);
            assert forall|j: int| 0 <= j < m.songs.len() implies active(#[trigger] m.songs[j]) by {
                assert(m.songs[j] == songs@[j]);
            }
            assert forall|x: int| 0 <= x < m.strings.len() implies string_used(m, x) by {
                if x < np_a.len() {
                    assert(artist_rows_use(m.artists, x));
                } else if x < np_l.len() {
                    assert(album_rows_use(m.albums, x));
                } else {
                    assert(song_rows_use(m.songs, x));
                }
            }
            assert forall|l: int| 0 <= l < m.albums.len() implies album_needed(m, l) by {
                let x = album_origin[l];
                assert(0 <= x < o.albums.len());
                assert(album_needed(o, x));
                let k = choose|k: int|
                    0 <= k < o.songs.len() && active(o.songs[k]) && o.songs[k].album_id == x;
                let j = live_before(o.songs, k) as int;
                assert(active(m.songs[j]) && m.songs[j].album_id == l);
            }
        }
        let songs_removed = (self.songs.len() - c.songs.len()) as u32;
        let artists_removed = (self.artists.len() - c.artists.len()) as u32;
        let albums_removed = (self.albums.len() - c.albums.len()) as u32;
        let strings_removed = (self.strings.len() - n_strings) as u32;
        Compaction {
            catalogue: c,
            song_map,
            removed_blob_paths: removed,
            songs_removed,
            artists_removed,
            albums_removed,
            strings_removed,
        }
    }
}

/// A live song ranks below the number of live songs of any longer prefix.
pub proof fn lemma_live_before_mono(songs: Seq<SongEntry>, k: int, n: int)
    requires
        0 <= k < n <= songs.len(),
        active(songs[k]),
    ensures
        live_before(songs, k) < live_before(songs, n),
    decreases n - k,
{
    if n > k + 1 {
        lemma_live_before_mono(songs, k, n - 1);
    }
}

/// After compaction, every id of every rewritten playlist names a song of
/// the compacted catalogue: renumbering through the song map lands below
/// the number of live songs.
pub proof fn lemma_compacted_ids_resolve(songs: Seq<SongEntry>, ids: Seq<u32>)
    ensures
        forall|i: int|
            0 <= i < renumbered(ids, song_map_of(songs)).len() ==> (#[trigger] renumbered(
                ids,
                song_map_of(songs),
            )[i]) < live_before(songs, songs.len() as int),
    decreases ids.len(),
{
    if ids.len() > 0 {
        let map = song_map_of(songs);
        lemma_compacted_ids_resolve(songs, ids.drop_last());
        let x = ids.last() as int;
        let t = renumbered(ids, map);
        let t0 = renumbered(ids.drop_last(), map);
        assert forall|i: int| 0 <= i < t.len() implies (#[trigger] t[i]) < live_before(
            songs,
            songs.len() as int,
        ) by {
            if i < t0.len() {
                assert(t[i] == t0[i]);
            } else {
                assert(x < map.len() && map[x] is Some);
                assert(active(songs[x]));
                lemma_live_before_mono(songs, x, songs.len() as int);
                lemma_live_before_le(songs, songs.len() as int);
            }
        }
    }
}

/// No more live songs than songs.
pub proof fn lemma_live_before_le(songs: Seq<SongEntry>, k: int)
    requires
        0 <= k <= songs.len(),
    ensures
        live_before(songs, k) <= k,
    decreases k,
{
    if k > 0 {
        lemma_live_before_le(songs, k - 1);
    }
}

/// Summary of a compaction.
#[derive(Clone, Copy, Debug, PartialEq, Eq, Structural)]
pub struct CompactResult {
    pub songs_removed: u32,
    pub artists_removed: u32,
    pub albums_removed: u32,
    pub strings_removed: u32,
    /// Playlists rewritten with renumbered ids.
    pub playlists_updated: u32,
    pub old_size_bytes: u64,
    pub new_size_bytes: u64,
    /// Bytes saved (zero if the file grew).
    pub bytes_saved: u64,
}

impl Compaction {
    /// The summary once the new file (`new_size` bytes, replacing one of
    /// `old_size` bytes) is written and `playlists_updated` playlists are
    /// rewritten.
    pub fn summary(&self, playlists_updated: u32, old_size: u64, new_size: u64) -> (r: CompactResult)
        ensures
            r.songs_removed == self.songs_removed,
            r.artists_removed == self.artists_removed,
            r.albums_removed == self.albums_removed,
            r.strings_removed == self.strings_removed,
            r.playlists_updated == playlists_updated,
            r.old_size_bytes == old_size,
            r.new_size_bytes == new_size,
            r.bytes_saved == if old_size >= new_size { old_size - new_size } else { 0 },
    {
        CompactResult {
            songs_removed: self.songs_removed,
            artists_removed: self.artists_removed,
            albums_removed: self.albums_removed,
            strings_removed: self.strings_removed,
            playlists_updated,
            old_size_bytes: old_size,
            new_size_bytes: new_size,
            bytes_saved: if old_size >= new_size { old_size - new_size } else { 0 },
        }
    }
}

/// Compacting a catalogue that compaction produced removes nothing: when
/// every song is live, every artist and album needed, the counts of kept
/// songs, artists and albums are the full counts.
pub proof fn lemma_compact_again(m: CatalogueModel)
    requires
        forall|k: int| 0 <= k < m.songs.len() ==> active(#[trigger] m.songs[k]),
        forall|a: int| 0 <= a < m.artists.len() ==> artist_needed(m, a),
        forall|l: int| 0 <= l < m.albums.len() ==> album_needed(m, l),
    ensures
        live_before(m.songs, m.songs.len() as int) == m.songs.len(),
        needed_artist_count(m, m.artists.len() as int) == m.artists.len(),
        needed_album_count(m, m.albums.len() as int) == m.albums.len(),
{
    lemma_all_live(m.songs, m.songs.len() as int);
    lemma_all_artists(m, m.artists.len() as int);
    lemma_all_albums(m, m.albums.len() as int);
}

/// A table of live songs has as many live songs as rows.
proof fn lemma_all_live(songs: Seq<SongEntry>, n: int)
    requires
        0 <= n <= songs.len(),
        forall|k: int| 0 <= k < songs.len() ==> active(#[trigger] songs[k]),
    ensures
        live_before(songs, n) == n,
    decreases n,
{
    if n > 0 {
        lemma_all_live(songs, n - 1);
        assert(active(songs[n - 1]));
    }
}

/// When every artist is needed, all of them are counted.
proof fn lemma_all_artists(m: CatalogueModel, n: int)
    requires
        0 <= n <= m.artists.len(),
        forall|a: int| 0 <= a < m.artists.len() ==> artist_needed(m, a),
    ensures
        needed_artist_count(m, n) == n,
    decreases n,
{
    if n > 0 {
        lemma_all_artists(m, n - 1);
        assert(artist_needed(m, n - 1));
    }
}

/// When every album is needed, all of them are counted.
proof fn lemma_all_albums(m: CatalogueModel, n: int)
    requires
        0 <= n <= m.albums.len(),
        forall|l: int| 0 <= l < m.albums.len() ==> album_needed(m, l),
    ensures
        needed_album_count(m, n) == n,
    decreases n,
{
    if n > 0 {
        lemma_all_albums(m, n - 1);
        assert(album_needed(m, n - 1));
    }
}

} // verus!
