//! Soft delete: a song is deleted by setting the one flag byte of its row
//! in the catalogue file, nothing else. The plan names each byte to write
//! and each blob to remove; the proof below shows that writing those bytes
//! gives exactly the catalogue with those songs flagged.
use vstd::prelude::*;

use crate::catalogue::{
    albums_at, artists_at, catalogue_of, layout_ok, songs_at, Catalogue, CatalogueError,
    CatalogueModel,
};
use crate::compaction::{path_in_use, path_live};
use crate::library::active;
use crate::view::live_ids;
use crate::records::{header_accepted, header_at, lemma_flag_values, SongEntry, SONG_DELETED};

verus! {

/// Byte offset of the flag byte of song `id` in a file whose song table
/// starts at `song_table_offset`.
pub open spec fn flag_offset(song_table_offset: int, id: int) -> int {
    song_table_offset + 24 * id + 20
}

/// `b` with the byte at each of `offsets` set to the deleted flag.
pub open spec fn with_flags_set(b: Seq<u8>, offsets: Seq<int>) -> Seq<u8> {
    Seq::new(b.len(), |p: int| if offsets.contains(p) { SONG_DELETED } else { b[p] })
}

/// `songs` with each row whose index is in `ids` flagged deleted.
pub open spec fn songs_marked(songs: Seq<SongEntry>, ids: Seq<u32>) -> Seq<SongEntry> {
    Seq::new(
        songs.len(),
        |k: int|
            if ids.contains(k as u32) {
                SongEntry { flags: SONG_DELETED, ..songs[k] }
            } else {
                songs[k]
            },
    )
}

/// The catalogue `m` with the songs in `ids` flagged deleted.
pub open spec fn marked_deleted(m: CatalogueModel, ids: Seq<u32>) -> CatalogueModel {
    CatalogueModel { songs: songs_marked(m.songs, ids), ..m }
}

/// The ids of `ids` below `n`, in order.
pub open spec fn ids_below(ids: Seq<u32>, n: int) -> Seq<u32>
    decreases ids.len(),
{
    if ids.len() == 0 {
        Seq::empty()
    } else {
        ids_below(ids.drop_last(), n) + if (ids.last() as int) < n {
            seq![ids.last()]
        } else {
            Seq::empty()
        }
    }
}

/// The ids of `ids` at or above `n`, in order.
pub open spec fn ids_not_below(ids: Seq<u32>, n: int) -> Seq<u32>
    decreases ids.len(),
{
    if ids.len() == 0 {
        Seq::empty()
    } else {
        ids_not_below(ids.drop_last(), n) + if (ids.last() as int) < n {
            Seq::empty()
        } else {
            seq![ids.last()]
        }
    }
}

/// Number of live songs.
pub open spec fn live_count(songs: Seq<SongEntry>) -> nat
    decreases songs.len(),
{
    if songs.len() == 0 {
        0
    } else {
        live_count(songs.drop_last()) + if active(songs.last()) {
            1nat
        } else {
            0nat
        }
    }
}

/// Whether `b` is what deleting song `d` of `m` removes from the blob
/// tree: its blob path, unless another live song uses that path.
pub open spec fn blob_to_remove(m: CatalogueModel, d: int, b: Option<String>) -> bool {
    let p = m.strings[m.songs[d].path_string_id as int];
    match b {
        Some(s) => s@ == p && !path_live(m, p, d),
        None => path_live(m, p, d),
    }
}

/// What deleting a list of song ids takes.
#[derive(Clone, Debug)]
pub struct DeletePlan {
    /// Byte offsets in the catalogue file where the deleted flag is written.
    pub flag_offsets: Vec<u64>,
    /// For each deleted song, its blob path to remove from disk, or `None`
    /// when another live song uses the same blob (an edited song's new row
    /// keeps the old row's blob).
    pub blob_paths: Vec<Option<String>>,
    /// The ids that were in range, in request order.
    pub deleted_ids: Vec<u32>,
    /// The ids that name no song, in request order.
    pub not_found: Vec<u32>,
}

/// Plans the soft delete of `song_ids` in the catalogue file `data`. Ids in
/// range get their flag byte and blob listed; the others are reported as
/// not found. A corrupt file is refused as a whole.
pub fn plan_delete(data: &[u8], song_ids: &Vec<u32>) -> (r: Result<DeletePlan, CatalogueError>)
    ensures
        r matches Err(e) ==> catalogue_of(data@) == Err::<CatalogueModel, CatalogueError>(e),
        r is Ok <==> catalogue_of(data@) is Ok,
        r matches Ok(p) ==> p.deleted_ids@ == ids_below(
            song_ids@,
            catalogue_of(data@)->Ok_0.songs.len() as int,
        ),
        r matches Ok(p) ==> p.not_found@ == ids_not_below(
            song_ids@,
            catalogue_of(data@)->Ok_0.songs.len() as int,
        ),
        r matches Ok(p) ==> p.flag_offsets@.len() == p.deleted_ids@.len()
            && p.blob_paths@.len() == p.deleted_ids@.len(),
        r matches Ok(p) ==> forall|i: int|
            0 <= i < p.deleted_ids@.len() ==> (#[trigger] p.flag_offsets@[i]) as int
                == flag_offset(
                header_at(data@).song_table_offset as int,
                p.deleted_ids@[i] as int,
            ),
        r matches Ok(p) ==> forall|i: int|
            0 <= i < p.deleted_ids@.len() ==> blob_to_remove(
                catalogue_of(data@)->Ok_0,
                p.deleted_ids@[i] as int,
                #[trigger] p.blob_paths@[i],
            ),
{
    let c = match Catalogue::parse(data) {
        Ok(c) => c,
        Err(e) => {
            return Err(e);
        },
    };
    let soo = crate::codec::get_le32(data, 32) as u64;
    let n = c.songs.len();
    let mut flag_offsets: Vec<u64> = Vec::new();
    let mut blob_paths: Vec<Option<String>> = Vec::new();
    let mut deleted_ids: Vec<u32> = Vec::new();
    let mut not_found: Vec<u32> = Vec::new();
    let mut i: usize = 0;
    while i < song_ids.len()
        invariant
            i <= song_ids@.len(),
            catalogue_of(data@) == Ok::<CatalogueModel, CatalogueError>(c@),
            crate::catalogue::consistent(c@),
            n == c@.songs.len(),
            n <= u32::MAX,
            soo == header_at(data@).song_table_offset,
            deleted_ids@ == ids_below(song_ids@.subrange(0, i as int), n as int),
            not_found@ == ids_not_below(song_ids@.subrange(0, i as int), n as int),
            flag_offsets@.len() == deleted_ids@.len(),
            blob_paths@.len() == deleted_ids@.len(),
            forall|j: int|
                0 <= j < deleted_ids@.len() ==> (#[trigger] flag_offsets@[j]) as int
                    == flag_offset(soo as int, deleted_ids@[j] as int),
            forall|j: int|
                0 <= j < deleted_ids@.len() ==> blob_to_remove(
                    c@,
                    deleted_ids@[j] as int,
                    #[trigger] blob_paths@[j],
                ),
            forall|j: int| 0 <= j < deleted_ids@.len() ==> #[trigger] deleted_ids@[j] < n,
        decreases song_ids@.len() - i,
    {
        let id = song_ids[i];
        if (id as usize) < n {
            let song = c.songs[id as usize];
            let path = match c.strings.get(song.path_string_id) {
                Some(s) => s.to_owned(),
                None => {
                    proof {
                        assert(false);
                    }
                    String::new()
                },
            };
            flag_offsets.push(soo + 24 * (id as u64) + 20);
            if path_in_use(&c, &path, id as usize) {
                blob_paths.push(None);
            } else {
                blob_paths.push(Some(path));
            }
            deleted_ids.push(id);
        } else {
            not_found.push(id);
        }
        proof {
            let p = song_ids@.subrange(0, i + 1);
            assert(p.drop_last() =~= song_ids@.subrange(0, i as int));
        }
        i = i + 1;
    }
    assert(song_ids@.subrange(0, i as int) =~= song_ids@);
    assert(deleted_ids@ == ids_below(song_ids@, c@.songs.len() as int));
    assert(not_found@ == ids_not_below(song_ids@, c@.songs.len() as int));
    assert(catalogue_of(data@)->Ok_0 == c@);
    Ok(DeletePlan { flag_offsets, blob_paths, deleted_ids, not_found })
}

/// A position inside a song row other than its flag byte is no flag offset.
proof fn lemma_not_flag(soo: int, i: int, t: int, k: int)
    requires
        0 <= i,
        0 <= k,
        0 <= t < 20,
    ensures
        soo + 24 * i + t != flag_offset(soo, k),
{
    if i == k {
    } else if i > k {
        assert(24 * i >= 24 * k + 24) by (nonlinear_arith)
            requires
                i > k,
        ;
    } else {
        assert(24 * k >= 24 * i + 24) by (nonlinear_arith)
            requires
                i < k,
        ;
    }
}

/// The flag offsets of a list of song ids.
pub open spec fn flag_offsets_of(soo: int, ids: Seq<u32>) -> Seq<int> {
    Seq::new(ids.len(), |i: int| flag_offset(soo, ids[i] as int))
}

/// Writing the deleted flag at the flag byte of each listed song turns a
/// valid catalogue file into the file of the same catalogue with exactly
/// those songs flagged deleted: every row stays, no other byte changes.
pub proof fn lemma_soft_delete(b: Seq<u8>, ids: Seq<u32>)
    requires
        catalogue_of(b) is Ok,
        forall|i: int| 0 <= i < ids.len() ==> (ids[i] as int) < catalogue_of(b)->Ok_0.songs.len(),
    ensures
        catalogue_of(with_flags_set(b, flag_offsets_of(header_at(b).song_table_offset as int, ids)))
            == Ok::<CatalogueModel, CatalogueError>(marked_deleted(catalogue_of(b)->Ok_0, ids)),
{
    let m = catalogue_of(b)->Ok_0;
    let h = header_at(b);
    let soo = h.song_table_offset as int;
    let offs = flag_offsets_of(soo, ids);
    let b2 = with_flags_set(b, offs);
    assert forall|p: int| 0 <= p < soo implies b2[p] == b[p] by {
        if offs.contains(p) {
            let i = choose|i: int| 0 <= i < offs.len() && offs[i] == p;
            assert(24 * ids[i] >= 0) by (nonlinear_arith);
        }
    }
    assert(b2.subrange(0, 4) =~= b.subrange(0, 4));
    assert(header_at(b2) == h);
    assert(header_accepted(b2));
    assert(layout_ok(header_at(b2), b2.len() as int));
    assert(b2.subrange(h.string_table_offset as int, h.artist_table_offset as int) =~= b.subrange(
        h.string_table_offset as int,
        h.artist_table_offset as int,
    ));
    let ar = artists_at(b2, h.artist_table_offset as int, h.artist_count as nat);
    assert forall|i: int| 0 <= i < ar.len() implies ar[i] == m.artists[i] by {
        assert(8 * i + 8 <= 8 * h.artist_count) by (nonlinear_arith)
            requires
                0 <= i < h.artist_count,
        ;
        assert(0 <= 8 * i) by (nonlinear_arith)
            requires
                0 <= i,
        ;
    }
    assert(ar =~= m.artists);
    let al = albums_at(b2, h.album_table_offset as int, h.album_count as nat);
    assert forall|i: int| 0 <= i < al.len() implies al[i] == m.albums[i] by {
        assert(16 * i + 16 <= 16 * h.album_count) by (nonlinear_arith)
            requires
                0 <= i < h.album_count,
        ;
        assert(0 <= 16 * i) by (nonlinear_arith)
            requires
                0 <= i,
        ;
    }
    assert(al =~= m.albums);
    lemma_flag_values();
    let so = songs_at(b2, soo, h.song_count as nat);
    let want = songs_marked(m.songs, ids);
    assert forall|k: int| 0 <= k < so.len() implies so[k] == want[k] by {
        assert(0 <= 24 * k) by (nonlinear_arith)
            requires
                0 <= k,
        ;
        assert forall|t: int| 0 <= t < 20 implies #[trigger] b2[soo + 24 * k + t] == b[soo + 24 * k + t] by {
            if offs.contains(soo + 24 * k + t) {
                let i = choose|i: int| 0 <= i < offs.len() && offs[i] == soo + 24 * k + t;
                lemma_not_flag(soo, k, t, ids[i] as int);
            }
        }
        let at = soo + 24 * k;
        assert(b2[at] == b[at] && b2[at + 1] == b[at + 1] && b2[at + 2] == b[at + 2] && b2[at + 3] == b[at + 3]);
        assert(b2[at + 4] == b[at + 4] && b2[at + 5] == b[at + 5] && b2[at + 6] == b[at + 6] && b2[at + 7] == b[at + 7]);
        assert(b2[at + 8] == b[at + 8] && b2[at + 9] == b[at + 9] && b2[at + 10] == b[at + 10] && b2[at + 11] == b[at + 11]);
        assert(b2[at + 12] == b[at + 12] && b2[at + 13] == b[at + 13] && b2[at + 14] == b[at + 14] && b2[at + 15] == b[at + 15]);
        assert(b2[at + 16] == b[at + 16] && b2[at + 17] == b[at + 17] && b2[at + 18] == b[at + 18] && b2[at + 19] == b[at + 19]);
        if ids.contains(k as u32) {
            let i = choose|i: int| 0 <= i < ids.len() && ids[i] == k as u32;
            assert(offs[i] == at + 20);
            assert(offs.contains(at + 20));
        } else {
            if offs.contains(at + 20) {
                let i = choose|i: int| 0 <= i < offs.len() && offs[i] == at + 20;
                assert(ids[i] as int == k);
                assert(ids.contains(k as u32));
            }
        }
    }
    assert(so =~= want);
}

/// Two song tables that differ only in row `k` differ in their live count
/// only by that row.
pub proof fn lemma_live_count_one_change(a: Seq<SongEntry>, b: Seq<SongEntry>, k: int)
    requires
        a.len() == b.len(),
        0 <= k < a.len(),
        forall|i: int| 0 <= i < a.len() && i != k ==> a[i] == b[i],
    ensures
        live_count(a) + (if active(b[k]) { 1int } else { 0int }) == live_count(b) + (if active(
            a[k],
        ) {
            1int
        } else {
            0int
        }),
    decreases a.len(),
{
    if k < a.len() - 1 {
        lemma_live_count_one_change(a.drop_last(), b.drop_last(), k);
    } else {
        assert(a.drop_last() =~= b.drop_last());
    }
}

/// Deleting one live song keeps every row, flags that song deleted, and
/// lowers the live count by one.
pub proof fn lemma_delete_one_live(m: CatalogueModel, k: u32)
    requires
        (k as int) < m.songs.len(),
        m.songs.len() <= u32::MAX,
        active(m.songs[k as int]),
    ensures
        marked_deleted(m, seq![k]).songs.len() == m.songs.len(),
        !active(marked_deleted(m, seq![k]).songs[k as int]),
        live_count(marked_deleted(m, seq![k]).songs) + 1 == live_count(m.songs),
        !live_ids(marked_deleted(m, seq![k]).songs).contains(k as int),
        forall|i: int|
            0 <= i < m.songs.len() && i != k ==> marked_deleted(m, seq![k]).songs[i] == m.songs[i],
{
    let a = marked_deleted(m, seq![k]).songs;
    lemma_flag_values();
    let one = seq![k];
    assert(one[0] == k);
    assert(one.contains(k));
    assert forall|i: int| 0 <= i < m.songs.len() && i != k implies a[i] == m.songs[i] by {
        if one.contains(i as u32) {
            let j = choose|j: int| 0 <= j < one.len() && one[j] == i as u32;
            assert(j == 0);
        }
    }
    lemma_live_count_one_change(a, m.songs, k as int);
    lemma_live_ids_live(a);
    if live_ids(a).contains(k as int) {
        let j = choose|j: int| 0 <= j < live_ids(a).len() && live_ids(a)[j] == k as int;
        assert(active(a[live_ids(a)[j]]));
    }
}

/// The listing holds live songs only.
pub proof fn lemma_live_ids_live(songs: Seq<SongEntry>)
    ensures
        forall|j: int|
            0 <= j < live_ids(songs).len() ==> 0 <= #[trigger] live_ids(songs)[j] < songs.len()
                && active(songs[live_ids(songs)[j]]),
    decreases songs.len(),
{
    if songs.len() > 0 {
        let init = songs.drop_last();
        lemma_live_ids_live(init);
        assert forall|j: int| 0 <= j < live_ids(songs).len() implies 0 <= #[trigger] live_ids(songs)[j]
            < songs.len() && active(songs[live_ids(songs)[j]]) by {
            if j < live_ids(init).len() {
                assert(live_ids(songs)[j] == live_ids(init)[j]);
                assert(songs[live_ids(init)[j]] == init[live_ids(init)[j]]);
            }
        }
    }
}

/// Summary of a soft delete.
#[derive(Clone, Debug)]
pub struct DeleteSongsResult {
    /// Songs flagged deleted.
    pub songs_deleted: u32,
    /// Requested ids that name no song.
    pub not_found: Vec<u32>,
    /// Blob files actually removed from disk.
    pub files_deleted: u32,
}

impl DeletePlan {
    /// The summary once the plan is carried out and `files_deleted` blobs
    /// were removed.
    pub fn summary(&self, files_deleted: u32) -> (r: DeleteSongsResult)
        requires
            self.deleted_ids@.len() <= u32::MAX,
        ensures
            r.songs_deleted == self.deleted_ids@.len(),
            r.not_found@ == self.not_found@,
            r.files_deleted == files_deleted,
    {
        DeleteSongsResult {
            songs_deleted: self.deleted_ids.len() as u32,
            not_found: self.not_found.clone(),
            files_deleted,
        }
    }
}

} // verus!
