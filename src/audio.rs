//! Metadata handed in by the extraction pipeline, and the status bookkeeping
//! of files moving through it.
use vstd::prelude::*;

verus! {

/// Where a file stands in metadata extraction.
#[derive(Clone, Copy, Debug, PartialEq, Eq, Structural)]
pub enum MetadataStatus {
    Pending,
    Complete,
    Incomplete,
    Error,
    Success,
    Failed,
}

impl Default for MetadataStatus {
    fn default() -> (r: Self)
        ensures
            r == MetadataStatus::Pending,
    {
        MetadataStatus::Pending
    }
}

/// Where a file's metadata came from.
#[derive(Clone, Copy, Debug, PartialEq, Eq, Structural)]
pub enum MetadataSource {
    Unknown,
    Id3,
    Fingerprint,
    Manual,
}

impl Default for MetadataSource {
    fn default() -> (r: Self)
        ensures
            r == MetadataSource::Unknown,
    {
        MetadataSource::Unknown
    }
}

/// A required metadata field.
#[derive(Clone, Copy, Debug, PartialEq, Eq, Structural)]
pub enum RequiredField {
    Title,
    Artist,
    Album,
}

/// Metadata of one audio file; every field may be missing.
#[derive(Clone, Debug)]
pub struct AudioMetadata {
    pub title: Option<String>,
    pub artist: Option<String>,
    pub album: Option<String>,
    pub track_number: Option<u32>,
    pub year: Option<i32>,
    pub duration_secs: Option<u32>,
    pub release_mbid: Option<String>,
    pub artist_mbid: Option<String>,
}

/// Whether title, artist and album are all present.
pub open spec fn metadata_complete(m: AudioMetadata) -> bool {
    m.title is Some && m.artist is Some && m.album is Some
}

/// The required fields that `m` lacks, in the order title, artist, album.
pub open spec fn missing_of(m: AudioMetadata) -> Seq<RequiredField> {
    (if m.title is None { seq![RequiredField::Title] } else { Seq::empty() }) + (if m.artist is None {
        seq![RequiredField::Artist]
    } else {
        Seq::empty()
    }) + (if m.album is None { seq![RequiredField::Album] } else { Seq::empty() })
}

impl AudioMetadata {
    /// Metadata with every field missing.
    pub fn empty() -> (r: Self)
        ensures
            r.title is None && r.artist is None && r.album is None,
            r.track_number is None && r.year is None && r.duration_secs is None,
            r.release_mbid is None && r.artist_mbid is None,
    {
        AudioMetadata {
            title: None,
            artist: None,
            album: None,
            track_number: None,
            year: None,
            duration_secs: None,
            release_mbid: None,
            artist_mbid: None,
        }
    }

    /// Whether the fields the catalogue requires (title, artist, album) are
    /// all present.
    pub fn is_complete(&self) -> (r: bool)
        ensures
            r == metadata_complete(*self),
    {
        self.title.is_some() && self.artist.is_some() && self.album.is_some()
    }

    /// The names of the required fields that are missing, in the order
    /// title, artist, album.
    pub fn missing_fields(&self) -> (r: Vec<&'static str>)
        ensures
            r@.len() == missing_of(*self).len(),
            forall|i: int|
                0 <= i < r@.len() ==> (#[trigger] r@[i])@ == field_name(missing_of(*self)[i]),
    {
        let mut missing: Vec<&'static str> = Vec::new();
        let ghost fields: Seq<RequiredField> = Seq::empty();
        if self.title.is_none() {
            missing.push(RequiredField::Title.name());
            proof {
                fields = fields.push(RequiredField::Title);
            }
        }
        if self.artist.is_none() {
            missing.push(RequiredField::Artist.name());
            proof {
                fields = fields.push(RequiredField::Artist);
            }
        }
        if self.album.is_none() {
            missing.push(RequiredField::Album.name());
            proof {
                fields = fields.push(RequiredField::Album);
            }
        }
        assert(fields =~= missing_of(*self));
        missing
    }
}

/// The name under which a required field is reported.
pub open spec fn field_name(f: RequiredField) -> Seq<char> {
    match f {
        RequiredField::Title => "title"@,
        RequiredField::Artist => "artist"@,
        RequiredField::Album => "album"@,
    }
}

impl RequiredField {
    /// The field's name as the user interface shows it.
    pub fn name(&self) -> (r: &'static str)
        ensures
            r@ == field_name(*self),
    {
        match self {
            RequiredField::Title => "title",
            RequiredField::Artist => "artist",
            RequiredField::Album => "album",
        }
    }
}

/// A file in the upload pipeline and what is known of its metadata.
#[derive(Clone, Debug)]
pub struct TrackedAudioFile {
    pub tracking_id: String,
    pub file_path: String,
    pub file_name: String,
    pub file_extension: String,
    pub file_size: u64,
    pub metadata_status: MetadataStatus,
    pub metadata_source: MetadataSource,
    pub metadata: AudioMetadata,
    pub error_message: Option<String>,
}

/// The status a file's error and metadata call for.
pub open spec fn status_for(f: TrackedAudioFile) -> MetadataStatus {
    if f.error_message is Some {
        MetadataStatus::Error
    } else if metadata_complete(f.metadata) {
        MetadataStatus::Complete
    } else {
        MetadataStatus::Incomplete
    }
}

impl TrackedAudioFile {
    /// Sets the status from the error and the metadata: an error wins, then
    /// complete metadata, else incomplete. Nothing else changes.
    pub fn update_status(&mut self)
        ensures
            final(self).metadata_status == status_for(*old(self)),
            final(self).tracking_id == old(self).tracking_id,
            final(self).file_path == old(self).file_path,
            final(self).file_name == old(self).file_name,
            final(self).file_extension == old(self).file_extension,
            final(self).metadata == old(self).metadata,
            final(self).error_message == old(self).error_message,
            final(self).metadata_source == old(self).metadata_source,
            final(self).file_size == old(self).file_size,
    {
        if self.error_message.is_some() {
            self.metadata_status = MetadataStatus::Error;
        } else if self.metadata.is_complete() {
            self.metadata_status = MetadataStatus::Complete;
        } else {
            self.metadata_status = MetadataStatus::Incomplete;
        }
    }
}

/// Result of fingerprinting one file.
#[derive(Clone, Debug)]
pub struct ProcessedAudioFingerprint {
    pub fingerprint_id: String,
    pub tracking_id: String,
    pub fingerprint_status: MetadataStatus,
    pub error_message: Option<String>,
    pub duration_seconds: u32,
}

/// A fingerprint and the audio's duration.
#[derive(Clone, Debug)]
pub struct AudioFingerprintResult {
    pub fingerprint: String,
    pub duration_seconds: u32,
}

/// Number of files in `files` whose status is `st`.
pub open spec fn count_status(files: Seq<TrackedAudioFile>, st: MetadataStatus) -> nat
    decreases files.len(),
{
    if files.len() == 0 {
        0
    } else {
        count_status(files.drop_last(), st) + if files.last().metadata_status == st {
            1nat
        } else {
            0nat
        }
    }
}

/// A batch of processed files with the number in each outcome.
#[derive(Clone, Debug)]
pub struct ProcessedFilesResult {
    pub files: Vec<TrackedAudioFile>,
    pub complete_count: usize,
    pub incomplete_count: usize,
    pub error_count: usize,
}

impl ProcessedFilesResult {
    /// Counts the complete, incomplete and failed files of a batch.
    pub fn from_files(files: Vec<TrackedAudioFile>) -> (r: Self)
        ensures
            r.files@ == files@,
            r.complete_count == count_status(files@, MetadataStatus::Complete),
            r.incomplete_count == count_status(files@, MetadataStatus::Incomplete),
            r.error_count == count_status(files@, MetadataStatus::Error),
    {
        let mut complete: usize = 0;
        let mut incomplete: usize = 0;
        let mut errors: usize = 0;
        let mut i: usize = 0;
        while i < files.len()
            invariant
                i <= files@.len(),
                complete == count_status(files@.subrange(0, i as int), MetadataStatus::Complete),
                incomplete == count_status(
                    files@.subrange(0, i as int),
                    MetadataStatus::Incomplete,
                ),
                errors == count_status(files@.subrange(0, i as int), MetadataStatus::Error),
                complete + incomplete + errors <= i,
            decreases files@.len() - i,
        {
            proof {
                let p = files@.subrange(0, i + 1);
                assert(p.drop_last() =~= files@.subrange(0, i as int));
            }
            let st = files[i].metadata_status;
            if st == MetadataStatus::Complete {
                complete = complete + 1;
            } else if st == MetadataStatus::Incomplete {
                incomplete = incomplete + 1;
            } else if st == MetadataStatus::Error {
                errors = errors + 1;
            }
            i = i + 1;
        }
        assert(files@.subrange(0, i as int) =~= files@);
        ProcessedFilesResult {
            files,
            complete_count: complete,
            incomplete_count: incomplete,
            error_count: errors,
        }
    }
}

/// The record of fingerprinting a file, from the fingerprinter's outcome:
/// on success the fingerprint and duration with status `Success`; on
/// failure an empty fingerprint, zero duration, status `Failed` and the
/// error message.
pub fn process_audio_fingerprint(
    outcome: Result<AudioFingerprintResult, String>,
    tracking_id: String,
) -> (r: ProcessedAudioFingerprint)
    ensures
        r.tracking_id == tracking_id,
        outcome matches Ok(f) ==> {
            &&& r.fingerprint_id == f.fingerprint
            &&& r.fingerprint_status == MetadataStatus::Success
            &&& r.error_message is None
            &&& r.duration_seconds == f.duration_seconds
        },
        outcome matches Err(e) ==> {
            &&& r.fingerprint_id@.len() == 0
            &&& r.fingerprint_status == MetadataStatus::Failed
            &&& r.error_message == Some(e)
            &&& r.duration_seconds == 0
        },
{
    match outcome {
        Ok(f) => ProcessedAudioFingerprint {
            fingerprint_id: f.fingerprint,
            tracking_id,
            fingerprint_status: MetadataStatus::Success,
            error_message: None,
            duration_seconds: f.duration_seconds,
        },
        Err(e) => ProcessedAudioFingerprint {
            fingerprint_id: String::new(),
            tracking_id,
            fingerprint_status: MetadataStatus::Failed,
            error_message: Some(e),
            duration_seconds: 0,
        },
    }
}

} // verus!
