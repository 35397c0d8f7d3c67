//! Placement of audio blobs in numbered bucket directories of bounded size.
//! The starting point is what is on disk (the highest bucket and the number
//! of files in it); each placement takes the next free slot.
use vstd::prelude::*;
use vstd::string::StringExecFns;

verus! {

/// Most files a bucket directory holds.
pub const MAX_FILES_PER_BUCKET: u32 = 256;

/// The character of decimal digit `d`.
pub open spec fn digit_char(d: nat) -> char {
    (48 + d) as char
}

/// The decimal digits of `n`, most significant first, without leading zeros.
pub open spec fn decimal(n: nat) -> Seq<char>
    decreases n,
{
    if n < 10 {
        seq![digit_char(n)]
    } else {
        decimal(n / 10).push(digit_char(n % 10))
    }
}

/// The decimal digits of `n`, left-padded with zeros to at least `width`.
pub open spec fn zero_padded(n: nat, width: nat) -> Seq<char> {
    let d = decimal(n);
    if d.len() >= width {
        d
    } else {
        Seq::new((width - d.len()) as nat, |i: int| '0') + d
    }
}

/// Relative path of the blob in slot `index` of `bucket`: a two-digit
/// bucket, a three-digit file number, and the source's extension.
pub open spec fn blob_path_of(bucket: nat, index: nat, ext: Seq<char>) -> Seq<char> {
    zero_padded(bucket, 2) + seq!['/'] + zero_padded(index, 3) + seq!['.'] + ext
}

/// Relies on `format!("{:0w$}")`: the number in decimal, left-padded with
/// zeros to at least `width` digits. Widths are kept small: std refuses
/// (panics on) a runtime width beyond 16 bits.
#[verifier::external_body]
pub(crate) fn zero_padded_decimal(n: u32, width: usize) -> (r: String)
    requires
        width <= 3,
    ensures
        r@ == zero_padded(n as nat, width as nat),
{
    format!("{:0w$}", n, w = width)
}

/// The relative path of the blob in slot `index` of `bucket` for a file
/// with extension `ext`.
pub fn blob_path(bucket: u32, index: u32, ext: &str) -> (r: String)
    ensures
        r@ == blob_path_of(bucket as nat, index as nat, ext@),
{
    let mut path = zero_padded_decimal(bucket, 2);
    path.append("/");
    let file = zero_padded_decimal(index, 3);
    path.append(file.as_str());
    path.append(".");
    path.append(ext);
    proof {
        reveal_strlit("/");
        reveal_strlit(".");
        assert(path@ =~= blob_path_of(bucket as nat, index as nat, ext@));
    }
    path
}

/// The current bucket and how many files it holds.
#[derive(Clone, Copy, Debug, PartialEq, Eq, Structural)]
pub struct BlobCursor {
    pub bucket: u32,
    pub files_in_bucket: u32,
}

/// The slot the next blob goes to from `c`: the next index in the current
/// bucket, or the first index of a new bucket once the current one is full.
pub open spec fn next_slot_of(c: BlobCursor) -> (int, int) {
    if c.files_in_bucket >= MAX_FILES_PER_BUCKET {
        (c.bucket + 1, 1)
    } else {
        (c.bucket as int, c.files_in_bucket + 1)
    }
}

/// Whether a slot after `c` is still numbered within 32 bits.
pub open spec fn has_next_slot(c: BlobCursor) -> bool {
    next_slot_of(c).0 <= u32::MAX
}

impl BlobCursor {
    /// The cursor for the highest bucket on disk and its file count.
    pub fn new(bucket: u32, files_in_bucket: u32) -> (r: Self)
        ensures
            r.bucket == bucket,
            r.files_in_bucket == files_in_bucket,
    {
        BlobCursor { bucket, files_in_bucket }
    }

    /// The bucket and index of the next slot, if its bucket number fits.
    pub fn next_slot(&self) -> (r: Option<(u32, u32)>)
        ensures
            r is Some <==> has_next_slot(*self),
            r matches Some(s) ==> (s.0 as int, s.1 as int) == next_slot_of(*self),
    {
        if self.files_in_bucket >= MAX_FILES_PER_BUCKET {
            if self.bucket == u32::MAX {
                None
            } else {
                Some((self.bucket + 1, 1))
            }
        } else {
            Some((self.bucket, self.files_in_bucket + 1))
        }
    }

    /// Takes the next slot: the cursor then stands on it.
    pub fn advance(&mut self)
        requires
            has_next_slot(*old(self)),
        ensures
            final(self).bucket == next_slot_of(*old(self)).0,
            final(self).files_in_bucket == next_slot_of(*old(self)).1,
    {
        if self.files_in_bucket >= MAX_FILES_PER_BUCKET {
            self.bucket = self.bucket + 1;
            self.files_in_bucket = 1;
        } else {
            self.files_in_bucket = self.files_in_bucket + 1;
        }
    }
}

/// A bucket directory's number as the blob tree names it (two digits at least).
pub fn bucket_dir_name(bucket: u32) -> (r: String)
    ensures
        r@ == zero_padded(bucket as nat, 2),
{
    zero_padded_decimal(bucket, 2)
}

} // verus!
