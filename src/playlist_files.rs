//! Naming of playlist files (`<id>.bin`), lookup by name, and the checks on
//! a new name. Names are compared case-insensitively for uniqueness and
//! exactly for lookup.
use vstd::prelude::*;
use vstd::string::StrSliceExecFns;

use crate::blob::{decimal, zero_padded_decimal};
use vstd::string::StringExecFns;

verus! {

/// Whether `c` is an ASCII decimal digit.
pub open spec fn is_digit(c: char) -> bool {
    '0' <= c && c <= '9'
}

/// Whether every character of `s` is a decimal digit.
pub open spec fn all_digits(s: Seq<char>) -> bool {
    forall|i: int| 0 <= i < s.len() ==> is_digit(#[trigger] s[i])
}

/// The number a run of decimal digits spells.
pub open spec fn digits_value(s: Seq<char>) -> int
    decreases s.len(),
{
    if s.len() == 0 {
        0
    } else {
        10 * digits_value(s.drop_last()) + (s.last() as int - '0' as int)
    }
}

/// The number a string spells as `str::parse::<u32>` reads it: a
/// non-empty run of decimal digits, an optional leading `+` allowed, whose
/// value fits in 32 bits.
pub open spec fn decimal_of(s: Seq<char>) -> Option<u32> {
    let digits = if s.len() > 0 && s[0] == '+' {
        s.drop_first()
    } else {
        s
    };
    if digits.len() == 0 || !all_digits(digits) || digits_value(digits) > u32::MAX {
        None
    } else {
        Some(digits_value(digits) as u32)
    }
}

/// The playlist id a file name gives: the name is `<number>.bin`.
pub open spec fn playlist_id_of(name: Seq<char>) -> Option<u32> {
    let n = name.len() as int;
    if n < 4 || name.subrange(n - 4, n) != seq!['.', 'b', 'i', 'n'] {
        None
    } else {
        decimal_of(name.subrange(0, n - 4))
    }
}

/// A longer run of digits never spells a smaller number.
proof fn lemma_digits_prefix(s: Seq<char>, k: int)
    requires
        0 <= k <= s.len(),
        forall|i: int| 0 <= i < s.len() ==> is_digit(#[trigger] s[i]),
    ensures
        digits_value(s.subrange(0, k)) <= digits_value(s),
    decreases s.len() - k,
{
    if k < s.len() {
        lemma_digits_prefix(s, k + 1);
        let p = s.subrange(0, k + 1);
        assert(p.drop_last() =~= s.subrange(0, k));
        assert(is_digit(s[k]));
        assert(digits_value(s.subrange(0, k)) >= 0) by {
            lemma_digits_nonneg(s.subrange(0, k));
        }
    } else {
        assert(s.subrange(0, k) =~= s);
    }
}

/// Digits spell a non-negative number.
proof fn lemma_digits_nonneg(s: Seq<char>)
    requires
        forall|i: int| 0 <= i < s.len() ==> is_digit(#[trigger] s[i]),
    ensures
        digits_value(s) >= 0,
    decreases s.len(),
{
    if s.len() > 0 {
        lemma_digits_nonneg(s.drop_last());
        assert(is_digit(s[s.len() - 1]));
    }
}

/// The number `s[start..end]` spells, as `decimal_of` reads it.
pub fn parse_decimal_range(s: &str, start: usize, end: usize) -> (r: Option<u32>)
    requires
        start <= end <= s@.len(),
    ensures
        r == decimal_of(s@.subrange(start as int, end as int)),
{
    let ghost whole = s@.subrange(start as int, end as int);
    let mut first = start;
    if end > start && s.get_char(start) == '+' {
        first = start + 1;
    }
    let ghost digits = s@.subrange(first as int, end as int);
    assert(digits =~= if whole.len() > 0 && whole[0] == '+' {
        whole.drop_first()
    } else {
        whole
    });
    if first >= end {
        return None;
    }
    let mut value: u64 = 0;
    let mut k: usize = first;
    while k < end
        invariant
            first <= k <= end,
            end <= s@.len(),
            whole == s@.subrange(start as int, end as int),
            digits == s@.subrange(first as int, end as int),
            digits == if whole.len() > 0 && whole[0] == '+' {
                whole.drop_first()
            } else {
                whole
            },
            digits.len() > 0,
            forall|i: int| 0 <= i < k - first ==> is_digit(#[trigger] digits[i]),
            value == digits_value(digits.subrange(0, k - first)),
            value <= u32::MAX,
        decreases end - k,
    {
        let c = s.get_char(k);
        assert(c == digits[k - first]);
        if c < '0' || c > '9' {
            assert(!is_digit(digits[k - first]));
            assert(!all_digits(digits));
            return None;
        }
        let ghost prev = digits.subrange(0, k - first);
        value = value * 10 + (c as u64 - 48);
        proof {
            let cur = digits.subrange(0, k - first + 1);
            assert(cur.drop_last() =~= prev);
            assert(cur.last() == c);
            assert('0' as int == 48);
            assert(value == digits_value(cur));
        }
        k = k + 1;
        if value > 0xffff_ffff {
            proof {
                if all_digits(digits) {
                    lemma_digits_prefix(digits, k - first);
                }
            }
            return None;
        }
    }
    assert(digits.subrange(0, k - first) =~= digits);
    assert(all_digits(digits));
    Some(value as u32)
}

/// The playlist id a file name gives (`"12.bin"` gives 12), or `None`
/// when the name is not of that form.
pub fn parse_playlist_id(file_name: &str) -> (r: Option<u32>)
    ensures
        r == playlist_id_of(file_name@),
{
    let n = file_name.unicode_len();
    if n < 4 {
        return None;
    }
    let ghost s = file_name@;
    if file_name.get_char(n - 4) != '.' || file_name.get_char(n - 3) != 'b' || file_name.get_char(
        n - 2,
    ) != 'i' || file_name.get_char(n - 1) != 'n' {
        proof {
            if s.subrange(n - 4, n as int) == seq!['.', 'b', 'i', 'n'] {
                assert(s.subrange(n - 4, n as int)[0] == s[n - 4]);
                assert(s.subrange(n - 4, n as int)[1] == s[n - 3]);
                assert(s.subrange(n - 4, n as int)[2] == s[n - 2]);
                assert(s.subrange(n - 4, n as int)[3] == s[n - 1]);
            }
        }
        return None;
    }
    assert(s.subrange(n - 4, n as int) =~= seq!['.', 'b', 'i', 'n']);
    parse_decimal_range(file_name, 0, n - 4)
}

/// The largest of the numbers that the names spell, or 0 when none does:
/// the current bucket among a blob tree's directory names.
pub fn highest_bucket(names: &Vec<String>) -> (r: u32)
    ensures
        forall|i: int|
            0 <= i < names@.len() ==> (decimal_of((#[trigger] names@[i])@) matches Some(v) ==> v <= r),
        r == 0 || exists|i: int| 0 <= i < names@.len() && decimal_of((#[trigger] names@[i])@) == Some(r),
{
    let mut best: u32 = 0;
    let mut i: usize = 0;
    while i < names.len()
        invariant
            i <= names@.len(),
            forall|j: int|
                0 <= j < i ==> (decimal_of((#[trigger] names@[j])@) matches Some(v) ==> v <= best),
            best == 0 || exists|j: int| 0 <= j < i && decimal_of((#[trigger] names@[j])@) == Some(best),
        decreases names@.len() - i,
    {
        let name = names[i].as_str();
        let len = name.unicode_len();
        assert(name@.subrange(0, len as int) =~= name@);
        if let Some(v) = parse_decimal_range(name, 0, len) {
            if v > best {
                best = v;
            }
        }
        i = i + 1;
    }
    best
}

/// The file name of playlist `id`: its number in decimal and `.bin`.
pub fn playlist_file_name(id: u32) -> (r: String)
    ensures
        r@ == decimal(id as nat) + seq!['.', 'b', 'i', 'n'],
{
    let mut name = zero_padded_decimal(id, 0);
    name.append(".bin");
    proof {
        reveal_strlit(".bin");
        assert(name@ =~= decimal(id as nat) + seq!['.', 'b', 'i', 'n']);
    }
    name
}

/// The lowercase form of a string, as `str::to_lowercase` gives it.
pub uninterp spec fn lower_of(s: Seq<char>) -> Seq<char>;

/// Whether `c` has the Unicode White_Space property.
pub open spec fn is_white_space(c: char) -> bool {
    let u = c as u32;
    (9 <= u <= 13) || u == 32 || u == 0x85 || u == 0xa0 || u == 0x1680 || (0x2000 <= u <= 0x200a)
        || u == 0x2028 || u == 0x2029 || u == 0x202f || u == 0x205f || u == 0x3000
}

/// `s` without its leading white space.
pub open spec fn trim_start_of(s: Seq<char>) -> Seq<char>
    decreases s.len(),
{
    if s.len() > 0 && is_white_space(s[0]) {
        trim_start_of(s.drop_first())
    } else {
        s
    }
}

/// `s` without its trailing white space.
pub open spec fn trim_end_of(s: Seq<char>) -> Seq<char>
    decreases s.len(),
{
    if s.len() > 0 && is_white_space(s.last()) {
        trim_end_of(s.drop_last())
    } else {
        s
    }
}

/// `s` without its leading and trailing white space.
pub open spec fn trimmed_of(s: Seq<char>) -> Seq<char> {
    trim_end_of(trim_start_of(s))
}

/// Relies on `str::to_lowercase`: the result depends on the characters
/// alone, and the empty string stays empty.
#[verifier::external_body]
pub(crate) fn lowercase(s: &str) -> (r: String)
    ensures
        r@ == lower_of(s@),
        s@.len() == 0 ==> r@.len() == 0,
{
    s.to_lowercase()
}

/// Relies on `str::trim`: leading and trailing characters with the Unicode
/// White_Space property are removed.
#[verifier::external_body]
pub(crate) fn trim(s: &str) -> (r: String)
    ensures
        r@ == trimmed_of(s@),
{
    s.trim().to_string()
}

/// Why a playlist cannot take a name.
#[derive(Clone, Copy, Debug, PartialEq, Eq, Structural)]
pub enum RenameError {
    /// The name is empty once surrounding whitespace is removed.
    EmptyName,
    /// Another playlist has the same name, ignoring case.
    DuplicateName,
}

/// Decides on a new name from its trimmed form, that form lowercased, and
/// the other playlists' names lowercased: refused when empty or when it
/// equals another name; otherwise accepted.
pub fn check_new_name(trimmed: &String, lowered: &String, others_lowered: &Vec<String>) -> (r:
    Result<(), RenameError>)
    ensures
        r == Err::<(), RenameError>(RenameError::EmptyName) <==> trimmed@.len() == 0,
        r == Err::<(), RenameError>(RenameError::DuplicateName) <==> trimmed@.len() != 0 && exists|
            i: int,
        |
            0 <= i < others_lowered@.len() && (#[trigger] others_lowered@[i])@ == lowered@,
        r is Ok <==> trimmed@.len() != 0 && forall|i: int|
            0 <= i < others_lowered@.len() ==> (#[trigger] others_lowered@[i])@ != lowered@,
{
    if trimmed.as_str().unicode_len() == 0 {
        return Err(RenameError::EmptyName);
    }
    let mut i: usize = 0;
    while i < others_lowered.len()
        invariant
            i <= others_lowered@.len(),
            trimmed@.len() != 0,
            forall|j: int| 0 <= j < i ==> (#[trigger] others_lowered@[j])@ != lowered@,
        decreases others_lowered@.len() - i,
    {
        if others_lowered[i] == *lowered {
            assert(others_lowered@[i as int]@ == lowered@);
            return Err(RenameError::DuplicateName);
        }
        i = i + 1;
    }
    Ok(())
}

/// Checks a requested playlist name against the names of the other
/// playlists: the name is trimmed, must not be empty, and must differ from
/// every other name ignoring case. Returns the trimmed name.
pub fn validate_rename(new_name: &str, other_names: &Vec<String>) -> (r: Result<String, RenameError>)
    ensures
        r matches Ok(s) ==> s@ == trimmed_of(new_name@) && s@.len() != 0 && forall|i: int|
            0 <= i < other_names@.len() ==> lower_of((#[trigger] other_names@[i])@) != lower_of(s@),
        r == Err::<String, RenameError>(RenameError::EmptyName) <==> trimmed_of(new_name@).len() == 0,
        r == Err::<String, RenameError>(RenameError::DuplicateName) ==> exists|i: int|
            0 <= i < other_names@.len() && lower_of((#[trigger] other_names@[i])@) == lower_of(
                trimmed_of(new_name@),
            ),
{
    let trimmed = trim(new_name);
    let lowered = lowercase(trimmed.as_str());
    let mut others: Vec<String> = Vec::new();
    let mut i: usize = 0;
    while i < other_names.len()
        invariant
            i <= other_names@.len(),
            others@.len() == i,
            forall|j: int| 0 <= j < i ==> (#[trigger] others@[j])@ == lower_of(other_names@[j]@),
        decreases other_names@.len() - i,
    {
        others.push(lowercase(other_names[i].as_str()));
        i = i + 1;
    }
    match check_new_name(&trimmed, &lowered, &others) {
        Ok(()) => {
            assert forall|j: int| 0 <= j < other_names@.len() implies lower_of(
                (#[trigger] other_names@[j])@,
            ) != lower_of(trimmed@) by {
                assert(others@[j]@ != lowered@);
            }
            Ok(trimmed)
        },
        Err(e) => {
            if e == RenameError::DuplicateName {
                let ghost j = choose|j: int| 0 <= j < others@.len() && (#[trigger] others@[j])@ == lowered@;
                assert(lower_of(other_names@[j]@) == lower_of(trimmed_of(new_name@)));
            }
            Err(e)
        },
    }
}

/// The position of the first playlist named exactly `name`, if any.
pub fn find_playlist_by_name(names: &Vec<String>, name: &String) -> (r: Option<usize>)
    ensures
        r matches Some(i) ==> i < names@.len() && names@[i as int]@ == name@ && forall|j: int|
            0 <= j < i ==> (#[trigger] names@[j])@ != name@,
        r is None ==> forall|j: int| 0 <= j < names@.len() ==> (#[trigger] names@[j])@ != name@,
{
    let mut i: usize = 0;
    while i < names.len()
        invariant
            i <= names@.len(),
            forall|j: int| 0 <= j < i ==> (#[trigger] names@[j])@ != name@,
        decreases names@.len() - i,
    {
        if names[i] == *name {
            return Some(i);
        }
        i = i + 1;
    }
    None
}

} // verus!
