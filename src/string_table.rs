//! The deduplicating string pool: each distinct string is stored once and is
//! referred to by its position of insertion.
use vstd::prelude::*;
use vstd::utf8::*;

use crate::codec::{le16, lemma_le16_read, push_le16, read_le16};

verus! {

/// The UTF-8 bytes of a string.
pub open spec fn utf8_of(s: Seq<char>) -> Seq<u8> {
    encode_utf8(s)
}

/// Whether a string's UTF-8 form fits the pool's 16-bit length field.
pub open spec fn fits_entry(s: Seq<char>) -> bool {
    utf8_of(s).len() <= u16::MAX
}

/// One pool entry: a 16-bit byte length, then the UTF-8 bytes.
pub open spec fn entry_bytes(s: Seq<char>) -> Seq<u8> {
    le16(utf8_of(s).len() as u16) + utf8_of(s)
}

/// The bytes of a whole pool: its entries one after another.
pub open spec fn pool_bytes(pool: Seq<Seq<char>>) -> Seq<u8>
    decreases pool.len(),
{
    if pool.len() == 0 {
        Seq::empty()
    } else {
        pool_bytes(pool.drop_last()) + entry_bytes(pool.last())
    }
}

/// The strings held in a pool section, or `None` when the section is not a
/// sequence of complete, well-formed UTF-8 entries.
pub open spec fn parse_pool(b: Seq<u8>) -> Option<Seq<Seq<char>>>
    decreases b.len(),
{
    if b.len() == 0 {
        Some(Seq::empty())
    } else if b.len() < 2 {
        None
    } else {
        let n = read_le16(b, 0) as int;
        if 2 + n > b.len() || !valid_utf8(b.subrange(2, 2 + n)) {
            None
        } else {
            match parse_pool(b.subrange(2 + n, b.len() as int)) {
                Some(rest) => Some(seq![decode_utf8(b.subrange(2, 2 + n))] + rest),
                None => None,
            }
        }
    }
}

/// Whether `i` is the first position of `s` in `pool`.
pub open spec fn is_first_index(pool: Seq<Seq<char>>, s: Seq<char>, i: int) -> bool {
    &&& 0 <= i < pool.len()
    &&& pool[i] == s
    &&& forall|j: int| 0 <= j < i ==> pool[j] != s
}

/// What interning `s` into pool `before` does: a string already held keeps
/// the pool unchanged and gives its first id; a new string is appended and
/// gets the next id.
pub open spec fn intern_post(before: Seq<Seq<char>>, s: Seq<char>, after: Seq<Seq<char>>, id: int) -> bool {
    &&& before.contains(s) ==> after == before && is_first_index(before, s, id)
    &&& !before.contains(s) ==> after == before.push(s) && id == before.len()
    &&& is_first_index(after, s, id)
}

/// Interning is idempotent: interning the same string twice gives the same
/// id both times, the second call leaves the pool as the first left it,
/// and the pool grows by at most one string across both calls.
pub proof fn lemma_intern_idempotent(
    first_before: Seq<Seq<char>>,
    s: Seq<char>,
    first_after: Seq<Seq<char>>,
    id1: int,
    second_after: Seq<Seq<char>>,
    id2: int,
)
    requires
        intern_post(first_before, s, first_after, id1),
        intern_post(first_after, s, second_after, id2),
    ensures
        id1 == id2,
        second_after == first_after,
        second_after.len() <= first_before.len() + 1,
{
    assert(first_after[id1] == s);
    assert(first_after.contains(s));
    if id1 < id2 {
        assert(first_after[id1] != s);
    } else if id2 < id1 {
        assert(first_after[id2] != s);
    }
}

/// Append-only table of distinct strings.
#[derive(Clone, Debug)]
pub struct StringTable {
    strings: Vec<String>,
}

impl View for StringTable {
    type V = Seq<Seq<char>>;

    closed spec fn view(&self) -> Seq<Seq<char>> {
        Seq::new(self.strings@.len(), |i: int| self.strings@[i]@)
    }
}

impl StringTable {
    /// An empty pool.
    pub fn new() -> (r: Self)
        ensures
            r@ == Seq::<Seq<char>>::empty(),
    {
        let r = StringTable { strings: Vec::new() };
        assert(r@ =~= Seq::<Seq<char>>::empty());
        r
    }

    /// A pool holding `strings` in order, as read back from a file.
    pub fn from_vec(strings: Vec<String>) -> (r: Self)
        ensures
            r@ == Seq::new(strings@.len(), |i: int| strings@[i]@),
    {
        StringTable { strings }
    }

    /// Number of strings in the pool.
    pub fn len(&self) -> (r: usize)
        ensures
            r == self@.len(),
    {
        self.strings.len()
    }

    /// Whether the pool holds no string.
    pub fn is_empty(&self) -> (r: bool)
        ensures
            r == (self@.len() == 0),
    {
        self.strings.len() == 0
    }

    /// The string with id `id`, if there is one.
    pub fn get(&self, id: u32) -> (r: Option<&str>)
        ensures
            r is Some <==> id < self@.len(),
            r matches Some(s) ==> s@ == self@[id as int],
    {
        if (id as usize) < self.strings.len() {
            Some(self.strings[id as usize].as_str())
        } else {
            None
        }
    }

    /// Whether the string with id `id` is `s`.
    pub fn entry_is(&self, id: u32, s: &String) -> (r: bool)
        requires
            id < self@.len(),
        ensures
            r == (self@[id as int] == s@),
    {
        self.strings[id as usize] == *s
    }

    /// The id of `s` if the pool holds it, without changing the pool.
    pub fn get_or_peek(&self, s: &str) -> (r: Option<u32>)
        requires
            self@.len() <= u32::MAX,
        ensures
            r is Some <==> self@.contains(s@),
            r matches Some(i) ==> is_first_index(self@, s@, i as int),
    {
        let target = s.to_owned();
        let mut i: usize = 0;
        while i < self.strings.len()
            invariant
                i <= self.strings@.len(),
                self@.len() <= u32::MAX,
                target@ == s@,
                forall|j: int| 0 <= j < i ==> self@[j] != s@,
            decreases self.strings@.len() - i,
        {
            if self.strings[i] == target {
                assert(self@[i as int] == s@);
                return Some(i as u32);
            }
            i = i + 1;
        }
        assert(!self@.contains(s@)) by {
            if self@.contains(s@) {
                let k = choose|k: int| 0 <= k < self@.len() && self@[k] == s@;
                assert(self@[k] != s@);
            }
        }
        None
    }

    /// Returns the id of `s`, appending it first when the pool does not hold
    /// it yet. Interning a string already present leaves the pool unchanged.
    pub fn add(&mut self, s: &str) -> (r: u32)
        requires
            old(self)@.len() < u32::MAX,
        ensures
            intern_post(old(self)@, s@, final(self)@, r as int),
            old(self)@.no_duplicates() ==> final(self)@.no_duplicates(),
    {
        match self.get_or_peek(s) {
            Some(id) => id,
            None => {
                let id = self.strings.len() as u32;
                self.strings.push(s.to_owned());
                assert(self@ =~= old(self)@.push(s@));
                proof {
                    let before = old(self)@;
                    let after = self@;
                    if before.no_duplicates() {
                        assert forall|i: int, j: int|
                            0 <= i < after.len() && 0 <= j < after.len() && i != j implies after[i]
                            != after[j] by {
                            if i == before.len() && j < before.len() {
                                assert(after[j] == before[j]);
                            } else if j == before.len() && i < before.len() {
                                assert(after[i] == before[i]);
                            }
                        }
                    }
                }
                id
            },
        }
    }

    /// The pool's bytes: for each string, its 16-bit UTF-8 length and bytes.
    pub fn to_bytes(&self) -> (r: Vec<u8>)
        requires
            forall|i: int| 0 <= i < self@.len() ==> fits_entry(#[trigger] self@[i]),
        ensures
            r@ == pool_bytes(self@),
    {
        let mut bytes: Vec<u8> = Vec::new();
        let mut i: usize = 0;
        while i < self.strings.len()
            invariant
                i <= self@.len(),
                forall|k: int| 0 <= k < self@.len() ==> fits_entry(#[trigger] self@[k]),
                bytes@ == pool_bytes(self@.subrange(0, i as int)),
            decreases self@.len() - i,
        {
            let b = self.strings[i].as_str().as_bytes();
            assert(fits_entry(self@[i as int]));
            assert(b@ == utf8_of(self@[i as int]));
            push_le16(&mut bytes, b.len() as u16);
            let mut k: usize = 0;
            let ghost before = bytes@;
            while k < b.len()
                invariant
                    k <= b@.len(),
                    bytes@ == before + b@.subrange(0, k as int),
                decreases b@.len() - k,
            {
                bytes.push(b[k]);
                k = k + 1;
                assert(bytes@ =~= before + b@.subrange(0, k as int));
            }
            assert(b@.subrange(0, k as int) =~= b@);
            proof {
                let p = self@.subrange(0, i + 1);
                assert(p.drop_last() =~= self@.subrange(0, i as int));
                assert(p.last() == self@[i as int]);
            }
            i = i + 1;
            assert(bytes@ =~= pool_bytes(self@.subrange(0, i as int)));
        }
        assert(self@.subrange(0, i as int) =~= self@);
        bytes
    }
}

/// `pool_bytes` read from the front: the first entry, then the others.
pub proof fn lemma_pool_bytes_front(pool: Seq<Seq<char>>)
    requires
        pool.len() > 0,
    ensures
        pool_bytes(pool) == entry_bytes(pool[0]) + pool_bytes(pool.drop_first()),
    decreases pool.len(),
{
    if pool.len() == 1 {
        assert(pool.drop_last() =~= Seq::<Seq<char>>::empty());
        assert(pool.drop_first() =~= Seq::<Seq<char>>::empty());
        assert(pool_bytes(pool) =~= entry_bytes(pool[0]) + pool_bytes(pool.drop_first()));
    } else {
        lemma_pool_bytes_front(pool.drop_last());
        assert(pool.drop_last().drop_first() =~= pool.drop_first().drop_last());
        assert(pool.drop_first().last() == pool.last());
        assert(pool.drop_last()[0] == pool[0]);
        assert(pool_bytes(pool) =~= entry_bytes(pool[0]) + pool_bytes(pool.drop_first()));
    }
}

/// A pool written out parses back to the same strings, in the same order.
pub proof fn lemma_pool_round_trip(pool: Seq<Seq<char>>)
    requires
        forall|i: int| 0 <= i < pool.len() ==> fits_entry(#[trigger] pool[i]),
    ensures
        parse_pool(pool_bytes(pool)) == Some(pool),
    decreases pool.len(),
{
    if pool.len() == 0 {
        assert(pool =~= Seq::<Seq<char>>::empty());
    } else {
        lemma_pool_bytes_front(pool);
        let s = pool[0];
        let rest = pool.drop_first();
        assert forall|i: int| 0 <= i < rest.len() implies fits_entry(#[trigger] rest[i]) by {
            assert(rest[i] == pool[i + 1]);
        }
        lemma_pool_round_trip(rest);
        let b = pool_bytes(pool);
        let u = utf8_of(s);
        assert(fits_entry(pool[0]));
        let n = u.len() as int;
        assert(b == le16(n as u16) + u + pool_bytes(rest));
        assert(b.subrange(0, 2) =~= le16(n as u16));
        lemma_le16_read(b, 0, n as u16);
        assert(b.subrange(2, 2 + n) =~= u);
        assert(b.subrange(2 + n, b.len() as int) =~= pool_bytes(rest));
        encode_utf8_valid_utf8(s);
        encode_utf8_decode_utf8(s);
        assert(seq![s] + rest =~= pool);
    }
}

/// In a pool without duplicates a string is stored once: two ids holding
/// the same string are the same id, and every id is its string's first.
/// So rows that name the same string (an album title under two artists)
/// share one pool entry.
pub proof fn lemma_distinct_pool_shares(pool: Seq<Seq<char>>, i: int, j: int)
    requires
        pool.no_duplicates(),
        0 <= i < pool.len(),
        0 <= j < pool.len(),
        pool[i] == pool[j],
    ensures
        i == j,
        is_first_index(pool, pool[i], i),
{
    assert forall|k: int| 0 <= k < i implies pool[k] != pool[i] by {}
}

} // verus!
