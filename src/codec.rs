//! Little-endian encoding of the fixed-width integers used by every record.
use vstd::prelude::*;

verus! {

/// The two bytes of `x`, least significant first.
pub open spec fn le16(x: u16) -> Seq<u8> {
    seq![(x & 0xff) as u8, (x >> 8) as u8]
}

/// The four bytes of `x`, least significant first.
pub open spec fn le32(x: u32) -> Seq<u8> {
    seq![(x & 0xff) as u8, ((x >> 8) & 0xff) as u8, ((x >> 16) & 0xff) as u8, (x >> 24) as u8]
}

/// The `u16` stored little-endian at `b[at..at + 2]`.
pub open spec fn read_le16(b: Seq<u8>, at: int) -> u16 {
    ((b[at] as u16) | ((b[at + 1] as u16) << 8)) as u16
}

/// The `u32` stored little-endian at `b[at..at + 4]`.
pub open spec fn read_le32(b: Seq<u8>, at: int) -> u32 {
    ((b[at] as u32) | ((b[at + 1] as u32) << 8) | ((b[at + 2] as u32) << 16) | ((b[at + 3]
        as u32) << 24)) as u32
}

/// Reading back the two bytes written for `x` gives `x`.
pub proof fn lemma_le16_read(b: Seq<u8>, at: int, x: u16)
    requires
        0 <= at,
        at + 2 <= b.len(),
        b.subrange(at, at + 2) == le16(x),
    ensures
        read_le16(b, at) == x,
{
    let b0 = b[at];
    let b1 = b[at + 1];
    assert(b0 == b.subrange(at, at + 2)[0]);
    assert(b1 == b.subrange(at, at + 2)[1]);
    assert(((b0 as u16) | ((b1 as u16) << 8)) as u16 == x) by (bit_vector)
        requires
            b0 == (x & 0xff) as u8,
            b1 == (x >> 8) as u8,
    ;
}

/// Reading back the four bytes written for `x` gives `x`.
pub proof fn lemma_le32_read(b: Seq<u8>, at: int, x: u32)
    requires
        0 <= at,
        at + 4 <= b.len(),
        b.subrange(at, at + 4) == le32(x),
    ensures
        read_le32(b, at) == x,
{
    let b0 = b[at];
    let b1 = b[at + 1];
    let b2 = b[at + 2];
    let b3 = b[at + 3];
    assert(b0 == b.subrange(at, at + 4)[0]);
    assert(b1 == b.subrange(at, at + 4)[1]);
    assert(b2 == b.subrange(at, at + 4)[2]);
    assert(b3 == b.subrange(at, at + 4)[3]);
    assert(((b0 as u32) | ((b1 as u32) << 8) | ((b2 as u32) << 16) | ((b3 as u32) << 24)) as u32
        == x) by (bit_vector)
        requires
            b0 == (x & 0xff) as u8,
            b1 == ((x >> 8) & 0xff) as u8,
            b2 == ((x >> 16) & 0xff) as u8,
            b3 == (x >> 24) as u8,
    ;
}

/// Appends the little-endian bytes of `x`.
pub fn push_le16(out: &mut Vec<u8>, x: u16)
    ensures
        final(out)@ == old(out)@ + le16(x),
{
    out.push((x & 0xff) as u8);
    out.push((x >> 8) as u8);
    assert(final(out)@ =~= old(out)@ + le16(x));
}

/// Appends the little-endian bytes of `x`.
pub fn push_le32(out: &mut Vec<u8>, x: u32)
    ensures
        final(out)@ == old(out)@ + le32(x),
{
    out.push((x & 0xff) as u8);
    out.push(((x >> 8) & 0xff) as u8);
    out.push(((x >> 16) & 0xff) as u8);
    out.push((x >> 24) as u8);
    assert(final(out)@ =~= old(out)@ + le32(x));
}

/// The `u16` stored little-endian at `b[at..at + 2]`.
pub fn get_le16(b: &[u8], at: usize) -> (r: u16)
    requires
        at + 2 <= b@.len(),
    ensures
        r == read_le16(b@, at as int),
{
    ((b[at] as u16) | ((b[at + 1] as u16) << 8)) as u16
}

/// The `u32` stored little-endian at `b[at..at + 4]`.
pub fn get_le32(b: &[u8], at: usize) -> (r: u32)
    requires
        at + 4 <= b@.len(),
    ensures
        r == read_le32(b@, at as int),
{
    ((b[at] as u32) | ((b[at + 1] as u32) << 8) | ((b[at + 2] as u32) << 16) | ((b[at + 3]
        as u32) << 24)) as u32
}

} // verus!
