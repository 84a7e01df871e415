//! Fixed-width little-endian integers.
use vstd::prelude::*;

verus! {

/// The four bytes of `x`, least significant first.
pub open spec fn u32_le(x: u32) -> Seq<u8> {
    seq![(x % 256) as u8, ((x / 256) % 256) as u8, ((x / 65536) % 256) as u8, (x / 16777216) as u8]
}

/// The eight bytes of `x`, least significant first.
pub open spec fn u64_le(x: u64) -> Seq<u8> {
    u32_le((x % 4294967296) as u32) + u32_le((x / 4294967296) as u32)
}

/// The integer that four bytes encode, least significant first.
pub open spec fn le_u32(b: Seq<u8>) -> u32 {
    (b[0] as int + b[1] as int * 256 + b[2] as int * 65536 + b[3] as int * 16777216) as u32
}

/// The integer that eight bytes encode, least significant first.
pub open spec fn le_u64(b: Seq<u8>) -> u64 {
    (le_u32(b.subrange(0, 4)) as int + le_u32(b.subrange(4, 8)) as int * 4294967296) as u64
}

/// Decoding the bytes of an integer gives it back.
pub proof fn lemma_u32_round_trip(x: u32)
    ensures
        u32_le(x).len() == 4,
        le_u32(u32_le(x)) == x,
{
}

/// Encoding the integer that four bytes hold gives the bytes back.
pub proof fn lemma_le_u32_round_trip(b: Seq<u8>)
    requires
        b.len() == 4,
    ensures
        u32_le(le_u32(b)) == b,
{
    let (b0, b1, b2, b3) = (b[0] as int, b[1] as int, b[2] as int, b[3] as int);
    let v = b0 + b1 * 256 + b2 * 65536 + b3 * 16777216;
    assert(v % 256 == b0 && (v / 256) % 256 == b1 && (v / 65536) % 256 == b2 && v / 16777216
        == b3) by (nonlinear_arith)
        requires
            0 <= b0 < 256,
            0 <= b1 < 256,
            0 <= b2 < 256,
            0 <= b3 < 256,
            v == b0 + b1 * 256 + b2 * 65536 + b3 * 16777216,
    ;
    assert(u32_le(le_u32(b)) =~= b);
}

/// Encoding the integer that eight bytes hold gives the bytes back.
pub proof fn lemma_le_u64_round_trip(b: Seq<u8>)
    requires
        b.len() == 8,
    ensures
        u64_le(le_u64(b)) == b,
{
    let lo = b.subrange(0, 4);
    let hi = b.subrange(4, 8);
    lemma_le_u32_round_trip(lo);
    lemma_le_u32_round_trip(hi);
    let x = le_u64(b);
    assert((x % 4294967296) as u32 == le_u32(lo));
    assert((x / 4294967296) as u32 == le_u32(hi));
    assert(u64_le(x) =~= b);
}

/// Appends the four little-endian bytes of `x`.
pub fn push_u32(out: &mut Vec<u8>, x: u32)
    ensures
        final(out)@ == old(out)@ + u32_le(x),
{
    out.push((x % 256) as u8);
    out.push(((x / 256) % 256) as u8);
    out.push(((x / 65536) % 256) as u8);
    out.push((x / 16777216) as u8);
    assert(final(out)@ =~= old(out)@ + u32_le(x));
}

/// Appends the eight little-endian bytes of `x`.
pub fn push_u64(out: &mut Vec<u8>, x: u64)
    ensures
        final(out)@ == old(out)@ + u64_le(x),
{
    push_u32(out, (x % 4294967296) as u32);
    push_u32(out, (x / 4294967296) as u32);
    assert(final(out)@ =~= old(out)@ + u64_le(x));
}

/// The integer in the four bytes at `pos`.
pub fn read_u32(d: &[u8], pos: usize) -> (r: u32)
    requires
        pos + 4 <= d@.len(),
    ensures
        r == le_u32(d@.subrange(pos as int, pos + 4)),
{
    d[pos] as u32 + d[pos + 1] as u32 * 256 + d[pos + 2] as u32 * 65536 + d[pos + 3] as u32
        * 16777216
}

/// The integer in the eight bytes at `pos`.
pub fn read_u64(d: &[u8], pos: usize) -> (r: u64)
    requires
        pos + 8 <= d@.len(),
    ensures
        r == le_u64(d@.subrange(pos as int, pos + 8)),
{
    assert(d@.len() == d.len());
    let lo = read_u32(d, pos);
    let hi = read_u32(d, pos + 4);
    assert(d@.subrange(pos as int, pos + 8).subrange(0, 4) =~= d@.subrange(pos as int, pos + 4));
    assert(d@.subrange(pos as int, pos + 8).subrange(4, 8) =~= d@.subrange(pos + 4, pos + 8));
    lo as u64 + hi as u64 * 4294967296
}

} // verus!
