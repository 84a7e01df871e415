//! Length-prefixed UTF-8 strings: a four-byte little-endian byte count, then the bytes.
use vstd::prelude::*;
use vstd::utf8::{decode_utf8, encode_utf8, valid_utf8};
use crate::bytes::{le_u32, read_u32, u32_le, push_u32};
use crate::container::FormatError;

verus! {

/// The encoding of a string: its UTF-8 byte count, then its UTF-8 bytes.
pub open spec fn pascal_bytes(s: Seq<char>) -> Seq<u8> {
    u32_le(encode_utf8(s).len() as u32) + encode_utf8(s)
}

/// Reads the string at `pos`: its text and the position after it.
pub open spec fn spec_pascal_at(d: Seq<u8>, pos: int) -> Result<(Seq<char>, int), FormatError> {
    if pos + 4 > d.len() {
        Err(FormatError::Truncated)
    } else {
        let n = le_u32(d.subrange(pos, pos + 4)) as int;
        let body = d.subrange(pos + 4, pos + 4 + n);
        if pos + 4 + n > d.len() {
            Err(FormatError::Truncated)
        } else if !valid_utf8(body) {
            Err(FormatError::InvalidUtf8)
        } else {
            Ok((decode_utf8(body), pos + 4 + n))
        }
    }
}

/// Relies on std::str::from_utf8: it accepts exactly the valid UTF-8 byte
/// sequences, and the text it gives is those bytes decoded.
#[verifier::external_body]
fn utf8_text(b: &[u8]) -> (r: Option<String>)
    ensures
        r is Some <==> valid_utf8(b@),
        r is Some ==> r->Some_0@ == decode_utf8(b@),
{
    match std::str::from_utf8(b) {
        Ok(s) => Some(s.to_owned()),
        Err(_) => None,
    }
}

/// Appends every byte of `b`.
pub fn push_bytes(out: &mut Vec<u8>, b: &[u8])
    ensures
        final(out)@ == old(out)@ + b@,
{
    let mut i: usize = 0;
    while i < b.len()
        invariant
            i <= b@.len(),
            out@ == old(out)@ + b@.subrange(0, i as int),
        decreases b@.len() - i,
    {
        out.push(b[i]);
        i += 1;
        assert(out@ =~= old(out)@ + b@.subrange(0, i as int));
    }
    assert(b@.subrange(0, i as int) =~= b@);
}

/// Appends `string` as a length-prefixed string.
pub fn write_pascal_str(result: &mut Vec<u8>, string: &str)
    requires
        encode_utf8(string@).len() <= u32::MAX,
    ensures
        final(result)@ == old(result)@ + pascal_bytes(string@),
{
    let bytes = string.as_bytes();
    push_u32(result, bytes.len() as u32);
    push_bytes(result, bytes);
    assert(final(result)@ =~= old(result)@ + pascal_bytes(string@));
}

/// Reads the length-prefixed string at `pos`, giving its text and the position
/// after it.
pub fn read_pascal_str(data: &[u8], pos: usize) -> (r: Result<(String, usize), FormatError>)
    requires
        pos <= data@.len(),
    ensures
        match r {
            Ok((s, q)) => spec_pascal_at(data@, pos as int) == Ok::<_, FormatError>((s@, q as int)),
            Err(e) => spec_pascal_at(data@, pos as int) == Err::<(Seq<char>, int), _>(e),
        },
{
    let len = data.len();
    if len - pos < 4 {
        return Err(FormatError::Truncated);
    }
    let n = read_u32(data, pos) as usize;
    if len - pos - 4 < n {
        return Err(FormatError::Truncated);
    }
    let body = vstd::slice::slice_subrange(data, pos + 4, pos + 4 + n);
    match utf8_text(body) {
        Some(s) => Ok((s, pos + 4 + n)),
        None => Err(FormatError::InvalidUtf8),
    }
}

/// Reading a written string gives it back, and stops where it ends.
pub proof fn lemma_pascal_round_trip(s: Seq<char>, rest: Seq<u8>)
    requires
        encode_utf8(s).len() <= u32::MAX,
    ensures
        spec_pascal_at(pascal_bytes(s) + rest, 0) == Ok::<_, FormatError>(
            (s, pascal_bytes(s).len() as int),
        ),
{
    let e = encode_utf8(s);
    let d = pascal_bytes(s) + rest;
    crate::bytes::lemma_u32_round_trip(e.len() as u32);
    assert(d.subrange(0, 4) =~= u32_le(e.len() as u32));
    assert(d.subrange(4, 4 + e.len() as int) =~= e);
    vstd::utf8::encode_utf8_valid_utf8(s);
    vstd::utf8::encode_utf8_decode_utf8(s);
}

/// A string that reads successfully was written in exactly the bytes it spans.
pub proof fn lemma_pascal_inverse(d: Seq<u8>, pos: int)
    requires
        0 <= pos,
        spec_pascal_at(d, pos) is Ok,
    ensures
        pos <= spec_pascal_at(d, pos)->Ok_0.1 <= d.len(),
        d.subrange(pos, spec_pascal_at(d, pos)->Ok_0.1) == pascal_bytes(spec_pascal_at(d, pos)->Ok_0.0),
        encode_utf8(spec_pascal_at(d, pos)->Ok_0.0).len() <= u32::MAX,
{
    let head = d.subrange(pos, pos + 4);
    let n = le_u32(head) as int;
    let body = d.subrange(pos + 4, pos + 4 + n);
    crate::bytes::lemma_le_u32_round_trip(head);
    vstd::utf8::decode_utf8_encode_utf8(body);
    assert(d.subrange(pos, pos + 4 + n) =~= head + body);
}

} // verus!
