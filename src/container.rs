//! The save container: a fixed header, then the version 16 record.
use vstd::prelude::*;
use vstd::utf8::encode_utf8;
use crate::bytes::{le_u32, le_u64, push_u32, push_u64, read_u32, read_u64, u32_le, u64_le};
use crate::pascal::{pascal_bytes, push_bytes, read_pascal_str, spec_pascal_at, write_pascal_str};

verus! {

/// Why a container could not be read.
#[derive(Debug, Clone, Copy, PartialEq, Eq, Structural)]
pub enum FormatError {
    BadSignature,
    Truncated,
    TrailingBytes,
    InvalidUtf8,
}

/// The magic bytes that open every save file.
pub open spec fn file_signature() -> Seq<u8> {
    seq![0x53u8, 0x47u8, 0x42u8, 0x31u8]
}

/// The header fields that follow the signature.
#[derive(Debug, Clone, Copy, PartialEq, Eq, Structural)]
pub struct VersionId {
    pub checksum: u32,
    pub version: u32,
}

/// Reads the header: the signature must match, and twelve bytes must be there.
pub open spec fn spec_header(d: Seq<u8>) -> Result<VersionId, FormatError> {
    if d.len() >= 4 && d.subrange(0, 4) != file_signature() {
        Err(FormatError::BadSignature)
    } else if d.len() < 12 {
        Err(FormatError::Truncated)
    } else {
        Ok(VersionId { checksum: le_u32(d.subrange(4, 8)), version: le_u32(d.subrange(8, 12)) })
    }
}

/// Reads the file header, giving it and the bytes after it.
pub fn load_version_id(data: &[u8]) -> (r: Result<(&[u8], VersionId), FormatError>)
    ensures
        match r {
            Ok((rest, id)) => spec_header(data@) == Ok::<_, FormatError>(id) && rest@
                == data@.subrange(12, data@.len() as int),
            Err(e) => spec_header(data@) == Err::<VersionId, _>(e),
        },
{
    let len = data.len();
    if len >= 4 {
        let sig_ok = data[0] == 0x53u8 && data[1] == 0x47u8 && data[2] == 0x42u8 && data[3]
            == 0x31u8;
        assert(sig_ok <==> data@.subrange(0, 4) =~= file_signature());
        if !sig_ok {
            return Err(FormatError::BadSignature);
        }
    }
    if len < 12 {
        return Err(FormatError::Truncated);
    }
    let checksum = read_u32(data, 4);
    let version = read_u32(data, 8);
    Ok((vstd::slice::slice_subrange(data, 12, len), VersionId { checksum, version }))
}

/// The version 16 record, as plain values.
pub struct Version16View {
    pub time: u64,
    pub location: Seq<char>,
    pub runs: u32,
    pub active_meta_points: u32,
    pub active_shrine_points: u32,
    pub god_mode_enabled: bool,
    pub hell_mode_enabled: bool,
    pub lua_keys: Seq<Seq<char>>,
    pub current_map_name: Seq<char>,
    pub start_next_map: Seq<char>,
    pub lua_state_compressed: Seq<u8>,
}

/// The record that follows the header in a version 16 save file.
#[derive(Debug)]
pub struct Version16 {
    pub time: u64,
    pub location: String,
    pub runs: u32,
    pub active_meta_points: u32,
    pub active_shrine_points: u32,
    pub god_mode_enabled: bool,
    pub hell_mode_enabled: bool,
    pub lua_keys: Vec<String>,
    pub current_map_name: String,
    pub start_next_map: String,
    /// The Lua state, compressed.
    pub lua_state_compressed: Vec<u8>,
}

/// The texts of a list of strings.
pub open spec fn texts(v: Seq<String>) -> Seq<Seq<char>> {
    v.map_values(|s: String| s@)
}

impl View for Version16 {
    type V = Version16View;

    open spec fn view(&self) -> Version16View {
        Version16View {
            time: self.time,
            location: self.location@,
            runs: self.runs,
            active_meta_points: self.active_meta_points,
            active_shrine_points: self.active_shrine_points,
            god_mode_enabled: self.god_mode_enabled,
            hell_mode_enabled: self.hell_mode_enabled,
            lua_keys: texts(self.lua_keys@),
            current_map_name: self.current_map_name@,
            start_next_map: self.start_next_map@,
            lua_state_compressed: self.lua_state_compressed@,
        }
    }
}

pub open spec fn spec_u32_at(d: Seq<u8>, pos: int) -> Result<(u32, int), FormatError> {
    if pos + 4 > d.len() {
        Err(FormatError::Truncated)
    } else {
        Ok((le_u32(d.subrange(pos, pos + 4)), pos + 4))
    }
}

pub open spec fn spec_u8_at(d: Seq<u8>, pos: int) -> Result<(u8, int), FormatError> {
    if pos + 1 > d.len() {
        Err(FormatError::Truncated)
    } else {
        Ok((d[pos], pos + 1))
    }
}

/// Reads `count` strings one after another from `pos`.
pub open spec fn spec_keys_at(d: Seq<u8>, pos: int, count: nat) -> Result<
    (Seq<Seq<char>>, int),
    FormatError,
>
    decreases count,
{
    if count == 0 {
        Ok((seq![], pos))
    } else {
        match spec_keys_at(d, pos, (count - 1) as nat) {
            Err(e) => Err(e),
            Ok((keys, p)) => match spec_pascal_at(d, p) {
                Err(e) => Err(e),
                Ok((s, q)) => Ok((keys.push(s), q)),
            },
        }
    }
}

/// Reads the final field: a byte count, then exactly the rest of the input.
pub open spec fn spec_blob_at(d: Seq<u8>, pos: int) -> Result<Seq<u8>, FormatError> {
    if pos + 4 > d.len() {
        Err(FormatError::Truncated)
    } else {
        let n = le_u32(d.subrange(pos, pos + 4)) as int;
        if pos + 4 + n > d.len() {
            Err(FormatError::Truncated)
        } else if pos + 4 + n < d.len() {
            Err(FormatError::TrailingBytes)
        } else {
            Ok(d.subrange(pos + 4, d.len() as int))
        }
    }
}

/// Reads a whole version 16 record, field by field in file order.
#[verifier::opaque]
pub open spec fn spec_record(d: Seq<u8>) -> Result<Version16View, FormatError> {
    if d.len() < 8 {
        Err(FormatError::Truncated)
    } else {
        let time = le_u64(d.subrange(0, 8));
        match spec_pascal_at(d, 8) {
            Err(e) => Err(e),
            Ok((location, p)) => if p + 14 > d.len() {
                Err(FormatError::Truncated)
            } else {
                let runs = le_u32(d.subrange(p, p + 4));
                let meta = le_u32(d.subrange(p + 4, p + 8));
                let shrine = le_u32(d.subrange(p + 8, p + 12));
                let god = d[p + 12] != 0;
                let hell = d[p + 13] != 0;
                match spec_u32_at(d, p + 14) {
                    Err(e) => Err(e),
                    Ok((count, p)) => match spec_keys_at(d, p, count as nat) {
                        Err(e) => Err(e),
                        Ok((keys, p)) => match spec_pascal_at(d, p) {
                            Err(e) => Err(e),
                            Ok((map, p)) => match spec_pascal_at(d, p) {
                                Err(e) => Err(e),
                                Ok((next, p)) => match spec_blob_at(d, p) {
                                    Err(e) => Err(e),
                                    Ok(blob) => Ok(
                                        Version16View {
                                            time,
                                            location,
                                            runs,
                                            active_meta_points: meta,
                                            active_shrine_points: shrine,
                                            god_mode_enabled: god,
                                            hell_mode_enabled: hell,
                                            lua_keys: keys,
                                            current_map_name: map,
                                            start_next_map: next,
                                            lua_state_compressed: blob,
                                        },
                                    ),
                                },
                            },
                        },
                    },
                }
            },
        }
    }
}

/// The encodings of a list of strings, one after another.
pub open spec fn keys_bytes(keys: Seq<Seq<char>>) -> Seq<u8>
    decreases keys.len(),
{
    if keys.len() == 0 {
        seq![]
    } else {
        keys_bytes(keys.drop_last()) + pascal_bytes(keys.last())
    }
}

/// The bytes of a record, field by field in file order.
pub open spec fn record_bytes(r: Version16View) -> Seq<u8> {
    u64_le(r.time) + pascal_bytes(r.location) + u32_le(r.runs) + u32_le(r.active_meta_points)
        + u32_le(r.active_shrine_points) + seq![
        if r.god_mode_enabled {
            1u8
        } else {
            0u8
        },
        if r.hell_mode_enabled {
            1u8
        } else {
            0u8
        },
    ] + u32_le(r.lua_keys.len() as u32) + keys_bytes(r.lua_keys) + pascal_bytes(
        r.current_map_name,
    ) + pascal_bytes(r.start_next_map) + u32_le(r.lua_state_compressed.len() as u32)
        + r.lua_state_compressed
}

/// The part of a file that the checksum covers: the version, then the record.
pub open spec fn checked_bytes(r: Version16View) -> Seq<u8> {
    u32_le(16) + record_bytes(r)
}

/// The Adler-32 checksum of a byte sequence.
pub uninterp spec fn adler32_of(b: Seq<u8>) -> u32;

/// The whole file: signature, checksum, version, record.
pub open spec fn file_bytes(r: Version16View) -> Seq<u8> {
    file_signature() + u32_le(adler32_of(checked_bytes(r))) + checked_bytes(r)
}

/// Every length that the file stores fits in its four-byte field.
pub open spec fn encodable(r: Version16View) -> bool {
    &&& encode_utf8(r.location).len() <= u32::MAX
    &&& r.lua_keys.len() <= u32::MAX
    &&& forall|i: int| 0 <= i < r.lua_keys.len() ==> encode_utf8(#[trigger] r.lua_keys[i]).len() <= u32::MAX
    &&& encode_utf8(r.current_map_name).len() <= u32::MAX
    &&& encode_utf8(r.start_next_map).len() <= u32::MAX
    &&& r.lua_state_compressed.len() <= u32::MAX
}

/// Relies on adler32::RollingAdler32::from_buffer and its hash: the Adler-32
/// checksum of the bytes.
#[verifier::external_body]
fn adler32_checksum(b: &[u8]) -> (r: u32)
    ensures
        r == adler32_of(b@),
{
    adler32::RollingAdler32::from_buffer(b).hash()
}

proof fn lemma_keys_err(d: Seq<u8>, pos: int, i: nat, count: nat)
    requires
        i <= count,
        spec_keys_at(d, pos, i) is Err,
    ensures
        spec_keys_at(d, pos, count) == spec_keys_at(d, pos, i),
    decreases count,
{
    if i < count {
        lemma_keys_err(d, pos, i, (count - 1) as nat);
    }
}

impl Version16 {
    /// Reads a record that fills `data` exactly.
    pub fn load(data: &[u8]) -> (r: Result<Version16, FormatError>)
        ensures
            match r {
                Ok(rec) => spec_record(data@) == Ok::<_, FormatError>(rec@),
                Err(e) => spec_record(data@) == Err::<Version16View, _>(e),
            },
    {
        reveal(spec_record);
        let len = data.len();
        if len < 8 {
            return Err(FormatError::Truncated);
        }
        let time = read_u64(data, 0);
        let (location, p0) = match read_pascal_str(data, 8) {
            Ok(x) => x,
            Err(e) => return Err(e),
        };
        if len - p0 < 14 {
            return Err(FormatError::Truncated);
        }
        let runs = read_u32(data, p0);
        let active_meta_points = read_u32(data, p0 + 4);
        let active_shrine_points = read_u32(data, p0 + 8);
        let god_mode_enabled = data[p0 + 12] != 0;
        let hell_mode_enabled = data[p0 + 13] != 0;
        if len - (p0 + 14) < 4 {
            return Err(FormatError::Truncated);
        }
        let count = read_u32(data, p0 + 14);
        let start = p0 + 18;
        let mut p = start;
        let mut lua_keys: Vec<String> = Vec::new();
        let mut i: u32 = 0;
        assert(texts(lua_keys@) =~= seq![]);
        while i < count
            invariant
                len == data@.len(),
                len >= 8,
                spec_pascal_at(data@, 8) == Ok::<_, FormatError>((location@, p0 as int)),
                p0 + 18 == start,
                start <= len,
                count == le_u32(data@.subrange(p0 + 14, p0 + 18)),
                start <= p <= len,
                i <= count,
                spec_keys_at(data@, start as int, i as nat) == Ok::<_, FormatError>(
                    (texts(lua_keys@), p as int),
                ),
            decreases count - i,
        {
            match read_pascal_str(data, p) {
                Ok((s, q)) => {
                    proof {
                        assert(texts(lua_keys@.push(s)) =~= texts(lua_keys@).push(s@));
                    }
                    lua_keys.push(s);
                    p = q;
                },
                Err(e) => {
                    proof {
                        reveal(spec_record);
                        assert(spec_keys_at(data@, start as int, (i + 1) as nat) == Err::<
                            (Seq<Seq<char>>, int),
                            FormatError,
                        >(e));
                        lemma_keys_err(data@, start as int, (i + 1) as nat, count as nat);
                    }
                    return Err(e);
                },
            }
            i += 1;
        }
        let (current_map_name, p) = match read_pascal_str(data, p) {
            Ok(x) => x,
            Err(e) => return Err(e),
        };
        let (start_next_map, p) = match read_pascal_str(data, p) {
            Ok(x) => x,
            Err(e) => return Err(e),
        };
        if len - p < 4 {
            return Err(FormatError::Truncated);
        }
        let n = read_u32(data, p) as usize;
        if len - p - 4 < n {
            return Err(FormatError::Truncated);
        }
        if len - p - 4 > n {
            return Err(FormatError::TrailingBytes);
        }
        let blob = vstd::slice::slice_to_vec(vstd::slice::slice_subrange(data, p + 4, len));
        let rec = Version16 {
            time,
            location,
            runs,
            active_meta_points,
            active_shrine_points,
            god_mode_enabled,
            hell_mode_enabled,
            lua_keys,
            current_map_name,
            start_next_map,
            lua_state_compressed: blob,
        };
        proof {
            assert(rec@ == spec_record(data@)->Ok_0);
        }
        Ok(rec)
    }
}


impl Version16 {
    /// A copy of the record.
    pub fn to_owned(&self) -> (r: Version16)
        ensures
            r@ == self@,
    {
        let mut lua_keys: Vec<String> = Vec::new();
        let mut i: usize = 0;
        while i < self.lua_keys.len()
            invariant
                i <= self.lua_keys@.len(),
                lua_keys@ =~= self.lua_keys@.take(i as int),
            decreases self.lua_keys@.len() - i,
        {
            lua_keys.push(self.lua_keys[i].clone());
            i += 1;
            assert(lua_keys@ =~= self.lua_keys@.take(i as int));
        }
        assert(lua_keys@ =~= self.lua_keys@);
        Version16 {
            time: self.time,
            location: self.location.clone(),
            runs: self.runs,
            active_meta_points: self.active_meta_points,
            active_shrine_points: self.active_shrine_points,
            god_mode_enabled: self.god_mode_enabled,
            hell_mode_enabled: self.hell_mode_enabled,
            lua_keys,
            current_map_name: self.current_map_name.clone(),
            start_next_map: self.start_next_map.clone(),
            lua_state_compressed: vstd::slice::slice_to_vec(self.lua_state_compressed.as_slice()),
        }
    }

    /// The whole save file for this record, with its checksum computed.
    #[verifier::rlimit(40)]
    pub fn to_bytes(&self) -> (r: Vec<u8>)
        requires
            encodable(self@),
        ensures
            r@ == file_bytes(self@),
    {
        let mut body: Vec<u8> = Vec::new();
        push_u32(&mut body, 16);
        push_u64(&mut body, self.time);
        write_pascal_str(&mut body, self.location.as_str());
        push_u32(&mut body, self.runs);
        push_u32(&mut body, self.active_meta_points);
        push_u32(&mut body, self.active_shrine_points);
        body.push(if self.god_mode_enabled { 1u8 } else { 0u8 });
        body.push(if self.hell_mode_enabled { 1u8 } else { 0u8 });
        push_u32(&mut body, self.lua_keys.len() as u32);
        let ghost prefix = body@;
        let ghost keys = texts(self.lua_keys@);
        let mut i: usize = 0;
        while i < self.lua_keys.len()
            invariant
                i <= self.lua_keys@.len(),
                keys == texts(self.lua_keys@),
                forall|j: int| 0 <= j < keys.len() ==> encode_utf8(#[trigger] keys[j]).len() <= u32::MAX,
                body@ == prefix + keys_bytes(keys.take(i as int)),
            decreases self.lua_keys@.len() - i,
        {
            assert(keys[i as int] == self.lua_keys@[i as int]@);
            write_pascal_str(&mut body, self.lua_keys[i].as_str());
            assert(keys.take(i + 1).drop_last() =~= keys.take(i as int));
            i += 1;
        }
        assert(keys.take(i as int) =~= keys);
        write_pascal_str(&mut body, self.current_map_name.as_str());
        write_pascal_str(&mut body, self.start_next_map.as_str());
        push_u32(&mut body, self.lua_state_compressed.len() as u32);
        push_bytes(&mut body, self.lua_state_compressed.as_slice());
        assert(body@ =~= checked_bytes(self@));
        let checksum = adler32_checksum(body.as_slice());
        let mut result: Vec<u8> = Vec::new();
        result.push(0x53u8);
        result.push(0x47u8);
        result.push(0x42u8);
        result.push(0x31u8);
        push_u32(&mut result, checksum);
        push_bytes(&mut result, body.as_slice());
        assert(result@ =~= file_bytes(self@));
        result
    }
}

/// The checksum field of a written file, bytes 4 to 8, holds the Adler-32
/// checksum of everything from byte 8 on.
pub proof fn lemma_checksum_covers_tail(r: Version16View)
    ensures
        file_bytes(r).len() >= 12,
        le_u32(file_bytes(r).subrange(4, 8)) == adler32_of(
            file_bytes(r).subrange(8, file_bytes(r).len() as int),
        ),
{
    let f = file_bytes(r);
    let c = adler32_of(checked_bytes(r));
    crate::bytes::lemma_u32_round_trip(c);
    crate::bytes::lemma_u32_round_trip(16);
    assert(f.subrange(4, 8) =~= u32_le(c));
    assert(f.subrange(8, f.len() as int) =~= checked_bytes(r));
}

/// Whether the two flag bytes of a record hold 0 or 1. Any other value reads
/// as true and is written back as 1.
pub open spec fn flags_canonical(d: Seq<u8>) -> bool {
    let p = 12 + le_u32(d.subrange(8, 12)) as int;
    d[p + 12] <= 1 && d[p + 13] <= 1
}

proof fn lemma_keys_inverse(d: Seq<u8>, pos: int, count: nat)
    requires
        0 <= pos <= d.len(),
        spec_keys_at(d, pos, count) is Ok,
    ensures
        pos <= spec_keys_at(d, pos, count)->Ok_0.1 <= d.len(),
        spec_keys_at(d, pos, count)->Ok_0.0.len() == count,
        d.subrange(pos, spec_keys_at(d, pos, count)->Ok_0.1) == keys_bytes(
            spec_keys_at(d, pos, count)->Ok_0.0,
        ),
        forall|i: int|
            0 <= i < count ==> encode_utf8(#[trigger] spec_keys_at(d, pos, count)->Ok_0.0[i]).len()
                <= u32::MAX,
    decreases count,
{
    if count == 0 {
        assert(d.subrange(pos, pos) =~= keys_bytes(seq![]));
    } else {
        lemma_keys_inverse(d, pos, (count - 1) as nat);
        let (ks, p) = spec_keys_at(d, pos, (count - 1) as nat)->Ok_0;
        crate::pascal::lemma_pascal_inverse(d, p);
        let (s, q) = spec_pascal_at(d, p)->Ok_0;
        let keys = ks.push(s);
        assert(keys.drop_last() =~= ks);
        assert(d.subrange(pos, q) =~= d.subrange(pos, p) + d.subrange(p, q));
        assert forall|i: int| 0 <= i < count implies encode_utf8(#[trigger] keys[i]).len()
            <= u32::MAX by {
            if i < count - 1 {
                assert(keys[i] == ks[i]);
            }
        }
    }
}

#[verifier::rlimit(60)]
proof fn lemma_record_inverse(d: Seq<u8>)
    requires
        spec_record(d) is Ok,
        flags_canonical(d),
    ensures
        record_bytes(spec_record(d)->Ok_0) == d,
        encodable(spec_record(d)->Ok_0),
{
    reveal(spec_record);
    let r = spec_record(d)->Ok_0;
    crate::bytes::lemma_le_u64_round_trip(d.subrange(0, 8));
    crate::pascal::lemma_pascal_inverse(d, 8);
    let p1 = spec_pascal_at(d, 8)->Ok_0.1;
    crate::bytes::lemma_le_u32_round_trip(d.subrange(p1, p1 + 4));
    crate::bytes::lemma_le_u32_round_trip(d.subrange(p1 + 4, p1 + 8));
    crate::bytes::lemma_le_u32_round_trip(d.subrange(p1 + 8, p1 + 12));
    crate::bytes::lemma_le_u32_round_trip(d.subrange(p1 + 14, p1 + 18));
    let count = le_u32(d.subrange(p1 + 14, p1 + 18));
    let k0 = p1 + 18;
    lemma_keys_inverse(d, k0, count as nat);
    let p2 = spec_keys_at(d, k0, count as nat)->Ok_0.1;
    crate::pascal::lemma_pascal_inverse(d, p2);
    let p3 = spec_pascal_at(d, p2)->Ok_0.1;
    crate::pascal::lemma_pascal_inverse(d, p3);
    let p4 = spec_pascal_at(d, p3)->Ok_0.1;
    crate::bytes::lemma_le_u32_round_trip(d.subrange(p4, p4 + 4));
    let flags = seq![
        if r.god_mode_enabled {
            1u8
        } else {
            0u8
        },
        if r.hell_mode_enabled {
            1u8
        } else {
            0u8
        },
    ];
    assert(flags =~= d.subrange(p1 + 12, p1 + 14));
    lemma_assemble(d, r, p1, k0, p2, p3, p4);
}

#[verifier::rlimit(40)]
proof fn lemma_assemble(d: Seq<u8>, r: Version16View, p1: int, k0: int, p2: int, p3: int, p4: int)
    requires
        8 <= p1,
        p1 + 18 == k0,
        k0 <= p2 <= p3 <= p4,
        p4 + 4 <= d.len(),
        d.subrange(0, 8) == u64_le(r.time),
        d.subrange(8, p1) == pascal_bytes(r.location),
        d.subrange(p1, p1 + 4) == u32_le(r.runs),
        d.subrange(p1 + 4, p1 + 8) == u32_le(r.active_meta_points),
        d.subrange(p1 + 8, p1 + 12) == u32_le(r.active_shrine_points),
        d.subrange(p1 + 12, p1 + 14) == seq![
            if r.god_mode_enabled {
                1u8
            } else {
                0u8
            },
            if r.hell_mode_enabled {
                1u8
            } else {
                0u8
            },
        ],
        d.subrange(p1 + 14, k0) == u32_le(r.lua_keys.len() as u32),
        d.subrange(k0, p2) == keys_bytes(r.lua_keys),
        d.subrange(p2, p3) == pascal_bytes(r.current_map_name),
        d.subrange(p3, p4) == pascal_bytes(r.start_next_map),
        d.subrange(p4, p4 + 4) == u32_le(r.lua_state_compressed.len() as u32),
        d.subrange(p4 + 4, d.len() as int) == r.lua_state_compressed,
    ensures
        record_bytes(r) == d,
{
    let s1 = d.subrange(0, 8) + d.subrange(8, p1);
    assert(s1 =~= d.subrange(0, p1));
    let s2 = s1 + d.subrange(p1, p1 + 4);
    assert(s2 =~= d.subrange(0, p1 + 4));
    let s3 = s2 + d.subrange(p1 + 4, p1 + 8);
    assert(s3 =~= d.subrange(0, p1 + 8));
    let s4 = s3 + d.subrange(p1 + 8, p1 + 12);
    assert(s4 =~= d.subrange(0, p1 + 12));
    let s5 = s4 + d.subrange(p1 + 12, p1 + 14);
    assert(s5 =~= d.subrange(0, p1 + 14));
    let s6 = s5 + d.subrange(p1 + 14, k0);
    assert(s6 =~= d.subrange(0, k0));
    let s7 = s6 + d.subrange(k0, p2);
    assert(s7 =~= d.subrange(0, p2));
    let s8 = s7 + d.subrange(p2, p3);
    assert(s8 =~= d.subrange(0, p3));
    let s9 = s8 + d.subrange(p3, p4);
    assert(s9 =~= d.subrange(0, p4));
    let s10 = s9 + d.subrange(p4, p4 + 4);
    assert(s10 =~= d.subrange(0, p4 + 4));
    let s11 = s10 + d.subrange(p4 + 4, d.len() as int);
    assert(s11 =~= d);
}

/// A well-formed save file is written back byte for byte: its header names
/// version 16 and holds the checksum of what follows it, its record reads
/// without error, and its two flag bytes are 0 or 1. Writing the record that
/// was read gives the file again, checksum included.
pub proof fn lemma_file_round_trip(bytes: Seq<u8>)
    requires
        spec_header(bytes) == Ok::<_, FormatError>(
            VersionId { checksum: adler32_of(bytes.subrange(8, bytes.len() as int)), version: 16 },
        ),
        spec_record(bytes.subrange(12, bytes.len() as int)) is Ok,
        flags_canonical(bytes.subrange(12, bytes.len() as int)),
    ensures
        encodable(spec_record(bytes.subrange(12, bytes.len() as int))->Ok_0),
        file_bytes(spec_record(bytes.subrange(12, bytes.len() as int))->Ok_0) == bytes,
{
    let body = bytes.subrange(12, bytes.len() as int);
    let r = spec_record(body)->Ok_0;
    lemma_record_inverse(body);
    crate::bytes::lemma_le_u32_round_trip(bytes.subrange(8, 12));
    crate::bytes::lemma_le_u32_round_trip(bytes.subrange(4, 8));
    assert(checked_bytes(r) =~= bytes.subrange(8, bytes.len() as int));
    assert(bytes.subrange(0, 4) =~= file_signature());
    assert(file_bytes(r) =~= bytes);
}

} // verus!
