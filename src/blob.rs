//! The compressed Lua state inside a record.
use vstd::prelude::*;
use crate::container::{Version16, Version16View};

verus! {

/// How many bytes the Lua state of a version 16 record holds once decompressed.
pub const SAV16_UNCOMPRESSED_SIZE: usize = 9388032;

/// Why the Lua state could not be recovered.
#[derive(Debug, Clone, Copy, PartialEq, Eq, Structural)]
pub enum DecodeError {
    Decompression,
}

/// Blobs from this length on are refused before decoding: past it the LZ4
/// decoder's running sum of length bytes could overflow. A blob that decodes
/// to a version 16 state is far shorter.
pub const MAX_BLOB_LEN: usize = 16843009;

/// The LZ4 block encoding of a byte sequence.
pub uninterp spec fn lz4_block_of(b: Seq<u8>) -> Seq<u8>;

/// What decoding an LZ4 block gives when exactly `size` bytes are expected:
/// the bytes, or nothing when the block is corrupt or decodes to another length.
pub uninterp spec fn lz4_decoded(b: Seq<u8>, size: nat) -> Option<Seq<u8>>;

/// Relies on lz4_flex::block::compress: the LZ4 block encoding of the bytes,
/// which its decoder turns back into those bytes.
#[verifier::external_body]
fn lz4_compress(b: &[u8]) -> (r: Vec<u8>)
    ensures
        r@ == lz4_block_of(b@),
        lz4_decoded(r@, b@.len()) == Some(b@),
{
    lz4_flex::block::compress(b)
}

/// Relies on lz4_flex::block::decompress, built with its `checked-decode`
/// feature so that corrupt input gives an error: it succeeds only when the
/// output is exactly `size` bytes long. The length bound keeps its `u32` sum
/// of length bytes from overflowing.
#[verifier::external_body]
fn lz4_decompress(b: &[u8], size: usize) -> (r: Option<Vec<u8>>)
    requires
        b@.len() < MAX_BLOB_LEN,
    ensures
        r is Some <==> lz4_decoded(b@, size as nat) is Some,
        r matches Some(v) ==> lz4_decoded(b@, size as nat) == Some(v@) && v@.len() == size,
{
    match lz4_flex::block::decompress(b, size) {
        Ok(v) => Some(v),
        Err(_) => None,
    }
}

/// Decompresses `blob`, which must decode to exactly `size` bytes. A blob of
/// `MAX_BLOB_LEN` bytes or more is a decompression error.
pub fn decompress_blob(blob: &[u8], size: usize) -> (r: Result<Vec<u8>, DecodeError>)
    ensures
        r is Ok <==> blob@.len() < MAX_BLOB_LEN && lz4_decoded(blob@, size as nat) is Some,
        r matches Ok(v) ==> lz4_decoded(blob@, size as nat) == Some(v@) && v@.len() == size,
        r is Err ==> r == Err::<Vec<u8>, _>(DecodeError::Decompression),
{
    if blob.len() >= MAX_BLOB_LEN {
        return Err(DecodeError::Decompression);
    }
    match lz4_decompress(blob, size) {
        Some(v) => Ok(v),
        None => Err(DecodeError::Decompression),
    }
}

/// Compresses `bytes` into a blob that decodes back to them.
pub fn compress_blob(bytes: &[u8]) -> (r: Vec<u8>)
    ensures
        r@ == lz4_block_of(bytes@),
        lz4_decoded(r@, bytes@.len()) == Some(bytes@),
{
    lz4_compress(bytes)
}

impl Version16 {
    /// The serialized Lua state, decompressed.
    pub fn decompress_lua_state(&self) -> (r: Result<Vec<u8>, DecodeError>)
        ensures
            r is Ok <==> self.lua_state_compressed@.len() < MAX_BLOB_LEN && lz4_decoded(
                self.lua_state_compressed@,
                SAV16_UNCOMPRESSED_SIZE as nat,
            ) is Some,
            r matches Ok(v) ==> lz4_decoded(
                self.lua_state_compressed@,
                SAV16_UNCOMPRESSED_SIZE as nat,
            ) == Some(v@) && v@.len() == SAV16_UNCOMPRESSED_SIZE,
            r is Err ==> r == Err::<Vec<u8>, _>(DecodeError::Decompression),
    {
        decompress_blob(self.lua_state_compressed.as_slice(), SAV16_UNCOMPRESSED_SIZE)
    }

    /// Replaces the Lua state with `state`, compressed; no other field changes.
    pub fn set_lua_state(&mut self, state: &[u8])
        ensures
            lz4_decoded(final(self).lua_state_compressed@, state@.len()) == Some(state@),
            final(self)@ == (Version16View {
                lua_state_compressed: lz4_block_of(state@),
                ..old(self)@
            }),
    {
        let compressed = compress_blob(state);
        self.lua_state_compressed = compressed;
    }
}

} // verus!
