//! Compression and hashing support.
//!
//! The replay engine treats compression and hashing as opaque outside
//! services: what they return is named, not restated, and everything the
//! engine proves about blobs flows through the round-trip guarantee stated
//! on the compression wrappers.

use vstd::prelude::*;

verus! {

/// What zstd decompression yields for a given compressed byte sequence:
/// `Some` of the original data for a well-formed frame, `None` where
/// decompression fails. Decompression is a function of the bytes alone.
pub uninterp spec fn zstd_decompress_of(data: Seq<u8>) -> Option<Seq<u8>>;

/// The 32-byte BLAKE3 digest of a byte sequence; a function of the bytes
/// alone.
pub uninterp spec fn blake3_of(data: Seq<u8>) -> Seq<u8>;

/// Relies on `zstd::bulk::compress`: a compressed frame, decompressed with
/// the same library, yields the original input back.
#[verifier::external_body]
fn zstd_compress_raw(data: &[u8], level: i32) -> (r: Result<Vec<u8>, String>)
    ensures
        (r matches Ok(c) ==> zstd_decompress_of(c@) == Some(data@)),
{
    zstd::bulk::compress(data, level).map_err(|e| format!("zstd error: {e}"))
}

/// Relies on `zstd::bulk::decompress`: on success the result is the full
/// decompressed frame, at most `capacity` bytes long; a frame that would
/// not fit is an error, never a truncation. A well-formed frame whose
/// content fits the capacity decompresses successfully (the only other
/// failure the library has on such input is failing to allocate its
/// decompression context).
#[verifier::external_body]
fn zstd_decompress_raw(data: &[u8], capacity: usize) -> (r: Result<Vec<u8>, String>)
    ensures
        (r matches Ok(d) ==> zstd_decompress_of(data@) == Some(d@) && d@.len() <= capacity),
        (zstd_decompress_of(data@) matches Some(d) && d.len() <= capacity ==> r is Ok),
{
    zstd::bulk::decompress(data, capacity).map_err(|e| format!("zstd error: {e}"))
}

/// Relies on `zstd::compression_level_range`: the accepted compression
/// levels form a nonempty range.
#[verifier::external_body]
fn zstd_level_range() -> (r: (i32, i32))
    ensures
        r.0 <= r.1,
{
    let range = zstd::compression_level_range();
    (*range.start(), *range.end())
}

/// Compresses `data`, clamping `compression_level` into the range the
/// library accepts.
pub(crate) fn compress_data(data: &[u8], compression_level: i32) -> (r: Result<Vec<u8>, String>)
    ensures
        (r matches Ok(c) ==> zstd_decompress_of(c@) == Some(data@)),
{
    let (min_level, max_level) = zstd_level_range();
    let level = if compression_level < min_level {
        min_level
    } else if compression_level > max_level {
        max_level
    } else {
        compression_level
    };
    zstd_compress_raw(data, level)
}

/// Decompresses `data`, which must decompress to exactly
/// `uncompressed_size` bytes; any other outcome is an error.
pub(crate) fn decompress_data(data: &[u8], uncompressed_size: usize) -> (r: Result<
    Vec<u8>,
    String,
>)
    ensures
        (r matches Ok(d) ==> zstd_decompress_of(data@) == Some(d@) && d@.len()
            == uncompressed_size),
        (zstd_decompress_of(data@) matches Some(d) && d.len() == uncompressed_size ==> r is Ok),
{
    let d = match zstd_decompress_raw(data, uncompressed_size) {
        Ok(d) => d,
        Err(e) => {
            return Err(e);
        },
    };
    if d.len() != uncompressed_size {
        return Err(String::from_str("uncompressed size is incorrect"));
    }
    Ok(d)
}

/// Relies on `blake3::hash`: the digest is 32 bytes and depends on the
/// input bytes alone.
#[verifier::external_body]
pub fn blake3_hash(data: &[u8]) -> (r: [u8; 32])
    ensures
        r@ == blake3_of(data@),
        r@.len() == 32,
{
    *blake3::hash(data).as_bytes()
}

} // verus!
