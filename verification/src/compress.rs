//! Compression of the target file into the container's payload, and its
//! inverse. The payload is a self-terminating zstd frame, produced and
//! consumed by an outside library; what decompression returns for given bytes
//! is named `decomp_of`, and the producer's compressor is trusted to emit
//! bytes whose decompression is exactly its input.

use vstd::prelude::*;

verus! {

/// Lowest compression level the producer accepts.
pub const MIN_LEVEL: i32 = 1;

/// Highest compression level the producer accepts.
pub const MAX_LEVEL: i32 = 22;

/// What decompressing the byte string `c` yields: `Some(p)` when `c` is one
/// complete, well-formed compressed stream whose content is `p`, `None` when
/// decompression of `c` fails. A function of the input bytes alone.
pub uninterp spec fn decomp_of(c: Seq<u8>) -> Option<Seq<u8>>;

/// What compressing the byte string `data` at `level` yields: `Some(c)` with
/// the compressed stream on success, `None` when the encoder fails. A
/// function of the input bytes and the level alone.
pub uninterp spec fn comp_of(data: Seq<u8>, level: int) -> Option<Seq<u8>>;

/// Relies on `zstd::stream::encode_all`: success and output are a function of
/// the input bytes and the level alone, which is what `comp_of` names; on
/// success the result is a complete zstd frame, and decompressing it yields
/// exactly the input bytes.
#[verifier::external_body]
fn zstd_compress(data: &[u8], level: i32) -> (r: Option<Vec<u8>>)
    ensures
        r is Some <==> comp_of(data@, level as int) is Some,
        r matches Some(c) ==> Some(c@) == comp_of(data@, level as int),
        r matches Some(c) ==> decomp_of(c@) == Some(data@),
{
    match zstd::stream::encode_all(data, level) {
        Ok(c) => Some(c),
        Err(_) => None,
    }
}

/// Relies on `zstd::stream::decode_all`: success and output are a function of
/// the input bytes alone, which is what `decomp_of` names.
#[verifier::external_body]
fn zstd_decompress(data: &[u8]) -> (r: Option<Vec<u8>>)
    ensures
        r matches Some(p) ==> decomp_of(data@) == Some(p@),
        r is None ==> decomp_of(data@) is None,
{
    match zstd::stream::decode_all(data) {
        Ok(p) => Some(p),
        Err(_) => None,
    }
}

/// Compress `data` at the given level. Success is decided by the encoder for
/// these inputs and nothing else; on success the result is that stream, and
/// it decompresses to exactly `data`.
pub fn compress_bytes(data: &[u8], level: i32) -> (r: Option<Vec<u8>>)
    requires
        MIN_LEVEL <= level <= MAX_LEVEL,
    ensures
        r is Some <==> comp_of(data@, level as int) is Some,
        r matches Some(c) ==> Some(c@) == comp_of(data@, level as int),
        r matches Some(c) ==> decomp_of(c@) == Some(data@),
{
    zstd_compress(data, level)
}

/// Decompress one complete compressed stream. Returns `Some` exactly on the
/// byte strings that are well-formed streams, with their full content.
pub fn decompress_bytes(data: &[u8]) -> (r: Option<Vec<u8>>)
    ensures
        r is Some <==> decomp_of(data@) is Some,
        r matches Some(p) ==> Some(p@) == decomp_of(data@),
{
    zstd_decompress(data)
}

} // verus!
