//! Producer pipeline: turn one target file into one container artifact. The
//! target's bytes are hashed and compressed, and the container is assembled as
//! bootstrap, marker, digest, payload — the positional order every writer of
//! the format must keep. Reading the target and writing the artifact are the
//! caller's I/O; this module computes the exact bytes to write.

use vstd::prelude::*;

use crate::codec::{decode_ok, decoded_digest, decoded_payload, encode, encode_spec, first_marker,
    has_marker};
use crate::compress::{comp_of, compress_bytes, decomp_of, MAX_LEVEL, MIN_LEVEL};
use crate::digest::{sha256_digest, sha256_of};
use crate::table::BootstrapTable;

verus! {

/// Why no container could be produced from a readable target.
#[derive(Clone, Copy, Debug, PartialEq, Eq, Structural)]
pub enum ProduceError {
    /// The compression encoder failed; the run aborts with no usable output.
    CompressionFailed,
}

/// Whether the permission bits `mode` carry any execute bit. Packing a
/// non-executable target still succeeds, but the caller warns, since it is
/// likely a user error.
pub fn mode_is_executable(mode: u32) -> (r: bool)
    ensures
        r == ((mode & 0o111) != 0),
{
    mode & 0o111 != 0
}

/// Build the container for `input`: its SHA-256 digest and its compression at
/// `level`, framed behind the selected bootstrap image. The selected image
/// must be marker-free — the build step that embeds each bootstrap checks
/// this — or the decoder's first-occurrence search would find a false
/// boundary. This succeeds exactly when the encoder compresses `input` to a
/// nonempty stream, and the result is then the one container holding that
/// stream behind `input`'s digest: it decodes, to `input`'s digest and to a
/// payload that decompresses to `input` exactly.
pub fn build_container(
    table: &BootstrapTable,
    want_universal: bool,
    input: &[u8],
    level: i32,
) -> (r: Result<Vec<u8>, ProduceError>)
    requires
        MIN_LEVEL <= level <= MAX_LEVEL,
        !has_marker(table.selected(want_universal)),
    ensures
        r is Ok <==> (comp_of(input@, level as int) matches Some(c) && c.len() > 0),
        r matches Ok(out) ==> {
            &&& out@ == encode_spec(
                table.selected(want_universal),
                sha256_of(input@),
                comp_of(input@, level as int)->0,
            )
            &&& first_marker(out@) == Some(table.selected(want_universal).len() as int)
            &&& decode_ok(out@)
            &&& decoded_digest(out@) == sha256_of(input@)
            &&& decomp_of(decoded_payload(out@)) == Some(input@)
            &&& out@.subrange(0, table.selected(want_universal).len() as int) == table.selected(
                want_universal,
            )
        },
{
    let bootstrap = table.select(want_universal);
    let digest = sha256_digest(input);
    let compressed = match compress_bytes(input, level) {
        None => {
            return Err(ProduceError::CompressionFailed);
        },
        Some(c) => c,
    };
    if compressed.len() == 0 {
        // A complete compressed stream is never empty; treat one as an
        // encoder failure rather than emit a container that cannot decode.
        return Err(ProduceError::CompressionFailed);
    }
    let out = encode(bootstrap.as_slice(), digest.as_slice(), compressed.as_slice());
    proof {
        crate::codec::lemma_decode_encode(bootstrap@, digest@, compressed@);
        assert(out@.subrange(0, bootstrap@.len() as int) =~= bootstrap@);
    }
    Ok(out)
}

} // verus!
