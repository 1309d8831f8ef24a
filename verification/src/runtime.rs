//! Self-extraction runtime logic: parse the bytes of the running container
//! image into the stored digest and the fully decompressed original program.
//! Reading the image, materializing a temporary executable, rewriting the
//! on-disk artifact, and the final process handoff are the caller's I/O; this
//! module decides exactly what those steps get.

use vstd::prelude::*;

use crate::codec::{decode, decode_ok, decoded_digest, decoded_payload, first_marker, Decoded,
    FormatError};
use crate::compress::{decomp_of, decompress_bytes};

verus! {

/// What self-extraction recovers from a container image.
#[derive(Debug, PartialEq, Eq)]
pub struct Extraction {
    /// The original target program, decompressed byte-for-byte.
    pub payload: Vec<u8>,
    /// The 32-byte digest stored in the container; checking it against the
    /// payload is the caller's policy.
    pub digest: Vec<u8>,
}

/// Parse the running image as a container and fully decompress its payload.
/// Each way the image can be rejected gets its own error, and an arbitrary
/// file never silently passes for a container.
pub fn extract(image: &[u8]) -> (r: Result<Extraction, FormatError>)
    ensures
        r is Ok <==> (decode_ok(image@) && decomp_of(decoded_payload(image@)) is Some),
        r matches Ok(e) ==> Some(e.payload@) == decomp_of(decoded_payload(image@)) && e.digest@
            == decoded_digest(image@),
        r == Err::<Extraction, FormatError>(FormatError::MarkerNotFound) <==> first_marker(image@) is None,
        r == Err::<Extraction, FormatError>(FormatError::Truncated) <==> (first_marker(image@) is Some
            && !decode_ok(image@)),
        r == Err::<Extraction, FormatError>(FormatError::DecompressionFailed) <==> (decode_ok(image@)
            && decomp_of(decoded_payload(image@)) is None),
{
    let parts: Decoded = match decode(image) {
        Err(e) => {
            return Err(e);
        },
        Ok(d) => d,
    };
    match decompress_bytes(parts.compressed.as_slice()) {
        None => Err(FormatError::DecompressionFailed),
        Some(p) => Ok(Extraction { payload: p, digest: parts.digest }),
    }
}

/// The argument list to hand to the launched program: everything the runtime
/// was invoked with except its own program name, in order and unchanged.
pub fn forwarded_args(args: Vec<String>) -> (r: Vec<String>)
    ensures
        args@.len() == 0 ==> r@ == args@,
        args@.len() > 0 ==> r@ == args@.subrange(1, args@.len() as int),
{
    let mut a = args;
    if a.len() > 0 {
        a.remove(0);
        proof {
            assert(a@ =~= args@.subrange(1, args@.len() as int));
        }
    }
    a
}

} // verus!
