//! Integrity digest of the original target file: a 32-byte cryptographic hash,
//! stored in the container right after the framing marker. The hash itself is
//! computed by an outside library; this module gives its value a name,
//! `sha256_of`, and verifies the code around it.

use vstd::prelude::*;

verus! {

/// The SHA-256 digest of `data`: a function of the input bytes alone,
/// computed by the outside hashing library.
pub uninterp spec fn sha256_of(data: Seq<u8>) -> Seq<u8>;

/// Relies on `sha2::Sha256` through the `Digest` trait: the digest depends on
/// the input bytes alone and is always exactly 32 bytes long.
#[verifier::external_body]
fn sha256_raw(data: &[u8]) -> (r: Vec<u8>)
    ensures
        r@ == sha256_of(data@),
        r@.len() == 32,
{
    <sha2::Sha256 as sha2::Digest>::digest(data).to_vec()
}

/// The 32-byte SHA-256 digest of `data`.
pub fn sha256_digest(data: &[u8]) -> (r: Vec<u8>)
    ensures
        r@ == sha256_of(data@),
        r@.len() == 32,
{
    sha256_raw(data)
}

/// Whether two byte strings are equal.
fn bytes_eq(a: &[u8], b: &[u8]) -> (r: bool)
    ensures
        r == (a@ == b@),
{
    let n = a.len();
    if n != b.len() {
        return false;
    }
    let mut i: usize = 0;
    while i < n
        invariant
            n == a@.len(),
            n == b@.len(),
            0 <= i <= n,
            forall|k: int| 0 <= k < i ==> a@[k] == b@[k],
        decreases n - i,
    {
        if a[i] != b[i] {
            return false;
        }
        i += 1;
    }
    proof {
        assert(a@ =~= b@);
    }
    true
}

/// Whether `stored` is exactly the SHA-256 digest of `payload`. The container
/// format stores the digest of the uncompressed target; whether a mismatch
/// aborts or merely warns is the caller's policy, so this only reports it.
pub fn digest_matches(payload: &[u8], stored: &[u8]) -> (r: bool)
    ensures
        r == (sha256_of(payload@) == stored@),
{
    let h = sha256_raw(payload);
    bytes_eq(h.as_slice(), stored)
}

} // verus!
