//! Container byte format: a container is the concatenation of a bootstrap
//! program image, a fixed 16-byte framing marker, a 32-byte integrity digest,
//! and a compressed payload that runs to the end of the file. The bootstrap is
//! guaranteed marker-free by a build-time check, so the boundary is found by
//! scanning for the first occurrence of the marker.

use vstd::prelude::*;
use vstd::slice::slice_subrange;
use vstd::slice::slice_to_vec;

verus! {

/// Length in bytes of the framing marker.
pub const MARKER_LEN: usize = 16;

/// Length in bytes of the integrity digest stored after the marker.
pub const DIGEST_LEN: usize = 32;

/// The 16-byte framing marker, as a sequence: the ASCII bytes of
/// `DCMPRS_DATA_HERE`, chosen to be unlikely to occur inside a binary.
pub open spec fn marker_seq() -> Seq<u8> {
    seq![68u8, 67u8, 77u8, 80u8, 82u8, 83u8, 95u8, 68u8, 65u8, 84u8, 65u8, 95u8, 72u8, 69u8, 82u8, 69u8]
}

/// The marker occurs in `buf` starting exactly at offset `i`.
pub open spec fn is_marker_at(buf: Seq<u8>, i: int) -> bool {
    &&& 0 <= i
    &&& i + MARKER_LEN <= buf.len()
    &&& buf.subrange(i, i + MARKER_LEN) == marker_seq()
}

/// The marker occurs somewhere in `buf`.
pub open spec fn has_marker(buf: Seq<u8>) -> bool {
    exists|i: int| is_marker_at(buf, i)
}

/// Offset of the first marker occurrence at or after `i`, if any.
pub open spec fn first_marker_from(buf: Seq<u8>, i: int) -> Option<int>
    recommends
        0 <= i,
    decreases buf.len() - i,
{
    if i + MARKER_LEN > buf.len() {
        None
    } else if is_marker_at(buf, i) {
        Some(i)
    } else {
        first_marker_from(buf, i + 1)
    }
}

/// Offset of the first marker occurrence in `buf`, if any.
pub open spec fn first_marker(buf: Seq<u8>) -> Option<int> {
    first_marker_from(buf, 0)
}

/// What `first_marker_from` returns is the least marker offset at or after `i`.
pub proof fn lemma_first_marker_from_props(buf: Seq<u8>, i: int)
    requires
        0 <= i,
    ensures
        match first_marker_from(buf, i) {
            Some(m) => i <= m && is_marker_at(buf, m) && forall|j: int|
                i <= j < m ==> !is_marker_at(buf, j),
            None => forall|j: int| j >= i ==> !is_marker_at(buf, j),
        },
    decreases buf.len() - i,
{
    if i + MARKER_LEN > buf.len() {
        assert forall|j: int| j >= i implies !is_marker_at(buf, j) by {
            assert(j + MARKER_LEN > buf.len());
        }
    } else if is_marker_at(buf, i) {
    } else {
        lemma_first_marker_from_props(buf, i + 1);
    }
}

/// A marker at `m` with none before it (at or after `i`) is what
/// `first_marker_from(buf, i)` finds.
pub proof fn lemma_first_marker_from_found(buf: Seq<u8>, i: int, m: int)
    requires
        0 <= i <= m,
        is_marker_at(buf, m),
        forall|j: int| i <= j < m ==> !is_marker_at(buf, j),
    ensures
        first_marker_from(buf, i) == Some(m),
    decreases m - i,
{
    if i < m {
        lemma_first_marker_from_found(buf, i + 1, m);
    }
}

/// The first marker offset exists exactly when some marker occurrence does.
pub proof fn lemma_first_marker_exists(buf: Seq<u8>)
    ensures
        first_marker(buf) is Some <==> has_marker(buf),
        first_marker(buf) matches Some(m) ==> is_marker_at(buf, m) && forall|j: int|
            j < m ==> !is_marker_at(buf, j),
{
    lemma_first_marker_from_props(buf, 0);
    if first_marker(buf) is Some {
        assert(is_marker_at(buf, first_marker(buf)->0));
    }
    if has_marker(buf) {
        let w = choose|i: int| is_marker_at(buf, i);
        assert(is_marker_at(buf, w));
        assert(first_marker_from(buf, 0) is Some);
    }
}

/// The framing marker as bytes: the ASCII of `DCMPRS_DATA_HERE`.
pub fn marker_bytes() -> (m: Vec<u8>)
    ensures
        m@ == marker_seq(),
{
    let mut m: Vec<u8> = Vec::new();
    m.push(68);
    m.push(67);
    m.push(77);
    m.push(80);
    m.push(82);
    m.push(83);
    m.push(95);
    m.push(68);
    m.push(65);
    m.push(84);
    m.push(65);
    m.push(95);
    m.push(72);
    m.push(69);
    m.push(82);
    m.push(69);
    proof {
        assert(m@ =~= marker_seq());
    }
    m
}

/// Whether the marker occurs in `buffer` starting at offset `at`.
fn is_marker_at_offset(buffer: &[u8], at: usize) -> (r: bool)
    requires
        at + MARKER_LEN <= buffer@.len(),
    ensures
        r == is_marker_at(buffer@, at as int),
{
    let n = buffer.len();
    let marker = marker_bytes();
    let mut j: usize = 0;
    while j < MARKER_LEN
        invariant
            0 <= j <= MARKER_LEN,
            at + MARKER_LEN <= n,
            n == buffer@.len(),
            marker@ == marker_seq(),
            forall|k: int| 0 <= k < j ==> buffer@[at + k] == marker_seq()[k],
        decreases MARKER_LEN - j,
    {
        if buffer[at + j] != marker[j] {
            proof {
                assert(buffer@.subrange(at as int, at + MARKER_LEN)[j as int] != marker_seq()[j as int]);
            }
            return false;
        }
        j += 1;
    }
    proof {
        assert(buffer@.subrange(at as int, at + MARKER_LEN) =~= marker_seq());
    }
    true
}

/// Offset of the first occurrence of the framing marker in `buffer`, scanning
/// from the start, or `None` when the marker does not occur at all.
pub fn find_magic_header(buffer: &[u8]) -> (r: Option<usize>)
    ensures
        match r {
            Some(m) => first_marker(buffer@) == Some(m as int),
            None => first_marker(buffer@) is None,
        },
{
    let n = buffer.len();
    if n < MARKER_LEN {
        proof {
            lemma_first_marker_from_props(buffer@, 0);
        }
        return None;
    }
    let last = n - MARKER_LEN;
    let mut i: usize = 0;
    while i <= last
        invariant
            n == buffer@.len(),
            MARKER_LEN <= n,
            last == n - MARKER_LEN,
            0 <= i <= last + 1,
            forall|j: int| 0 <= j < i ==> !is_marker_at(buffer@, j),
        decreases last + 1 - i,
    {
        if is_marker_at_offset(buffer, i) {
            proof {
                lemma_first_marker_from_found(buffer@, 0, i as int);
            }
            return Some(i);
        }
        i += 1;
    }
    proof {
        lemma_first_marker_from_props(buffer@, 0);
        if first_marker(buffer@) is Some {
            let m = first_marker(buffer@)->0;
            assert(is_marker_at(buffer@, m));
            assert(false);
        }
    }
    None
}

/// A whole container: the bootstrap image, then the marker, then the digest,
/// then the compressed payload, in that order and nothing else.
pub open spec fn encode_spec(bootstrap: Seq<u8>, digest: Seq<u8>, payload: Seq<u8>) -> Seq<u8> {
    bootstrap + marker_seq() + digest + payload
}

/// Decoding `buf` succeeds: a marker occurs, and past the first occurrence
/// there is room for the digest and at least one payload byte.
pub open spec fn decode_ok(buf: Seq<u8>) -> bool {
    match first_marker(buf) {
        Some(m) => buf.len() > m + MARKER_LEN as int + DIGEST_LEN as int,
        None => false,
    }
}

/// The stored digest: the 32 bytes right after the first marker occurrence.
pub open spec fn decoded_digest(buf: Seq<u8>) -> Seq<u8>
    recommends
        decode_ok(buf),
{
    let m = first_marker(buf)->0;
    buf.subrange(m + MARKER_LEN as int, m + MARKER_LEN as int + DIGEST_LEN as int)
}

/// The compressed payload: everything after the stored digest.
pub open spec fn decoded_payload(buf: Seq<u8>) -> Seq<u8>
    recommends
        decode_ok(buf),
{
    let m = first_marker(buf)->0;
    buf.subrange(m + MARKER_LEN as int + DIGEST_LEN as int, buf.len() as int)
}

/// Why decoding a byte string is not accepting it as a container.
#[derive(Clone, Copy, Debug, PartialEq, Eq, Structural)]
pub enum FormatError {
    /// The marker occurs nowhere: the file is not a container at all.
    MarkerNotFound,
    /// A marker occurs, but the file ends inside or right after the trailer:
    /// no room for the digest and a payload.
    Truncated,
    /// The payload bytes are not one well-formed compressed stream.
    DecompressionFailed,
}

/// The two parts a container stores after its first marker.
#[derive(Debug, PartialEq, Eq)]
pub struct Decoded {
    /// The 32-byte integrity digest of the original uncompressed target.
    pub digest: Vec<u8>,
    /// The compressed payload, still compressed.
    pub compressed: Vec<u8>,
}

/// Assemble a container from its three parts.
pub fn encode(bootstrap: &[u8], digest: &[u8], payload: &[u8]) -> (out: Vec<u8>)
    requires
        digest@.len() == DIGEST_LEN,
    ensures
        out@ == encode_spec(bootstrap@, digest@, payload@),
{
    let mut out = slice_to_vec(bootstrap);
    let mut m = marker_bytes();
    out.append(&mut m);
    let mut d = slice_to_vec(digest);
    out.append(&mut d);
    let mut p = slice_to_vec(payload);
    out.append(&mut p);
    proof {
        assert(out@ =~= encode_spec(bootstrap@, digest@, payload@));
    }
    out
}

/// Split a container image into its stored digest and compressed payload,
/// scanning from the start for the first marker occurrence. The bootstrap in
/// front is trusted to be marker-free (a build-time check), so the first
/// occurrence is the true boundary; this is not re-verified here.
pub fn decode(image: &[u8]) -> (r: Result<Decoded, FormatError>)
    ensures
        r is Ok <==> decode_ok(image@),
        r matches Ok(d) ==> d.digest@ == decoded_digest(image@) && d.compressed@ == decoded_payload(
            image@,
        ),
        r == Err::<Decoded, FormatError>(FormatError::MarkerNotFound) <==> first_marker(image@) is None,
        r == Err::<Decoded, FormatError>(FormatError::Truncated) <==> (first_marker(image@) is Some
            && !decode_ok(image@)),
{
    let n = image.len();
    let m = match find_magic_header(image) {
        None => {
            return Err(FormatError::MarkerNotFound);
        },
        Some(m) => m,
    };
    proof {
        lemma_first_marker_from_props(image@, 0);
    }
    let data_start = m + MARKER_LEN;
    if n - data_start <= DIGEST_LEN {
        return Err(FormatError::Truncated);
    }
    let digest = slice_to_vec(slice_subrange(image, data_start, data_start + DIGEST_LEN));
    let compressed = slice_to_vec(slice_subrange(image, data_start + DIGEST_LEN, n));
    Ok(Decoded { digest, compressed })
}

/// The marker never matches itself shifted: no proper suffix of the marker is
/// also one of its prefixes. This is what keeps the first-occurrence search
/// unambiguous even straddling the boundary between a marker-free bootstrap
/// and the marker itself.
pub proof fn lemma_marker_has_no_border(k: int)
    requires
        1 <= k < MARKER_LEN,
    ensures
        marker_seq().subrange(k, MARKER_LEN as int) != marker_seq().subrange(
            0,
            MARKER_LEN - k,
        ),
{
    let a = marker_seq().subrange(k, MARKER_LEN as int);
    let b = marker_seq().subrange(0, MARKER_LEN - k);
    if a == b {
        if k == 7 {
            assert(a[1] == marker_seq()[8]);
            assert(b[1] == marker_seq()[1]);
            assert(marker_seq()[8] == 65);
            assert(marker_seq()[1] == 67);
        } else {
            assert(a[0] == marker_seq()[k]);
            assert(b[0] == marker_seq()[0]);
            assert(marker_seq()[0] == 68);
            if k == 1 {
                assert(marker_seq()[1] == 67);
            } else if k == 2 {
                assert(marker_seq()[2] == 77);
            } else if k == 3 {
                assert(marker_seq()[3] == 80);
            } else if k == 4 {
                assert(marker_seq()[4] == 82);
            } else if k == 5 {
                assert(marker_seq()[5] == 83);
            } else if k == 6 {
                assert(marker_seq()[6] == 95);
            } else if k == 8 {
                assert(marker_seq()[8] == 65);
            } else if k == 9 {
                assert(marker_seq()[9] == 84);
            } else if k == 10 {
                assert(marker_seq()[10] == 65);
            } else if k == 11 {
                assert(marker_seq()[11] == 95);
            } else if k == 12 {
                assert(marker_seq()[12] == 72);
            } else if k == 13 {
                assert(marker_seq()[13] == 69);
            } else if k == 14 {
                assert(marker_seq()[14] == 82);
            } else {
                assert(k == 15);
                assert(marker_seq()[15] == 69);
            }
        }
        assert(false);
    }
}

/// In a marker-free bootstrap followed by anything that starts with the
/// marker, no marker occurrence begins before the boundary.
pub proof fn lemma_no_marker_before_boundary(bootstrap: Seq<u8>, rest: Seq<u8>, i: int)
    requires
        !has_marker(bootstrap),
        rest.len() >= MARKER_LEN,
        rest.subrange(0, MARKER_LEN as int) == marker_seq(),
        0 <= i < bootstrap.len(),
    ensures
        !is_marker_at(bootstrap + rest, i),
{
    let c = bootstrap + rest;
    let ml = MARKER_LEN as int;
    if is_marker_at(c, i) {
        if i + ml <= bootstrap.len() {
            assert(bootstrap.subrange(i, i + ml) =~= c.subrange(i, i + ml));
            assert(is_marker_at(bootstrap, i));
        } else {
            let k = bootstrap.len() - i;
            assert(1 <= k < ml);
            assert forall|d: int| 0 <= d < ml - k implies marker_seq().subrange(k, ml)[d]
                == marker_seq().subrange(0, ml - k)[d] by {
                assert(c.subrange(i, i + ml) == marker_seq());
                assert(c.subrange(i, i + ml)[k + d] == c[i + k + d]);
                assert(c[bootstrap.len() + d] == rest[d]);
                assert(rest.subrange(0, ml)[d] == rest[d]);
            };
            assert(marker_seq().subrange(k, ml) =~= marker_seq().subrange(0, ml - k));
            lemma_marker_has_no_border(k);
        }
        assert(false);
    }
}

/// Container integrity at the format level: encoding with a marker-free
/// bootstrap and then decoding recovers exactly the digest and the payload
/// that went in, with the marker found exactly at the bootstrap boundary.
pub proof fn lemma_decode_encode(bootstrap: Seq<u8>, digest: Seq<u8>, payload: Seq<u8>)
    requires
        !has_marker(bootstrap),
        digest.len() == DIGEST_LEN,
        payload.len() >= 1,
    ensures
        ({
            let c = encode_spec(bootstrap, digest, payload);
            &&& first_marker(c) == Some(bootstrap.len() as int)
            &&& decode_ok(c)
            &&& decoded_digest(c) == digest
            &&& decoded_payload(c) == payload
        }),
{
    let c = encode_spec(bootstrap, digest, payload);
    let bl = bootstrap.len() as int;
    let ml = MARKER_LEN as int;
    let rest = marker_seq() + digest + payload;
    assert(c =~= bootstrap + rest);
    assert(rest.subrange(0, ml) =~= marker_seq());
    assert(c.subrange(bl, bl + ml) =~= marker_seq());
    assert(is_marker_at(c, bl));
    assert forall|j: int| 0 <= j < bl implies !is_marker_at(c, j) by {
        lemma_no_marker_before_boundary(bootstrap, rest, j);
    };
    lemma_first_marker_from_found(c, 0, bl);
    assert(decoded_digest(c) =~= digest);
    assert(decoded_payload(c) =~= payload);
}

/// Truncation: cutting a container anywhere before the end of its stored
/// digest leaves bytes that decoding must reject — with a truncated trailer
/// while the marker is still whole, with a missing marker once the cut
/// reaches into the marker itself. It never succeeds.
pub proof fn lemma_truncated_decode_fails(buf: Seq<u8>, n: int)
    requires
        first_marker(buf) is Some,
        0 <= n <= buf.len(),
        n <= first_marker(buf)->0 + MARKER_LEN as int + DIGEST_LEN as int,
    ensures
        ({
            let t = buf.subrange(0, n);
            let m = first_marker(buf)->0;
            &&& !decode_ok(t)
            &&& (n >= m + MARKER_LEN as int ==> first_marker(t) == first_marker(buf))
            &&& (n < m + MARKER_LEN as int ==> first_marker(t) is None)
        }),
{
    let t = buf.subrange(0, n);
    let m = first_marker(buf)->0;
    let ml = MARKER_LEN as int;
    lemma_first_marker_from_props(buf, 0);
    assert forall|j: int| is_marker_at(t, j) implies is_marker_at(buf, j) && j + ml <= n by {
        assert(t.subrange(j, j + ml) =~= buf.subrange(j, j + ml));
    };
    if n >= m + ml {
        assert(t.subrange(m, m + ml) =~= buf.subrange(m, m + ml));
        assert(is_marker_at(t, m));
        lemma_first_marker_from_found(t, 0, m);
    } else {
        lemma_first_marker_from_props(t, 0);
        if first_marker(t) is Some {
            let j = first_marker(t)->0;
            assert(is_marker_at(t, j));
            assert(j >= m);
            assert(false);
        }
    }
}

/// No-marker rejection: a byte string without any occurrence of the marker
/// cannot decode; `decode` reports exactly the marker-not-found error on it.
pub proof fn lemma_no_marker_decode_fails(buf: Seq<u8>)
    requires
        !has_marker(buf),
    ensures
        first_marker(buf) is None,
        !decode_ok(buf),
{
    lemma_first_marker_exists(buf);
}

/// Whether the framing marker occurs anywhere in `bytes`. A bootstrap image
/// must be marker-free, or the boundary search of decoding would be ambiguous;
/// the build step checks each embedded bootstrap with this predicate.
pub fn contains_marker(bytes: &[u8]) -> (r: bool)
    ensures
        r == has_marker(bytes@),
{
    proof {
        lemma_first_marker_exists(bytes@);
    }
    match find_magic_header(bytes) {
        Some(_) => true,
        None => false,
    }
}

} // verus!
