use cmprs::codec::{contains_marker, decode, encode, find_magic_header, FormatError, DIGEST_LEN,
    MARKER_LEN};

const MARKER: &[u8; 16] = b"DCMPRS_DATA_HERE";

/// A deterministic pseudo-random byte stream that never contains the marker
/// (checked where it matters) and stands in for a bootstrap binary.
fn synthetic_bytes(len: usize, seed: u64) -> Vec<u8> {
    let mut out = Vec::with_capacity(len);
    let mut x = seed.wrapping_mul(6364136223846793005).wrapping_add(1442695040888963407);
    for _ in 0..len {
        x = x.wrapping_mul(6364136223846793005).wrapping_add(1442695040888963407);
        out.push((x >> 56) as u8);
    }
    out
}

fn sample_container() -> (Vec<u8>, Vec<u8>, Vec<u8>, Vec<u8>) {
    let bootstrap = synthetic_bytes(1000, 42);
    assert!(!contains_marker(&bootstrap));
    let digest = vec![7u8; DIGEST_LEN];
    let payload = synthetic_bytes(300, 7);
    let container = encode(&bootstrap, &digest, &payload);
    (container, bootstrap, digest, payload)
}

#[test]
fn marker_constants() {
    assert_eq!(MARKER_LEN, 16);
    assert_eq!(DIGEST_LEN, 32);
    assert_eq!(MARKER.len(), MARKER_LEN);
    assert_eq!(cmprs::codec::marker_bytes(), MARKER.to_vec());
}

#[test]
fn finds_first_of_two_markers() {
    let mut buf = vec![0u8; 10];
    buf.extend_from_slice(MARKER);
    buf.extend_from_slice(&[1, 2, 3]);
    buf.extend_from_slice(MARKER);
    assert_eq!(find_magic_header(&buf), Some(10));
}

#[test]
fn finds_marker_at_start_and_end() {
    let mut buf = MARKER.to_vec();
    buf.push(0);
    assert_eq!(find_magic_header(&buf), Some(0));

    let mut buf = vec![9u8; 33];
    buf.extend_from_slice(MARKER);
    assert_eq!(find_magic_header(&buf), Some(33));
}

#[test]
fn no_marker_in_plain_bytes() {
    assert_eq!(find_magic_header(&[]), None);
    assert_eq!(find_magic_header(&[0u8; 15]), None);
    assert_eq!(find_magic_header(&synthetic_bytes(4096, 3)), None);
    // a near miss: the marker with its last byte changed
    let mut near = MARKER.to_vec();
    near[15] = b'X';
    assert_eq!(find_magic_header(&near), None);
}

#[test]
fn marker_safety_of_synthetic_bootstrap() {
    // the build-time check: a bootstrap image must be marker-free
    let bootstrap = synthetic_bytes(100_000, 11);
    assert!(!contains_marker(&bootstrap));
    // and an image with the marker spliced in is caught
    let mut bad = bootstrap.clone();
    bad[50_000..50_016].copy_from_slice(MARKER);
    assert!(contains_marker(&bad));
}

#[test]
fn encode_layout_is_positional() {
    let (container, bootstrap, digest, payload) = sample_container();
    let b = bootstrap.len();
    assert_eq!(container.len(), b + 16 + 32 + payload.len());
    assert_eq!(&container[..b], &bootstrap[..]);
    assert_eq!(&container[b..b + 16], MARKER);
    assert_eq!(&container[b + 16..b + 48], &digest[..]);
    assert_eq!(&container[b + 48..], &payload[..]);
}

#[test]
fn decode_recovers_digest_and_payload() {
    let (container, _bootstrap, digest, payload) = sample_container();
    let parts = decode(&container).expect("a well-formed container must decode");
    assert_eq!(parts.digest, digest);
    assert_eq!(parts.compressed, payload);
}

#[test]
fn decode_rejects_missing_marker() {
    assert_eq!(decode(&[]), Err(FormatError::MarkerNotFound));
    assert_eq!(decode(&synthetic_bytes(2048, 5)), Err(FormatError::MarkerNotFound));
}

#[test]
fn decode_rejects_truncation_everywhere() {
    let (container, bootstrap, _digest, _payload) = sample_container();
    let m = bootstrap.len();
    // cut inside the digest or right at its end: the trailer is truncated
    for n in (m + 16)..=(m + 48) {
        assert_eq!(decode(&container[..n]), Err(FormatError::Truncated), "cut at {n}");
    }
    // cut inside the marker or earlier: no marker is left at all
    for n in [0, 1, m / 2, m, m + 1, m + 15] {
        assert_eq!(decode(&container[..n]), Err(FormatError::MarkerNotFound), "cut at {n}");
    }
    // one payload byte is enough again
    assert!(decode(&container[..m + 49]).is_ok());
}

#[test]
fn near_marker_at_the_boundary_is_not_a_marker() {
    // a bootstrap ending in a 15-byte prefix of the marker is still
    // marker-free, and the boundary search must not be fooled by the overlap
    let mut bootstrap = synthetic_bytes(100, 14);
    bootstrap.extend_from_slice(&MARKER[..15]);
    assert!(!contains_marker(&bootstrap));
    let digest = vec![1u8; 32];
    let payload = vec![2u8; 10];
    let container = encode(&bootstrap, &digest, &payload);
    assert_eq!(find_magic_header(&container), Some(bootstrap.len()));
    let parts = decode(&container).unwrap();
    assert_eq!(parts.digest, digest);
    assert_eq!(parts.compressed, payload);
}

#[test]
fn minimal_container_decodes() {
    // an empty bootstrap, the marker, a digest and one payload byte
    let container = encode(&[], &[3u8; 32], &[9]);
    assert_eq!(container.len(), 49);
    let parts = decode(&container).unwrap();
    assert_eq!(parts.digest, vec![3u8; 32]);
    assert_eq!(parts.compressed, vec![9u8]);
}

#[test]
fn decode_needs_a_payload_byte() {
    let bootstrap = synthetic_bytes(64, 1);
    let digest = vec![0u8; 32];
    let container = encode(&bootstrap, &digest, &[]);
    assert_eq!(decode(&container), Err(FormatError::Truncated));
}
