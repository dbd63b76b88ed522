use basespace_dl::etag::{s3_etag, verify_s3_etag, ONE_MEGABYTE};
use basespace_dl::Error;

const MB: usize = ONE_MEGABYTE as usize;

fn plain_md5_hex(data: &[u8]) -> String {
    format!("{:x}", md5::compute(data))
}

fn composite_hex(data: &[u8], part_size: usize) -> String {
    let mut digests: Vec<u8> = Vec::new();
    let mut parts = 0usize;
    for chunk in data.chunks(part_size) {
        digests.extend_from_slice(&md5::compute(chunk).0);
        parts += 1;
    }
    format!("{:x}-{}", md5::compute(&digests), parts)
}

#[test]
fn single_part_tag_is_plain_digest() {
    let data: Vec<u8> = b"hello world".to_vec();
    let tag = s3_etag(&data, 1024).expect("single-part tag");
    assert_eq!(tag, plain_md5_hex(&data));
}

#[test]
fn known_digests_match() {
    let empty: Vec<u8> = Vec::new();
    assert_eq!(
        s3_etag(&empty, 16).expect("tag of empty body"),
        "d41d8cd98f00b204e9800998ecf8427e"
    );
    let abc: Vec<u8> = b"abc".to_vec();
    assert_eq!(
        s3_etag(&abc, 16).expect("tag of abc"),
        "900150983cd24fb0d6963f7d28e17f72"
    );
}

#[test]
fn multi_part_tag_matches_composite_scheme() {
    let data: Vec<u8> = (0..3 * MB).map(|i| (i % 251) as u8).collect();
    let tag = s3_etag(&data, 2 * MB).expect("multi-part tag");
    assert_eq!(tag, composite_hex(&data, 2 * MB));
    assert!(tag.ends_with("-2"));
}

#[test]
fn zero_part_size_is_refused_for_nonempty_body() {
    let data: Vec<u8> = b"abc".to_vec();
    assert!(matches!(s3_etag(&data, 0), Err(Error::InvalidTag)));
}

#[test]
fn verify_accepts_plain_digest() {
    let data: Vec<u8> = b"some downloaded content".to_vec();
    let tag = plain_md5_hex(&data);
    assert!(matches!(verify_s3_etag(&data, &tag), Ok(true)));
}

#[test]
fn verify_rejects_wrong_plain_digest() {
    let data: Vec<u8> = b"some downloaded content".to_vec();
    let tag = plain_md5_hex(b"different content");
    assert!(matches!(verify_s3_etag(&data, &tag), Ok(false)));
}

#[test]
fn verify_round_trips_composite_tag() {
    // 3 MiB in two parts: the heuristic derives ceil(3 MiB / 2) rounded
    // up to a whole megabyte, which recovers the original 2 MiB parts.
    let data: Vec<u8> = (0..3 * MB).map(|i| (i % 241) as u8).collect();
    let tag = composite_hex(&data, 2 * MB);
    assert!(matches!(verify_s3_etag(&data, &tag), Ok(true)));
}

#[test]
fn verify_rejects_corrupted_body_against_composite_tag() {
    let data: Vec<u8> = (0..3 * MB).map(|i| (i % 241) as u8).collect();
    let tag = composite_hex(&data, 2 * MB);
    let mut corrupted = data.clone();
    corrupted[0] ^= 1;
    assert!(matches!(verify_s3_etag(&corrupted, &tag), Ok(false)));
}

#[test]
fn verify_refuses_malformed_part_counts() {
    let data: Vec<u8> = b"abc".to_vec();
    let digest = plain_md5_hex(&data);
    assert!(matches!(
        verify_s3_etag(&data, &format!("{}-", digest)),
        Err(Error::InvalidTag)
    ));
    assert!(matches!(
        verify_s3_etag(&data, &format!("{}-12x", digest)),
        Err(Error::InvalidTag)
    ));
    assert!(matches!(
        verify_s3_etag(&data, &format!("{}-0", digest)),
        Err(Error::InvalidTag)
    ));
}

#[test]
fn verify_refuses_tag_it_cannot_recompute() {
    // A tiny body cannot split into two whole-megabyte parts.
    let data: Vec<u8> = b"abc".to_vec();
    let tag = format!("{}-2", plain_md5_hex(&data));
    assert!(matches!(verify_s3_etag(&data, &tag), Err(Error::InvalidTag)));
}
