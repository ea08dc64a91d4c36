use blake2::{Blake2b512, Digest};
use ihop::header::{build_store_header, is_store_header, parse_store_header, HeaderError};

#[test]
fn header_layout() {
    let dict = vec![1u8, 2, 3];
    let h = build_store_header(&dict);
    assert_eq!(&h[0..6], b"IHOP1\0");
    assert_eq!(&h[6..14], &3u64.to_le_bytes());
    assert_eq!(&h[14..17], &[1, 2, 3]);
    let digest = Blake2b512::digest(&h[0..17]);
    assert_eq!(&h[17..], &digest[..]);
    assert_eq!(h.len(), 17 + 64);
}

#[test]
fn header_round_trip() {
    let dict: Vec<u8> = (0..200u32).map(|i| (i * 7) as u8).collect();
    let h = build_store_header(&dict);
    assert_eq!(parse_store_header(&h), Ok(dict));
}

#[test]
fn header_round_trip_empty_dictionary() {
    let h = build_store_header(&[]);
    assert_eq!(parse_store_header(&h), Ok(vec![]));
}

#[test]
fn header_flipped_dictionary_byte_fails() {
    let dict = vec![10u8, 20, 30, 40];
    let h = build_store_header(&dict);
    for i in 14..18 {
        let mut bad = h.clone();
        bad[i] ^= 0x01;
        assert_eq!(parse_store_header(&bad), Err(HeaderError::ChecksumMismatch));
    }
}

#[test]
fn header_bad_magic_and_truncated() {
    let h = build_store_header(&[5, 6, 7]);
    let mut bad = h.clone();
    bad[0] = b'X';
    assert_eq!(parse_store_header(&bad), Err(HeaderError::BadMagic));
    assert_eq!(parse_store_header(&h[0..3]), Err(HeaderError::BadMagic));
    assert_eq!(parse_store_header(&h[0..10]), Err(HeaderError::Truncated));
    assert_eq!(parse_store_header(&h[0..h.len() - 1]), Err(HeaderError::Truncated));
}

#[test]
fn store_header_detection() {
    assert!(is_store_header(b"IHOP1\0rest"));
    assert!(!is_store_header(b"IHOP2\0rest"));
    assert!(!is_store_header(b"IHOP"));
}
