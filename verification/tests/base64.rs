use voxel_lab::base64::{decode, encode};

#[test]
fn round_trips_all_remainders() {
    for bytes in [
        &b""[..],
        b"f",
        b"fo",
        b"foo",
        b"foob",
        b"fooba",
        b"foobar",
        &[0u8, 159, 146, 150, 255, 0, 1][..],
    ] {
        let encoded = encode(bytes);
        assert_eq!(encoded.len(), bytes.len().div_ceil(3) * 4);
        assert_eq!(decode(&encoded).as_deref(), Ok(bytes));
    }
}

#[test]
fn rejects_malformed_input() {
    assert!(decode("abc").is_err());
    assert!(decode("ab=d").is_err());
    assert!(decode("abcd=efg").is_err());
    assert!(decode("ab\u{0}d").is_err());
}

#[test]
fn encodes_known_vectors() {
    assert_eq!(encode(b"foobar"), "Zm9vYmFy");
    assert_eq!(encode(b"fo"), "Zm8=");
    assert_eq!(encode(b"f"), "Zg==");
    assert_eq!(encode(&[255, 255, 255]), "////");
}

#[test]
fn decode_reports_the_failing_input() {
    let error = decode("abc").unwrap_err();
    assert!(!error.is_empty());
    let padded = decode("ab=d").unwrap_err();
    assert!(!padded.is_empty());
    assert_eq!(decode("Zm9vYmFy").unwrap(), b"foobar".to_vec());
}
