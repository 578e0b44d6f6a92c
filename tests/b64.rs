use spnego_proxy::b64::{decode, encode};

#[test]
fn encode_rfc4648_vectors() {
    assert_eq!(encode(b""), b"".to_vec());
    assert_eq!(encode(b"f"), b"Zg==".to_vec());
    assert_eq!(encode(b"fo"), b"Zm8=".to_vec());
    assert_eq!(encode(b"foo"), b"Zm9v".to_vec());
    assert_eq!(encode(b"foob"), b"Zm9vYg==".to_vec());
    assert_eq!(encode(b"fooba"), b"Zm9vYmE=".to_vec());
    assert_eq!(encode(b"foobar"), b"Zm9vYmFy".to_vec());
}

#[test]
fn encode_uses_plus_and_slash() {
    assert_eq!(encode(&[0xfb, 0xff]), b"+/8=".to_vec());
}

#[test]
fn decode_rfc4648_vectors() {
    assert_eq!(decode(b""), Some(vec![]));
    assert_eq!(decode(b"Zg=="), Some(b"f".to_vec()));
    assert_eq!(decode(b"Zm8="), Some(b"fo".to_vec()));
    assert_eq!(decode(b"Zm9vYmFy"), Some(b"foobar".to_vec()));
    assert_eq!(decode(b"AAAA"), Some(vec![0, 0, 0]));
}

#[test]
fn decode_rejects_missing_padding() {
    assert_eq!(decode(b"Zg"), None);
    assert_eq!(decode(b"Zm8"), None);
}

#[test]
fn decode_rejects_non_canonical_trailing_bits() {
    assert_eq!(decode(b"Zh=="), None);
}

#[test]
fn decode_rejects_bad_bytes() {
    assert_eq!(decode(b"Zm9v!"), None);
    assert_eq!(decode(b"Zm 9v"), None);
    assert_eq!(decode(b"BAD"), None);
}

#[test]
fn encode_of_decode_gives_the_string_back() {
    for s in [&b"AAAA"[..], b"Zg==", b"Zm8=", b"YWxpY2VARVhBTVBMRQ==", b"+/8=", b""] {
        let v = decode(s).expect("well-formed");
        assert_eq!(encode(&v), s.to_vec());
    }
}

#[test]
fn decode_of_encode_gives_the_bytes_back() {
    let mut bytes: Vec<u8> = Vec::new();
    for n in 0..64u32 {
        assert_eq!(decode(&encode(&bytes)), Some(bytes.clone()));
        bytes.push((n * 37 % 256) as u8);
    }
}
