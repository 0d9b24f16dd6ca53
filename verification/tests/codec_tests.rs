use agent::codec::{decode, encode, DecodeError};

fn enc(bytes: &[u8]) -> Vec<u8> {
    encode(&bytes.to_vec())
}

fn dec(text: &[u8]) -> Result<Vec<u8>, DecodeError> {
    decode(&text.to_vec())
}

#[test]
fn encode_empty_is_empty() {
    assert_eq!(enc(b""), b"".to_vec());
}

#[test]
fn encode_known_vectors() {
    assert_eq!(enc(&[0x01, 0x02]), b"AQI=".to_vec());
    assert_eq!(enc(&[0xAA]), b"qg==".to_vec());
    assert_eq!(enc(b"abc"), b"YWJj".to_vec());
    assert_eq!(enc(b"abcd"), b"YWJjZA==".to_vec());
    assert_eq!(enc(&[0xFF, 0xFF, 0xFF]), b"////".to_vec());
    assert_eq!(enc(&[0xFB, 0xEF, 0xBE]), b"++++".to_vec());
}

#[test]
fn encode_matches_reference_crate() {
    let samples: Vec<Vec<u8>> = vec![
        vec![],
        vec![0],
        vec![0, 0],
        vec![0, 0, 0],
        vec![1, 2, 3, 4, 5, 6, 7, 8, 9],
        vec![255, 0, 128, 63, 250, 17, 99],
        (0u8..=255).collect(),
    ];
    for bytes in samples {
        let mine = enc(&bytes);
        let reference = base64::encode(&bytes);
        assert_eq!(mine, reference.as_bytes().to_vec());
    }
}

#[test]
fn decode_known_vectors() {
    assert_eq!(dec(b""), Ok(vec![]));
    assert_eq!(dec(b"AQI="), Ok(vec![0x01, 0x02]));
    assert_eq!(dec(b"qg=="), Ok(vec![0xAA]));
    assert_eq!(dec(b"YWJj"), Ok(b"abc".to_vec()));
    assert_eq!(dec(b"YWJjZA=="), Ok(b"abcd".to_vec()));
}

#[test]
fn decode_encode_round_trip() {
    let samples: Vec<Vec<u8>> = vec![
        vec![],
        vec![42],
        vec![1, 2],
        vec![1, 2, 3],
        vec![1, 2, 3, 4],
        (0u8..=255).collect(),
    ];
    for bytes in samples {
        assert_eq!(dec(&enc(&bytes)), Ok(bytes));
    }
}

#[test]
fn decode_rejects_malformed() {
    let malformed: &[&[u8]] = &[
        b"A",
        b"AQ",
        b"AQI",
        b"AQI==",
        b"====",
        b"=AQI",
        b"AQ=I",
        b"A===",
        b"AQI*",
        b"AQ I",
        b"AQI\n",
        b"\x00\x00\x00\x00",
    ];
    for text in malformed {
        assert_eq!(dec(text), Err(DecodeError));
    }
    // The reference crate agrees on these rejections.
    assert!(base64::decode(b"A").is_err());
    assert!(base64::decode(b"AQI*").is_err());
    assert!(base64::decode(b"AQ=I").is_err());
}

#[test]
fn decode_rejects_nonzero_trailing_bits() {
    // 'B' carries low bits that padding says must be zero.
    assert_eq!(dec(b"AB=="), Err(DecodeError));
    assert_eq!(dec(b"ABB="), Err(DecodeError));
    assert!(base64::decode(b"AB==").is_err());
    assert!(base64::decode(b"ABB=").is_err());
}

#[test]
fn decode_agrees_with_reference_crate_on_valid_text() {
    let texts: &[&[u8]] = &[b"", b"AQI=", b"qg==", b"YWJjZA==", b"AAAA", b"////", b"++//"];
    for text in texts {
        let mine = dec(text).expect("valid base64");
        let reference = base64::decode(text).expect("valid base64");
        assert_eq!(mine, reference);
    }
}
