use agent::wire::{encode_sign_request, DomainSignRequest, SignRequest, Signature};

#[test]
fn sign_request_wire_shape() {
    let domain = DomainSignRequest { pubkey_blob: vec![0x01, 0x02], data: vec![0xAA], flags: 4 };
    let wire = SignRequest::from(domain);
    let body = encode_sign_request(&wire);
    assert_eq!(body, br#"{"pubkey":"AQI=","data":"qg==","flags":4}"#.to_vec());
}

#[test]
fn sign_request_conversion_moves_fields() {
    let domain = DomainSignRequest {
        pubkey_blob: vec![9, 8, 7],
        data: vec![1, 2, 3, 4],
        flags: 0xFFFF_FFFF,
    };
    let wire = SignRequest::from(domain);
    assert_eq!(wire.pubkey, vec![9, 8, 7]);
    assert_eq!(wire.data, vec![1, 2, 3, 4]);
    assert_eq!(wire.flags, 0xFFFF_FFFF);
}

#[test]
fn sign_request_flag_edges() {
    let zero = SignRequest { pubkey: vec![], data: vec![], flags: 0 };
    assert_eq!(encode_sign_request(&zero), br#"{"pubkey":"","data":"","flags":0}"#.to_vec());
    let top = SignRequest { pubkey: vec![], data: vec![], flags: u32::MAX };
    assert_eq!(
        encode_sign_request(&top),
        br#"{"pubkey":"","data":"","flags":4294967295}"#.to_vec()
    );
}

#[test]
fn sign_request_body_is_valid_json_for_reference_parser() {
    let domain = DomainSignRequest { pubkey_blob: vec![0x01, 0x02], data: vec![0xAA], flags: 4 };
    let body = encode_sign_request(&SignRequest::from(domain));
    let value: serde_json::Value = serde_json::from_slice(&body).expect("valid JSON");
    assert_eq!(value["pubkey"].as_str(), Some("AQI="));
    assert_eq!(value["data"].as_str(), Some("qg=="));
    assert_eq!(value["flags"].as_u64(), Some(4));
}

#[test]
fn signature_into_blob() {
    let sig = Signature { sig: vec![0xDE, 0xAD] };
    let blob: Vec<u8> = sig.into_blob();
    assert_eq!(blob, vec![0xDE, 0xAD]);
}
