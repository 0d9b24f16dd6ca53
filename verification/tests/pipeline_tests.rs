use agent::parse::{parse_identity_list, parse_signature, ParseIssue};
use agent::pipeline::{
    list_identities_from_outcome, signature_from_outcome, ListIdentitiesError, SignError,
};

#[test]
fn identity_list_two_names() {
    let body = br#"{"identities": ["a","b"]}"#.to_vec();
    let list = parse_identity_list(&body).expect("well-formed body");
    assert_eq!(list.identities, vec!["a".to_string(), "b".to_string()]);
}

#[test]
fn identity_list_completes_through_pipeline() {
    let body = br#"{"identities": ["a","b"]}"#.to_vec();
    let list = list_identities_from_outcome(Ok(body)).expect("well-formed body");
    assert_eq!(list.identities, vec!["a".to_string(), "b".to_string()]);
}

#[test]
fn identity_list_order_preserved() {
    let body = br#"{"identities":["zeta","alpha","mid"]}"#.to_vec();
    let list = parse_identity_list(&body).expect("well-formed body");
    assert_eq!(
        list.identities,
        vec!["zeta".to_string(), "alpha".to_string(), "mid".to_string()]
    );
}

#[test]
fn identity_list_empty_array() {
    let body = br#"{"identities": []}"#.to_vec();
    let list = parse_identity_list(&body).expect("well-formed body");
    assert_eq!(list.identities, Vec::<String>::new());
}

#[test]
fn identity_list_tolerates_whitespace() {
    let body = b" \t\r\n{ \"identities\" :\n[ \"one\" ,\t\"two\" ]\r} \n".to_vec();
    let list = parse_identity_list(&body).expect("well-formed body");
    assert_eq!(list.identities, vec!["one".to_string(), "two".to_string()]);
}

#[test]
fn identity_list_not_an_array_is_parse_failure() {
    let body = br#"{"identities": "not-an-array"}"#.to_vec();
    assert!(parse_identity_list(&body).is_none());
    let r = list_identities_from_outcome(Ok(body));
    match r {
        Err(ListIdentitiesError::ParseFailure(m)) => {
            assert_eq!(m, "malformed list-identities response body")
        }
        other => panic!("expected ParseFailure, got {:?}", other),
    }
}

#[test]
fn identity_list_rejects_malformed_bodies() {
    let malformed: &[&[u8]] = &[
        b"",
        b"{}",
        b"[]",
        b"{\"identities\"}",
        b"{\"identities\":}",
        b"{\"identities\": [\"a\"",
        b"{\"identities\": [\"a\",]}",
        b"{\"identities\": [,\"a\"]}",
        b"{\"identities\": [\"a\"]} trailing",
        b"{\"names\": [\"a\"]}",
        b"{\"identities\": [\"a\"]",
        b"\"identities\": [\"a\"]}",
    ];
    for body in malformed {
        assert!(parse_identity_list(&body.to_vec()).is_none());
    }
}

#[test]
fn accepted_identity_bodies_are_valid_json_for_reference_parser() {
    let bodies: &[&[u8]] = &[
        br#"{"identities": ["a","b"]}"#,
        br#"{"identities":[]}"#,
        b" { \"identities\" : [ \"x\" ] } ",
    ];
    for body in bodies {
        let mine = parse_identity_list(&body.to_vec()).expect("accepted body");
        let value: serde_json::Value = serde_json::from_slice(body).expect("valid JSON");
        let reference: Vec<String> = value["identities"]
            .as_array()
            .expect("array")
            .iter()
            .map(|v| v.as_str().expect("string").to_string())
            .collect();
        assert_eq!(mine.identities, reference);
    }
}

#[test]
fn signature_response_decodes() {
    let body = br#"{"sig":"AQI="}"#.to_vec();
    let sig = parse_signature(&body).expect("well-formed body");
    assert_eq!(sig.sig, vec![0x01, 0x02]);
}

#[test]
fn signature_completes_through_pipeline() {
    let body = br#"{"sig":"AQI="}"#.to_vec();
    let sig = signature_from_outcome(Ok(body)).expect("well-formed body");
    assert_eq!(sig.sig, vec![0x01, 0x02]);
}

#[test]
fn signature_invalid_base64_is_parse_failure() {
    let body = br#"{"sig":"A*=="}"#.to_vec();
    assert!(matches!(parse_signature(&body), Err(ParseIssue::Base64)));
    let r = signature_from_outcome(Ok(body));
    match r {
        Err(SignError::ParseFailure(m)) => {
            assert_eq!(m, "invalid base64 in sig field of sign response body")
        }
        other => panic!("expected ParseFailure, got {:?}", other),
    }
}

#[test]
fn signature_rejects_malformed_bodies() {
    let malformed: &[&[u8]] = &[
        b"",
        b"{}",
        b"{\"sig\":}",
        b"{\"sig\":\"AQI=\"",
        b"{\"signature\":\"AQI=\"}",
        b"{\"sig\":\"AQI=\"} junk",
    ];
    for body in malformed {
        assert!(matches!(parse_signature(&body.to_vec()), Err(ParseIssue::Structure)));
    }
    let r = signature_from_outcome(Ok(b"{}".to_vec()));
    match r {
        Err(SignError::ParseFailure(m)) => assert_eq!(m, "malformed sign response body"),
        other => panic!("expected ParseFailure, got {:?}", other),
    }
}

#[test]
fn transport_failure_is_dispatch_failure_for_identities() {
    let r = list_identities_from_outcome(Err("connection reset".to_string()));
    match r {
        Err(ListIdentitiesError::DispatchFailure(m)) => assert_eq!(m, "connection reset"),
        other => panic!("expected DispatchFailure, got {:?}", other),
    }
}

#[test]
fn transport_failure_is_dispatch_failure_for_signing() {
    let r = signature_from_outcome(Err("timed out".to_string()));
    match r {
        Err(SignError::DispatchFailure(m)) => assert_eq!(m, "timed out"),
        other => panic!("expected DispatchFailure, got {:?}", other),
    }
}
