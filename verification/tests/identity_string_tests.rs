use agent::parse::{parse_identity_list, parse_signature, ParseIssue};

fn parse_names(body: &[u8]) -> Option<Vec<String>> {
    parse_identity_list(&body.to_vec()).map(|l| l.identities)
}

fn cross_check(body: &[u8], expected: &[&str]) {
    let mine = parse_names(body).expect("accepted body");
    let expected: Vec<String> = expected.iter().map(|s| s.to_string()).collect();
    assert_eq!(mine, expected);
    let value: serde_json::Value = serde_json::from_slice(body).expect("valid JSON");
    let reference: Vec<String> = value["identities"]
        .as_array()
        .expect("array")
        .iter()
        .map(|v| v.as_str().expect("string").to_string())
        .collect();
    assert_eq!(mine, reference);
}

#[test]
fn identity_name_with_two_byte_utf8() {
    // "é" is C3 A9.
    cross_check("{\"identities\":[\"caf\u{e9}\"]}".as_bytes(), &["café"]);
}

#[test]
fn identity_name_with_three_and_four_byte_utf8() {
    // "€" is E2 82 AC; "😀" is F0 9F 98 80.
    cross_check("{\"identities\":[\"\u{20ac}\",\"\u{1f600}\"]}".as_bytes(), &["€", "😀"]);
}

#[test]
fn identity_name_with_simple_escapes() {
    cross_check(
        br#"{"identities":["a\nb","q\"w","back\\slash","sl\/ash","\t\r\b\f"]}"#,
        &["a\nb", "q\"w", "back\\slash", "sl/ash", "\t\r\u{8}\u{c}"],
    );
}

#[test]
fn identity_name_with_unicode_escapes() {
    cross_check(br#"{"identities":["\u0041\u00e9\u20ac","\u00E9"]}"#, &["A\u{e9}\u{20ac}", "\u{e9}"]);
}

#[test]
fn identity_name_with_surrogate_pair_escape() {
    cross_check(br#"{"identities":["\ud83d\ude00"]}"#, &["\u{1f600}"]);
}

#[test]
fn identity_name_rejects_bad_escapes() {
    let malformed: &[&[u8]] = &[
        br#"{"identities":["\x41"]}"#,
        br#"{"identities":["\u00"]}"#,
        br#"{"identities":["\u00zz"]}"#,
        br#"{"identities":["\uD800"]}"#,
        br#"{"identities":["\uD800A"]}"#,
        br#"{"identities":["\uDC00"]}"#,
        br#"{"identities":["trailing\"]}"#,
    ];
    for body in malformed {
        assert!(parse_names(body).is_none());
        assert!(serde_json::from_slice::<serde_json::Value>(body)
            .map(|v| v["identities"][0].as_str().map(|s| s.to_string()))
            .is_err());
    }
}

#[test]
fn identity_name_rejects_invalid_utf8() {
    let mut bad_cont = br#"{"identities":[""#.to_vec();
    bad_cont.extend_from_slice(&[0xC3, 0x28]);
    bad_cont.extend_from_slice(br#""]}"#);
    assert!(parse_names(&bad_cont).is_none());

    let mut overlong = br#"{"identities":[""#.to_vec();
    overlong.extend_from_slice(&[0xC0, 0x80]);
    overlong.extend_from_slice(br#""]}"#);
    assert!(parse_names(&overlong).is_none());

    let mut lone_cont = br#"{"identities":[""#.to_vec();
    lone_cont.push(0x80);
    lone_cont.extend_from_slice(br#""]}"#);
    assert!(parse_names(&lone_cont).is_none());

    let mut surrogate_bytes = br#"{"identities":[""#.to_vec();
    surrogate_bytes.extend_from_slice(&[0xED, 0xA0, 0x80]);
    surrogate_bytes.extend_from_slice(br#""]}"#);
    assert!(parse_names(&surrogate_bytes).is_none());

    let mut raw_control = br#"{"identities":[""#.to_vec();
    raw_control.push(0x01);
    raw_control.extend_from_slice(br#""]}"#);
    assert!(parse_names(&raw_control).is_none());
}

#[test]
fn signature_with_unpadded_base64_is_base64_issue() {
    let body = br#"{"sig":"AQI"}"#.to_vec();
    assert!(matches!(parse_signature(&body), Err(ParseIssue::Base64)));
}
