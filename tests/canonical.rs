use event_ingest::event::{
    add_event_id, auth_event_ids, gen_event_id_canonical_json, parse_incoming_pdu, FormatError, IncomingError,
};
use event_ingest::json::{get_member, JsonValue};
use event_ingest::room_version::RoomVersion;
use event_ingest::verify::{
    required_keys_exist, validate_and_add_event_id, validate_and_add_event_id_no_fetch, verify_event, verify_json,
    VerificationError, Verified,
};

const EVENT: &str = r#"{"type":"m.room.message","room_id":"!r:x","sender":"@a:x","content":{"body":"hi"},"auth_events":["$a1","$a2"],"prev_events":[],"depth":2,"origin_server_ts":5,"hashes":{"sha256":"abc"},"signatures":{"x":{"ed25519:1":"sig","ed25519:2":"sig"}}}"#;

fn v10() -> RoomVersion {
    RoomVersion::from_id("10").unwrap()
}

#[test]
fn canonicalize_is_deterministic() {
    let (id1, _) = gen_event_id_canonical_json(EVENT, &v10()).ok().unwrap();
    let (id2, _) = gen_event_id_canonical_json(EVENT, &v10()).ok().unwrap();
    assert_eq!(id1, id2);
    assert!(id1.starts_with('$'));
    assert_eq!(id1.len(), 44);
}

#[test]
fn canonical_id_ignores_whitespace_and_order() {
    let spaced = r#"{ "sender":"@a:x", "type":"m.room.message","room_id":"!r:x","content":{"body":"hi"},"auth_events":["$a1","$a2"],"prev_events":[],"depth":2,"origin_server_ts":5,"hashes":{"sha256":"abc"},"signatures":{"x":{"ed25519:1":"sig","ed25519:2":"sig"}} }"#;
    let (a, _) = gen_event_id_canonical_json(EVENT, &v10()).ok().unwrap();
    let (b, _) = gen_event_id_canonical_json(spaced, &v10()).ok().unwrap();
    assert_eq!(a, b);
}

#[test]
fn different_events_get_different_ids() {
    let other = EVENT.replace("\"depth\":2", "\"depth\":3");
    let (a, _) = gen_event_id_canonical_json(EVENT, &v10()).ok().unwrap();
    let (b, _) = gen_event_id_canonical_json(&other, &v10()).ok().unwrap();
    assert_ne!(a, b);
}

#[test]
fn canonical_object_keeps_fields() {
    let (_, obj) = gen_event_id_canonical_json(EVENT, &v10()).ok().unwrap();
    assert!(matches!(get_member(&obj, "sender"), Some(JsonValue::Str(s)) if s == "@a:x"));
    assert!(matches!(get_member(&obj, "depth"), Some(JsonValue::Integer(2))));
    assert!(get_member(&obj, "event_id").is_none());
    assert_eq!(auth_event_ids(&obj), vec!["$a1".to_string(), "$a2".to_string()]);
}

#[test]
fn non_objects_are_not_json_events() {
    assert!(matches!(gen_event_id_canonical_json("[1]", &v10()), Err(FormatError::NotJson)));
    assert!(matches!(gen_event_id_canonical_json("{oops", &v10()), Err(FormatError::NotJson)));
    assert!(matches!(gen_event_id_canonical_json(r#"{"a": 1.5}"#, &v10()), Err(FormatError::NotJson)));
}

#[test]
fn add_event_id_stamps_the_object() {
    let (id, obj) = gen_event_id_canonical_json(EVENT, &v10()).ok().unwrap();
    let stamped = add_event_id(obj, &id);
    assert!(matches!(get_member(&stamped, "event_id"), Some(JsonValue::Str(s)) if *s == id));
    assert!(matches!(get_member(&stamped, "type"), Some(JsonValue::Str(s)) if s == "m.room.message"));
}

#[test]
fn incoming_events_must_match_the_request_room() {
    let ok = parse_incoming_pdu(EVENT, "!r:x", &v10()).ok().unwrap();
    assert_eq!(ok.0, "!r:x");
    assert_eq!(ok.1, gen_event_id_canonical_json(EVENT, &v10()).ok().unwrap().0);
    assert!(matches!(parse_incoming_pdu(EVENT, "!other:x", &v10()), Err(IncomingError::RoomMismatch)));
    let bad_room = EVENT.replace("!r:x", "r");
    assert!(matches!(parse_incoming_pdu(&bad_room, "r", &v10()), Err(IncomingError::InvalidRoomId)));
    assert!(matches!(parse_incoming_pdu("7", "!r:x", &v10()), Err(IncomingError::Format(FormatError::NotJson))));
}

const PUBLIC_KEY: &str = "XGX0JRS2Af3be3knz2fBiRbApjm2Dh61gXDJA8kcJNI";

const SIGNED_EVENT: &str = r#"{
    "auth_events": [],
    "content": {},
    "depth": 3,
    "hashes": {"sha256": "5jM4wQpv6lnBo7CLIghJuHdW+s2CMBJPUOGOC89ncos"},
    "origin": "domain",
    "origin_server_ts": 1000000,
    "prev_events": [],
    "room_id": "!x:domain",
    "sender": "@a:domain",
    "signatures": {"domain": {"ed25519:1": "KxwGjPSDEtvnFgU00fwFz+l6d2pJM6XBIaMEn81SXPTRl16AqLAYqfIReFGZlHi5KLjAWbOoMszkwsQma+lYAg"}},
    "type": "X",
    "unsigned": {"age_ts": 1000000}
}"#;

fn keys() -> Vec<(String, String, String)> {
    vec![("domain".to_string(), "ed25519:1".to_string(), PUBLIC_KEY.to_string())]
}

#[test]
fn signed_event_verifies() {
    let v6 = RoomVersion::from_id("6").unwrap();
    assert!(matches!(verify_event(SIGNED_EVENT, &v6, &keys()), Ok(Verified::All)));
    assert!(matches!(verify_event(SIGNED_EVENT, &v6, &vec![]), Err(VerificationError::SignatureInvalid)));
}

#[test]
fn altered_content_verifies_signatures_only() {
    let v6 = RoomVersion::from_id("6").unwrap();
    let altered = SIGNED_EVENT.replace("\"content\": {}", "\"content\": {\"body\": \"changed\"}");
    assert!(matches!(verify_event(&altered, &v6, &keys()), Ok(Verified::Signatures)));
}

#[test]
fn tampered_signature_fails() {
    let v6 = RoomVersion::from_id("6").unwrap();
    let tampered = SIGNED_EVENT.replace("\"depth\": 3", "\"depth\": 4");
    assert!(matches!(verify_event(&tampered, &v6, &keys()), Err(VerificationError::SignatureInvalid)));
}

#[test]
fn validate_stamps_verified_events() {
    let v6 = RoomVersion::from_id("6").unwrap();
    let (id, obj) = validate_and_add_event_id(SIGNED_EVENT, &v6, &keys()).ok().unwrap();
    assert!(matches!(get_member(&obj, "event_id"), Some(JsonValue::Str(s)) if *s == id));
    let (id2, _) = validate_and_add_event_id_no_fetch(SIGNED_EVENT, &v6, &keys()).ok().unwrap();
    assert_eq!(id, id2);
}

#[test]
fn no_fetch_validation_fails_fast_on_missing_keys() {
    let v6 = RoomVersion::from_id("6").unwrap();
    assert!(matches!(
        validate_and_add_event_id_no_fetch(SIGNED_EVENT, &v6, &vec![]),
        Err(VerificationError::MissingKeys)
    ));
    assert!(matches!(
        validate_and_add_event_id(SIGNED_EVENT, &v6, &vec![]),
        Err(VerificationError::SignatureInvalid)
    ));
    assert!(matches!(
        validate_and_add_event_id("[]", &v6, &keys()),
        Err(VerificationError::Format(FormatError::NotJson))
    ));
}

#[test]
fn required_keys_are_those_the_sender_signed_with() {
    let (_, obj) = gen_event_id_canonical_json(EVENT, &v10()).ok().unwrap();
    let one = vec![("x".to_string(), "ed25519:1".to_string(), "k".to_string())];
    let both = vec![
        ("x".to_string(), "ed25519:1".to_string(), "k".to_string()),
        ("x".to_string(), "ed25519:2".to_string(), "k".to_string()),
    ];
    assert!(!required_keys_exist(&obj, &one));
    assert!(required_keys_exist(&obj, &both));
    assert!(!required_keys_exist(&obj, &vec![]));
}

#[test]
fn signed_json_verifies() {
    let json = r#"{"signatures": {"domain": {"ed25519:1": "K8280/U9SSy9IVtjBuVeLr+HpOB4BQFWbg+UZaADMtTdGYI7Geitb76LTrr5QV/7Xg4ahLwYGYZzuHGZKM5ZAQ"}}}"#;
    assert!(verify_json(json, &keys()).is_ok());
    assert!(verify_json(json, &vec![("domain".to_string(), "ed25519:1".to_string(), "AAAA".to_string())]).is_err());
}
