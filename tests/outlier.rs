use event_ingest::json::JsonValue;
use event_ingest::outlier::OutlierStore;

fn event(kind: &str) -> JsonValue {
    JsonValue::Object(vec![
        ("room_id".to_string(), JsonValue::Str("!r:x".to_string())),
        ("sender".to_string(), JsonValue::Str("@a:x".to_string())),
        ("type".to_string(), JsonValue::Str(kind.to_string())),
        ("auth_events".to_string(), JsonValue::Array(vec![JsonValue::Str("$p".to_string()), JsonValue::Integer(3)])),
    ])
}

fn kind_of(v: &JsonValue) -> String {
    match v {
        JsonValue::Object(f) => f
            .iter()
            .find(|(k, _)| k == "type")
            .and_then(|(_, v)| match v {
                JsonValue::Str(s) => Some(s.clone()),
                _ => None,
            })
            .unwrap(),
        _ => panic!("not an object"),
    }
}

#[test]
fn get_returns_last_put() {
    let mut store = OutlierStore::new();
    assert!(store.get_outlier_pdu_json("$e").is_none());
    store.add_pdu_outlier("$e", event("m.one"));
    store.add_pdu_outlier("$f", event("m.other"));
    assert_eq!(kind_of(store.get_outlier_pdu_json("$e").unwrap()), "m.one");
    store.add_pdu_outlier("$e", event("m.two"));
    assert_eq!(kind_of(store.get_outlier_pdu_json("$e").unwrap()), "m.two");
    assert_eq!(kind_of(store.get_outlier_pdu_json("$f").unwrap()), "m.other");
}

#[test]
fn stored_events_read_back() {
    let mut store = OutlierStore::new();
    store.add_pdu_outlier("$e", event("m.room.member"));
    let pdu = store.get_pdu_outlier("$e").unwrap();
    assert_eq!(pdu.event_id, "$e");
    assert_eq!(pdu.room_id, "!r:x");
    assert_eq!(pdu.sender, "@a:x");
    assert_eq!(pdu.kind, "m.room.member");
    assert_eq!(pdu.auth_events, vec!["$p".to_string()]);
    assert!(!pdu.is_state());
    assert!(store.get_pdu_outlier("$missing").is_none());
}

#[test]
fn stored_objects_without_event_fields_read_as_no_event() {
    let mut store = OutlierStore::new();
    store.add_pdu_outlier("$x", JsonValue::Object(vec![("type".to_string(), JsonValue::Str("m.t".to_string()))]));
    assert!(store.get_outlier_pdu_json("$x").is_some());
    assert!(store.get_pdu_outlier("$x").is_none());
}
