use event_ingest::json::JsonValue;
use event_ingest::power_levels::{
    can_change_user_power_level, deserialize_power_levels, deserialize_power_levels_content_fields,
    deserialize_power_levels_content_invite, deserialize_power_levels_content_redact, power_levels_from_json,
    ParseError, PowerLevels,
};
use event_ingest::room_version::RoomVersion;

fn legacy() -> RoomVersion {
    RoomVersion::from_id("1").unwrap()
}

fn strict() -> RoomVersion {
    RoomVersion::from_id("10").unwrap()
}

#[test]
fn room_versions_select_encoding() {
    assert!(!legacy().integer_power_levels());
    assert!(strict().integer_power_levels());
    assert!(RoomVersion::from_id("no-such-version").is_none());
}

#[test]
fn legacy_string_levels_parse() {
    let pl = deserialize_power_levels(r#"{"ban": "50", "users": {"@a:x": "100"}}"#, &legacy()).unwrap();
    assert_eq!(pl.ban, 50);
    assert_eq!(pl.user_power("@a:x"), 100);
    assert_eq!(pl.user_power("@b:x"), 0);
    assert_eq!(pl.users_default, 0);
}

#[test]
fn strict_rejects_string_levels() {
    let pl = deserialize_power_levels(r#"{"ban": "50", "users": {"@a:x": 100}}"#, &strict());
    assert!(pl.is_none());
    assert!(!can_change_user_power_level(pl.as_ref(), "@c:x", "@a:x", "@b:x", 0));
}

#[test]
fn strict_accepts_integers() {
    let pl = deserialize_power_levels(r#"{"ban": 60, "users": {"@a:x": 100}}"#, &strict()).unwrap();
    assert_eq!(pl.ban_level(), 60);
    assert_eq!(pl.user_power("@a:x"), 100);
}

#[test]
fn defaults_fill_absent_fields() {
    let pl = deserialize_power_levels("{}", &strict()).unwrap();
    assert_eq!(pl.ban, 50);
    assert_eq!(pl.kick_level(), 50);
    assert_eq!(pl.redact_level(), 50);
    assert_eq!(pl.state_default, 50);
    assert_eq!(pl.events_default, 0);
    assert_eq!(pl.invite_level(), 0);
    assert_eq!(pl.users_default, 0);
    assert_eq!(pl.notifications_room, 50);
    assert!(pl.users.is_empty());
}

#[test]
fn legacy_accepts_signed_and_padded_strings() {
    let pl = deserialize_power_levels(r#"{"kick": " +75 ", "redact": "-5"}"#, &legacy()).unwrap();
    assert_eq!(pl.kick, 75);
    assert_eq!(pl.redact, -5);
}

#[test]
fn legacy_rejects_non_numeric_strings() {
    assert!(deserialize_power_levels(r#"{"kick": "lots"}"#, &legacy()).is_none());
}

#[test]
fn out_of_range_integers_are_refused() {
    assert!(deserialize_power_levels(r#"{"ban": 9007199254740992}"#, &strict()).is_none());
    let ok = deserialize_power_levels(r#"{"ban": 9007199254740991}"#, &strict()).unwrap();
    assert_eq!(ok.ban, 9007199254740991);
}

#[test]
fn invalid_user_ids_are_refused() {
    assert!(deserialize_power_levels(r#"{"users": {"not-a-user": 10}}"#, &strict()).is_none());
}

#[test]
fn non_object_content_is_refused() {
    assert!(deserialize_power_levels("[1, 2]", &strict()).is_none());
    assert!(deserialize_power_levels("{not json", &strict()).is_none());
}

#[test]
fn users_table_is_sorted_for_lookup() {
    let pl = deserialize_power_levels(
        r#"{"users": {"@zed:x": 5, "@amy:x": 7, "@mia:x": 9}, "users_default": 3}"#,
        &strict(),
    )
    .unwrap();
    let names: Vec<&str> = pl.users.iter().map(|(n, _)| n.as_str()).collect();
    assert_eq!(names, vec!["@amy:x", "@mia:x", "@zed:x"]);
    assert_eq!(pl.user_power("@mia:x"), 9);
    assert_eq!(pl.user_power("@bob:x"), 3);
}

#[test]
fn binary_search_matches_linear_scan() {
    let fields = deserialize_power_levels_content_fields(
        r#"{"users": {"@d:x": 4, "@b:x": 2, "@a:x": 1, "@c:x": 3, "@e:x": 5}}"#,
        &strict(),
    )
    .ok()
    .unwrap();
    for key in ["@a:x", "@b:x", "@c:x", "@d:x", "@e:x", "@0:x", "@bb:x", "@z:x"] {
        let scan = fields.users.iter().find(|(n, _)| n == key).map(|(_, l)| *l);
        assert_eq!(fields.get_user_power(key), scan);
    }
}

#[test]
fn fields_parse_ignores_other_fields() {
    let fields = deserialize_power_levels_content_fields(r#"{"ban": "x", "users_default": "20"}"#, &legacy())
        .ok()
        .unwrap();
    assert_eq!(fields.users_default, 20);
    assert!(fields.users.is_empty());
    assert!(matches!(
        deserialize_power_levels_content_fields(r#"{"users_default": "20"}"#, &strict()),
        Err(ParseError::Invalid)
    ));
    assert!(matches!(deserialize_power_levels_content_fields("oops", &strict()), Err(ParseError::NotJson)));
}

#[test]
fn invite_and_redact_narrow_parses() {
    let inv = deserialize_power_levels_content_invite(r#"{"invite": "25"}"#, &legacy()).ok().unwrap();
    assert_eq!(inv.invite, 25);
    let inv0 = deserialize_power_levels_content_invite("{}", &strict()).ok().unwrap();
    assert_eq!(inv0.invite, 0);
    assert!(matches!(deserialize_power_levels_content_invite(r#"{"invite": "25"}"#, &strict()), Err(ParseError::Invalid)));
    let red = deserialize_power_levels_content_redact("{}", &strict()).ok().unwrap();
    assert_eq!(red.redact, 50);
    let red2 = deserialize_power_levels_content_redact(r#"{"redact": 10}"#, &strict()).ok().unwrap();
    assert_eq!(red2.redact, 10);
    assert!(matches!(deserialize_power_levels_content_redact("3", &strict()), Err(ParseError::Invalid)));
}

#[test]
fn parse_from_json_value() {
    let c = JsonValue::Object(vec![("ban".to_string(), JsonValue::Integer(70))]);
    assert_eq!(power_levels_from_json(&c, true).unwrap().ban, 70);
    let s = JsonValue::Object(vec![("ban".to_string(), JsonValue::Str("70".to_string()))]);
    assert!(power_levels_from_json(&s, true).is_none());
    assert_eq!(power_levels_from_json(&s, false).unwrap().ban, 70);
}

fn levels(text: &str) -> PowerLevels {
    deserialize_power_levels(text, &strict()).unwrap()
}

#[test]
fn changing_levels_needs_more_power() {
    let pl = levels(r#"{"users": {"@a:x": 100, "@b:x": 50, "@c:x": 50}, "state_default": 50}"#);
    assert!(can_change_user_power_level(Some(&pl), "@creator:x", "@a:x", "@b:x", 75));
    assert!(!can_change_user_power_level(Some(&pl), "@creator:x", "@b:x", "@c:x", 0));
    assert!(!can_change_user_power_level(Some(&pl), "@creator:x", "@b:x", "@a:x", 0));
    assert!(!can_change_user_power_level(Some(&pl), "@creator:x", "@b:x", "@b:x", 10));
    assert!(!can_change_user_power_level(Some(&pl), "@creator:x", "@a:x", "@b:x", 101));
}

#[test]
fn changing_levels_needs_the_threshold() {
    let pl = levels(r#"{"users": {"@a:x": 60}, "events": {"m.room.power_levels": 80}}"#);
    assert!(!can_change_user_power_level(Some(&pl), "@creator:x", "@a:x", "@b:x", 10));
    let pl2 = levels(r#"{"users": {"@a:x": 60}, "state_default": 60}"#);
    assert!(can_change_user_power_level(Some(&pl2), "@creator:x", "@a:x", "@b:x", 10));
}

#[test]
fn creator_may_change_own_level_without_power_levels() {
    assert!(can_change_user_power_level(None, "@creator:x", "@creator:x", "@creator:x", 100));
    assert!(!can_change_user_power_level(None, "@creator:x", "@creator:x", "@b:x", 100));
    assert!(!can_change_user_power_level(None, "@creator:x", "@b:x", "@b:x", 0));
}

#[test]
fn odd_numbers_in_other_fields_are_ignored() {
    let pl = deserialize_power_levels(r#"{"ban": 40, "extra": 1.5, "huge": 18446744073709551615}"#, &strict()).unwrap();
    assert_eq!(pl.ban, 40);
    assert!(deserialize_power_levels(r#"{"ban": 40.5}"#, &strict()).is_none());
    assert!(deserialize_power_levels(r#"{"ban": 40.5}"#, &legacy()).is_none());
}

#[test]
fn legacy_string_sign_rules() {
    let pl = deserialize_power_levels(r#"{"ban": "++5", "kick": " -0\t", "redact": "0009"}"#, &legacy()).unwrap();
    assert_eq!(pl.ban, 5);
    assert_eq!(pl.kick, 0);
    assert_eq!(pl.redact, 9);
    assert!(deserialize_power_levels(r#"{"ban": "+-5"}"#, &legacy()).is_none());
    assert!(deserialize_power_levels(r#"{"ban": "-+5"}"#, &legacy()).is_none());
    assert!(deserialize_power_levels(r#"{"ban": "+"}"#, &legacy()).is_none());
    assert!(deserialize_power_levels(r#"{"ban": "9007199254740992"}"#, &legacy()).is_none());
}
