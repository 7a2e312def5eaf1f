use event_ingest::event::FormatError;
use event_ingest::membership::{check_leave_event, LeaveError};
use event_ingest::room_version::RoomVersion;

const LEAVE: &str = r#"{"type":"m.room.member","room_id":"!r:x","sender":"@a:x","state_key":"@a:x","content":{"membership":"leave"},"auth_events":[],"prev_events":[],"depth":1,"origin_server_ts":1}"#;

fn v10() -> RoomVersion {
    RoomVersion::from_id("10").unwrap()
}

#[test]
fn valid_leave_is_accepted() {
    let (id, _) = check_leave_event(LEAVE, "!r:x", "x", &v10()).ok().unwrap();
    assert!(id.starts_with('$'));
}

#[test]
fn leave_for_another_room_is_refused() {
    assert!(matches!(check_leave_event(LEAVE, "!s:x", "x", &v10()), Err(LeaveError::RoomMismatch)));
}

#[test]
fn non_leave_membership_is_refused() {
    let join = LEAVE.replace("\"leave\"", "\"join\"");
    assert!(matches!(check_leave_event(&join, "!r:x", "x", &v10()), Err(LeaveError::NotLeave)));
    let no_content = LEAVE.replace(r#""content":{"membership":"leave"},"#, "");
    assert!(matches!(check_leave_event(&no_content, "!r:x", "x", &v10()), Err(LeaveError::InvalidContent)));
}

#[test]
fn non_membership_events_are_refused() {
    let topic = LEAVE.replace("m.room.member", "m.room.topic");
    assert!(matches!(check_leave_event(&topic, "!r:x", "x", &v10()), Err(LeaveError::NotMembershipEvent)));
}

#[test]
fn leaving_for_another_server_is_refused() {
    assert!(matches!(check_leave_event(LEAVE, "!r:x", "y", &v10()), Err(LeaveError::ForeignSender)));
    let bad_sender = LEAVE.replace(r#""sender":"@a:x""#, r#""sender":"a""#);
    assert!(matches!(check_leave_event(&bad_sender, "!r:x", "x", &v10()), Err(LeaveError::InvalidSender)));
}

#[test]
fn state_key_must_be_the_sender() {
    let other = LEAVE.replace(r#""state_key":"@a:x""#, r#""state_key":"@b:x""#);
    assert!(matches!(check_leave_event(&other, "!r:x", "x", &v10()), Err(LeaveError::StateKeyMismatch)));
    let bad = LEAVE.replace(r#""state_key":"@a:x""#, r#""state_key":"b""#);
    assert!(matches!(check_leave_event(&bad, "!r:x", "x", &v10()), Err(LeaveError::InvalidStateKey)));
}

#[test]
fn malformed_leave_text_is_a_format_error() {
    assert!(matches!(check_leave_event("[]", "!r:x", "x", &v10()), Err(LeaveError::Format(FormatError::NotJson))));
    let bad_room = LEAVE.replace(r#""room_id":"!r:x""#, r#""room_id":5"#);
    assert!(matches!(check_leave_event(&bad_room, "!r:x", "x", &v10()), Err(LeaveError::InvalidRoomId)));
}
