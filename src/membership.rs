//! The request-shape rules of the endpoint through which a remote server
//! submits a user's leave event.

use vstd::prelude::*;
use crate::event::{gen_event_id_canonical_json, get_text_member, text_member, FormatError};
use crate::ids::{is_room_id, room_id_valid, user_server, user_server_name};
use crate::json::{get_member, member, JsonValue};
use crate::room_version::RoomVersion;
use crate::text::text_eq;
use crate::verify::{json_canonical, json_object_of};

verus! {

/// Why a submitted leave event was refused.
pub enum LeaveError {
    /// The text has no canonical form.
    Format(FormatError),
    /// The event names no well-formed room id.
    InvalidRoomId,
    /// The event's room is not the room of the request path.
    RoomMismatch,
    /// The content is missing or has no membership.
    InvalidContent,
    /// The membership is not `leave`.
    NotLeave,
    /// The event has no type.
    InvalidType,
    /// The event is not a membership event.
    NotMembershipEvent,
    /// The sender is no user id.
    InvalidSender,
    /// The sender belongs to another server than the one that submitted it.
    ForeignSender,
    /// The state key is no user id.
    InvalidStateKey,
    /// The state key is not the sender.
    StateKeyMismatch,
}

/// The first rule that the canonical object `v` breaks, submitted by
/// `origin` for `room`; `None` where it keeps them all.
pub open spec fn leave_check(v: JsonValue, room: Seq<char>, origin: Seq<char>) -> Option<LeaveError> {
    let room_id = text_member(v, "room_id"@);
    let sender = text_member(v, "sender"@);
    let state_key = text_member(v, "state_key"@);
    if !(room_id matches Some(r) && is_room_id(r)) {
        Some(LeaveError::InvalidRoomId)
    } else if room_id != Some(room) {
        Some(LeaveError::RoomMismatch)
    } else if !(member(v, "content"@) matches Some(c) && c is Object && text_member(c, "membership"@).is_some()) {
        Some(LeaveError::InvalidContent)
    } else if text_member(member(v, "content"@).unwrap(), "membership"@) != Some("leave"@) {
        Some(LeaveError::NotLeave)
    } else if text_member(v, "type"@).is_none() {
        Some(LeaveError::InvalidType)
    } else if text_member(v, "type"@) != Some("m.room.member"@) {
        Some(LeaveError::NotMembershipEvent)
    } else if !(sender matches Some(s) && user_server(s).is_some()) {
        Some(LeaveError::InvalidSender)
    } else if user_server(sender.unwrap()) != Some(origin) {
        Some(LeaveError::ForeignSender)
    } else if !(state_key matches Some(k) && user_server(k).is_some()) {
        Some(LeaveError::InvalidStateKey)
    } else if state_key != sender {
        Some(LeaveError::StateKeyMismatch)
    } else {
        None
    }
}

/// Checks a leave event that `origin` submitted for `room_id`, a room of
/// version `room_version`. Returns its derived id and canonical object, for
/// admission into the timeline.
pub fn check_leave_event(raw: &str, room_id: &str, origin: &str, room_version: &RoomVersion) -> (r: Result<(String, JsonValue), LeaveError>)
    ensures
        match json_canonical(raw@, room_version.id_view()) {
            Err(e) => r matches Err(LeaveError::Format(f)) && f == e,
            Ok(id) => match leave_check(json_object_of(raw@), room_id@, origin@) {
                Some(e) => r matches Err(x) && x == e,
                None => r matches Ok((i, o)) && i@ == id && o == json_object_of(raw@),
            },
        },
{
    let (event_id, value) = match gen_event_id_canonical_json(raw, room_version) {
        Ok(p) => p,
        Err(e) => return Err(LeaveError::Format(e)),
    };
    let event_room = match get_text_member(&value, "room_id") {
        Some(r) => r,
        None => return Err(LeaveError::InvalidRoomId),
    };
    if !room_id_valid(event_room.as_str()) {
        return Err(LeaveError::InvalidRoomId);
    }
    if !text_eq(event_room.as_str(), room_id) {
        return Err(LeaveError::RoomMismatch);
    }
    let membership = match get_member(&value, "content") {
        Some(c) => {
            if !matches!(c, JsonValue::Object(_)) {
                return Err(LeaveError::InvalidContent);
            }
            match get_text_member(c, "membership") {
                Some(m) => m,
                None => return Err(LeaveError::InvalidContent),
            }
        },
        None => return Err(LeaveError::InvalidContent),
    };
    proof {
        reveal_strlit("leave");
        reveal_strlit("m.room.member");
    }
    if !text_eq(membership.as_str(), "leave") {
        return Err(LeaveError::NotLeave);
    }
    let kind = match get_text_member(&value, "type") {
        Some(t) => t,
        None => return Err(LeaveError::InvalidType),
    };
    if !text_eq(kind.as_str(), "m.room.member") {
        return Err(LeaveError::NotMembershipEvent);
    }
    let sender = match get_text_member(&value, "sender") {
        Some(s) => s,
        None => return Err(LeaveError::InvalidSender),
    };
    let sender_server = match user_server_name(sender.as_str()) {
        Some(s) => s,
        None => return Err(LeaveError::InvalidSender),
    };
    if !text_eq(sender_server.as_str(), origin) {
        return Err(LeaveError::ForeignSender);
    }
    let state_key = match get_text_member(&value, "state_key") {
        Some(k) => k,
        None => return Err(LeaveError::InvalidStateKey),
    };
    if user_server_name(state_key.as_str()).is_none() {
        return Err(LeaveError::InvalidStateKey);
    }
    if !text_eq(state_key.as_str(), sender.as_str()) {
        return Err(LeaveError::StateKeyMismatch);
    }
    Ok((event_id, value))
}

} // verus!
