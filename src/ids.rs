//! Identifier syntax, as the protocol library checks it.

use vstd::prelude::*;

verus! {

/// The server name of a user id; `None` where the text is no user id.
pub uninterp spec fn user_server(s: Seq<char>) -> Option<Seq<char>>;

/// Whether the text is a well-formed event id.
pub uninterp spec fn is_event_id(s: Seq<char>) -> bool;

/// Whether the text is a well-formed room id.
pub uninterp spec fn is_room_id(s: Seq<char>) -> bool;

/// Relies on ruma's `UserId` parsing and `UserId::server_name`: the server
/// part of a well-formed user id.
#[verifier::external_body]
pub(crate) fn user_server_name(s: &str) -> (r: Option<String>)
    ensures
        match r {
            Some(x) => user_server(s@) == Some(x@),
            None => user_server(s@).is_none(),
        },
{
    <&ruma::UserId>::try_from(s).ok().map(|u| u.server_name().as_str().to_owned())
}

/// Relies on ruma's `EventId` parsing: whether the text is an event id.
#[verifier::external_body]
pub(crate) fn event_id_valid(s: &str) -> (r: bool)
    ensures
        r == is_event_id(s@),
{
    <&ruma::EventId>::try_from(s).is_ok()
}

/// Relies on ruma's `RoomId` parsing: whether the text is a room id.
#[verifier::external_body]
pub(crate) fn room_id_valid(s: &str) -> (r: bool)
    ensures
        r == is_room_id(s@),
{
    <&ruma::RoomId>::try_from(s).is_ok()
}

} // verus!
