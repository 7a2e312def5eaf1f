//! Canonical event identity and the fields of an event that the pipeline
//! reads.

use vstd::prelude::*;
use crate::ids::{event_id_valid, is_event_id, is_room_id, room_id_valid};
use crate::json::{get_member, json_text_value, member, parse_json, JsonValue};
use crate::room_version::RoomVersion;

verus! {

/// The id that a room version derives for event text: `$` and the reference
/// hash of its redacted canonical form; `None` where that cannot be formed.
pub uninterp spec fn reference_event_id(raw: Seq<char>, version: Seq<char>) -> Option<Seq<char>>;

/// Relies on serde_json into ruma's `CanonicalJsonObject`,
/// `RoomVersionId::rules` and `ruma::signatures::reference_hash`: the
/// content-addressed id of the event text under the version's rules.
#[verifier::external_body]
fn derive_event_id(raw: &str, version: &str) -> (r: Option<String>)
    ensures
        match r {
            Some(x) => reference_event_id(raw@, version@) == Some(x@),
            None => reference_event_id(raw@, version@).is_none(),
        },
{
    let object: ruma::CanonicalJsonObject = serde_json::from_str(raw).ok()?;
    let rules = ruma::RoomVersionId::try_from(version).ok()?.rules()?;
    let hash = ruma::signatures::reference_hash(&object, &rules).ok()?;
    Some(format!("${hash}"))
}

/// Why event text has no canonical form.
pub enum FormatError {
    /// The text is no JSON object.
    NotJson,
    /// The reference hash could not be formed (an unknown room version, an
    /// oversized or unredactable event).
    NoEventId,
}

/// `r` is the outcome of canonicalizing `raw` under `version`.
pub open spec fn canonical_outcome(raw: Seq<char>, version: Seq<char>, r: Result<(String, JsonValue), FormatError>) -> bool {
    match json_text_value(raw) {
        Some(v) => if v is Object {
            match reference_event_id(raw, version) {
                Some(id) => r matches Ok((i, o)) && i@ == id && o == v,
                None => r matches Err(FormatError::NoEventId),
            }
        } else {
            r matches Err(FormatError::NotJson)
        },
        None => r matches Err(FormatError::NotJson),
    }
}

/// Turns event text into its derived id and canonical object.
pub fn gen_event_id_canonical_json(raw: &str, room_version: &RoomVersion) -> (r: Result<(String, JsonValue), FormatError>)
    ensures
        canonical_outcome(raw@, room_version.id_view(), r),
{
    let value = match parse_json(raw) {
        Some(v) => v,
        None => return Err(FormatError::NotJson),
    };
    if !matches!(value, JsonValue::Object(_)) {
        return Err(FormatError::NotJson);
    }
    match derive_event_id(raw, room_version.id().as_str()) {
        Some(id) => Ok((id, value)),
        None => Err(FormatError::NoEventId),
    }
}

/// Canonicalization is a function of the text and the room version: two
/// runs on the same input give the same outcome, the same id included.
pub proof fn lemma_canonicalize_deterministic(
    raw: Seq<char>,
    version: Seq<char>,
    r1: Result<(String, JsonValue), FormatError>,
    r2: Result<(String, JsonValue), FormatError>,
)
    requires
        canonical_outcome(raw, version, r1),
        canonical_outcome(raw, version, r2),
    ensures
        r1 is Ok <==> r2 is Ok,
        r1 matches Ok((i1, o1)) ==> (r2 matches Ok((i2, o2)) && i1@ == i2@ && o1 == o2),
{
}

/// The text stored under `key`, where it is a string.
pub open spec fn text_member(v: JsonValue, key: Seq<char>) -> Option<Seq<char>> {
    match member(v, key) {
        Some(JsonValue::Str(s)) => Some(s@),
        _ => None,
    }
}

pub fn get_text_member(v: &JsonValue, key: &str) -> (r: Option<String>)
    ensures
        match r {
            Some(s) => text_member(*v, key@) == Some(s@),
            None => text_member(*v, key@).is_none(),
        },
{
    match get_member(v, key) {
        Some(JsonValue::Str(s)) => Some(s.clone()),
        _ => None,
    }
}

/// Why event text was refused at the boundary of an inbound request.
pub enum IncomingError {
    /// The text has no canonical form.
    Format(FormatError),
    /// The event names no well-formed room id.
    InvalidRoomId,
    /// The event belongs to another room than the request addresses.
    RoomMismatch,
}

/// Parses an event that arrived in a request addressed to `expected_room`,
/// whose version is `room_version`. Returns its room id, derived id and
/// canonical object.
pub fn parse_incoming_pdu(raw: &str, expected_room: &str, room_version: &RoomVersion) -> (r: Result<(String, String, JsonValue), IncomingError>)
    ensures
        match json_text_value(raw@) {
            Some(v) => if !(v is Object) {
                r matches Err(IncomingError::Format(FormatError::NotJson))
            } else {
                match text_member(v, "room_id"@) {
                    Some(room) => if !is_room_id(room) {
                        r matches Err(IncomingError::InvalidRoomId)
                    } else if room != expected_room@ {
                        r matches Err(IncomingError::RoomMismatch)
                    } else {
                        match reference_event_id(raw@, room_version.id_view()) {
                            Some(id) => r matches Ok((rm, i, o)) && rm@ == room && i@ == id && o == v,
                            None => r matches Err(IncomingError::Format(FormatError::NoEventId)),
                        }
                    },
                    None => r matches Err(IncomingError::InvalidRoomId),
                }
            },
            None => r matches Err(IncomingError::Format(FormatError::NotJson)),
        },
{
    let value = match parse_json(raw) {
        Some(v) => v,
        None => return Err(IncomingError::Format(FormatError::NotJson)),
    };
    if !matches!(value, JsonValue::Object(_)) {
        return Err(IncomingError::Format(FormatError::NotJson));
    }
    let room = match get_text_member(&value, "room_id") {
        Some(r) => r,
        None => return Err(IncomingError::InvalidRoomId),
    };
    if !room_id_valid(room.as_str()) {
        return Err(IncomingError::InvalidRoomId);
    }
    if !crate::text::text_eq(room.as_str(), expected_room) {
        return Err(IncomingError::RoomMismatch);
    }
    match derive_event_id(raw, room_version.id().as_str()) {
        Some(id) => Ok((room, id, value)),
        None => Err(IncomingError::Format(FormatError::NoEventId)),
    }
}

/// The object with `event_id` set to `id`; every other field as it was.
pub fn add_event_id(object: JsonValue, id: &str) -> (r: JsonValue)
    requires
        object is Object,
    ensures
        r is Object,
        text_member(r, "event_id"@) == Some(id@),
        forall|k: Seq<char>| k != "event_id"@ ==> #[trigger] member(r, k) == member(object, k),
{
    match object {
        JsonValue::Object(mut fields) => {
            let ghost before = fields@;
            let entry = (String::from_str("event_id"), JsonValue::Str(id.to_owned()));
            fields.insert(0, entry);
            proof {
                reveal_strlit("event_id");
                assert(fields@.drop_first() =~= before);
            }
            JsonValue::Object(fields)
        },
        _ => object,
    }
}

/// The ids that the `auth_events` array names, skipping entries that are no
/// event ids.
pub open spec fn auth_ids(items: Seq<JsonValue>) -> Seq<Seq<char>>
    decreases items.len(),
{
    if items.len() == 0 {
        Seq::empty()
    } else {
        let rest = auth_ids(items.drop_last());
        match items.last() {
            JsonValue::Str(s) => if is_event_id(s@) {
                rest.push(s@)
            } else {
                rest
            },
            _ => rest,
        }
    }
}

/// The auth events that an event cites; none where the field is missing or
/// no array.
pub open spec fn cited_auth_events(v: JsonValue) -> Seq<Seq<char>> {
    match member(v, "auth_events"@) {
        Some(JsonValue::Array(items)) => auth_ids(items@),
        _ => Seq::empty(),
    }
}

pub fn auth_event_ids(v: &JsonValue) -> (r: Vec<String>)
    ensures
        r@.map_values(|s: String| s@) == cited_auth_events(*v),
{
    let mut out: Vec<String> = Vec::new();
    match get_member(v, "auth_events") {
        Some(JsonValue::Array(items)) => {
            let mut i: usize = 0;
            while i < items.len()
                invariant
                    i <= items@.len(),
                    out@.map_values(|s: String| s@) == auth_ids(items@.subrange(0, i as int)),
                decreases items.len() - i,
            {
                proof {
                    assert(items@.subrange(0, i + 1).drop_last() =~= items@.subrange(0, i as int));
                }
                match &items[i] {
                    JsonValue::Str(s) => {
                        if event_id_valid(s.as_str()) {
                            out.push(s.clone());
                            proof {
                                assert(out@.map_values(|s: String| s@) =~= auth_ids(items@.subrange(0, i as int)).push(s@));
                            }
                        }
                    },
                    _ => {},
                }
                i = i + 1;
            }
            proof {
                assert(items@.subrange(0, items@.len() as int) =~= items@);
            }
            out
        },
        _ => {
            proof {
                assert(out@.map_values(|s: String| s@) =~= Seq::<Seq<char>>::empty());
            }
            out
        },
    }
}

/// The object has the fields every event needs as strings.
pub open spec fn pdu_readable(v: JsonValue) -> bool {
    text_member(v, "room_id"@).is_some() && text_member(v, "sender"@).is_some() && text_member(v, "type"@).is_some()
}

/// `e` is the event with id `event_id` read from the object `v`.
pub open spec fn pdu_of(event_id: Seq<char>, v: JsonValue, e: PduEvent) -> bool {
    &&& e.event_id@ == event_id
    &&& Some(e.room_id@) == text_member(v, "room_id"@)
    &&& Some(e.sender@) == text_member(v, "sender"@)
    &&& Some(e.kind@) == text_member(v, "type"@)
    &&& match e.state_key {
        Some(k) => text_member(v, "state_key"@) == Some(k@),
        None => text_member(v, "state_key"@).is_none(),
    }
    &&& e.auth_events@.map_values(|s: String| s@) == cited_auth_events(v)
}

/// The fields of an event that resolution and authorization read.
pub struct PduEvent {
    pub event_id: String,
    pub room_id: String,
    pub sender: String,
    pub kind: String,
    pub state_key: Option<String>,
    pub auth_events: Vec<String>,
}

impl PduEvent {
    /// Reads an event from its canonical object; `None` where the room id,
    /// sender or type is missing or no string.
    pub fn from_object(event_id: &str, v: &JsonValue) -> (r: Option<PduEvent>)
        ensures
            r.is_some() == pdu_readable(*v),
            r matches Some(e) ==> pdu_of(event_id@, *v, e),
    {
        let room_id = get_text_member(v, "room_id");
        let sender = get_text_member(v, "sender");
        let kind = get_text_member(v, "type");
        match (room_id, sender, kind) {
            (Some(room_id), Some(sender), Some(kind)) => Some(PduEvent {
                event_id: event_id.to_owned(),
                room_id,
                sender,
                kind,
                state_key: get_text_member(v, "state_key"),
                auth_events: auth_event_ids(v),
            }),
            _ => None,
        }
    }

    /// Whether the event carries state.
    pub fn is_state(&self) -> (r: bool)
        ensures
            r == self.state_key.is_some(),
    {
        self.state_key.is_some()
    }
}

} // verus!
