//! Checking an event's content hash and signatures against the signing keys
//! of the servers it names.

use vstd::prelude::*;
use crate::event::{add_event_id, gen_event_id_canonical_json, canonical_outcome, text_member, get_text_member, FormatError};
use crate::ids::{user_server, user_server_name};
use crate::json::{get_member, member, JsonValue};
use crate::room_version::RoomVersion;
use crate::text::text_eq;

verus! {

/// A known signing key: server name, key id, base64 public key.
pub type KeyEntry = (String, String, String);

pub open spec fn keys_view(keys: Seq<KeyEntry>) -> Seq<(Seq<char>, Seq<char>, Seq<char>)> {
    keys.map_values(|k: KeyEntry| (k.0@, k.1@, k.2@))
}

/// What event verification concludes for the text, keys and room version:
/// `Some(true)` where signatures and content hash hold, `Some(false)` where
/// only the signatures hold, `None` where a required signature is missing or
/// invalid or the input is unusable.
pub uninterp spec fn event_verdict(raw: Seq<char>, keys: Seq<(Seq<char>, Seq<char>, Seq<char>)>, version: Seq<char>) -> Option<bool>;

/// Whether every signature on the JSON text holds under the keys.
pub uninterp spec fn json_signatures_hold(raw: Seq<char>, keys: Seq<(Seq<char>, Seq<char>, Seq<char>)>) -> bool;

/// Relies on `ruma::signatures::verify_event` (with serde_json into
/// `CanonicalJsonObject`, `RoomVersionId::rules`, `Base64::parse` for the
/// keys): its verdict on the event.
#[verifier::external_body]
fn ruma_verify_event(raw: &str, keys: &Vec<KeyEntry>, version: &str) -> (r: Option<bool>)
    ensures
        r == event_verdict(raw@, keys_view(keys@), version@),
{
    let object: ruma::CanonicalJsonObject = serde_json::from_str(raw).ok()?;
    let rules = ruma::RoomVersionId::try_from(version).ok()?.rules()?;
    let mut map = ruma::signatures::PublicKeyMap::new();
    for (server, key_id, key) in keys {
        let key = ruma::serde::Base64::parse(key).ok()?;
        map.entry(server.clone()).or_default().insert(key_id.clone(), key);
    }
    let verified = ruma::signatures::verify_event(&map, &object, &rules).ok()?;
    Some(matches!(verified, ruma::signatures::Verified::All))
}

/// Relies on `ruma::signatures::verify_json` (with serde_json into
/// `CanonicalJsonObject` and `Base64::parse` for the keys): whether it
/// accepts the object.
#[verifier::external_body]
fn ruma_verify_json(raw: &str, keys: &Vec<KeyEntry>) -> (r: bool)
    ensures
        r == json_signatures_hold(raw@, keys_view(keys@)),
{
    let Ok(object) = serde_json::from_str::<ruma::CanonicalJsonObject>(raw) else { return false };
    let mut map = ruma::signatures::PublicKeyMap::new();
    for (server, key_id, key) in keys {
        let Ok(key) = ruma::serde::Base64::parse(key) else { return false };
        map.entry(server.clone()).or_default().insert(key_id.clone(), key);
    }
    ruma::signatures::verify_json(&map, &object).is_ok()
}

/// How much of an event verified.
pub enum Verified {
    /// Signatures and content hash.
    All,
    /// Signatures only: the content was altered, so the event must be
    /// redacted before use.
    Signatures,
}

/// Why an event failed verification.
pub enum VerificationError {
    /// The text has no canonical form.
    Format(FormatError),
    /// A key that the event needs is not among the known keys.
    MissingKeys,
    /// A required signature is missing or invalid.
    SignatureInvalid,
}

/// Checks the event's hash and signatures.
pub fn verify_event(raw: &str, room_version: &RoomVersion, keys: &Vec<KeyEntry>) -> (r: Result<Verified, VerificationError>)
    ensures
        match event_verdict(raw@, keys_view(keys@), room_version.id_view()) {
            Some(true) => r matches Ok(Verified::All),
            Some(false) => r matches Ok(Verified::Signatures),
            None => r matches Err(VerificationError::SignatureInvalid),
        },
{
    match ruma_verify_event(raw, keys, room_version.id().as_str()) {
        Some(true) => Ok(Verified::All),
        Some(false) => Ok(Verified::Signatures),
        None => Err(VerificationError::SignatureInvalid),
    }
}

/// Checks the signatures on any signed JSON object.
pub fn verify_json(raw: &str, keys: &Vec<KeyEntry>) -> (r: Result<(), VerificationError>)
    ensures
        r is Ok == json_signatures_hold(raw@, keys_view(keys@)),
        r is Err ==> (r matches Err(VerificationError::SignatureInvalid)),
{
    if ruma_verify_json(raw, keys) {
        Ok(())
    } else {
        Err(VerificationError::SignatureInvalid)
    }
}

/// The server whose keys the event needs (its sender's) and the entries of
/// that server's signatures, whose names are the key ids.
pub open spec fn signing_keys_of(v: JsonValue) -> Option<(Seq<char>, Seq<(String, JsonValue)>)> {
    match text_member(v, "sender"@) {
        Some(sender) => match user_server(sender) {
            Some(server) => match member(v, "signatures"@) {
                Some(sigs) => match member(sigs, server) {
                    Some(JsonValue::Object(f)) => Some((server, f@)),
                    _ => None,
                },
                None => None,
            },
            None => None,
        },
        None => None,
    }
}

pub open spec fn key_known(keys: Seq<KeyEntry>, server: Seq<char>, key_id: Seq<char>) -> bool {
    exists|i: int| 0 <= i < keys.len() && #[trigger] keys[i].0@ == server && keys[i].1@ == key_id
}

/// Every key id named among the signatures `f` of `server` is known.
pub open spec fn keys_cover(keys: Seq<KeyEntry>, server: Seq<char>, f: Seq<(String, JsonValue)>) -> bool {
    forall|i: int| 0 <= i < f.len() ==> key_known(keys, server, #[trigger] f[i].0@)
}

/// All keys that the event was signed with by its sender's server are known.
pub open spec fn required_keys_present(v: JsonValue, keys: Seq<KeyEntry>) -> bool {
    match signing_keys_of(v) {
        Some((server, f)) => keys_cover(keys, server, f),
        None => false,
    }
}

fn find_key(keys: &Vec<KeyEntry>, server: &str, key_id: &str) -> (r: bool)
    ensures
        r == key_known(keys@, server@, key_id@),
{
    let mut i: usize = 0;
    while i < keys.len()
        invariant
            i <= keys@.len(),
            forall|j: int| 0 <= j < i ==> !(#[trigger] keys@[j].0@ == server@ && keys@[j].1@ == key_id@),
        decreases keys.len() - i,
    {
        if text_eq(keys[i].0.as_str(), server) && text_eq(keys[i].1.as_str(), key_id) {
            return true;
        }
        i = i + 1;
    }
    false
}

/// Whether the keys needed to verify the event are all known already.
pub fn required_keys_exist(v: &JsonValue, keys: &Vec<KeyEntry>) -> (r: bool)
    ensures
        r == required_keys_present(*v, keys@),
{
    let sender = match get_text_member(v, "sender") {
        Some(s) => s,
        None => return false,
    };
    let server = match user_server_name(sender.as_str()) {
        Some(s) => s,
        None => return false,
    };
    let sigs = match get_member(v, "signatures") {
        Some(s) => s,
        None => return false,
    };
    let f = match get_member(sigs, server.as_str()) {
        Some(JsonValue::Object(f)) => f,
        _ => return false,
    };
    let mut i: usize = 0;
    while i < f.len()
        invariant
            i <= f@.len(),
            signing_keys_of(*v) == Some((server@, f@)),
            forall|j: int| 0 <= j < i ==> key_known(keys@, server@, #[trigger] f@[j].0@),
        decreases f.len() - i,
    {
        if !find_key(keys, server.as_str(), f[i].0.as_str()) {
            assert(!key_known(keys@, server@, f@[i as int].0@));
            assert(!keys_cover(keys@, server@, f@));
            return false;
        }
        i = i + 1;
    }
    true
}

/// Canonicalizes, verifies, and stamps the derived id into the object.
pub fn validate_and_add_event_id(raw: &str, room_version: &RoomVersion, keys: &Vec<KeyEntry>) -> (r: Result<(String, JsonValue), VerificationError>)
    ensures
        match json_canonical(raw@, room_version.id_view()) {
            Err(e) => r matches Err(VerificationError::Format(f)) && f == e,
            Ok(id) => if event_verdict(raw@, keys_view(keys@), room_version.id_view()).is_none() {
                r matches Err(VerificationError::SignatureInvalid)
            } else {
                r matches Ok((i, o)) && i@ == id && stamped(o, json_object_of(raw@), id)
            },
        },
{
    let (event_id, value) = match gen_event_id_canonical_json(raw, room_version) {
        Ok(p) => p,
        Err(e) => return Err(VerificationError::Format(e)),
    };
    if let Err(e) = verify_event(raw, room_version, keys) {
        return Err(e);
    }
    let value = add_event_id(value, event_id.as_str());
    Ok((event_id, value))
}

/// As `validate_and_add_event_id`, but fails at once, before verifying,
/// where a needed key is not known already.
pub fn validate_and_add_event_id_no_fetch(raw: &str, room_version: &RoomVersion, keys: &Vec<KeyEntry>) -> (r: Result<(String, JsonValue), VerificationError>)
    ensures
        match json_canonical(raw@, room_version.id_view()) {
            Err(e) => r matches Err(VerificationError::Format(f)) && f == e,
            Ok(id) => if !required_keys_present(json_object_of(raw@), keys@) {
                r matches Err(VerificationError::MissingKeys)
            } else if event_verdict(raw@, keys_view(keys@), room_version.id_view()).is_none() {
                r matches Err(VerificationError::SignatureInvalid)
            } else {
                r matches Ok((i, o)) && i@ == id && stamped(o, json_object_of(raw@), id)
            },
        },
{
    let (event_id, value) = match gen_event_id_canonical_json(raw, room_version) {
        Ok(p) => p,
        Err(e) => return Err(VerificationError::Format(e)),
    };
    if !required_keys_exist(&value, keys) {
        return Err(VerificationError::MissingKeys);
    }
    if let Err(e) = verify_event(raw, room_version, keys) {
        return Err(e);
    }
    let value = add_event_id(value, event_id.as_str());
    Ok((event_id, value))
}

/// `o` is the object `v` with `event_id` set to `id` and nothing else
/// changed.
pub open spec fn stamped(o: JsonValue, v: JsonValue, id: Seq<char>) -> bool {
    &&& o is Object
    &&& text_member(o, "event_id"@) == Some(id)
    &&& forall|k: Seq<char>| k != "event_id"@ ==> #[trigger] member(o, k) == member(v, k)
}

/// The derived id of event text, or why it has none.
pub open spec fn json_canonical(raw: Seq<char>, version: Seq<char>) -> Result<Seq<char>, FormatError> {
    match crate::json::json_text_value(raw) {
        Some(v) => if v is Object {
            match crate::event::reference_event_id(raw, version) {
                Some(id) => Ok(id),
                None => Err(FormatError::NoEventId),
            }
        } else {
            Err(FormatError::NotJson)
        },
        None => Err(FormatError::NotJson),
    }
}

/// The JSON value of text that parses.
pub open spec fn json_object_of(raw: Seq<char>) -> JsonValue {
    crate::json::json_text_value(raw).unwrap()
}

} // verus!
