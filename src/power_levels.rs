//! The room's power levels: parsing under the two encodings that room
//! versions select, lookups, and the rule on changing a user's level.

use vstd::prelude::*;
use crate::ids::{user_server, user_server_name};
use crate::json::{field_of, get_member, member, parse_content_json, json_content_value, JsonValue};
use crate::room_version::RoomVersion;
use crate::table::{find_level, insert_first, lookup, sorted};

verus! {

/// The level that absent action thresholds take.
pub const DEFAULT_POWER_LEVEL: i64 = 50;

/// The largest integer that canonical JSON carries.
pub const MAX_SAFE_INT: i64 = 9007199254740991;

/// Whether `c` is whitespace (Unicode `White_Space`, as `char::is_whitespace`).
pub open spec fn is_space(c: char) -> bool {
    ||| ('\u{9}' <= c && c <= '\u{d}')
    ||| c == ' ' || c == '\u{85}' || c == '\u{a0}' || c == '\u{1680}'
    ||| ('\u{2000}' <= c && c <= '\u{200a}')
    ||| c == '\u{2028}' || c == '\u{2029}' || c == '\u{202f}' || c == '\u{205f}' || c == '\u{3000}'
}

/// `s` without leading whitespace.
pub open spec fn trim_start(s: Seq<char>) -> Seq<char>
    decreases s.len(),
{
    if s.len() > 0 && is_space(s[0]) {
        trim_start(s.drop_first())
    } else {
        s
    }
}

/// `s` without trailing whitespace.
pub open spec fn trim_end(s: Seq<char>) -> Seq<char>
    decreases s.len(),
{
    if s.len() > 0 && is_space(s.last()) {
        trim_end(s.drop_last())
    } else {
        s
    }
}

pub open spec fn digit_value(c: char) -> int {
    if c == '0' { 0 } else if c == '1' { 1 } else if c == '2' { 2 } else if c == '3' { 3 } else if c == '4' { 4 }
    else if c == '5' { 5 } else if c == '6' { 6 } else if c == '7' { 7 } else if c == '8' { 8 } else { 9 }
}

/// One or more ASCII decimal digits.
pub open spec fn all_digits(s: Seq<char>) -> bool {
    s.len() > 0 && forall|i: int| 0 <= i < s.len() ==> '0' <= #[trigger] s[i] && s[i] <= '9'
}

/// The number that decimal digits spell.
pub open spec fn digits_value(s: Seq<char>) -> int
    decreases s.len(),
{
    if s.len() == 0 {
        0
    } else {
        digits_value(s.drop_last()) * 10 + digit_value(s.last())
    }
}

/// Digits, after an optional sign already removed, as a level of the given
/// sign, where it fits the safe integer range.
pub open spec fn signed_level(d: Seq<char>, negative: bool) -> Option<i64> {
    if all_digits(d) && digits_value(d) <= MAX_SAFE_INT {
        Some((if negative { -digits_value(d) } else { digits_value(d) }) as i64)
    } else {
        None
    }
}

/// The level that a legacy string-encoded level denotes: the trimmed text
/// is `+` followed by an unsigned integer (itself with an optional `+`), or
/// a signed integer (optional `-`), within the safe integer range.
pub open spec fn powerlevel_text_value(s: Seq<char>) -> Option<i64> {
    let t = trim_end(trim_start(s));
    if t.len() > 0 && t[0] == '+' {
        let u = t.drop_first();
        if u.len() > 0 && u[0] == '+' {
            signed_level(u.drop_first(), false)
        } else {
            signed_level(u, false)
        }
    } else if t.len() > 0 && t[0] == '-' {
        signed_level(t.drop_first(), true)
    } else {
        signed_level(t, false)
    }
}

/// Relies on ruma's `deserialize_v1_powerlevel` applied to a JSON string: it
/// trims the text, parses a leading `+` as `UInt` (`u64::from_str`) and
/// anything else as `Int` (`i64::from_str`), both bounded to the safe range.
#[verifier::external_body]
fn level_from_text(s: &str) -> (r: Option<i64>)
    ensures
        r == powerlevel_text_value(s@),
        r matches Some(n) ==> -MAX_SAFE_INT <= n <= MAX_SAFE_INT,
{
    ruma::serde::deserialize_v1_powerlevel(serde_json::Value::String(s.to_owned())).ok().map(i64::from)
}

/// The level that a JSON value denotes: an integer, or under the legacy
/// encoding also a string holding one.
pub open spec fn level_value(v: JsonValue, integer_only: bool) -> Option<i64> {
    match v {
        JsonValue::Integer(n) => if -MAX_SAFE_INT <= n <= MAX_SAFE_INT {
            Some(n)
        } else {
            None
        },
        JsonValue::Str(s) => if integer_only {
            None
        } else {
            powerlevel_text_value(s@)
        },
        _ => None,
    }
}

/// The threshold stored under `key`, or `default` where it is absent;
/// `None` where it is present and no level.
pub open spec fn level_field(c: JsonValue, key: Seq<char>, integer_only: bool, default: i64) -> Option<i64> {
    match member(c, key) {
        None => Some(default),
        Some(v) => level_value(v, integer_only),
    }
}

/// The level that the entries of an object give to `name`.
pub open spec fn entry_level(f: Seq<(String, JsonValue)>, name: Seq<char>, integer_only: bool) -> Option<i64> {
    match field_of(f, name) {
        Some(v) => level_value(v, integer_only),
        None => None,
    }
}

/// Every entry of the object is a level, and for a user table names a user.
pub open spec fn entries_ok(f: Seq<(String, JsonValue)>, integer_only: bool, users: bool) -> bool {
    forall|i: int|
        0 <= i < f.len() ==> level_value(#[trigger] f[i].1, integer_only).is_some() && (users
            ==> user_server(f[i].0@).is_some())
}

/// The table under `key` is absent, or an object of valid entries.
pub open spec fn table_field_ok(c: JsonValue, key: Seq<char>, integer_only: bool, users: bool) -> bool {
    match member(c, key) {
        None => true,
        Some(JsonValue::Object(f)) => entries_ok(f@, integer_only, users),
        _ => false,
    }
}

/// The level that the table under `key` gives to `name`.
pub open spec fn table_field_entry(c: JsonValue, key: Seq<char>, name: Seq<char>, integer_only: bool) -> Option<i64> {
    match member(c, key) {
        Some(JsonValue::Object(f)) => entry_level(f@, name, integer_only),
        _ => None,
    }
}

/// The notification threshold for `@room`.
pub open spec fn notifications_room(c: JsonValue, integer_only: bool) -> Option<i64> {
    match member(c, "notifications"@) {
        None => Some(DEFAULT_POWER_LEVEL),
        Some(n) => if n is Object {
            level_field(n, "room"@, integer_only, DEFAULT_POWER_LEVEL)
        } else {
            None
        },
    }
}

/// A table read from JSON: sorted, and giving each name its level there.
pub open spec fn table_of(t: Seq<(String, i64)>, c: JsonValue, key: Seq<char>, integer_only: bool) -> bool {
    &&& sorted(t)
    &&& forall|name: Seq<char>| #[trigger] lookup(t, name) == table_field_entry(c, key, name, integer_only)
}

/// The full power-levels content.
pub struct PowerLevels {
    pub ban: i64,
    pub events: Vec<(String, i64)>,
    pub events_default: i64,
    pub invite: i64,
    pub kick: i64,
    pub redact: i64,
    pub state_default: i64,
    pub users: Vec<(String, i64)>,
    pub users_default: i64,
    pub notifications_room: i64,
}

/// Whether the content parses as power levels under the encoding.
pub open spec fn power_levels_valid(c: JsonValue, integer_only: bool) -> bool {
    &&& c is Object
    &&& level_field(c, "ban"@, integer_only, DEFAULT_POWER_LEVEL).is_some()
    &&& level_field(c, "events_default"@, integer_only, 0).is_some()
    &&& level_field(c, "invite"@, integer_only, 0).is_some()
    &&& level_field(c, "kick"@, integer_only, DEFAULT_POWER_LEVEL).is_some()
    &&& level_field(c, "redact"@, integer_only, DEFAULT_POWER_LEVEL).is_some()
    &&& level_field(c, "state_default"@, integer_only, DEFAULT_POWER_LEVEL).is_some()
    &&& level_field(c, "users_default"@, integer_only, 0).is_some()
    &&& table_field_ok(c, "events"@, integer_only, false)
    &&& table_field_ok(c, "users"@, integer_only, true)
    &&& notifications_room(c, integer_only).is_some()
}

/// `p` is what the content holds, defaults filled in.
pub open spec fn describes(p: PowerLevels, c: JsonValue, integer_only: bool) -> bool {
    &&& Some(p.ban) == level_field(c, "ban"@, integer_only, DEFAULT_POWER_LEVEL)
    &&& Some(p.events_default) == level_field(c, "events_default"@, integer_only, 0)
    &&& Some(p.invite) == level_field(c, "invite"@, integer_only, 0)
    &&& Some(p.kick) == level_field(c, "kick"@, integer_only, DEFAULT_POWER_LEVEL)
    &&& Some(p.redact) == level_field(c, "redact"@, integer_only, DEFAULT_POWER_LEVEL)
    &&& Some(p.state_default) == level_field(c, "state_default"@, integer_only, DEFAULT_POWER_LEVEL)
    &&& Some(p.users_default) == level_field(c, "users_default"@, integer_only, 0)
    &&& table_of(p.events@, c, "events"@, integer_only)
    &&& table_of(p.users@, c, "users"@, integer_only)
    &&& Some(p.notifications_room) == notifications_room(c, integer_only)
}

fn read_level(c: &JsonValue, key: &str, integer_only: bool, default: i64) -> (r: Option<i64>)
    ensures
        r == level_field(*c, key@, integer_only, default),
{
    match get_member(c, key) {
        None => Some(default),
        Some(v) => read_value(v, integer_only),
    }
}

fn read_value(v: &JsonValue, integer_only: bool) -> (r: Option<i64>)
    ensures
        r == level_value(*v, integer_only),
{
    match v {
        JsonValue::Integer(n) => if -MAX_SAFE_INT <= *n && *n <= MAX_SAFE_INT {
            Some(*n)
        } else {
            None
        },
        JsonValue::Str(s) => if integer_only {
            None
        } else {
            level_from_text(s.as_str())
        },
        _ => None,
    }
}

proof fn lemma_field_of_push(f: Seq<(String, JsonValue)>, x: (String, JsonValue), name: Seq<char>)
    ensures
        field_of(f.push(x), name) == if field_of(f, name).is_some() {
            field_of(f, name)
        } else if x.0@ == name {
            Some(x.1)
        } else {
            None
        },
    decreases f.len(),
{
    if f.len() > 0 {
        assert(f.push(x).drop_first() =~= f.drop_first().push(x));
        assert(f.push(x)[0] == f[0]);
        lemma_field_of_push(f.drop_first(), x, name);
    } else {
        assert(f.push(x).drop_first() =~= Seq::<(String, JsonValue)>::empty());
        assert(f.push(x)[0] == x);
        assert(field_of(Seq::<(String, JsonValue)>::empty(), name).is_none());
    }
}

/// Reads a table of levels from the entries of an object.
fn read_table(f: &Vec<(String, JsonValue)>, integer_only: bool, users: bool) -> (r: Option<Vec<(String, i64)>>)
    ensures
        r.is_some() == entries_ok(f@, integer_only, users),
        r matches Some(t) ==> sorted(t@) && forall|name: Seq<char>|
            #[trigger] lookup(t@, name) == entry_level(f@, name, integer_only),
{
    let mut t: Vec<(String, i64)> = Vec::new();
    let mut i: usize = 0;
    while i < f.len()
        invariant
            i <= f@.len(),
            sorted(t@),
            entries_ok(f@.subrange(0, i as int), integer_only, users),
            forall|name: Seq<char>| #[trigger] lookup(t@, name) == entry_level(f@.subrange(0, i as int), name, integer_only),
        decreases f.len() - i,
    {
        let ghost pre = f@.subrange(0, i as int);
        let ghost next = f@.subrange(0, i + 1);
        assert(next =~= pre.push(f@[i as int]));
        let lv = read_value(&f[i].1, integer_only);
        let level = match lv {
            Some(l) => l,
            None => {
                assert(!entries_ok(f@, integer_only, users)) by {
                    assert(level_value(f@[i as int].1, integer_only).is_none());
                }
                return None;
            },
        };
        if users {
            match user_server_name(f[i].0.as_str()) {
                Some(_) => {},
                None => {
                    assert(!entries_ok(f@, integer_only, users)) by {
                        assert(level_value(f@[i as int].1, integer_only).is_some());
                    }
                    return None;
                },
            }
        }
        let ghost before = t@;
        insert_first(&mut t, f[i].0.clone(), level);
        proof {
            assert forall|name: Seq<char>| #[trigger] lookup(t@, name) == entry_level(next, name, integer_only) by {
                lemma_field_of_push(pre, f@[i as int], name);
                assert(lookup(before, name) == entry_level(pre, name, integer_only));
                if field_of(pre, name).is_some() {
                    assert(level_value(field_of(pre, name).unwrap(), integer_only).is_some()) by {
                        lemma_field_of_in(pre, name);
                    }
                }
            }
            assert forall|j: int| 0 <= j < next.len() implies level_value(#[trigger] next[j].1, integer_only).is_some() && (users
                ==> user_server(next[j].0@).is_some()) by {
                if j < i {
                    assert(next[j] == pre[j]);
                }
            }
        }
        i = i + 1;
    }
    proof {
        assert(f@.subrange(0, f@.len() as int) =~= f@);
    }
    Some(t)
}

proof fn lemma_field_of_in(f: Seq<(String, JsonValue)>, name: Seq<char>)
    requires
        field_of(f, name).is_some(),
    ensures
        exists|j: int| 0 <= j < f.len() && #[trigger] f[j].1 == field_of(f, name).unwrap(),
    decreases f.len(),
{
    if f[0].0@ != name {
        lemma_field_of_in(f.drop_first(), name);
        let j = choose|j: int| 0 <= j < f.len() - 1 && #[trigger] f.drop_first()[j].1 == field_of(f, name).unwrap();
        assert(f[j + 1] == f.drop_first()[j]);
    } else {
        assert(f[0].1 == field_of(f, name).unwrap());
    }
}

/// Reads the table under `key`; an absent one is empty.
fn read_table_field(c: &JsonValue, key: &str, integer_only: bool, users: bool) -> (r: Option<Vec<(String, i64)>>)
    ensures
        r.is_some() == table_field_ok(*c, key@, integer_only, users),
        r matches Some(t) ==> table_of(t@, *c, key@, integer_only),
{
    match get_member(c, key) {
        None => Some(Vec::new()),
        Some(JsonValue::Object(f)) => read_table(f, integer_only, users),
        Some(_) => None,
    }
}

/// Reads power levels from parsed content under the given encoding
/// (`integer_only` for the strict one).
pub fn power_levels_from_json(c: &JsonValue, integer_only: bool) -> (r: Option<PowerLevels>)
    ensures
        r.is_some() == power_levels_valid(*c, integer_only),
        r matches Some(p) ==> describes(p, *c, integer_only),
{
    if !matches!(c, JsonValue::Object(_)) {
        return None;
    }
    let ban = read_level(c, "ban", integer_only, DEFAULT_POWER_LEVEL);
    let events_default = read_level(c, "events_default", integer_only, 0);
    let invite = read_level(c, "invite", integer_only, 0);
    let kick = read_level(c, "kick", integer_only, DEFAULT_POWER_LEVEL);
    let redact = read_level(c, "redact", integer_only, DEFAULT_POWER_LEVEL);
    let state_default = read_level(c, "state_default", integer_only, DEFAULT_POWER_LEVEL);
    let users_default = read_level(c, "users_default", integer_only, 0);
    let events = read_table_field(c, "events", integer_only, false);
    let users = read_table_field(c, "users", integer_only, true);
    let room = match get_member(c, "notifications") {
        None => Some(DEFAULT_POWER_LEVEL),
        Some(n) => if matches!(n, JsonValue::Object(_)) {
            read_level(n, "room", integer_only, DEFAULT_POWER_LEVEL)
        } else {
            None
        },
    };
    match (ban, events_default, invite, kick, redact, state_default, users_default, events, users, room) {
        (Some(ban), Some(events_default), Some(invite), Some(kick), Some(redact), Some(state_default), Some(users_default), Some(events), Some(users), Some(notifications_room)) => {
            Some(PowerLevels { ban, events, events_default, invite, kick, redact, state_default, users, users_default, notifications_room })
        },
        _ => None,
    }
}

/// Parses power-levels content text under the room version's encoding.
/// `None` where the text is no JSON or breaks the encoding: the caller then
/// treats the room as having no usable power levels.
pub fn deserialize_power_levels(content: &str, room_version: &RoomVersion) -> (r: Option<PowerLevels>)
    ensures
        match json_content_value(content@) {
            None => r.is_none(),
            Some(c) => r.is_some() == power_levels_valid(c, room_version.integer_only())
                && (r matches Some(p) ==> describes(p, c, room_version.integer_only())),
        },
{
    match parse_content_json(content) {
        None => None,
        Some(c) => power_levels_from_json(&c, room_version.integer_power_levels()),
    }
}

/// The level of `user`: the table's entry, or the default.
pub open spec fn level_of_user(users: Seq<(String, i64)>, users_default: i64, user: Seq<char>) -> i64 {
    match lookup(users, user) {
        Some(l) => l,
        None => users_default,
    }
}

/// The level needed to send a power-levels event.
pub open spec fn change_threshold(p: PowerLevels) -> i64 {
    match lookup(p.events@, "m.room.power_levels"@) {
        Some(l) => l,
        None => p.state_default,
    }
}

/// Whether `actor` may set `target`'s level to `new_level`. The room's
/// creator may always set their own level. Otherwise the room needs power
/// levels, and the actor must be above the target's current level, at least
/// the new level, and at least the threshold for changing power levels.
pub open spec fn may_change_user_level(
    levels: Option<PowerLevels>,
    creator: Seq<char>,
    actor: Seq<char>,
    target: Seq<char>,
    new_level: i64,
) -> bool {
    if actor == creator && target == actor {
        true
    } else {
        match levels {
            None => false,
            Some(p) => {
                let a = level_of_user(p.users@, p.users_default, actor);
                &&& a > level_of_user(p.users@, p.users_default, target)
                &&& a >= new_level
                &&& a >= change_threshold(p)
            },
        }
    }
}

impl PowerLevels {
    /// The effective level of `user`.
    pub fn user_power(&self, user: &str) -> (r: i64)
        requires
            sorted(self.users@),
        ensures
            r == level_of_user(self.users@, self.users_default, user@),
    {
        match find_level(&self.users, user) {
            Some(l) => l,
            None => self.users_default,
        }
    }

    pub fn ban_level(&self) -> (r: i64)
        ensures
            r == self.ban,
    {
        self.ban
    }

    pub fn kick_level(&self) -> (r: i64)
        ensures
            r == self.kick,
    {
        self.kick
    }

    pub fn invite_level(&self) -> (r: i64)
        ensures
            r == self.invite,
    {
        self.invite
    }

    pub fn redact_level(&self) -> (r: i64)
        ensures
            r == self.redact,
    {
        self.redact
    }
}

/// Decides whether `actor` may set `target`'s level to `new_level`, given the
/// room's power levels (`None` where the room has none usable) and the
/// sender of its creation event.
pub fn can_change_user_power_level(
    levels: Option<&PowerLevels>,
    creator: &str,
    actor: &str,
    target: &str,
    new_level: i64,
) -> (r: bool)
    requires
        levels matches Some(p) ==> sorted(p.users@) && sorted(p.events@),
    ensures
        r == may_change_user_level(
            match levels {
                Some(p) => Some(*p),
                None => None,
            },
            creator@,
            actor@,
            target@,
            new_level,
        ),
{
    if crate::text::text_eq(actor, creator) && crate::text::text_eq(target, actor) {
        return true;
    }
    match levels {
        None => false,
        Some(p) => {
            let a = p.user_power(actor);
            let t = p.user_power(target);
            let threshold = match find_level(&p.events, "m.room.power_levels") {
                Some(l) => l,
                None => p.state_default,
            };
            a > t && a >= new_level && a >= threshold
        },
    }
}

/// A user who is not the creator cannot change the level of anyone whose
/// effective level is at least their own; and the creator may always change
/// their own level, even where the room has no power levels.
pub proof fn lemma_change_needs_more_power(
    levels: Option<PowerLevels>,
    creator: Seq<char>,
    actor: Seq<char>,
    target: Seq<char>,
    new_level: i64,
)
    ensures
        actor != creator && (levels matches Some(p) ==> level_of_user(p.users@, p.users_default, actor)
            <= level_of_user(p.users@, p.users_default, target))
            ==> !may_change_user_level(levels, creator, actor, target, new_level),
        may_change_user_level(None, creator, creator, creator, new_level),
{
}

/// The users table and default, read without the rest of the content.
pub struct PowerLevelsContentFields {
    pub users: Vec<(String, i64)>,
    pub users_default: i64,
}

impl PowerLevelsContentFields {
    /// The explicit level of `user_id`, if the table has one.
    pub fn get_user_power(&self, user_id: &str) -> (r: Option<i64>)
        requires
            sorted(self.users@),
        ensures
            r == lookup(self.users@, user_id@),
    {
        find_level(&self.users, user_id)
    }
}

/// Why power-levels content could not be read.
pub enum ParseError {
    /// The text is no JSON.
    NotJson,
    /// The JSON does not have the shape that the encoding asks for.
    Invalid,
}

/// Reads only the users table and default.
pub fn power_levels_fields_from_json(c: &JsonValue, integer_only: bool) -> (r: Option<PowerLevelsContentFields>)
    ensures
        r.is_some() == (c is Object && level_field(*c, "users_default"@, integer_only, 0).is_some()
            && table_field_ok(*c, "users"@, integer_only, true)),
        r matches Some(p) ==> Some(p.users_default) == level_field(*c, "users_default"@, integer_only, 0)
            && table_of(p.users@, *c, "users"@, integer_only),
{
    if !matches!(c, JsonValue::Object(_)) {
        return None;
    }
    let users_default = read_level(c, "users_default", integer_only, 0);
    let users = read_table_field(c, "users", integer_only, true);
    match (users, users_default) {
        (Some(users), Some(users_default)) => Some(PowerLevelsContentFields { users, users_default }),
        _ => None,
    }
}

/// Parses the users table and default from content text.
pub fn deserialize_power_levels_content_fields(content: &str, room_version: &RoomVersion) -> (r: Result<PowerLevelsContentFields, ParseError>)
    ensures
        match json_content_value(content@) {
            None => r matches Err(ParseError::NotJson),
            Some(c) => {
                let io = room_version.integer_only();
                &&& r is Ok == (c is Object && level_field(c, "users_default"@, io, 0).is_some()
                    && table_field_ok(c, "users"@, io, true))
                &&& r is Err ==> (r matches Err(ParseError::Invalid))
                &&& (r matches Ok(p) ==> Some(p.users_default) == level_field(c, "users_default"@, io, 0)
                    && table_of(p.users@, c, "users"@, io))
            },
        },
{
    match parse_content_json(content) {
        None => Err(ParseError::NotJson),
        Some(c) => match power_levels_fields_from_json(&c, room_version.integer_power_levels()) {
            Some(p) => Ok(p),
            None => Err(ParseError::Invalid),
        },
    }
}

/// The invite threshold alone.
pub struct PowerLevelsContentInvite {
    pub invite: i64,
}

/// Parses the invite threshold (0 where absent) from content text.
pub fn deserialize_power_levels_content_invite(content: &str, room_version: &RoomVersion) -> (r: Result<PowerLevelsContentInvite, ParseError>)
    ensures
        match json_content_value(content@) {
            None => r matches Err(ParseError::NotJson),
            Some(c) => {
                let lv = level_field(c, "invite"@, room_version.integer_only(), 0);
                if c is Object && lv.is_some() {
                    r matches Ok(p) && Some(p.invite) == lv
                } else {
                    r matches Err(ParseError::Invalid)
                }
            },
        },
{
    match parse_content_json(content) {
        None => Err(ParseError::NotJson),
        Some(c) => {
            if !matches!(c, JsonValue::Object(_)) {
                return Err(ParseError::Invalid);
            }
            match read_level(&c, "invite", room_version.integer_power_levels(), 0) {
                Some(invite) => Ok(PowerLevelsContentInvite { invite }),
                None => Err(ParseError::Invalid),
            }
        },
    }
}

/// The redaction threshold alone.
pub struct PowerLevelsContentRedact {
    pub redact: i64,
}

/// Parses the redaction threshold (the default level where absent) from
/// content text.
pub fn deserialize_power_levels_content_redact(content: &str, room_version: &RoomVersion) -> (r: Result<PowerLevelsContentRedact, ParseError>)
    ensures
        match json_content_value(content@) {
            None => r matches Err(ParseError::NotJson),
            Some(c) => {
                let lv = level_field(c, "redact"@, room_version.integer_only(), DEFAULT_POWER_LEVEL);
                if c is Object && lv.is_some() {
                    r matches Ok(p) && Some(p.redact) == lv
                } else {
                    r matches Err(ParseError::Invalid)
                }
            },
        },
{
    match parse_content_json(content) {
        None => Err(ParseError::NotJson),
        Some(c) => {
            if !matches!(c, JsonValue::Object(_)) {
                return Err(ParseError::Invalid);
            }
            match read_level(&c, "redact", room_version.integer_power_levels(), DEFAULT_POWER_LEVEL) {
                Some(redact) => Ok(PowerLevelsContentRedact { redact }),
                None => Err(ParseError::Invalid),
            }
        },
    }
}

} // verus!
