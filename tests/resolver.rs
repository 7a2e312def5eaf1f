use std::collections::HashMap;

use event_ingest::backoff::BadEventRegistry;
use event_ingest::event::PduEvent;
use event_ingest::json::{get_member, JsonValue};
use event_ingest::outlier::OutlierStore;
use event_ingest::resolver::{Action, Reply, Resolver};
use event_ingest::room_version::RoomVersion;

/// A fake network and admitter: events the origin serves by requested id,
/// ids known locally, fetches that fail, and a record of every call.
struct World {
    remote: HashMap<String, String>,
    local: Vec<String>,
    failing: Vec<String>,
    fetches: Vec<String>,
    admitted: Vec<String>,
    store: OutlierStore,
    outlier_when_reported: Vec<bool>,
}

fn raw_event(body: &str, auth: &[&str]) -> String {
    let auth: Vec<String> = auth.iter().map(|a| format!("\"{a}\"")).collect();
    format!(
        r#"{{"type":"m.room.message","room_id":"!r:x","sender":"@a:x","content":{{"body":"{body}"}},"auth_events":[{}],"prev_events":[],"depth":1,"origin_server_ts":1}}"#,
        auth.join(",")
    )
}

fn body_of(v: &JsonValue) -> String {
    match get_member(v, "content").and_then(|c| get_member(c, "body")) {
        Some(JsonValue::Str(s)) => s.clone(),
        _ => String::new(),
    }
}

fn local_pdu(id: &str) -> PduEvent {
    PduEvent {
        event_id: id.to_string(),
        room_id: "!r:x".to_string(),
        sender: "@a:x".to_string(),
        kind: "m.room.message".to_string(),
        state_key: None,
        auth_events: vec![],
    }
}

fn run(world: &mut World, requested: &[&str], registry: &mut BadEventRegistry, now: u64) -> Vec<(PduEvent, Option<JsonValue>)> {
    let ids: Vec<String> = requested.iter().map(|s| s.to_string()).collect();
    let mut r = Resolver::new(ids, RoomVersion::from_id("10").unwrap());
    let mut steps = 0;
    loop {
        steps += 1;
        assert!(steps < 1000);
        let reply = match r.next_action(registry, now) {
            Action::Done => break,
            Action::LookupLocal(id) => {
                let found = world.local.contains(&id) || world.store.get_outlier_pdu_json(&id).is_some();
                Reply::Local(if found { Some(local_pdu(&id)) } else { None })
            },
            Action::CheckExists(id) => Reply::Exists(world.local.contains(&id)),
            Action::Fetch(id) => {
                world.fetches.push(id.clone());
                if world.failing.contains(&id) {
                    Reply::Fetched(None)
                } else {
                    Reply::Fetched(world.remote.get(&id).cloned())
                }
            },
            Action::Admit(id, value) => {
                let body = body_of(&value);
                world.admitted.push(body.clone());
                world.store.add_pdu_outlier(&id, value);
                let json = world.store.get_outlier_pdu_json(&id).map(|_| JsonValue::Str(body.clone())).unwrap();
                let pdu = local_pdu(&id);
                Reply::Admitted(Some((pdu, json)))
            },
        };
        r.on_reply(reply, registry, now);
    }
    let results = r.into_results();
    for (pdu, _) in &results {
        world.outlier_when_reported.push(world.store.get_outlier_pdu_json(&pdu.event_id).is_some());
    }
    results
}

fn world() -> World {
    let mut remote = HashMap::new();
    remote.insert("$E1".to_string(), raw_event("e1", &["$A1", "$A2"]));
    remote.insert("$A2".to_string(), raw_event("a2", &["$A3"]));
    World {
        remote,
        local: vec!["$A1".to_string(), "$A3".to_string()],
        failing: vec![],
        fetches: vec![],
        admitted: vec![],
        store: OutlierStore::new(),
        outlier_when_reported: vec![],
    }
}

#[test]
fn resolves_auth_chain_with_one_fetch_per_missing_ancestor() {
    let mut w = world();
    let mut reg = BadEventRegistry::new();
    let results = run(&mut w, &["$E1"], &mut reg, 1000);
    assert_eq!(w.fetches, vec!["$E1".to_string(), "$A2".to_string()]);
    assert_eq!(w.fetches.iter().filter(|f| f.as_str() == "$A2").count(), 1);
    assert_eq!(w.admitted, vec!["a2".to_string(), "e1".to_string()]);
    assert_eq!(results.len(), 1);
    assert!(matches!(&results[0].1, Some(JsonValue::Str(b)) if b == "e1"));
    assert!(w.outlier_when_reported.iter().all(|p| *p));
    assert!(reg.get("$A2").is_none());
}

#[test]
fn local_events_need_no_network() {
    let mut w = world();
    let mut reg = BadEventRegistry::new();
    let results = run(&mut w, &["$A1", "$E9"], &mut reg, 1000);
    assert!(w.fetches.iter().all(|f| f != "$A1"));
    assert_eq!(results.len(), 1);
    assert_eq!(results[0].0.event_id, "$A1");
    assert!(results[0].1.is_none());
    assert_eq!(reg.get("$E9").unwrap().failures, 1);
}

#[test]
fn failed_fetches_back_off() {
    let mut w = world();
    w.failing.push("$A2".to_string());
    let mut reg = BadEventRegistry::new();
    assert!(run(&mut w, &["$A2"], &mut reg, 0).is_empty());
    assert!(run(&mut w, &["$A2"], &mut reg, 300).is_empty());
    assert_eq!(w.fetches.len(), 2);
    assert_eq!(reg.get("$A2").unwrap().failures, 2);
    // two failures: the short window is 480 s from the last one
    run(&mut w, &["$A2"], &mut reg, 300 + 100);
    assert_eq!(w.fetches.len(), 2);
    w.failing.clear();
    let results = run(&mut w, &["$A2"], &mut reg, 300 + 500);
    assert_eq!(w.fetches.len(), 3);
    assert_eq!(results.len(), 1);
}

#[test]
fn unparseable_fetches_are_dropped_and_backed_off() {
    let mut w = world();
    w.remote.insert("$B".to_string(), "not json".to_string());
    let mut reg = BadEventRegistry::new();
    assert!(run(&mut w, &["$B"], &mut reg, 50).is_empty());
    assert_eq!(reg.get("$B").unwrap().last_failure, 50);
}

#[test]
fn duplicate_auth_references_are_fetched_once() {
    let mut w = world();
    w.remote.insert("$E2".to_string(), raw_event("e2", &["$A2", "$A2", "not-an-id"]));
    let mut reg = BadEventRegistry::new();
    let results = run(&mut w, &["$E2"], &mut reg, 0);
    assert_eq!(w.fetches, vec!["$E2".to_string(), "$A2".to_string()]);
    assert_eq!(results.len(), 1);
}
