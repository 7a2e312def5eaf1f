//! Events that passed cryptographic checks but are not yet part of the
//! room's timeline.

use vstd::prelude::*;
use crate::event::{pdu_of, pdu_readable, PduEvent};
use crate::json::JsonValue;

verus! {

pub open spec fn holds(s: Seq<(String, JsonValue)>, id: Seq<char>, i: int) -> bool {
    0 <= i < s.len() && s[i].0@ == id
}

/// The outlier records: at most one canonical object per event id.
pub struct OutlierStore {
    entries: Vec<(String, JsonValue)>,
}

/// `after` is `before` with the record of `id` set to `pdu`.
pub open spec fn put_effect(before: OutlierStore, after: OutlierStore, id: Seq<char>, pdu: JsonValue) -> bool {
    &&& after.wf()
    &&& after.stored(id) == Some(pdu)
    &&& forall|k: Seq<char>| k != id ==> #[trigger] after.stored(k) == before.stored(k)
}

impl OutlierStore {
    pub closed spec fn wf(&self) -> bool {
        forall|i: int, j: int|
            0 <= i < j < self.entries@.len() ==> #[trigger] self.entries@[i].0@ != #[trigger] self.entries@[j].0@
    }

    /// The object recorded for `id`.
    pub closed spec fn stored(&self, id: Seq<char>) -> Option<JsonValue> {
        if exists|i: int| #[trigger] holds(self.entries@, id, i) {
            Some(self.entries@[choose|i: int| #[trigger] holds(self.entries@, id, i)].1)
        } else {
            None
        }
    }

    proof fn lemma_stored_at(&self, id: Seq<char>, k: int)
        requires
            self.wf(),
            holds(self.entries@, id, k),
        ensures
            self.stored(id) == Some(self.entries@[k].1),
    {
        let j = choose|i: int| #[trigger] holds(self.entries@, id, i);
        if j < k {
            assert(self.entries@[j].0@ != self.entries@[k].0@);
        } else if j > k {
            assert(self.entries@[k].0@ != self.entries@[j].0@);
        }
    }

    pub fn new() -> (r: OutlierStore)
        ensures
            r.wf(),
            forall|id: Seq<char>| #[trigger] r.stored(id).is_none(),
    {
        OutlierStore { entries: Vec::new() }
    }

    fn position(&self, id: &str) -> (r: Option<usize>)
        ensures
            match r {
                Some(i) => holds(self.entries@, id@, i as int),
                None => forall|i: int| !#[trigger] holds(self.entries@, id@, i),
            },
    {
        let mut i: usize = 0;
        while i < self.entries.len()
            invariant
                i <= self.entries@.len(),
                forall|j: int| 0 <= j < i ==> !#[trigger] holds(self.entries@, id@, j),
            decreases self.entries.len() - i,
        {
            if crate::text::text_eq(self.entries[i].0.as_str(), id) {
                return Some(i);
            }
            i = i + 1;
        }
        None
    }

    /// The canonical object recorded for `event_id`.
    pub fn get_outlier_pdu_json(&self, event_id: &str) -> (r: Option<&JsonValue>)
        requires
            self.wf(),
        ensures
            match r {
                Some(v) => self.stored(event_id@) == Some(*v),
                None => self.stored(event_id@).is_none(),
            },
    {
        match self.position(event_id) {
            Some(i) => {
                proof {
                    self.lemma_stored_at(event_id@, i as int);
                }
                Some(&self.entries[i].1)
            },
            None => None,
        }
    }

    /// The event recorded for `event_id`, read from its object; `None` where
    /// there is none or it lacks the fields of an event.
    pub fn get_pdu_outlier(&self, event_id: &str) -> (r: Option<PduEvent>)
        requires
            self.wf(),
        ensures
            match self.stored(event_id@) {
                Some(v) => r.is_some() == pdu_readable(v) && (r matches Some(e) ==> pdu_of(event_id@, v, e)),
                None => r.is_none(),
            },
    {
        match self.get_outlier_pdu_json(event_id) {
            Some(v) => PduEvent::from_object(event_id, v),
            None => None,
        }
    }

    /// Records `pdu` for `event_id`, replacing any earlier record.
    pub fn add_pdu_outlier(&mut self, event_id: &str, pdu: JsonValue)
        requires
            old(self).wf(),
        ensures
            put_effect(*old(self), *final(self), event_id@, pdu),
    {
        let ghost before = *self;
        match self.position(event_id) {
            Some(i) => {
                let key = self.entries[i].0.clone();
                self.entries.set(i, (key, pdu));
                proof {
                    assert forall|a: int, b: int| 0 <= a < b < self.entries@.len() implies
                        #[trigger] self.entries@[a].0@ != #[trigger] self.entries@[b].0@ by {
                        assert(before.entries@[a].0@ != before.entries@[b].0@);
                    }
                    self.lemma_stored_at(event_id@, i as int);
                    assert forall|k: Seq<char>| k != event_id@ implies #[trigger] self.stored(k) == before.stored(k) by {
                        if exists|j: int| #[trigger] holds(before.entries@, k, j) {
                            let j = choose|j: int| #[trigger] holds(before.entries@, k, j);
                            before.lemma_stored_at(k, j);
                            assert(holds(self.entries@, k, j));
                            self.lemma_stored_at(k, j);
                        } else {
                            assert forall|j: int| !#[trigger] holds(self.entries@, k, j) by {
                                assert(!holds(before.entries@, k, j));
                            }
                        }
                    }
                }
            },
            None => {
                self.entries.push((event_id.to_owned(), pdu));
                proof {
                    let n = self.entries@.len() - 1;
                    assert forall|a: int, b: int| 0 <= a < b < self.entries@.len() implies
                        #[trigger] self.entries@[a].0@ != #[trigger] self.entries@[b].0@ by {
                        if b < n {
                            assert(before.entries@[a].0@ != before.entries@[b].0@);
                        } else {
                            assert(!holds(before.entries@, event_id@, a));
                        }
                    }
                    self.lemma_stored_at(event_id@, n);
                    assert forall|k: Seq<char>| k != event_id@ implies #[trigger] self.stored(k) == before.stored(k) by {
                        if exists|j: int| #[trigger] holds(before.entries@, k, j) {
                            let j = choose|j: int| #[trigger] holds(before.entries@, k, j);
                            before.lemma_stored_at(k, j);
                            assert(holds(self.entries@, k, j));
                            self.lemma_stored_at(k, j);
                        } else {
                            assert forall|j: int| !#[trigger] holds(self.entries@, k, j) by {
                                if j < n {
                                    assert(!holds(before.entries@, k, j));
                                }
                            }
                        }
                    }
                }
            },
        }
    }
}

/// After records of `a` then `b` under one id, with any records of other ids
/// in between, that id holds exactly `b`: the last record wins, unmerged.
pub proof fn lemma_get_returns_last_put(
    s0: OutlierStore,
    s1: OutlierStore,
    s2: OutlierStore,
    s3: OutlierStore,
    id: Seq<char>,
    other: Seq<char>,
    a: JsonValue,
    b: JsonValue,
    x: JsonValue,
)
    requires
        put_effect(s0, s1, id, a),
        other != id,
        put_effect(s1, s2, other, x),
        put_effect(s2, s3, id, b),
    ensures
        s1.stored(id) == Some(a),
        s2.stored(id) == Some(a),
        s3.stored(id) == Some(b),
{
}

} // verus!
