//! Resolving referenced events and their auth chains. The resolver decides;
//! its caller performs each action it asks for (a local lookup, a fetch from
//! the origin server, an admission) and hands back the reply.

use vstd::prelude::*;
use crate::backoff::{backed_off, after_failure, BackoffWindow, BadEventRegistry, CHAIN_MIN_SECS, CHAIN_MAX_SECS, ADMIT_MIN_SECS, ADMIT_MAX_SECS};
use crate::event::{auth_event_ids, cited_auth_events, gen_event_id_canonical_json, reference_event_id, PduEvent};
use crate::json::{json_text_value, JsonValue};
use crate::room_version::RoomVersion;
use crate::text::text_eq;

verus! {

/// The most events fetched for the auth chain of one requested event: a
/// defence against origins that cite chains without end.
pub const MAX_CHAIN_FETCHES: usize = 1000;

/// What the resolver asks its caller to do next.
pub enum Action {
    /// Look the event up in the timeline and the outlier store.
    LookupLocal(String),
    /// Tell whether the event is stored locally.
    CheckExists(String),
    /// Fetch the event from the origin server.
    Fetch(String),
    /// Hand the canonical object to the event admitter as an outlier, under
    /// its canonical id.
    Admit(String, JsonValue),
    /// Resolution is over: collect the results.
    Done,
}

/// The caller's answer to the last action.
pub enum Reply {
    /// The local event, if there is one.
    Local(Option<PduEvent>),
    /// Whether the event is stored locally.
    Exists(bool),
    /// The event text that the origin returned; `None` where the request failed.
    Fetched(Option<String>),
    /// The admitted event and its object; `None` where admission failed.
    Admitted(Option<(PduEvent, JsonValue)>),
}

/// What the resolver waits for.
pub enum Pending {
    Nothing,
    Local,
    Exists,
    FetchNext,
    Fetch,
    Admit,
}

/// Work left for the admission phase, in order: a local event to report, or
/// a fetched event (canonical id, object, whether it is a requested one) to
/// offer for admission.
pub enum Offer {
    Local(PduEvent),
    Admit(String, JsonValue, bool),
}

pub open spec fn chain_window() -> BackoffWindow {
    BackoffWindow { min_secs: CHAIN_MIN_SECS, max_secs: CHAIN_MAX_SECS }
}

pub open spec fn admission_window() -> BackoffWindow {
    BackoffWindow { min_secs: ADMIT_MIN_SECS, max_secs: ADMIT_MAX_SECS }
}

pub open spec fn view_ids(s: Seq<String>) -> Seq<Seq<char>> {
    s.map_values(|x: String| x@)
}

/// The offers of a fetched chain: newest fetch first, so that the ancestors
/// an event cites (fetched after it) are admitted before it.
pub open spec fn admit_offers(c: Seq<(String, JsonValue, bool)>) -> Seq<Offer>
    decreases c.len(),
{
    if c.len() == 0 {
        Seq::empty()
    } else {
        seq![Offer::Admit(c.last().0, c.last().1, c.last().2)] + admit_offers(c.drop_last())
    }
}

/// The offers of a chain list its events in reverse fetch order: the event
/// fetched `k`-th from last is offered `k`-th, so each event is offered
/// after every event fetched after it, among them the auth events it cites.
pub proof fn lemma_admit_offers_reverse(c: Seq<(String, JsonValue, bool)>, k: int)
    requires
        0 <= k < c.len(),
    ensures
        admit_offers(c).len() == c.len(),
        admit_offers(c)[k] == Offer::Admit(c[c.len() - 1 - k].0, c[c.len() - 1 - k].1, c[c.len() - 1 - k].2),
    decreases c.len(),
{
    lemma_admit_offers_len(c);
    if k > 0 {
        lemma_admit_offers_reverse(c.drop_last(), k - 1);
    }
}

proof fn lemma_admit_offers_len(c: Seq<(String, JsonValue, bool)>)
    ensures
        admit_offers(c).len() == c.len(),
    decreases c.len(),
{
    if c.len() > 0 {
        lemma_admit_offers_len(c.drop_last());
    }
}

/// The results that passing over `o` reports at once: its local events.
pub open spec fn local_results(o: Seq<Offer>) -> Seq<(PduEvent, Option<JsonValue>)>
    decreases o.len(),
{
    if o.len() == 0 {
        Seq::empty()
    } else {
        let r = local_results(o.drop_last());
        match o.last() {
            Offer::Local(p) => r.push((p, None)),
            _ => r,
        }
    }
}

/// An offer that is passed over without an admission: a local event, or a
/// fetched event still backed off in the admission window.
pub open spec fn offer_passed(o: Offer, registry: BadEventRegistry, now: u64) -> bool {
    match o {
        Offer::Local(_) => true,
        Offer::Admit(id, _, _) => backed_off(registry.entry(id@), now, admission_window()),
    }
}

pub struct Resolver {
    version: RoomVersion,
    requested: Vec<String>,
    next_request: usize,
    chain_active: bool,
    todo: Vec<String>,
    head: usize,
    seen: Vec<String>,
    chain: Vec<(String, JsonValue, bool)>,
    fetches: usize,
    offers: Vec<Offer>,
    admitting: bool,
    done: bool,
    pending: Pending,
    current: String,
    current_is_target: bool,
    chain_target: String,
    results: Vec<(PduEvent, Option<JsonValue>)>,
}

fn contains(v: &Vec<String>, id: &str) -> (r: bool)
    ensures
        r == exists|i: int| 0 <= i < v@.len() && #[trigger] v@[i]@ == id@,
{
    let mut i: usize = 0;
    while i < v.len()
        invariant
            i <= v@.len(),
            forall|j: int| 0 <= j < i ==> #[trigger] v@[j]@ != id@,
        decreases v.len() - i,
    {
        if text_eq(v[i].as_str(), id) {
            return true;
        }
        i = i + 1;
    }
    false
}

proof fn lemma_local_results_append(a: Seq<Offer>, b: Offer)
    ensures
        local_results(a.push(b)) == match b {
            Offer::Local(p) => local_results(a).push((p, None)),
            _ => local_results(a),
        },
{
    assert(a.push(b).drop_last() =~= a);
}

impl Resolver {
    pub closed spec fn wf(&self) -> bool {
        &&& self.head <= self.todo@.len()
        &&& self.next_request <= self.requested@.len()
        &&& self.fetches <= MAX_CHAIN_FETCHES
        &&& self.admitting ==> self.next_request == self.requested@.len() && !self.chain_active
        &&& self.done ==> self.admitting && self.offers@.len() == 0
        &&& (self.pending is Local || self.pending is Exists || self.pending is FetchNext || self.pending is Fetch)
            ==> !self.admitting && !self.done
        &&& (self.pending is Exists || self.pending is FetchNext || self.pending is Fetch) ==> self.chain_active
        &&& self.pending is Local ==> !self.chain_active && self.next_request >= 1
            && self.current@ == self.requested@[self.next_request - 1]@
        &&& self.pending is Admit ==> self.admitting && !self.done
        &&& self.chain_active ==> self.next_request >= 1 && self.chain_target@ == self.requested@[self.next_request - 1]@
    }

    /// How many requested ids have been looked up locally so far.
    pub closed spec fn lookups(&self) -> int {
        self.next_request as int
    }

    /// The id that the pending action concerns.
    pub closed spec fn current(&self) -> Seq<char> {
        self.current@
    }

    /// What the resolver waits for.
    pub closed spec fn pending(&self) -> Pending {
        self.pending
    }

    /// The events the caller asked for.
    pub closed spec fn requested(&self) -> Seq<Seq<char>> {
        view_ids(self.requested@)
    }

    pub closed spec fn version_id(&self) -> Seq<char> {
        self.version.id_view()
    }

    /// Whether an auth chain is being walked.
    pub closed spec fn chain_active(&self) -> bool {
        self.chain_active
    }

    /// The requested id whose auth chain is being walked.
    pub closed spec fn chain_target(&self) -> Seq<char> {
        self.chain_target@
    }

    /// The ids still to visit in the chain being walked, in order.
    pub closed spec fn queue(&self) -> Seq<Seq<char>> {
        view_ids(self.todo@.subrange(self.head as int, self.todo@.len() as int))
    }

    /// The events fetched for the chain being walked, in fetch order.
    pub closed spec fn chain(&self) -> Seq<(String, JsonValue, bool)> {
        self.chain@
    }

    /// How many events were fetched and kept for the chain being walked
    /// (at most `MAX_CHAIN_FETCHES`).
    pub closed spec fn fetch_count(&self) -> int {
        self.fetches as int
    }

    /// Whether the chain being walked has used up its fetches.
    pub open spec fn at_fetch_cap(&self) -> bool {
        self.fetch_count() >= MAX_CHAIN_FETCHES
    }

    /// Whether the events fetched under the current chain include `id`.
    pub closed spec fn fetched_in_chain(&self, id: Seq<char>) -> bool {
        exists|i: int| 0 <= i < self.seen@.len() && #[trigger] self.seen@[i]@ == id
    }

    /// The work gathered for the admission phase.
    pub closed spec fn offers(&self) -> Seq<Offer> {
        self.offers@
    }

    /// The results reported so far.
    pub closed spec fn results(&self) -> Seq<(PduEvent, Option<JsonValue>)> {
        self.results@
    }

    pub closed spec fn is_done(&self) -> bool {
        self.done
    }

    /// Whether the pending admission is of a requested event.
    pub closed spec fn reports_current(&self) -> bool {
        self.current_is_target
    }

    /// The offers once the chain being walked is closed.
    pub open spec fn flushed(&self) -> Seq<Offer> {
        if self.chain_active() {
            self.offers() + admit_offers(self.chain())
        } else {
            self.offers()
        }
    }

    /// A visit of `id` in the current chain is passed over: it is backed off
    /// in the fetch window, or was fetched for this chain already.
    pub open spec fn chain_passed(&self, id: Seq<char>, registry: BadEventRegistry, now: u64) -> bool {
        backed_off(registry.entry(id), now, chain_window()) || self.fetched_in_chain(id)
    }

    /// Nothing in the queue is left to visit.
    pub open spec fn exhausted(&self, registry: BadEventRegistry, now: u64) -> bool {
        self.at_fetch_cap() || forall|j: int| 0 <= j < self.queue().len() ==> self.chain_passed(#[trigger] self.queue()[j], registry, now)
    }

    /// The chain being walked is that of a requested id.
    pub proof fn lemma_chain_target_requested(&self)
        requires
            self.wf(),
        ensures
            self.chain_active() ==> self.requested().contains(self.chain_target()),
    {
        if self.chain_active {
            let k = self.next_request - 1;
            assert(self.requested()[k as int] == self.chain_target());
        }
    }

    /// A resolver for the events `requested`, in a room of version
    /// `room_version`.
    pub fn new(requested: Vec<String>, room_version: RoomVersion) -> (r: Resolver)
        ensures
            r.wf(),
            r.requested() == view_ids(requested@),
            r.version_id() == room_version.id_view(),
            r.results().len() == 0,
            r.offers().len() == 0,
            r.lookups() == 0,
            !r.chain_active(),
            !r.is_done(),
    {
        Resolver {
            version: room_version,
            requested,
            next_request: 0,
            chain_active: false,
            todo: Vec::new(),
            head: 0,
            seen: Vec::new(),
            chain: Vec::new(),
            fetches: 0,
            offers: Vec::new(),
            admitting: false,
            done: false,
            pending: Pending::Nothing,
            current: String::new(),
            current_is_target: false,
            chain_target: String::new(),
            results: Vec::new(),
        }
    }

    spec fn m_phase(&self) -> int {
        if self.done {
            0
        } else if self.admitting {
            1
        } else {
            2
        }
    }

    spec fn m_work(&self) -> int {
        if self.admitting {
            self.offers@.len() as int
        } else if self.chain_active {
            1 + self.todo@.len() - self.head
        } else {
            0
        }
    }

    /// Moves the fetched chain to the offers, newest first, and closes it.
    fn finish_chain(&mut self)
        requires
            old(self).wf(),
            !old(self).admitting,
            old(self).chain_active,
            old(self).pending is Nothing,
        ensures
            final(self).wf(),
            final(self).requested == old(self).requested,
            final(self).version == old(self).version,
            final(self).next_request == old(self).next_request,
            final(self).results == old(self).results,
            final(self).pending == old(self).pending,
            !final(self).admitting,
            !final(self).done,
            !final(self).chain_active,
            final(self).offers@ == old(self).offers@ + admit_offers(old(self).chain@),
    {
        let ghost base = self.offers@;
        let ghost orig = self.chain@;
        while self.chain.len() > 0
            invariant
                self.wf(),
                self.requested == old(self).requested,
                self.version == old(self).version,
                self.next_request == old(self).next_request,
                self.results == old(self).results,
                self.pending == old(self).pending,
                !self.admitting,
                !self.done,
                self.chain_active,
                base + admit_offers(orig) == self.offers@ + admit_offers(self.chain@),
            decreases self.chain.len(),
        {
            let ghost before = self.chain@;
            match self.chain.pop() {
                Some((id, value, t)) => {
                    self.offers.push(Offer::Admit(id, value, t));
                    proof {
                        assert(before.drop_last() =~= self.chain@);
                        assert(admit_offers(before) == seq![Offer::Admit(before.last().0, before.last().1, before.last().2)] + admit_offers(self.chain@));
                        assert(self.offers@ + admit_offers(self.chain@) =~= (self.offers@.drop_last() + admit_offers(before)));
                    }
                },
                None => {},
            }
        }
        proof {
            assert(admit_offers(self.chain@) =~= Seq::<Offer>::empty());
            assert(self.offers@ =~= self.offers@ + Seq::<Offer>::empty());
        }
        self.chain_active = false;
        self.todo = Vec::new();
        self.head = 0;
        self.seen = Vec::new();
        self.fetches = 0;
    }

    /// The next action, given the backoff registry at `now` (seconds on a
    /// monotonic clock). Visits that are backed off or repeat a fetch of the
    /// current chain, and offers that are local events or backed off, are
    /// passed over without any action.
    pub fn next_action(&mut self, registry: &BadEventRegistry, now: u64) -> (r: Action)
        requires
            old(self).wf(),
            registry.wf(),
        ensures
            final(self).wf(),
            final(self).requested() == old(self).requested(),
            final(self).version_id() == old(self).version_id(),
            r is Done <==> final(self).is_done(),
            match r {
                Action::Fetch(id) => {
                    &&& old(self).pending() is FetchNext
                    &&& id@ == old(self).current()
                    &&& final(self).pending() is Fetch
                    &&& final(self).current() == id@
                    &&& final(self).lookups() == old(self).lookups()
                    &&& final(self).queue() == old(self).queue()
                    &&& final(self).chain() == old(self).chain()
                    &&& final(self).chain_active() == old(self).chain_active()
                    &&& final(self).chain_target() == old(self).chain_target()
                    &&& final(self).fetch_count() == old(self).fetch_count()
                    &&& final(self).offers() == old(self).offers()
                    &&& final(self).results() == old(self).results()
                    &&& forall|k: Seq<char>| #[trigger] final(self).fetched_in_chain(k) == old(self).fetched_in_chain(k)
                },
                Action::CheckExists(id) => {
                    &&& old(self).chain_active()
                    &&& !old(self).at_fetch_cap()
                    &&& exists|k: int| #![trigger old(self).queue()[k]]
                        0 <= k < old(self).queue().len() && old(self).queue()[k] == id@
                        && (forall|j: int| 0 <= j < k ==> old(self).chain_passed(#[trigger] old(self).queue()[j], *registry, now))
                        && final(self).queue() == old(self).queue().subrange(k + 1, old(self).queue().len() as int)
                    &&& !old(self).chain_passed(id@, *registry, now)
                    &&& final(self).pending() is Exists
                    &&& final(self).current() == id@
                    &&& final(self).lookups() == old(self).lookups()
                    &&& final(self).chain_active()
                    &&& final(self).chain() == old(self).chain()
                    &&& final(self).chain_target() == old(self).chain_target()
                    &&& final(self).fetch_count() == old(self).fetch_count()
                    &&& final(self).offers() == old(self).offers()
                    &&& final(self).results() == old(self).results()
                    &&& forall|k: Seq<char>| #[trigger] final(self).fetched_in_chain(k) == old(self).fetched_in_chain(k)
                },
                Action::LookupLocal(id) => {
                    &&& old(self).lookups() < old(self).requested().len()
                    &&& id@ == old(self).requested()[old(self).lookups()]
                    &&& final(self).lookups() == old(self).lookups() + 1
                    &&& old(self).chain_active() ==> old(self).exhausted(*registry, now)
                    &&& final(self).offers() == old(self).flushed()
                    &&& !final(self).chain_active()
                    &&& final(self).results() == old(self).results()
                    &&& final(self).pending() is Local
                    &&& final(self).current() == id@
                },
                Action::Admit(id, v) => {
                    &&& old(self).lookups() == old(self).requested().len()
                    &&& old(self).chain_active() ==> old(self).exhausted(*registry, now)
                    &&& exists|k: int| #![trigger old(self).flushed()[k]]
                        0 <= k < old(self).flushed().len()
                        && (old(self).flushed()[k] matches Offer::Admit(i, x, t) && i@ == id@ && x == v
                            && final(self).reports_current() == t)
                        && (forall|j: int| 0 <= j < k ==> offer_passed(#[trigger] old(self).flushed()[j], *registry, now))
                        && final(self).offers() == old(self).flushed().subrange(k + 1, old(self).flushed().len() as int)
                        && final(self).results() == old(self).results() + local_results(old(self).flushed().subrange(0, k))
                    &&& !backed_off(registry.entry(id@), now, admission_window())
                    &&& final(self).pending() is Admit
                    &&& final(self).current() == id@
                    &&& final(self).lookups() == old(self).lookups()
                },
                Action::Done => {
                    &&& old(self).lookups() == old(self).requested().len()
                    &&& old(self).chain_active() ==> old(self).exhausted(*registry, now)
                    &&& forall|j: int| 0 <= j < old(self).flushed().len() ==> offer_passed(#[trigger] old(self).flushed()[j], *registry, now)
                    &&& final(self).results() == old(self).results() + local_results(old(self).flushed())
                    &&& final(self).offers().len() == 0
                    &&& final(self).lookups() == old(self).lookups()
                },
            },
    {
        if !self.done && matches!(self.pending, Pending::FetchNext) {
            self.pending = Pending::Fetch;
            return Action::Fetch(self.current.clone());
        }
        let ghost o = *self;
        proof {
            assert(o == *old(self));
            assert(o.results@ + local_results(Seq::<Offer>::empty()) =~= o.results@);
        }
        self.pending = Pending::Nothing;
        let chain_w = BackoffWindow::chain_resolution();
        let admit_w = BackoffWindow::admission();
        let ghost mut taken: int = 0;
        loop
            invariant
                self.wf(),
                o == *old(self),
                o.wf(),
                registry.wf(),
                chain_w == chain_window(),
                admit_w == admission_window(),
                self.requested == o.requested,
                self.version == o.version,
                self.pending is Nothing,
                self.done ==> o.done || (o.lookups() == o.requested().len() && (o.chain_active ==> o.exhausted(*registry, now))),
                o.done ==> self.done && self.results == o.results,
                !self.admitting ==> {
                    &&& self.next_request == o.next_request
                    &&& self.results == o.results
                    &&& !o.admitting
                    &&& if self.chain_active {
                        &&& o.chain_active
                        &&& self.todo == o.todo
                        &&& self.seen == o.seen
                        &&& self.chain == o.chain
                        &&& self.chain_target == o.chain_target
                        &&& self.fetches == o.fetches
                        &&& self.offers == o.offers
                        &&& o.head <= self.head
                        &&& forall|j: int| o.head <= j < self.head ==> o.chain_passed(#[trigger] o.todo@[j]@, *registry, now)
                    } else {
                        &&& (o.chain_active ==> o.exhausted(*registry, now))
                        &&& self.offers@ == o.flushed()
                    }
                },
                self.admitting && !o.done ==> {
                    &&& o.lookups() == o.requested().len()
                    &&& (o.chain_active ==> o.exhausted(*registry, now))
                    &&& 0 <= taken <= o.flushed().len()
                    &&& self.offers@ == o.flushed().subrange(taken, o.flushed().len() as int)
                    &&& forall|j: int| 0 <= j < taken ==> offer_passed(#[trigger] o.flushed()[j], *registry, now)
                    &&& self.results@ == o.results@ + local_results(o.flushed().subrange(0, taken))
                    &&& self.next_request == o.next_request
                },
            decreases self.m_phase(), self.m_work(),
        {
            if self.done {
                proof {
                    if !o.done {
                        assert(taken == o.flushed().len());
                        assert(o.flushed().subrange(0, taken) =~= o.flushed());
                    }
                }
                return Action::Done;
            }
            if !self.admitting {
                if self.chain_active {
                    if self.head < self.todo.len() && self.fetches < MAX_CHAIN_FETCHES {
                        let id = self.todo[self.head].clone();
                        let ghost h = self.head as int;
                        self.head = self.head + 1;
                        let skip = registry.should_skip(id.as_str(), now, &chain_w) || contains(&self.seen, id.as_str());
                        proof {
                            assert(o.queue()[h - o.head] == o.todo@[h]@);
                        }
                        if skip {
                            continue;
                        }
                        self.current = id.clone();
                        self.pending = Pending::Exists;
                        proof {
                            let k = h - o.head;
                            assert(o.queue()[k] == id@);
                            assert forall|j: int| 0 <= j < k implies o.chain_passed(#[trigger] o.queue()[j], *registry, now) by {
                                assert(o.queue()[j] == o.todo@[o.head + j]@);
                            }
                            assert(self.queue() =~= o.queue().subrange(k + 1, o.queue().len() as int));
                        }
                        return Action::CheckExists(id);
                    } else {
                        proof {
                            if self.fetches < MAX_CHAIN_FETCHES {
                                assert forall|j: int| 0 <= j < o.queue().len() implies o.chain_passed(#[trigger] o.queue()[j], *registry, now) by {
                                    assert(o.queue()[j] == o.todo@[o.head + j]@);
                                }
                            }
                        }
                        self.finish_chain();
                    }
                } else if self.next_request < self.requested.len() {
                    let id = self.requested[self.next_request].clone();
                    self.next_request = self.next_request + 1;
                    self.current = id.clone();
                    self.pending = Pending::Local;
                    return Action::LookupLocal(id);
                } else {
                    self.admitting = true;
                    proof {
                        taken = 0;
                        assert(o.flushed().subrange(0, 0) =~= Seq::<Offer>::empty());
                        assert(self.offers@ =~= o.flushed().subrange(0, o.flushed().len() as int));
                        assert(o.results@ + local_results(Seq::<Offer>::empty()) =~= o.results@);
                    }
                }
            } else if self.offers.len() == 0 {
                self.done = true;
            } else {
                let offer = self.offers.remove(0);
                proof {
                    let f = o.flushed();
                    assert(offer == f[taken]);
                    assert(f.subrange(0, taken + 1) =~= f.subrange(0, taken).push(f[taken]));
                    lemma_local_results_append(f.subrange(0, taken), f[taken]);
                    assert(self.offers@ =~= f.subrange(taken + 1, f.len() as int));
                }
                match offer {
                    Offer::Local(pdu) => {
                        self.results.push((pdu, None));
                        proof {
                            let f = o.flushed();
                            assert(self.results@ =~= o.results@ + local_results(f.subrange(0, taken + 1)));
                            taken = taken + 1;
                        }
                    },
                    Offer::Admit(id, value, t) => {
                        let skip = registry.should_skip(id.as_str(), now, &admit_w);
                        if skip {
                            proof {
                                let f = o.flushed();
                                assert(self.results@ =~= o.results@ + local_results(f.subrange(0, taken + 1)));
                                taken = taken + 1;
                            }
                            continue;
                        }
                        self.current = id.clone();
                        self.current_is_target = t;
                        self.pending = Pending::Admit;
                        proof {
                            let f = o.flushed();
                            let k = taken;
                            assert(f[k] matches Offer::Admit(i, x, tt) && i@ == id@ && x == value && tt == t);
                        }
                        return Action::Admit(id, value);
                    },
                }
            }
        }
    }

    /// Whether the reply to the pending action is a failure that backs the
    /// current id off: a failed fetch, fetched text without a canonical
    /// form, or a failed admission.
    pub open spec fn reply_fails(&self, reply: Reply) -> bool {
        match reply {
            Reply::Fetched(None) => self.pending() is Fetch,
            Reply::Fetched(Some(raw)) => self.pending() is Fetch && !usable_fetch(raw@, self.version_id()),
            Reply::Admitted(None) => self.pending() is Admit,
            _ => false,
        }
    }

    /// Takes the reply to the last action. A local hit is kept for the
    /// results; a local miss starts walking the requested event's auth
    /// chain; a fetched event is kept and the auth events it cites are
    /// queued; failures are recorded in the backoff registry; an admitted
    /// requested event is reported. A reply that does not answer the pending
    /// action changes nothing but the pending state.
    pub fn on_reply(&mut self, reply: Reply, registry: &mut BadEventRegistry, now: u64)
        requires
            old(self).wf(),
            old(registry).wf(),
        ensures
            final(self).wf(),
            final(registry).wf(),
            final(self).requested() == old(self).requested(),
            final(self).version_id() == old(self).version_id(),
            final(self).lookups() == old(self).lookups(),
            final(self).current() == old(self).current(),
            final(self).is_done() == old(self).is_done(),
            final(self).pending() is FetchNext <==> (old(self).pending() is Exists && reply matches Reply::Exists(false)),
            !(final(self).pending() is FetchNext) ==> final(self).pending() is Nothing,
            old(self).reply_fails(reply) ==> final(registry).entry(old(self).current())
                == Some(after_failure(old(registry).entry(old(self).current()), now)),
            forall|k: Seq<char>| (k != old(self).current() || !old(self).reply_fails(reply))
                ==> #[trigger] final(registry).entry(k) == old(registry).entry(k),
            local_hit(*old(self), reply) ==> {
                &&& final(self).offers() == old(self).offers().push(Offer::Local(reply->Local_0->Some_0))
                &&& !final(self).chain_active()
                &&& final(self).results() == old(self).results()
            },
            local_miss(*old(self), reply) ==> {
                &&& final(self).chain_active()
                &&& final(self).chain_target() == old(self).current()
                &&& final(self).queue() == seq![old(self).current()]
                &&& final(self).chain().len() == 0
                &&& final(self).fetch_count() == 0
                &&& (forall|k: Seq<char>| !#[trigger] final(self).fetched_in_chain(k))
                &&& final(self).offers() == old(self).offers()
                &&& final(self).results() == old(self).results()
            },
            fetch_kept(*old(self), reply) ==> {
                let raw = reply->Fetched_0->Some_0;
                let v = json_text_value(raw@).unwrap();
                &&& final(self).chain_active()
                &&& final(self).chain_target() == old(self).chain_target()
                &&& final(self).queue() == old(self).queue() + cited_auth_events(v)
                &&& final(self).chain().len() == old(self).chain().len() + 1
                &&& final(self).chain().drop_last() == old(self).chain()
                &&& final(self).chain().last().0@ == reference_event_id(raw@, old(self).version_id()).unwrap()
                &&& final(self).chain().last().1 == v
                &&& final(self).chain().last().2 == (old(self).current() == old(self).chain_target())
                &&& (forall|k: Seq<char>| #[trigger] final(self).fetched_in_chain(k) == (old(self).fetched_in_chain(k) || k == old(self).current()))
                &&& final(self).fetch_count() == if old(self).at_fetch_cap() { old(self).fetch_count() } else { old(self).fetch_count() + 1 }
                &&& final(self).offers() == old(self).offers()
                &&& final(self).results() == old(self).results()
            },
            admitted_reported(*old(self), reply) ==> {
                let p = reply->Admitted_0->Some_0;
                &&& final(self).results() == old(self).results().push((p.0, Some(p.1)))
                &&& final(self).offers() == old(self).offers()
            },
            !local_hit(*old(self), reply) && !local_miss(*old(self), reply) && !fetch_kept(*old(self), reply)
                && !admitted_reported(*old(self), reply) ==> same_work(*old(self), *final(self)),
    {
        let mut pending = Pending::Nothing;
        std::mem::swap(&mut pending, &mut self.pending);
        match (pending, reply) {
            (Pending::Local, Reply::Local(Some(pdu))) => {
                self.offers.push(Offer::Local(pdu));
            },
            (Pending::Local, Reply::Local(None)) => {
                self.chain_active = true;
                self.todo = vec![self.current.clone()];
                self.head = 0;
                self.seen = Vec::new();
                self.chain = Vec::new();
                self.fetches = 0;
                self.chain_target = self.current.clone();
                proof {
                    assert(self.queue() =~= seq![self.current@]);
                }
            },
            (Pending::Exists, Reply::Exists(false)) => {
                self.pending = Pending::FetchNext;
            },
            (Pending::Fetch, Reply::Fetched(None)) => {
                registry.record_failure(self.current.as_str(), now);
            },
            (Pending::Fetch, Reply::Fetched(Some(raw))) => {
                match gen_event_id_canonical_json(raw.as_str(), &self.version) {
                    Ok((cid, value)) => {
                        let ghost q0 = self.queue();
                        let ids = auth_event_ids(&value);
                        let mut i: usize = 0;
                        while i < ids.len()
                            invariant
                                self.wf(),
                                self.requested == old(self).requested,
                                self.version == old(self).version,
                                self.results == old(self).results,
                                self.offers == old(self).offers,
                                self.chain == old(self).chain,
                                self.seen == old(self).seen,
                                self.fetches == old(self).fetches,
                                self.chain_target == old(self).chain_target,
                                self.done == old(self).done,
                                self.next_request == old(self).next_request,
                                self.current == old(self).current,
                                self.pending is Nothing,
                                self.chain_active,
                                self.head == old(self).head,
                                i <= ids@.len(),
                                self.queue() == q0 + view_ids(ids@.subrange(0, i as int)),
                            decreases ids.len() - i,
                        {
                            let ghost t0 = self.todo@;
                            self.todo.push(ids[i].clone());
                            proof {
                                let a = t0.subrange(self.head as int, t0.len() as int);
                                let x = ids@[i as int];
                                assert(self.todo@.subrange(self.head as int, self.todo@.len() as int) =~= a.push(x));
                                assert(view_ids(a.push(x)) =~= view_ids(a).push(x@));
                                assert(view_ids(ids@.subrange(0, i + 1)) =~= view_ids(ids@.subrange(0, i as int)).push(x@));
                                assert(self.queue() =~= q0 + view_ids(ids@.subrange(0, i + 1)));
                            }
                            i = i + 1;
                        }
                        proof {
                            assert(ids@.subrange(0, ids@.len() as int) =~= ids@);
                            assert(view_ids(ids@) =~= cited_auth_events(value));
                        }
                        let is_target = text_eq(self.current.as_str(), self.chain_target.as_str());
                        self.chain.push((cid, value, is_target));
                        proof {
                            assert(self.chain@.drop_last() =~= old(self).chain@);
                        }
                        if self.fetches < MAX_CHAIN_FETCHES {
                            self.fetches = self.fetches + 1;
                        }
                        let ghost s0 = self.seen@;
                        self.seen.push(self.current.clone());
                        proof {
                            assert forall|k: Seq<char>| #[trigger] self.fetched_in_chain(k) == (old(self).fetched_in_chain(k) || k == old(self).current()) by {
                                if old(self).fetched_in_chain(k) {
                                    let i = choose|i: int| 0 <= i < s0.len() && #[trigger] s0[i]@ == k;
                                    assert(self.seen@[i] == s0[i]);
                                }
                                if k == old(self).current() {
                                    assert(self.seen@[s0.len() as int]@ == k);
                                }
                                if self.fetched_in_chain(k) {
                                    let i = choose|i: int| 0 <= i < self.seen@.len() && #[trigger] self.seen@[i]@ == k;
                                    if i < s0.len() {
                                        assert(s0[i] == self.seen@[i]);
                                    }
                                }
                            }
                        }
                    },
                    Err(_) => {
                        registry.record_failure(self.current.as_str(), now);
                    },
                }
            },
            (Pending::Admit, Reply::Admitted(Some((pdu, json)))) => {
                if self.current_is_target {
                    self.results.push((pdu, Some(json)));
                }
            },
            (Pending::Admit, Reply::Admitted(None)) => {
                registry.record_failure(self.current.as_str(), now);
            },
            _ => {},
        }
    }

    /// The resolved events: for each requested id that was found locally,
    /// the local event without an object; for each that was fetched and
    /// admitted, the event and its object. Others are absent.
    pub fn into_results(self) -> (r: Vec<(PduEvent, Option<JsonValue>)>)
        ensures
            r@ == self.results(),
    {
        self.results
    }
}

/// The reply is a local hit for a pending local lookup.
pub open spec fn local_hit(r: Resolver, reply: Reply) -> bool {
    r.pending() is Local && reply is Local && reply->Local_0 is Some
}

/// The reply is a local miss for a pending local lookup.
pub open spec fn local_miss(r: Resolver, reply: Reply) -> bool {
    r.pending() is Local && reply is Local && reply->Local_0 is None
}

/// The reply is fetched text with a canonical form, for a pending fetch.
pub open spec fn fetch_kept(r: Resolver, reply: Reply) -> bool {
    &&& r.pending() is Fetch
    &&& reply is Fetched
    &&& reply->Fetched_0 is Some
    &&& usable_fetch(reply->Fetched_0->Some_0@, r.version_id())
}

/// The reply admits a requested event, for a pending admission.
pub open spec fn admitted_reported(r: Resolver, reply: Reply) -> bool {
    r.pending() is Admit && r.reports_current() && reply is Admitted && reply->Admitted_0 is Some
}

/// `b` has the work and results of `a`: the queue, the fetched chain and
/// what was fetched for it, the offers and the results.
pub open spec fn same_work(a: Resolver, b: Resolver) -> bool {
    &&& b.chain_active() == a.chain_active()
    &&& b.chain_target() == a.chain_target()
    &&& b.queue() == a.queue()
    &&& b.chain() == a.chain()
    &&& b.fetch_count() == a.fetch_count()
    &&& forall|k: Seq<char>| #[trigger] b.fetched_in_chain(k) == a.fetched_in_chain(k)
    &&& b.offers() == a.offers()
    &&& b.results() == a.results()
}

/// Fetched text that has a canonical form under the room version.
pub open spec fn usable_fetch(raw: Seq<char>, version: Seq<char>) -> bool {
    &&& json_text_value(raw) matches Some(v)
    &&& v is Object
    &&& reference_event_id(raw, version).is_some()
}

} // verus!
