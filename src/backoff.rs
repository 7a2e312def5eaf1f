//! The registry of events that repeatedly failed to fetch or validate, and
//! the exponential backoff it imposes on further attempts.

use vstd::prelude::*;

verus! {

/// Shortest wait of chain resolution lookups, in seconds.
pub const CHAIN_MIN_SECS: u64 = 120;
/// Longest wait of chain resolution lookups, in seconds.
pub const CHAIN_MAX_SECS: u64 = 28800;
/// Shortest wait before re-validating a fetched event, in seconds.
pub const ADMIT_MIN_SECS: u64 = 300;
/// Longest wait before re-validating a fetched event, in seconds.
pub const ADMIT_MAX_SECS: u64 = 86400;

pub open spec fn pow2(n: nat) -> nat
    decreases n,
{
    if n == 0 {
        1
    } else {
        2 * pow2((n - 1) as nat)
    }
}

/// How long to wait after `failures` failures: the minimum doubled per
/// failure, capped at the maximum.
pub open spec fn window_len(min_secs: u64, max_secs: u64, failures: nat) -> int {
    let grown = min_secs * pow2(failures);
    if grown < max_secs {
        grown
    } else {
        max_secs as int
    }
}

proof fn lemma_pow2_grows(a: nat, b: nat)
    requires
        a <= b,
    ensures
        pow2(a) <= pow2(b),
        pow2(a) >= 1,
    decreases b,
{
    if b > a {
        lemma_pow2_grows(a, (b - 1) as nat);
    } else if a > 0 {
        lemma_pow2_grows((a - 1) as nat, (a - 1) as nat);
    }
}

/// The bounds of one backoff policy.
pub struct BackoffWindow {
    pub min_secs: u64,
    pub max_secs: u64,
}

impl BackoffWindow {
    /// The policy for fetching events while resolving an auth chain.
    pub fn chain_resolution() -> (r: BackoffWindow)
        ensures
            r.min_secs == CHAIN_MIN_SECS && r.max_secs == CHAIN_MAX_SECS,
    {
        BackoffWindow { min_secs: CHAIN_MIN_SECS, max_secs: CHAIN_MAX_SECS }
    }

    /// The policy for validating events that were fetched but not admitted.
    pub fn admission() -> (r: BackoffWindow)
        ensures
            r.min_secs == ADMIT_MIN_SECS && r.max_secs == ADMIT_MAX_SECS,
    {
        BackoffWindow { min_secs: ADMIT_MIN_SECS, max_secs: ADMIT_MAX_SECS }
    }

    /// The wait after `failures` failures.
    pub fn wait_secs(&self, failures: u32) -> (r: u64)
        ensures
            r == window_len(self.min_secs, self.max_secs, failures as nat),
    {
        let mut w: u128 = self.min_secs as u128;
        let mut i: u32 = 0;
        assert(pow2(0) == 1);
        while i < failures && w < self.max_secs as u128
            invariant
                i <= failures,
                w == self.min_secs * pow2(i as nat),
                w < 0x2_0000_0000_0000_0000,
            decreases failures - i,
        {
            proof {
                assert(pow2((i + 1) as nat) == 2 * pow2(i as nat));
                assert(2 * (self.min_secs * pow2(i as nat)) == self.min_secs * (2 * pow2(i as nat))) by (nonlinear_arith);
            }
            w = w * 2;
            i = i + 1;
        }
        proof {
            lemma_pow2_grows(i as nat, failures as nat);
            assert(self.min_secs * pow2(i as nat) <= self.min_secs * pow2(failures as nat)) by (nonlinear_arith)
                requires
                    pow2(i as nat) <= pow2(failures as nat),
            ;
        }
        if w < self.max_secs as u128 {
            w as u64
        } else {
            self.max_secs
        }
    }
}

/// The failure record of one event: when it last failed, and how many times
/// in a row.
pub struct BackoffEntry {
    pub last_failure: u64,
    pub failures: u32,
}

/// The record after one more failure at `now`; the count saturates.
pub open spec fn after_failure(e: Option<(u64, u32)>, now: u64) -> (u64, u32) {
    match e {
        None => (now, 1),
        Some((_, n)) => (now, if n < u32::MAX { (n + 1) as u32 } else { n }),
    }
}

/// Whether an event with this record is still backed off at `now`.
pub open spec fn backed_off(e: Option<(u64, u32)>, now: u64, w: BackoffWindow) -> bool {
    match e {
        None => false,
        Some((last, n)) => {
            let elapsed = if now >= last { now - last } else { 0 };
            elapsed < window_len(w.min_secs, w.max_secs, n as nat)
        },
    }
}

/// The record after failures at each of `times`, starting from `e`.
pub open spec fn replay(e: Option<(u64, u32)>, times: Seq<u64>) -> Option<(u64, u32)>
    decreases times.len(),
{
    if times.len() == 0 {
        e
    } else {
        Some(after_failure(replay(e, times.drop_last()), times.last()))
    }
}

/// Entry `i` of `s` is the record of `key`.
pub open spec fn keyed(s: Seq<(String, BackoffEntry)>, key: Seq<char>, i: int) -> bool {
    0 <= i < s.len() && s[i].0@ == key
}

/// The registry: one record per event id, never removed.
pub struct BadEventRegistry {
    entries: Vec<(String, BackoffEntry)>,
}

impl BadEventRegistry {
    pub closed spec fn wf(&self) -> bool {
        forall|i: int, j: int|
            0 <= i < j < self.entries@.len() ==> #[trigger] self.entries@[i].0@ != #[trigger] self.entries@[j].0@
    }

    /// The record of `id`, if it ever failed.
    pub closed spec fn entry(&self, id: Seq<char>) -> Option<(u64, u32)> {
        if exists|i: int| #[trigger] keyed(self.entries@, id, i) {
            let e = self.entries@[choose|i: int| #[trigger] keyed(self.entries@, id, i)].1;
            Some((e.last_failure, e.failures))
        } else {
            None
        }
    }

    proof fn lemma_entry_at(&self, id: Seq<char>, k: int)
        requires
            self.wf(),
            keyed(self.entries@, id, k),
        ensures
            self.entry(id) == Some((self.entries@[k].1.last_failure, self.entries@[k].1.failures)),
    {
        let j = choose|i: int| #[trigger] keyed(self.entries@, id, i);
        if j < k {
            assert(self.entries@[j].0@ != self.entries@[k].0@);
        } else if j > k {
            assert(self.entries@[k].0@ != self.entries@[j].0@);
        }
    }

    pub fn new() -> (r: BadEventRegistry)
        ensures
            r.wf(),
            forall|id: Seq<char>| #[trigger] r.entry(id).is_none(),
    {
        BadEventRegistry { entries: Vec::new() }
    }

    fn position(&self, id: &str) -> (r: Option<usize>)
        requires
            self.wf(),
        ensures
            match r {
                Some(i) => keyed(self.entries@, id@, i as int),
                None => forall|i: int| !#[trigger] keyed(self.entries@, id@, i),
            },
    {
        let mut i: usize = 0;
        while i < self.entries.len()
            invariant
                i <= self.entries@.len(),
                forall|j: int| 0 <= j < i ==> !#[trigger] keyed(self.entries@, id@, j),
            decreases self.entries.len() - i,
        {
            if crate::text::text_eq(self.entries[i].0.as_str(), id) {
                return Some(i);
            }
            i = i + 1;
        }
        None
    }

    /// The record of `id`.
    pub fn get(&self, id: &str) -> (r: Option<BackoffEntry>)
        requires
            self.wf(),
        ensures
            match r {
                Some(e) => self.entry(id@) == Some((e.last_failure, e.failures)),
                None => self.entry(id@).is_none(),
            },
    {
        match self.position(id) {
            Some(i) => {
                proof {
                    self.lemma_entry_at(id@, i as int);
                }
                Some(BackoffEntry { last_failure: self.entries[i].1.last_failure, failures: self.entries[i].1.failures })
            },
            None => None,
        }
    }

    /// Whether attempts on `id` are still backed off at `now` (seconds on a
    /// monotonic clock) under the policy `w`.
    pub fn should_skip(&self, id: &str, now: u64, w: &BackoffWindow) -> (r: bool)
        requires
            self.wf(),
        ensures
            r == backed_off(self.entry(id@), now, *w),
    {
        match self.get(id) {
            None => false,
            Some(e) => {
                let elapsed = if now >= e.last_failure { now - e.last_failure } else { 0 };
                elapsed < w.wait_secs(e.failures)
            },
        }
    }

    /// Records a failure of `id` at `now`: a first record, or the previous one
    /// with the new time and one more failure.
    pub fn record_failure(&mut self, id: &str, now: u64)
        requires
            old(self).wf(),
        ensures
            final(self).wf(),
            final(self).entry(id@) == Some(after_failure(old(self).entry(id@), now)),
            forall|k: Seq<char>| k != id@ ==> #[trigger] final(self).entry(k) == old(self).entry(k),
    {
        let ghost before = *self;
        match self.position(id) {
            Some(i) => {
                proof {
                    before.lemma_entry_at(id@, i as int);
                }
                let n = self.entries[i].1.failures;
                let n2 = if n < u32::MAX { n + 1 } else { n };
                let key = self.entries[i].0.clone();
                self.entries.set(i, (key, BackoffEntry { last_failure: now, failures: n2 }));
                proof {
                    assert forall|a: int, b: int| 0 <= a < b < self.entries@.len() implies
                        #[trigger] self.entries@[a].0@ != #[trigger] self.entries@[b].0@ by {
                        assert(before.entries@[a].0@ != before.entries@[b].0@);
                    }
                    self.lemma_entry_at(id@, i as int);
                    assert forall|k: Seq<char>| k != id@ implies #[trigger] self.entry(k) == before.entry(k) by {
                        if exists|j: int| #[trigger] keyed(before.entries@, k, j) {
                            let j = choose|j: int| #[trigger] keyed(before.entries@, k, j);
                            before.lemma_entry_at(k, j);
                            assert(keyed(self.entries@, k, j));
                            self.lemma_entry_at(k, j);
                        } else {
                            assert forall|j: int| !#[trigger] keyed(self.entries@, k, j) by {
                                assert(!keyed(before.entries@, k, j));
                            }
                        }
                    }
                }
            },
            None => {
                self.entries.push((id.to_owned(), BackoffEntry { last_failure: now, failures: 1 }));
                proof {
                    let n = self.entries@.len() - 1;
                    assert forall|a: int, b: int| 0 <= a < b < self.entries@.len() implies
                        #[trigger] self.entries@[a].0@ != #[trigger] self.entries@[b].0@ by {
                        if b < n {
                            assert(before.entries@[a].0@ != before.entries@[b].0@);
                        } else {
                            assert(!keyed(before.entries@, id@, a));
                        }
                    }
                    self.lemma_entry_at(id@, n);
                    assert forall|k: Seq<char>| k != id@ implies #[trigger] self.entry(k) == before.entry(k) by {
                        if exists|j: int| #[trigger] keyed(before.entries@, k, j) {
                            let j = choose|j: int| #[trigger] keyed(before.entries@, k, j);
                            before.lemma_entry_at(k, j);
                            assert(keyed(self.entries@, k, j));
                            self.lemma_entry_at(k, j);
                        } else {
                            assert forall|j: int| !#[trigger] keyed(self.entries@, k, j) by {
                                if j < n {
                                    assert(!keyed(before.entries@, k, j));
                                }
                            }
                        }
                    }
                }
            },
        }
    }
}

proof fn lemma_replay_count(times: Seq<u64>)
    requires
        times.len() < u32::MAX,
    ensures
        replay(None, times) == Some((times.last(), times.len() as u32)) || times.len() == 0,
    decreases times.len(),
{
    if times.len() > 1 {
        lemma_replay_count(times.drop_last());
        assert(replay(None, times) == Some(after_failure(replay(None, times.drop_last()), times.last())));
    } else if times.len() == 1 {
        assert(times.drop_last().len() == 0);
        assert(replay(None, times.drop_last()) == None::<(u64, u32)>);
        assert(replay(None, times) == Some(after_failure(None, times.last())));
    }
}

/// After `N` failures of a fresh event at increasing times `t_1 < ... < t_N`,
/// attempts at `t_N + delta` are backed off exactly while
/// `delta < min(max, min * 2^N)`.
pub proof fn lemma_backoff_after_failures(times: Seq<u64>, delta: u64, w: BackoffWindow)
    requires
        1 <= times.len() < u32::MAX,
        forall|i: int, j: int| 0 <= i < j < times.len() ==> times[i] < times[j],
        times.last() + delta <= u64::MAX,
    ensures
        backed_off(replay(None, times), (times.last() + delta) as u64, w)
            == (delta < window_len(w.min_secs, w.max_secs, times.len())),
{
    lemma_replay_count(times);
}

} // verus!
