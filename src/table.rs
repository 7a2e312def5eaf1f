//! Tables from names to power levels, kept sorted by name so that a lookup
//! is a binary search.

use vstd::prelude::*;
use crate::text::{compare_text, lex_lt, lemma_lex_asymmetric, lemma_lex_transitive};

verus! {

/// Entries in strictly increasing order of name (so names are unique).
pub open spec fn sorted(t: Seq<(String, i64)>) -> bool {
    forall|i: int, j: int| 0 <= i < j < t.len() ==> lex_lt(#[trigger] t[i].0@, #[trigger] t[j].0@)
}

/// The level stored under `key`, by a scan from the front.
pub open spec fn scan(t: Seq<(String, i64)>, key: Seq<char>) -> Option<i64>
    decreases t.len(),
{
    if t.len() == 0 {
        None
    } else if t[0].0@ == key {
        Some(t[0].1)
    } else {
        scan(t.drop_first(), key)
    }
}

/// Entry `i` of `t` has the name `key`.
pub open spec fn named(t: Seq<(String, i64)>, key: Seq<char>, i: int) -> bool {
    0 <= i < t.len() && t[i].0@ == key
}

/// The level stored under `key`: that of some entry with this name.
pub open spec fn lookup(t: Seq<(String, i64)>, key: Seq<char>) -> Option<i64> {
    if exists|i: int| #[trigger] named(t, key, i) {
        Some(t[choose|i: int| #[trigger] named(t, key, i)].1)
    } else {
        None
    }
}

/// The binary search over `t[lo..hi]`.
pub open spec fn search(t: Seq<(String, i64)>, key: Seq<char>, lo: int, hi: int) -> Option<i64>
    decreases hi - lo,
{
    if lo >= hi || lo < 0 || hi > t.len() {
        None
    } else {
        let mid = lo + (hi - lo) / 2;
        if t[mid].0@ == key {
            Some(t[mid].1)
        } else if lex_lt(t[mid].0@, key) {
            search(t, key, mid + 1, hi)
        } else {
            search(t, key, lo, mid)
        }
    }
}

pub proof fn lemma_lookup_at(t: Seq<(String, i64)>, key: Seq<char>, k: int)
    requires
        sorted(t),
        0 <= k < t.len(),
        t[k].0@ == key,
    ensures
        lookup(t, key) == Some(t[k].1),
{
    assert(named(t, key, k));
    let j = choose|i: int| #[trigger] named(t, key, i);
    if j < k {
        lemma_lex_asymmetric(t[j].0@, t[k].0@);
    } else if j > k {
        lemma_lex_asymmetric(t[k].0@, t[j].0@);
    }
}

proof fn lemma_search_range(t: Seq<(String, i64)>, key: Seq<char>, lo: int, hi: int)
    requires
        sorted(t),
        0 <= lo <= hi <= t.len(),
        forall|i: int| 0 <= i < lo ==> lex_lt(#[trigger] t[i].0@, key),
        forall|i: int| hi <= i < t.len() ==> lex_lt(key, #[trigger] t[i].0@),
    ensures
        search(t, key, lo, hi) == lookup(t, key),
    decreases hi - lo,
{
    if lo >= hi {
        assert forall|i: int| !#[trigger] named(t, key, i) by {
            if 0 <= i < lo {
                lemma_lex_asymmetric(t[i].0@, key);
            } else if lo <= i < t.len() {
                lemma_lex_asymmetric(key, t[i].0@);
            }
        }
    } else {
        let mid = lo + (hi - lo) / 2;
        if t[mid].0@ == key {
            lemma_lookup_at(t, key, mid);
        } else if lex_lt(t[mid].0@, key) {
            assert forall|i: int| 0 <= i < mid + 1 implies lex_lt(#[trigger] t[i].0@, key) by {
                if i < mid && i >= lo {
                    lemma_lex_transitive(t[i].0@, t[mid].0@, key);
                }
            }
            lemma_search_range(t, key, mid + 1, hi);
        } else {
            crate::text::lemma_lex_total(t[mid].0@, key);
            assert forall|i: int| mid <= i < t.len() implies lex_lt(key, #[trigger] t[i].0@) by {
                if mid < i && i < hi {
                    lemma_lex_transitive(key, t[mid].0@, t[i].0@);
                }
            }
            lemma_search_range(t, key, lo, mid);
        }
    }
}

/// On a sorted table, the binary search finds what a scan from the front
/// finds, for every key, present or not.
pub proof fn lemma_search_agrees_with_scan(t: Seq<(String, i64)>, key: Seq<char>)
    requires
        sorted(t),
    ensures
        search(t, key, 0, t.len() as int) == scan(t, key),
{
    lemma_search_range(t, key, 0, t.len() as int);
    lemma_lookup_is_scan(t, key);
}

proof fn lemma_lookup_is_scan(t: Seq<(String, i64)>, key: Seq<char>)
    requires
        sorted(t),
    ensures
        lookup(t, key) == scan(t, key),
    decreases t.len(),
{
    if t.len() > 0 {
        if t[0].0@ == key {
            lemma_lookup_at(t, key, 0);
        } else {
            let r = t.drop_first();
            assert(sorted(r)) by {
                assert forall|i: int, j: int| 0 <= i < j < r.len() implies lex_lt(#[trigger] r[i].0@, #[trigger] r[j].0@) by {
                    assert(r[i] == t[i + 1] && r[j] == t[j + 1]);
                }
            }
            lemma_lookup_is_scan(r, key);
            if exists|i: int| #[trigger] named(r, key, i) {
                let i = choose|i: int| #[trigger] named(r, key, i);
                assert(t[i + 1] == r[i]);
                lemma_lookup_at(t, key, i + 1);
                lemma_lookup_at(r, key, i);
            } else {
                assert forall|i: int| !#[trigger] named(t, key, i) by {
                    if 0 < i < t.len() {
                        assert(t[i] == r[i - 1]);
                        assert(!named(r, key, i - 1));
                    }
                }
            }
        }
    }
}

/// Binary search for `key` in a sorted table.
pub fn find_level(t: &Vec<(String, i64)>, key: &str) -> (r: Option<i64>)
    requires
        sorted(t@),
    ensures
        r == search(t@, key@, 0, t@.len() as int),
        r == lookup(t@, key@),
{
    let mut lo: usize = 0;
    let mut hi: usize = t.len();
    proof {
        lemma_search_range(t@, key@, 0, t@.len() as int);
    }
    while lo < hi
        invariant
            sorted(t@),
            0 <= lo <= hi <= t@.len(),
            search(t@, key@, lo as int, hi as int) == search(t@, key@, 0, t@.len() as int),
            search(t@, key@, 0, t@.len() as int) == lookup(t@, key@),
        decreases hi - lo,
    {
        let mid = lo + (hi - lo) / 2;
        let c = compare_text(t[mid].0.as_str(), key);
        if c == 0 {
            return Some(t[mid].1);
        } else if c < 0 {
            lo = mid + 1;
        } else {
            proof {
                lemma_lex_asymmetric(key@, t@[mid as int].0@);
            }
            hi = mid;
        }
    }
    None
}

/// Adds `key` with `level` unless the table already has that name (the first
/// entry of a name is the one that counts).
pub fn insert_first(t: &mut Vec<(String, i64)>, key: String, level: i64)
    requires
        sorted(old(t)@),
    ensures
        sorted(final(t)@),
        forall|k: Seq<char>| #[trigger] lookup(final(t)@, k) == if k == key@ && lookup(old(t)@, k).is_none() {
            Some(level)
        } else {
            lookup(old(t)@, k)
        },
{
    let mut pos: usize = 0;
    while pos < t.len()
        invariant
            sorted(t@),
            pos <= t@.len(),
            forall|i: int| 0 <= i < pos ==> lex_lt(#[trigger] t@[i].0@, key@),
        ensures
            sorted(t@),
            pos <= t@.len(),
            forall|i: int| 0 <= i < pos ==> lex_lt(#[trigger] t@[i].0@, key@),
            pos < t@.len() ==> lex_lt(key@, t@[pos as int].0@),
        decreases t.len() - pos,
    {
        let c = compare_text(t[pos].0.as_str(), key.as_str());
        if c == 0 {
            proof {
                assert forall|k: Seq<char>| #[trigger] lookup(t@, k) == if k == key@ && lookup(t@, k).is_none() {
                    Some(level)
                } else {
                    lookup(t@, k)
                } by {
                    if k == key@ {
                        lemma_lookup_at(t@, k, pos as int);
                    }
                }
            }
            return;
        }
        if c > 0 {
            break;
        }
        pos = pos + 1;
    }
    let ghost old_t = t@;
    proof {
        assert forall|i: int| pos <= i < old_t.len() implies lex_lt(key@, #[trigger] old_t[i].0@) by {
            if i > pos {
                lemma_lex_transitive(key@, old_t[pos as int].0@, old_t[i].0@);
            }
        }
        assert forall|i: int| !#[trigger] named(old_t, key@, i) by {
            if 0 <= i < pos {
                lemma_lex_asymmetric(old_t[i].0@, key@);
            } else if pos <= i < old_t.len() {
                lemma_lex_asymmetric(key@, old_t[i].0@);
            }
        }
    }
    let ghost kv = key@;
    t.insert(pos, (key, level));
    proof {
        let n = t@;
        assert(n.len() == old_t.len() + 1);
        assert forall|i: int| 0 <= i < n.len() implies #[trigger] n[i] == if i < pos {
            old_t[i]
        } else if i == pos {
            n[pos as int]
        } else {
            old_t[i - 1]
        } by {}
        assert(n[pos as int].0@ == kv && n[pos as int].1 == level);
        assert forall|i: int, j: int| 0 <= i < j < n.len() implies lex_lt(#[trigger] n[i].0@, #[trigger] n[j].0@) by {
            if i < pos && j == pos {
            } else if i < pos && j > pos {
                assert(n[j] == old_t[j - 1]);
                lemma_lex_transitive(n[i].0@, kv, n[j].0@);
            } else if i == pos {
                assert(n[j] == old_t[j - 1]);
            } else if j < pos {
            } else {
                assert(n[i] == old_t[i - 1] && n[j] == old_t[j - 1]);
            }
        }
        assert forall|k: Seq<char>| #[trigger] lookup(n, k) == if k == kv && lookup(old_t, k).is_none() {
            Some(level)
        } else {
            lookup(old_t, k)
        } by {
            if k == kv {
                lemma_lookup_at(n, k, pos as int);
            } else if exists|i: int| #[trigger] named(old_t, k, i) {
                let i = choose|i: int| #[trigger] named(old_t, k, i);
                lemma_lookup_at(old_t, k, i);
                if i < pos {
                    lemma_lookup_at(n, k, i);
                } else {
                    assert(n[i + 1] == old_t[i]);
                    lemma_lookup_at(n, k, i + 1);
                }
            } else {
                assert forall|i: int| !#[trigger] named(n, k, i) by {
                    if 0 <= i < pos {
                        assert(n[i] == old_t[i]);
                        assert(!named(old_t, k, i));
                    } else if pos < i < n.len() {
                        assert(n[i] == old_t[i - 1]);
                        assert(!named(old_t, k, i - 1));
                    }
                }
            }
        }
    }
}

} // verus!
