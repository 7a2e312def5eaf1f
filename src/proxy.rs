//! Choosing an outbound proxy by the domain of the destination.

use vstd::prelude::*;
use crate::text::{ends_with, has_prefix, has_suffix, starts_with, text_eq};

verus! {

/// A domain name that may allow a `*` as its first label.
pub enum WildCardedDomain {
    WildCard,
    WildCarded(String),
    Exact(String),
}

pub open spec fn matches_spec(w: WildCardedDomain, domain: Seq<char>) -> bool {
    match w {
        WildCardedDomain::WildCard => true,
        WildCardedDomain::WildCarded(d) => has_suffix(domain, d@),
        WildCardedDomain::Exact(d) => domain == d@,
    }
}

pub open spec fn more_specific_spec(a: WildCardedDomain, b: WildCardedDomain) -> bool {
    match (a, b) {
        (WildCardedDomain::WildCard, WildCardedDomain::WildCard) => false,
        (_, WildCardedDomain::WildCard) => true,
        (WildCardedDomain::Exact(x), WildCardedDomain::WildCarded(_)) => matches_spec(b, x@),
        (WildCardedDomain::WildCarded(x), WildCardedDomain::WildCarded(y)) => x@ != y@ && has_suffix(x@, y@),
        _ => false,
    }
}

impl WildCardedDomain {
    /// Reads a pattern: `*.rest` and `*` are wildcarded, anything else exact.
    pub fn from_str(s: &str) -> (r: WildCardedDomain)
        ensures
            has_prefix(s@, seq!['*', '.']) ==> (r matches WildCardedDomain::WildCarded(d) && d@ == s@.subrange(1, s@.len() as int)),
            !has_prefix(s@, seq!['*', '.']) && s@ == seq!['*'] ==> (r matches WildCardedDomain::WildCarded(d) && d@.len() == 0),
            !has_prefix(s@, seq!['*', '.']) && s@ != seq!['*'] ==> (r matches WildCardedDomain::Exact(d) && d@ == s@),
    {
        proof {
            reveal_strlit("*.");
            reveal_strlit("*");
            assert("*."@ =~= seq!['*', '.']);
            assert("*"@ =~= seq!['*']);
        }
        if starts_with(s, "*.") {
            let n = s.unicode_len();
            WildCardedDomain::WildCarded(s.substring_char(1, n).to_owned())
        } else if text_eq(s, "*") {
            WildCardedDomain::WildCarded(String::new())
        } else {
            WildCardedDomain::Exact(s.to_owned())
        }
    }

    pub fn matches(&self, domain: &str) -> (r: bool)
        ensures
            r == matches_spec(*self, domain@),
    {
        match self {
            WildCardedDomain::WildCard => true,
            WildCardedDomain::WildCarded(d) => ends_with(domain, d.as_str()),
            WildCardedDomain::Exact(d) => text_eq(domain, d.as_str()),
        }
    }

    pub fn more_specific_than(&self, other: &Self) -> (r: bool)
        ensures
            r == more_specific_spec(*self, *other),
    {
        match (self, other) {
            (WildCardedDomain::WildCard, WildCardedDomain::WildCard) => false,
            (_, WildCardedDomain::WildCard) => true,
            (WildCardedDomain::Exact(a), WildCardedDomain::WildCarded(_)) => other.matches(a.as_str()),
            (WildCardedDomain::WildCarded(a), WildCardedDomain::WildCarded(b)) => {
                !text_eq(a.as_str(), b.as_str()) && ends_with(a.as_str(), b.as_str())
            },
            _ => false,
        }
    }
}

/// The most specific pattern of `list` that matches `domain`, starting from
/// `start`; of equally specific ones the first is kept.
pub open spec fn most_specific(
    list: Seq<WildCardedDomain>,
    domain: Seq<char>,
    start: Option<WildCardedDomain>,
) -> Option<WildCardedDomain>
    decreases list.len(),
{
    if list.len() == 0 {
        start
    } else {
        let w = list.last();
        let prev = most_specific(list.drop_last(), domain, start);
        if matches_spec(w, domain) && (prev.is_none() || more_specific_spec(w, prev.unwrap())) {
            Some(w)
        } else {
            prev
        }
    }
}

/// One proxy with the domains it serves and those it does not.
pub struct PartialProxyConfig {
    pub url: String,
    pub allowed: Vec<WildCardedDomain>,
    pub denied: Vec<WildCardedDomain>,
}

/// Whether the proxy is used for `domain`: it is included (an empty allow
/// list includes everything) and not excluded by a rule at least as specific.
pub open spec fn proxy_applies(p: PartialProxyConfig, domain: Seq<char>) -> bool {
    let inc = most_specific(
        p.allowed@,
        domain,
        if p.allowed@.len() == 0 { Some(WildCardedDomain::WildCard) } else { None },
    );
    let exc = most_specific(p.denied@, domain, None);
    match (inc, exc) {
        (Some(a), Some(b)) => more_specific_spec(a, b),
        (Some(_), None) => true,
        _ => false,
    }
}

fn pick_most_specific(list: &Vec<WildCardedDomain>, domain: &str, start: Option<WildCardedDomain>) -> (r: Option<WildCardedDomain>)
    ensures
        r == most_specific(list@, domain@, start),
{
    let mut best = start;
    let mut i: usize = 0;
    while i < list.len()
        invariant
            i <= list@.len(),
            best == most_specific(list@.subrange(0, i as int), domain@, start),
        decreases list.len() - i,
    {
        let w = &list[i];
        proof {
            let s = list@.subrange(0, i + 1);
            assert(s.drop_last() =~= list@.subrange(0, i as int));
            assert(s.last() == list@[i as int]);
        }
        if w.matches(domain) {
            let replace = match &best {
                None => true,
                Some(prev) => w.more_specific_than(prev),
            };
            if replace {
                best = Some(copy_domain(w));
            }
        }
        i = i + 1;
    }
    proof {
        assert(list@.subrange(0, list@.len() as int) =~= list@);
    }
    best
}

fn copy_domain(w: &WildCardedDomain) -> (r: WildCardedDomain)
    ensures
        r == *w,
{
    match w {
        WildCardedDomain::WildCard => WildCardedDomain::WildCard,
        WildCardedDomain::WildCarded(d) => WildCardedDomain::WildCarded(d.clone()),
        WildCardedDomain::Exact(d) => WildCardedDomain::Exact(d.clone()),
    }
}

impl PartialProxyConfig {
    /// The proxy's url where it serves a destination with this domain; a
    /// destination without a domain gets none.
    pub fn for_url(&self, domain: Option<&str>) -> (r: Option<&String>)
        ensures
            match domain {
                None => r.is_none(),
                Some(d) => if proxy_applies(*self, d@) { r == Some(&self.url) } else { r.is_none() },
            },
    {
        let d = match domain {
            None => return None,
            Some(d) => d,
        };
        let start = if self.allowed.len() == 0 { Some(WildCardedDomain::WildCard) } else { None };
        let inc = pick_most_specific(&self.allowed, d, start);
        let exc = pick_most_specific(&self.denied, d, None);
        match (inc, exc) {
            (Some(a), Some(b)) => if a.more_specific_than(&b) { Some(&self.url) } else { None },
            (Some(_), None) => Some(&self.url),
            _ => None,
        }
    }
}

/// Where outbound requests go: directly, through one proxy, or by domain
/// through the first proxy that serves it.
pub enum ProxyConfig {
    Direct,
    Global { url: String },
    ByDomain(Vec<PartialProxyConfig>),
}

/// Entry `i` of `list` is the first proxy that serves `domain`.
pub open spec fn first_serving(list: Seq<PartialProxyConfig>, domain: Option<&str>, i: int) -> bool {
    &&& 0 <= i < list.len()
    &&& domain.is_some()
    &&& proxy_applies(list[i], domain.unwrap()@)
    &&& forall|j: int| 0 <= j < i ==> !proxy_applies(#[trigger] list[j], domain.unwrap()@)
}

impl ProxyConfig {
    /// The url of the proxy that serves a destination with this domain.
    pub fn proxy_for(&self, domain: Option<&str>) -> (r: Option<&String>)
        ensures
            self is Direct ==> r.is_none(),
            self is Global ==> r == Some(&self->url),
            self is ByDomain ==> match r {
                Some(u) => exists|i: int| #![trigger self->ByDomain_0@[i]] first_serving(self->ByDomain_0@, domain, i) && u == &self->ByDomain_0@[i].url,
                None => forall|i: int| 0 <= i < self->ByDomain_0@.len() && domain.is_some()
                    ==> !proxy_applies(#[trigger] self->ByDomain_0@[i], domain.unwrap()@),
            },
    {
        match self {
            ProxyConfig::Direct => None,
            ProxyConfig::Global { url } => Some(url),
            ProxyConfig::ByDomain(list) => {
                let mut i: usize = 0;
                while i < list.len()
                    invariant
                        self is ByDomain,
                        self->ByDomain_0 == *list,
                        i <= list@.len(),
                        forall|j: int| 0 <= j < i && domain.is_some() ==> !proxy_applies(#[trigger] list@[j], domain.unwrap()@),
                    decreases list.len() - i,
                {
                    let found = list[i].for_url(domain);
                    if found.is_some() {
                        assert(proxy_applies(list@[i as int], domain.unwrap()@));
                        assert(first_serving(list@, domain, i as int));
                        return found;
                    }
                    i = i + 1;
                }
                None
            },
        }
    }
}

} // verus!
