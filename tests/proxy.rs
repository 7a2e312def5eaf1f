use event_ingest::proxy::{PartialProxyConfig, ProxyConfig, WildCardedDomain};

fn wc(s: &str) -> WildCardedDomain {
    WildCardedDomain::from_str(s)
}

#[test]
fn patterns_parse() {
    assert!(matches!(wc("*.onion"), WildCardedDomain::WildCarded(d) if d == ".onion"));
    assert!(matches!(wc("*"), WildCardedDomain::WildCarded(d) if d.is_empty()));
    assert!(matches!(wc("matrix.org"), WildCardedDomain::Exact(d) if d == "matrix.org"));
}

#[test]
fn patterns_match() {
    assert!(wc("*.onion").matches("hello.onion"));
    assert!(!wc("*.onion").matches("hello.com"));
    assert!(wc("a.org").matches("a.org"));
    assert!(!wc("a.org").matches("b.a.org"));
    assert!(WildCardedDomain::WildCard.matches("anything"));
}

#[test]
fn specificity() {
    assert!(wc("*.myspecial.onion").more_specific_than(&wc("*.onion")));
    assert!(!wc("*.onion").more_specific_than(&wc("*.myspecial.onion")));
    assert!(wc("matrix.myspecial.onion").more_specific_than(&wc("*.myspecial.onion")));
    assert!(wc("x").more_specific_than(&WildCardedDomain::WildCard));
    assert!(!WildCardedDomain::WildCard.more_specific_than(&WildCardedDomain::WildCard));
    assert!(!wc("*.onion").more_specific_than(&wc("*.onion")));
}

fn by_domain() -> PartialProxyConfig {
    PartialProxyConfig {
        url: "socks5h://localhost:9050".to_string(),
        allowed: vec![wc("*.onion"), wc("matrix.myspecial.onion")],
        denied: vec![wc("*.myspecial.onion")],
    }
}

#[test]
fn most_specific_rule_decides() {
    let p = by_domain();
    assert_eq!(p.for_url(Some("ordinary.onion")).map(|s| s.as_str()), Some("socks5h://localhost:9050"));
    assert!(p.for_url(Some("matrix.myspecial.onion")).is_some());
    assert!(p.for_url(Some("hello.myspecial.onion")).is_none());
    assert!(p.for_url(Some("example.com")).is_none());
    assert!(p.for_url(None).is_none());
}

#[test]
fn empty_allow_list_means_everything() {
    let p = PartialProxyConfig { url: "http://p".to_string(), allowed: vec![], denied: vec![wc("*.local")] };
    assert!(p.for_url(Some("example.com")).is_some());
    assert!(p.for_url(Some("host.local")).is_none());
}

#[test]
fn configs_pick_the_first_serving_proxy() {
    assert!(ProxyConfig::Direct.proxy_for(Some("a.org")).is_none());
    let g = ProxyConfig::Global { url: "http://g".to_string() };
    assert_eq!(g.proxy_for(Some("a.org")).unwrap(), "http://g");
    let list = ProxyConfig::ByDomain(vec![
        by_domain(),
        PartialProxyConfig { url: "http://rest".to_string(), allowed: vec![], denied: vec![] },
    ]);
    assert_eq!(list.proxy_for(Some("a.onion")).unwrap(), "socks5h://localhost:9050");
    assert_eq!(list.proxy_for(Some("hello.myspecial.onion")).unwrap(), "http://rest");
}
