use h5i_browser::address::{is_internal_address, IpAddr};
use h5i_browser::policy::Policy;
use h5i_browser::url::Url;

fn url(s: &str) -> Url {
    Url::parse(s).expect("test url parses")
}

#[test]
fn a_host_and_port_grant_is_a_grant() {
    // It parses as scheme `example.com`, path `8080`, so reading the first
    // parse threw the whole entry away and the run reached nothing, with
    // no line saying why.
    let policy = Policy::new().allow("dev.example.com:8080");
    assert!(policy.check(&url("https://dev.example.com:8080/x")).is_allowed());
    assert!(!policy.check(&url("https://dev.example.com/x")).is_allowed());
    // Same for the wildcard spelling, which normalises through here too.
    let wild = Policy::new().allow("*.example.com:8080");
    assert!(wild.check(&url("https://a.example.com:8080/")).is_allowed());
    assert!(!wild.check(&url("https://a.example.com/")).is_allowed());
    // And a scheme this engine cannot fetch is still not a grant.
    assert!(!Policy::new().allow("file://etc").check(&url("https://etc/")).is_allowed());
}

#[test]
fn empty_policy_denies_everything_remote() {
    let policy = Policy::new();
    assert!(!policy.check(&url("https://example.com/a")).is_allowed());
    assert!(!policy.check(&url("http://evil.test/x")).is_allowed());
}

#[test]
fn loopback_is_allowed_by_default_because_it_is_the_dev_server() {
    let policy = Policy::new();
    assert!(policy.check(&url("http://localhost:3000/")).is_allowed());
    assert!(policy.check(&url("http://127.0.0.1:8080/x")).is_allowed());
    // ...and can be taken away for a run that should reach nothing local.
    let strict = Policy::new().set_allow_loopback(false);
    assert!(!strict.check(&url("http://localhost:3000/")).is_allowed());
}

#[test]
fn a_subdomain_wildcard_grants_the_subdomains_h5i_already_permits() {
    // h5i's net.egress accepts `*.host`, and the box's egress list reaches
    // this engine verbatim; treating it as a literal hostname refused every
    // request the sandbox itself would have allowed.
    let policy = Policy::new().allow("*.example.com");
    assert!(policy.check(&url("https://docs.example.com/guide")).is_allowed());
    assert!(policy.check(&url("https://a.b.example.com/")).is_allowed());
    // The apex too: `*.host` in h5i means the host and everything under it.
    assert!(policy.check(&url("https://example.com/")).is_allowed());
    // `.host` is the other spelling h5i accepts.
    assert!(Policy::new().allow(".example.com").check(&url("https://x.example.com/")).is_allowed());
}

#[test]
fn a_wildcard_carries_the_same_scheme_and_port_constraints_as_an_exact_grant() {
    // The bug: the wildcard branch skipped normalize_origin, so `*.host`
    // silently permitted plaintext http on any port while the exact
    // spelling of the same grant refused it.
    let policy = Policy::new().allow("*.example.com");
    assert!(policy.check(&url("https://docs.example.com/")).is_allowed());
    assert!(
        !policy.check(&url("http://docs.example.com/")).is_allowed(),
        "a bare wildcard means https, exactly as a bare host does"
    );
    assert!(
        !policy.check(&url("https://docs.example.com:8443/")).is_allowed(),
        "the port is part of the origin for wildcards too"
    );

    // ...and an explicit scheme/port is honoured.
    let plain = Policy::new().allow("http://*.internal.corp:8080");
    assert!(plain.check(&url("http://api.internal.corp:8080/t")).is_allowed());
    assert!(!plain.check(&url("https://api.internal.corp/t")).is_allowed());
}

#[test]
fn a_redirect_cannot_downgrade_a_wildcard_grant_to_plaintext() {
    // Every hop is re-checked by this same function, so if the wildcard
    // ignored the scheme an https->http hop on the same host would be
    // waved through and the response would travel unencrypted.
    let policy = Policy::new().allow("*.example.com");
    assert!(policy.check(&url("https://a.example.com/x")).is_allowed());
    assert!(!policy.check(&url("http://a.example.com/x")).is_allowed());
}

#[test]
fn a_wildcard_matches_on_a_label_boundary_only() {
    // The classic near-miss: `*.example.com` must not grant
    // `notexample.com` or an attacker-controlled suffix lookalike.
    let policy = Policy::new().allow("*.example.com");
    assert!(!policy.check(&url("https://notexample.com/")).is_allowed());
    assert!(!policy.check(&url("https://example.com.evil.test/")).is_allowed());
    assert!(!policy.check(&url("https://evil-example.com/")).is_allowed());
}

/// The gap a name-level allowlist cannot see: the check happens against a
/// name, the connection happens against an address, and DNS decides the
/// second one after the first has been approved.
#[test]
fn an_allowed_name_that_resolves_inward_is_refused() {
    let policy = Policy::new().allow("https://docs.example.com");
    let url = Url::parse("https://docs.example.com/page").unwrap();

    // The name itself is fine. That is the point.
    assert!(policy.check(&url).is_allowed());

    for addr in [
        "127.0.0.1",
        "10.0.0.1",
        "192.168.1.5",
        "172.16.0.1",
        // The cloud metadata endpoint, which is the one every SSRF
        // write-up reaches for.
        "169.254.169.254",
        "::1",
        // The same loopback address wearing its IPv4-mapped spelling.
        "::ffff:127.0.0.1",
    ] {
        let verdict = policy.check_address(&url, IpAddr::parse(addr).unwrap());
        assert!(
            !verdict.is_allowed(),
            "{addr} should not be reachable through a public name"
        );
    }

    // A public address through the same name is the ordinary case.
    assert!(
        policy
            .check_address(&url, IpAddr::parse("93.184.216.34").unwrap())
            .is_allowed()
    );
}

/// Loopback by *name* is the dev server, which is allowed by design. The
/// address check must not take that back.
#[test]
fn a_loopback_name_may_still_reach_a_loopback_address() {
    let policy = Policy::new();
    for (name, addr) in [
        ("http://localhost:3000/", "127.0.0.1"),
        ("http://127.0.0.1:3000/", "127.0.0.1"),
        ("http://[::1]:3000/", "::1"),
        ("http://app.localhost:3000/", "127.0.0.1"),
    ] {
        let url = Url::parse(name).unwrap();
        assert!(
            policy.check_address(&url, IpAddr::parse(addr).unwrap()).is_allowed(),
            "{name} is the dev server and must stay reachable"
        );
    }
}

/// An address written into the URL is what the allowlist already answered
/// about, so the address check defers to that answer rather than inventing
/// a second one.
#[test]
fn a_literal_address_is_judged_by_the_allowlist_not_by_its_range() {
    let allowed = Policy::new().allow("http://10.1.2.3:8080");
    let url = Url::parse("http://10.1.2.3:8080/admin").unwrap();
    assert!(
        allowed
            .check_address(&url, IpAddr::parse("10.1.2.3").unwrap())
            .is_allowed(),
        "an operator who granted this address by name meant it"
    );

    let empty = Policy::new();
    assert!(
        !empty
            .check_address(&url, IpAddr::parse("10.1.2.3").unwrap())
            .is_allowed(),
        "and one that was never granted is still refused"
    );
}

#[test]
fn internal_ranges_are_recognised_in_every_spelling() {
    for addr in [
        "127.0.0.1",
        "10.0.0.1",
        "192.168.0.1",
        "169.254.169.254",
        "100.64.0.1",
    ] {
        assert!(is_internal_address(IpAddr::parse(addr).unwrap()), "{addr}");
    }
    for addr in ["fd00::1", "fe80::1", "::1", "::"] {
        assert!(is_internal_address(IpAddr::parse(addr).unwrap()), "{addr}");
    }
    for addr in ["8.8.8.8", "93.184.216.34", "2606:4700:4700::1111"] {
        assert!(!is_internal_address(IpAddr::parse(addr).unwrap()), "{addr}");
    }
}

/// A socket address is judged as its HTTP twin. The promise was in
/// `check`'s documentation and nothing implemented it, so an allowed
/// remote socket was denied for "could not derive an origin". A refusal
/// whose reason pointed at the URL when the answer was the allowlist.
#[test]
fn a_socket_address_is_judged_as_its_http_twin() {
    let policy = Policy::new().allow("https://example.com");
    assert!(
        policy.check(&url("wss://example.com/socket")).is_allowed(),
        "granting https should grant wss to the same origin"
    );
    assert!(
        !policy.check(&url("ws://example.com/socket")).is_allowed(),
        "but not the plaintext twin, which is a different origin"
    );

    let plain = Policy::new().allow("http://example.com");
    assert!(plain.check(&url("ws://example.com/socket")).is_allowed());

    // And a refusal names the allowlist rather than the URL's shape.
    let empty = Policy::new();
    let verdict = empty.check(&url("wss://elsewhere.example/socket"));
    assert!(!verdict.is_allowed());
    assert!(
        verdict.reason().unwrap().contains("allowlist"),
        "the reason should point at the allowlist: {:?}",
        verdict.reason()
    );
}

#[test]
fn a_dns_name_that_looks_like_loopback_is_not_loopback() {
    // `127.evil.com` is a valid public hostname. Treating it as loopback
    // because it starts with "127." hands an allowlist bypass to any page
    // that references it.
    let policy = Policy::new();
    assert!(!policy.check(&url("http://127.evil.com/exfil")).is_allowed());
    assert!(!policy.check(&url("http://127.0.0.1.evil.com/")).is_allowed());
    // ...while the real 127/8 block stays loopback.
    assert!(policy.check(&url("http://127.0.0.1:8080/")).is_allowed());
    assert!(policy.check(&url("http://127.9.9.9/")).is_allowed());
}

#[test]
fn ipv6_loopback_is_recognised_despite_the_brackets() {
    // host_str returns `[::1]` with brackets; a bare `::1` comparison
    // never matches, so an IPv6-only dev server would be denied.
    let policy = Policy::new();
    assert!(policy.check(&url("http://[::1]:3000/app")).is_allowed());
    assert!(policy.check(&url("http://[::1]/")).is_allowed());
}

#[test]
fn granting_an_origin_does_not_grant_its_neighbours() {
    let policy = Policy::new().allow("example.com");
    assert!(policy.check(&url("https://example.com/docs")).is_allowed());
    // A subdomain is a different origin. This is the rule that stops
    // "allow the docs site" from also allowing its CDN and its analytics.
    assert!(!policy.check(&url("https://cdn.example.com/x")).is_allowed());
    assert!(!policy.check(&url("https://example.com.evil.test/")).is_allowed());
}

#[test]
fn scheme_and_port_are_part_of_the_origin() {
    let policy = Policy::new().allow("https://example.com");
    assert!(policy.check(&url("https://example.com/a")).is_allowed());
    // Downgrade to http is a different origin, and silently allowing it
    // would let a network attacker strip TLS and stay "in policy".
    assert!(!policy.check(&url("http://example.com/a")).is_allowed());
    assert!(!policy.check(&url("https://example.com:8443/a")).is_allowed());
}

#[test]
fn bare_host_is_read_as_https_not_as_both() {
    let policy = Policy::new().allow("example.com");
    assert!(policy.check(&url("https://example.com/")).is_allowed());
    assert!(!policy.check(&url("http://example.com/")).is_allowed());
}

#[test]
fn non_network_schemes_are_refused_by_name() {
    let policy = Policy::new().allow("example.com");
    // `file:` is the one that matters: a page that can read the box's
    // filesystem through the renderer has walked around the whole point.
    let verdict = policy.check(&url("file:///etc/passwd"));
    assert!(!verdict.is_allowed());
    assert!(verdict.reason().unwrap().contains("file"));
}

#[test]
fn data_urls_are_allowed_because_they_reach_no_network() {
    let policy = Policy::new();
    assert!(policy
        .check(&url("data:text/plain;base64,aGVsbG8="))
        .is_allowed());
}

#[test]
fn denial_reason_names_the_origin_so_a_human_can_act_on_it() {
    let policy = Policy::new();
    let verdict = policy.check(&url("https://tracker.test/pixel.gif"));
    let reason = verdict.reason().expect("denied requests carry a reason");
    assert!(reason.contains("https://tracker.test"), "reason: {reason}");
}

#[test]
fn origins_round_trip_for_the_doctor_output() {
    let policy = Policy::new()
        .allow("example.com")
        .allow("http://localhost:9999")
        .allow("https://docs.rs");
    let listed: Vec<_> = policy.origins();
    assert_eq!(
        listed,
        vec!["http://localhost:9999", "https://docs.rs", "https://example.com"]
    );
}

// --- the instrument mode ---------------------

#[test]
fn any_remote_grants_the_open_web_and_nothing_else_changes() {
    let open = Policy::new().set_any_remote(true);
    assert!(open.check(&url("https://anything.test/x")).is_allowed());
    assert!(open.check(&url("http://plain.test/x")).is_allowed());
    assert!(open.allows_any_remote(), "the mode has to be reportable");

    // Still not a scheme grant. `file:` was never fetchable and this does
    // not make it one.
    assert!(!open.check(&url("file:///etc/passwd")).is_allowed());
}

#[test]
fn any_remote_does_not_disable_the_rebinding_guard() {
    // The property that makes this a measurement flag rather than a
    // private-network flag: the *name* check is what widens, and where the
    // name actually went is still decided separately.
    let open = Policy::new().set_any_remote(true);
    let verdict = open.check_address(
        &url("https://public.test/x"),
        IpAddr::parse("10.0.0.7").expect("addr"),
    );
    assert!(!verdict.is_allowed(), "a public name into RFC1918 must still be refused");
    assert!(verdict.reason().unwrap().contains("internal address"));
}

#[test]
fn any_remote_does_not_reach_a_private_address_written_literally() {
    // `check_address` sends an IP-literal host back to the allowlist, and
    // the allowlist under this flag would otherwise say yes to everything.
    // It asks the narrower question instead, so the blanket grant cannot
    // become a route into private space by spelling.
    let open = Policy::new().set_any_remote(true);
    let literal = url("http://10.0.0.7:8080/x");
    let addr = IpAddr::parse("10.0.0.7").expect("addr");
    assert!(!open.check_address(&literal, addr).is_allowed());

    // Naming it explicitly still works, because that is somebody deciding.
    let named = Policy::new()
        .set_any_remote(true)
        .allow("http://10.0.0.7:8080");
    assert!(named.check_address(&literal, addr).is_allowed());
}

#[test]
fn any_remote_does_not_let_a_web_page_reach_the_dev_server() {
    // The document rule lives in `check_from` and is untouched: a page the
    // web served may not talk to loopback however wide the allowlist is.
    let open = Policy::new().set_any_remote(true);
    let judged = open.check_from(
        &url("http://127.0.0.1:3000/secret"),
        Some(&url("https://evil.test/page")),
    );
    assert!(!judged.is_allowed(), "loopback is still document-scoped: {judged:?}");
}

#[test]
fn without_the_flag_nothing_remote_is_reachable() {
    // The default, which the flag leaves alone.
    let closed = Policy::new();
    assert!(!closed.check(&url("https://anything.test/x")).is_allowed());
    assert!(!closed.allows_any_remote());
}

#[test]
fn any_remote_grants_no_loopback() {
    let open = Policy::new().set_allow_loopback(false).set_any_remote(true);
    assert!(!open.check(&url("http://localhost:3000/")).is_allowed());
    assert!(!open.check(&url("http://127.0.0.1:8080/x")).is_allowed());
    assert!(!open.check(&url("http://[::1]/")).is_allowed());
    assert!(open.check(&url("https://anything.test/x")).is_allowed());
    // Naming it explicitly still works, because that is somebody deciding.
    let named = open.allow("http://localhost:3000");
    assert!(named.check(&url("http://localhost:3000/")).is_allowed());
}

#[test]
fn a_scheme_that_cannot_be_fetched_grants_nothing() {
    for grant in ["file://etc", "file:///etc/passwd", "ftp://etc", "file://*.etc", "FILE://etc"] {
        let policy = Policy::new().allow(grant);
        assert_eq!(policy.origins(), Vec::<&str>::new(), "{grant}");
        for at in ["https://etc/", "https://file/", "https://ftp/", "https://a.etc/"] {
            assert!(!policy.check(&url(at)).is_allowed(), "{grant} {at}");
        }
    }
    // A host and port is a grant, whatever stands behind it.
    let policy = Policy::new().allow("dev.example.com:8080/?from=http://x");
    assert!(policy.check(&url("https://dev.example.com:8080/")).is_allowed());
}

#[test]
fn a_web_page_does_not_reach_a_granted_loopback_origin() {
    let policy = Policy::new().set_allow_loopback(false).allow("http://127.0.0.1:3000");
    let secret = url("http://127.0.0.1:3000/secret");
    assert!(!policy.check_from(&secret, Some(&url("https://evil.test/page"))).is_allowed());
    assert!(policy.check_from(&secret, Some(&url("http://127.0.0.1:3000/"))).is_allowed());
    assert!(policy.check_from(&secret, None).is_allowed());
}

#[test]
fn a_wildcard_judges_a_socket_as_its_twin() {
    let policy = Policy::new().allow("*.example.com");
    assert!(policy.check(&url("wss://docs.example.com/socket")).is_allowed());
    assert!(!policy.check(&url("ws://docs.example.com/socket")).is_allowed());
}

#[test]
fn the_order_of_grants_does_not_matter() {
    let grants = ["b.test", "*.a.test", "http://c.test:81", "b.test"];
    let forward: Vec<String> = grants.iter().map(|g| g.to_string()).collect();
    let backward: Vec<String> = grants.iter().rev().map(|g| g.to_string()).collect();
    let one = Policy::new().allow_all_of(&forward);
    let two = Policy::new().allow_all_of(&backward);
    assert_eq!(one.origins(), two.origins());
    assert_eq!(one.origins(), vec!["http://c.test:81", "https://b.test"]);
    for at in ["https://b.test/", "https://x.a.test/", "http://c.test:81/", "https://d.test/"] {
        assert_eq!(one.check(&url(at)), two.check(&url(at)));
    }
    assert_eq!(Policy::new().allow_all_of(&Vec::new()).origins(), Vec::<&str>::new());
}
