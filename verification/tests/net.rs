use std::io::Write;

use h5i_browser::address::IpAddr;
use h5i_browser::cors::{Credentials, Mode, Preflight};
use h5i_browser::decode::decode_capped;
use h5i_browser::drive::{Action, Event, Sending};
use h5i_browser::fetch::{script_context, Answer, Fetch, FetchOutcome, WireRequest};
use h5i_browser::passage::{Passage, Stage, Step};
use h5i_browser::policy::Policy;
use h5i_browser::raw::{
    build_managed_raw, build_raw_request, no_capture, plan_replay, raw_answered, raw_passage,
    Editable, RawAnswer, Replay, Sends,
};
use h5i_browser::receipt::{Initiator, Phase, RequestRecord};
use h5i_browser::resources::{BrokerNet, ResourceOutcomes};
use h5i_browser::url::Url;
use h5i_browser::wire::{
    frame_over, frame_records, preflight_answered, preflight_passage, preflight_request,
    refuse_channel, socket_passage, stream_context, stream_passage, stream_unsent, Presented,
    PreflightAnswer,
};

fn url(s: &str) -> Url {
    Url::parse(s).expect("test url")
}

/// What a server answers with: a status, headers and a body.
type Served = (u16, Vec<(String, String)>, Vec<u8>);

/// Everything around the dialogue: a log, a jar, an allowance, and a server
/// that answers from memory.
struct World {
    policy: Policy,
    log_refuses: bool,
    log: Vec<RequestRecord>,
    seq: u64,
    jar: Vec<(String, String)>,
    allowance: Option<u64>,
    wire_spent: u64,
    seen: Vec<WireRequest>,
    server: Box<dyn FnMut(&WireRequest) -> Result<Served, String>>,
}

fn head(name: &str, value: &str) -> (String, String) {
    (name.to_string(), value.to_string())
}

fn ok() -> Result<Served, String> {
    Ok((200, vec![head("content-length", "2")], b"ok".to_vec()))
}

impl World {
    fn new(
        policy: Policy,
        server: impl FnMut(&WireRequest) -> Result<Served, String> + 'static,
    ) -> World {
        World {
            policy,
            log_refuses: false,
            log: Vec::new(),
            seq: 0,
            jar: Vec::new(),
            allowance: None,
            wire_spent: 0,
            seen: Vec::new(),
            server: Box::new(server),
        }
    }

    fn number(&mut self) -> u64 {
        self.seq += 1;
        self.seq - 1
    }

    fn append(&mut self, record: RequestRecord) -> Result<(), String> {
        if self.log_refuses {
            return Err("disk is on fire".to_string());
        }
        self.log.push(record);
        Ok(())
    }

    fn append_pair(&mut self, a: RequestRecord, b: RequestRecord) -> Result<(), String> {
        self.append(a)?;
        self.append(b)
    }

    fn claim(&mut self) -> Result<(), String> {
        match self.allowance {
            None => Ok(()),
            Some(0) => Err("budget-exceeded: the page has no requests left".to_string()),
            Some(n) => {
                self.allowance = Some(n - 1);
                Ok(())
            }
        }
    }

    fn resolve(host: &str) -> Result<Vec<IpAddr>, String> {
        match IpAddr::parse(host) {
            Some(addr) => Ok(vec![addr]),
            None => Ok(vec![IpAddr::V4([93, 184, 216, 34])]),
        }
    }

    fn store_cookie(&mut self, at: &Url, cookie: &str) {
        let pair = cookie.split(';').next().unwrap().trim().to_string();
        let name = pair.split('=').next().unwrap().to_string();
        let host = at.host.clone().unwrap();
        self.jar
            .retain(|(h, c)| *h != host || !c.starts_with(&format!("{name}=")));
        self.jar.push((host, pair));
    }

    fn cookies_for(&self, at: &Url) -> Option<(String, usize)> {
        let host = at.host.clone().unwrap_or_default();
        let mine: Vec<&str> = self
            .jar
            .iter()
            .filter(|(h, _)| *h == host)
            .map(|(_, c)| c.as_str())
            .collect();
        if mine.is_empty() {
            None
        } else {
            Some((mine.join("; "), mine.len()))
        }
    }

    fn preflight(
        &mut self,
        at: &Url,
        ask: &Preflight,
        document: Option<&Url>,
    ) -> Result<(), String> {
        let seq = self.number();
        let mut passage = preflight_passage(seq, at);
        let mut step = passage.check_name(&self.policy, false, document, None, false);
        let record = loop {
            step = match step {
                Step::Refused(refusal) => {
                    let told = refusal.told.clone();
                    let (a, b) = refusal.record_pair();
                    let pair = self.append_pair(a, b);
                    return Err(refuse_channel(told, pair));
                }
                Step::Turned(told) => return Err(told),
                Step::Resolve { host, .. } => {
                    passage.check_addresses(&self.policy, &World::resolve(&host), None, false)
                }
                Step::Claim => {
                    let claim = self.claim();
                    passage.claimed(claim)
                }
                Step::Record(record) => {
                    let written = self.append(record);
                    passage.recorded(written)
                }
                Step::Ask => panic!("a preflight asks nobody"),
                Step::Go => break passage.receipt(),
            };
        };
        let wire = preflight_request(ask, at);
        let (status, headers, _) = (self.server)(&wire).expect("the server answers");
        self.seen.push(wire);
        let find = |name: &str| {
            headers
                .iter()
                .find(|(n, _)| n.eq_ignore_ascii_case(name))
                .map(|(_, v)| v.clone())
        };
        let answer = PreflightAnswer {
            status,
            allow_origin: find("access-control-allow-origin"),
            allow_credentials: find("access-control-allow-credentials"),
            allow_methods: find("access-control-allow-methods"),
            allow_headers: find("access-control-allow-headers"),
        };
        let (record, result) = preflight_answered(ask, &record, &answer, 1);
        let _ = self.append(record);
        result
    }

    fn send(&mut self, fetch: Fetch) -> FetchOutcome {
        let (mut sending, mut action) = Sending::begin(&self.policy, fetch);
        let mut body: Vec<u8> = Vec::new();
        loop {
            let event = match action {
                Action::Number => Event::Numbered(self.number()),
                Action::Resolve { host, .. } => Event::Resolved(World::resolve(&host)),
                Action::Preflight { ask, url, document } => {
                    Event::Preflighted(self.preflight(&url, &ask, document.as_ref()))
                }
                Action::Claim => Event::Claimed(self.claim()),
                Action::Append(record) => Event::Appended(self.append(record)),
                Action::AppendPair(a, b) => Event::Appended(self.append_pair(a, b)),
                Action::Cookies(at) => Event::Cookies(self.cookies_for(&at)),
                Action::Send(wire) => {
                    let served = (self.server)(&wire);
                    self.seen.push(wire);
                    let answer = match served {
                        Ok((status, headers, bytes)) => {
                            body = bytes;
                            let location = headers
                                .iter()
                                .find(|(n, _)| n.eq_ignore_ascii_case("location"))
                                .map(|(_, v)| v.clone());
                            Ok(Answer { status, headers, location })
                        }
                        Err(e) => Err(e),
                    };
                    Event::Answered { answer, ttfb_ms: 3 }
                }
                Action::Store { url, set_cookies } => {
                    for cookie in &set_cookies {
                        self.store_cookie(&url, cookie);
                    }
                    Event::Stored { cookies: set_cookies.len(), elapsed_ms: 4 }
                }
                Action::Read => Event::Body { read: Ok(body.clone()), elapsed_ms: 5 },
                Action::Settle { record, wire, .. } => {
                    self.wire_spent += wire;
                    Event::Appended(self.append(record))
                }
                Action::Done(outcome) => return outcome,
            };
            let (s, a) = sending.next(&self.policy, false, "en-US,en;q=0.9", event);
            sending = s;
            action = a;
        }
    }

    fn fetch(&mut self, at: &Url, initiator: Initiator) -> FetchOutcome {
        self.send(Fetch::get(at, initiator))
    }

    fn fetch_from(&mut self, at: &Url, initiator: Initiator, document: &Url) -> FetchOutcome {
        let mut fetch = Fetch::get(at, initiator);
        fetch.document = Some(document.clone());
        self.send(fetch)
    }

    fn send_script(
        &mut self,
        at: &Url,
        method: &str,
        document: &Url,
        headers: Vec<(String, String)>,
        mode: Mode,
        credentials: Credentials,
    ) -> FetchOutcome {
        let mut fetch = Fetch::get(at, Initiator::Subresource);
        fetch.method = method.to_string();
        fetch.cors = Some(script_context(document, headers, mode, credentials));
        fetch.document = Some(document.clone());
        self.send(fetch)
    }

    fn denied_urls(&self) -> Vec<&str> {
        self.log
            .iter()
            .filter(|r| r.phase == Phase::Request && !r.allowed)
            .map(|r| r.url.as_str())
            .collect()
    }

    fn fetched_urls(&self) -> Vec<&str> {
        self.log
            .iter()
            .filter(|r| r.phase == Phase::Request && r.allowed)
            .map(|r| r.url.as_str())
            .collect()
    }
}

/// The head of a request as a server reads it, in lower case.
fn head_of(w: &WireRequest) -> String {
    let mut out = format!("{} {} http/1.1\n", w.method, w.url.path);
    for (name, value) in &w.headers {
        out.push_str(&format!("{name}: {value}\n"));
    }
    out.to_ascii_lowercase()
}

/// How many times a header name appears in a head.
fn count(head: &str, name: &str) -> usize {
    head.lines()
        .filter(|line| line.starts_with(&format!("{name}:")))
        .count()
}

/// Answers the first request with a redirect, and the rest with `ok`.
fn redirects_once(target: &str) -> impl FnMut(&WireRequest) -> Result<Served, String> {
    let target = target.to_string();
    let mut hop = 0;
    move |_| {
        hop += 1;
        if hop == 1 {
            Ok((302, vec![head("location", &target)], Vec::new()))
        } else {
            ok()
        }
    }
}

// ------------------------------------------------------------- subresources

/// The table the page's `load` and `error` events are read from.
#[test]
fn a_subresource_outcome_is_recorded_under_both_of_its_urls() {
    let mut outcomes = ResourceOutcomes::default();
    assert!(outcomes.is_empty());

    let asked = url("https://cdn.test/a.png");
    let mut ok = FetchOutcome::failed(url("https://cdn.test/b.png"), String::new());
    ok.error = None;
    ok.status = Some(200);
    outcomes.record(&asked, &ok);
    assert_eq!(outcomes.status(&asked.href), Some(200));
    assert_eq!(outcomes.status("https://cdn.test/b.png"), Some(200));

    // `None`, not `0`: only "fetched and got nothing" is an `error`.
    assert_eq!(outcomes.status("https://cdn.test/never.png"), None);

    // A refusal and a failed connection are both `0`.
    let refused = url("https://blocked.test/x.png");
    outcomes.record(
        &refused,
        &FetchOutcome::refused(refused.clone(), "denied by policy".to_string()),
    );
    assert_eq!(outcomes.status(&refused.href), Some(0));
}

/// Recorded whether it arrived or not, so a denial is an `error` the page
/// hears rather than a silence it cannot tell from success.
#[test]
fn the_blitz_adapter_records_what_each_subresource_came_back_as() {
    let mut world = World::new(Policy::new(), |_| ok());
    let mut net = BrokerNet::with_log(
        Some(url("https://denied.test/")),
        ResourceOutcomes::default(),
    );

    let asked = url("https://tracker.test/pixel.gif");
    let outcome = world.send(net.request(&asked));
    net.settle(&asked, &outcome);

    assert_eq!(
        net.resources.status("https://tracker.test/pixel.gif"),
        Some(0),
        "a refused subresource is one the page must be able to hear about"
    );
}

#[test]
fn a_denied_request_never_reaches_the_wire_and_is_recorded_as_a_pair() {
    let mut world = World::new(Policy::new(), |_| ok());
    let outcome = world.fetch(&url("https://tracker.test/pixel.gif"), Initiator::Subresource);

    assert!(!outcome.is_ok());
    assert!(outcome.body.is_empty());
    assert!(outcome.error.unwrap().contains("denied by policy"));

    assert_eq!(world.log.len(), 2, "a denial is still a request/response pair");
    assert!(world.log.iter().all(|r| !r.allowed));
    assert_eq!(world.log[0].phase, Phase::Request);
    assert_eq!(world.log[1].phase, Phase::Response);
    assert!(world.fetched_urls().is_empty());
    assert!(world.seen.is_empty());
    assert_eq!(world.denied_urls(), vec!["https://tracker.test/pixel.gif"]);
}

#[test]
fn no_receipt_means_no_fetch() {
    // The fail-closed claim, stated as a test: a sink that cannot record the
    // decision must stop the request, not be ignored.
    let mut world = World::new(Policy::new().allow("example.com"), |_| ok());
    world.log_refuses = true;

    let outcome = world.fetch(&url("https://example.com/"), Initiator::Navigation);

    assert!(!outcome.is_ok());
    let error = outcome.error.unwrap();
    assert!(
        error.contains("receipt could not be written"),
        "the refusal must name its cause, got: {error}"
    );
    assert!(world.seen.is_empty(), "nothing reached the wire");
}

#[test]
fn blitz_handler_is_always_completed_even_when_the_request_is_denied() {
    let mut world = World::new(Policy::new(), |_| ok());
    let mut net = BrokerNet::new(Some(url("https://denied.test/")));

    let asked = url("https://denied.test/style.css");
    let outcome = world.send(net.request(&asked));
    let (resolved, bytes) = net.settle(&asked, &outcome);

    assert_eq!(resolved, "https://denied.test/style.css");
    assert_eq!(bytes.len(), 0, "completing a denial must hand back no bytes");
}

#[test]
fn loopback_is_reachable_without_an_allowlist_entry() {
    let mut world = World::new(Policy::new(), |_| Err("connection refused".to_string()));
    let outcome = world.fetch(&url("http://127.0.0.1:9/"), Initiator::Navigation);

    // The connection fails (nothing is listening), but it was *attempted*,
    // which is the difference from a policy denial.
    assert!(!outcome.is_ok());
    assert_eq!(world.denied_urls().len(), 0);
    assert_eq!(world.fetched_urls(), vec!["http://127.0.0.1:9/"]);
    let last = world.log.last().unwrap();
    assert_eq!(last.phase, Phase::Response);
    assert_eq!(last.error.as_deref(), Some("connection refused"));
}

/// A subresource is the *page* reaching for a URL, and a page from the web may
/// not reach the dev server.
#[test]
fn a_page_from_the_web_cannot_reach_loopback_through_a_subresource() {
    let mut world = World::new(Policy::new().allow("docs.test"), |_| ok());
    let dev_server = url("http://127.0.0.1:9/src/main.rs");

    let outcome = world.fetch_from(
        &dev_server,
        Initiator::Subresource,
        &url("https://docs.test/page"),
    );
    assert!(!outcome.is_ok());
    assert_eq!(world.denied_urls(), vec![dev_server.href.as_str()]);
    assert!(world.fetched_urls().is_empty(), "nothing may reach the wire");

    // ...and the dev server's own page still talks to itself, which is the
    // whole reason loopback is reachable at all.
    let mut world = World::new(Policy::new(), |_| ok());
    let _ = world.fetch_from(&dev_server, Initiator::Subresource, &url("http://127.0.0.1:9/"));
    assert_eq!(world.denied_urls().len(), 0);
    assert_eq!(world.fetched_urls(), vec![dev_server.href.as_str()]);
}

/// The adapter is where every image, stylesheet and font arrives, so it
/// carries the document explicitly.
#[test]
fn the_blitz_adapter_attributes_subresources_to_their_document() {
    let mut world = World::new(Policy::new().allow("docs.test"), |_| ok());
    let net = BrokerNet::new(Some(url("https://docs.test/page")));
    world.send(net.request(&url("http://127.0.0.1:9/secret")));

    assert_eq!(world.denied_urls(), vec!["http://127.0.0.1:9/secret"]);
    assert!(world.fetched_urls().is_empty());
}

// ----------------------------------------------------------- caller headers

#[test]
fn a_caller_header_goes_out_and_the_engines_default_stands_aside() {
    let mut world = World::new(Policy::new(), |_| ok());
    let at = url("http://127.0.0.1:8001/");
    let outcome = world.send(Fetch::get(&at, Initiator::Navigation).with_headers(vec![
        head("X-Forwarded-For", "127.0.0.1"),
        head("Accept", "application/json"),
    ]));
    assert!(outcome.is_ok(), "{:?}", outcome.error);

    let sent = head_of(&world.seen[0]);
    assert!(sent.contains("x-forwarded-for: 127.0.0.1"), "{sent}");
    // The engine's own `Accept` would otherwise ride along beside it, and a
    // request with two is neither what the caller asked for nor what the
    // engine sends by default.
    assert_eq!(count(&sent, "accept"), 1, "{sent}");
    assert!(sent.contains("accept: application/json"), "{sent}");
}

/// The framing headers are the client's, and saying so is the point.
#[test]
fn a_header_the_client_owns_is_refused_and_named_in_the_receipt() {
    let mut world = World::new(Policy::new(), |_| ok());
    let at = url("http://127.0.0.1:8001/");
    let outcome = world.send(Fetch::get(&at, Initiator::Navigation).with_headers(vec![
        head("Content-Length", "999"),
        head("Connection", "upgrade"),
    ]));
    assert!(outcome.is_ok(), "{:?}", outcome.error);

    let sent = head_of(&world.seen[0]);
    assert!(!sent.contains("content-length: 999"), "{sent}");
    assert!(!sent.contains("connection: upgrade"), "{sent}");

    let record = world
        .log
        .iter()
        .find(|r| r.phase == Phase::Request && r.allowed)
        .expect("the decision record");
    assert_eq!(
        record.headers_overridden,
        vec!["content-length".to_string(), "connection".to_string()],
        "the refusal is reported, not performed silently"
    );
}

/// A caller naming `Cookie` is testing that value, not adding to the jar's.
#[test]
fn a_caller_cookie_stands_alone() {
    let mut world = World::new(Policy::new(), |_| ok());
    let at = url("http://127.0.0.1:8001/");
    world.store_cookie(&at, "session=from-the-jar; Path=/");

    let outcome = world.send(
        Fetch::get(&at, Initiator::Navigation)
            .with_headers(vec![head("Cookie", "session=forged")]),
    );
    assert!(outcome.is_ok(), "{:?}", outcome.error);

    let sent = head_of(&world.seen[0]);
    assert_eq!(count(&sent, "cookie"), 1, "{sent}");
    assert!(sent.contains("cookie: session=forged"), "{sent}");
    assert!(!sent.contains("from-the-jar"), "{sent}");

    let response = world
        .log
        .iter()
        .find(|r| r.phase == Phase::Response)
        .expect("the outcome record");
    assert_eq!(
        response.cookies_sent,
        Some(0),
        "the jar sent nothing, and the count says so rather than counting the caller's"
    );
}

/// A chain is one request to the caller, so its headers ride along it.
#[test]
fn caller_headers_follow_a_same_origin_redirect() {
    let mut world = World::new(Policy::new(), redirects_once("/next"));
    let at = url("http://127.0.0.1:8001/start");
    let outcome = world.send(
        Fetch::get(&at, Initiator::Navigation)
            .with_headers(vec![head("Authorization", "Bearer t0ken")]),
    );
    assert!(outcome.is_ok(), "{:?}", outcome.error);

    assert_eq!(world.seen.len(), 2, "both hops were made");
    let second = head_of(&world.seen[1]);
    assert!(second.contains("authorization: bearer t0ken"), "{second}");
}

/// ...and stop at the origin boundary, which is where a chain stops being the
/// request the caller authorised.
#[test]
fn a_credential_does_not_follow_a_redirect_to_another_origin() {
    let mut world = World::new(
        Policy::new(),
        redirects_once("http://127.0.0.1:8002/collect"),
    );
    let at = url("http://127.0.0.1:8001/start");
    let outcome = world.send(Fetch::get(&at, Initiator::Navigation).with_headers(vec![
        head("Authorization", "Bearer t0ken"),
        head("X-Trace", "keep-me"),
    ]));
    assert!(outcome.is_ok(), "{:?}", outcome.error);

    assert!(
        head_of(&world.seen[0]).contains("authorization: bearer t0ken"),
        "the origin the caller named still gets it"
    );
    let landed = head_of(&world.seen[1]);
    assert!(
        !landed.contains("t0ken"),
        "a redirect must not harvest the credential: {landed}"
    );
    // Only the credential stops. A header that is not one is still the
    // caller's instruction about this chain.
    assert!(landed.contains("x-trace: keep-me"), "{landed}");
}

// ------------------------------------------------------------------- replay

fn editable(method: &str, at: &str, headers: Vec<(String, String)>, body: &[u8]) -> Editable {
    Editable {
        method: method.to_string(),
        url: url(at),
        headers,
        body: body.to_vec(),
    }
}

/// A body's content type must go out once, whoever named it.
#[test]
fn a_replayed_body_names_its_content_type_once() {
    let mut world = World::new(Policy::new(), |_| ok());
    let edited = editable(
        "POST",
        "http://127.0.0.1:8001/login",
        vec![head("content-type", "application/x-www-form-urlencoded")],
        b"username=test",
    );
    let Ok(Replay::Fetch { fetch, .. }) = plan_replay(&edited, &Sends::once()) else {
        panic!("an ordinary replay is a fetch");
    };
    let outcome = world.send(fetch);
    assert!(outcome.is_ok(), "{:?}", outcome.error);
    let sent = head_of(&world.seen[0]);
    assert_eq!(
        count(&sent, "content-type"),
        1,
        "the composed request sent it twice:\n{sent}"
    );
}

/// A replay hands back the stored header set, which already holds the engine's
/// own defaults. Every one of them has to stand aside.
#[test]
fn a_replay_does_not_duplicate_the_engines_own_headers() {
    let mut world = World::new(Policy::new(), |_| ok());
    let at = url("http://127.0.0.1:8001/api?id=1");
    assert!(world.fetch(&at, Initiator::Navigation).is_ok());
    let stored = world.seen[0].headers.clone();

    let edited = editable("GET", "http://127.0.0.1:8001/api?id=2", stored, b"");
    let Ok(Replay::Fetch { fetch, .. }) = plan_replay(&edited, &Sends::once()) else {
        panic!("an ordinary replay is a fetch");
    };
    assert!(world.send(fetch).is_ok());

    let replay = head_of(&world.seen[1]);
    for header in ["accept-encoding", "accept", "accept-language"] {
        assert_eq!(
            count(&replay, header),
            1,
            "`{header}` went out more than once on the replay:\n{replay}"
        );
    }
}

/// The store holds the header set that goes on the wire, the agent string that
/// the client adds included.
#[test]
fn the_store_records_the_header_set_that_went_on_the_wire() {
    let mut world = World::new(Policy::new(), |_| ok());
    assert!(world
        .fetch(&url("http://127.0.0.1:8001/api"), Initiator::Navigation)
        .is_ok());
    let presented = Presented::native().expect("the native identity");
    let stored = presented.headers_as_sent(world.seen[0].headers.clone());
    for (name, value) in &world.seen[0].headers {
        assert!(stored.contains(&(name.clone(), value.clone())), "{name}");
    }
    assert!(
        stored
            .iter()
            .any(|(name, value)| name.eq_ignore_ascii_case("user-agent")
                && *value == presented.user_agent),
        "the store must hold the `User-Agent` the wire carried: {stored:?}"
    );
    // One that the request names itself is left alone.
    let named = presented.headers_as_sent(vec![head("User-Agent", "mine")]);
    assert_eq!(named, vec![head("User-Agent", "mine")]);
}

/// A request another session recorded, sent under this session's identity.
#[test]
fn a_composed_request_is_sent_under_this_sessions_own_cookies() {
    let mut world = World::new(Policy::new(), |_| ok());
    let at = url("http://127.0.0.1:8001/doc?id=1");
    // This session is logged in as somebody.
    world.store_cookie(&at, "session=this-sessions-own; Path=/");

    let given = editable(
        "GET",
        "http://127.0.0.1:8001/doc?id=1",
        vec![head("X-Trace", "carried")],
        b"",
    );
    let Ok(Replay::Fetch { fetch, .. }) = plan_replay(&given, &Sends::once()) else {
        panic!("an ordinary replay is a fetch");
    };
    let outcome = world.send(fetch);
    assert_eq!(outcome.status, Some(200));

    let sent = head_of(&world.seen[0]);
    assert!(sent.contains("x-trace: carried"), "{sent}");
    assert!(
        sent.contains("cookie: session=this-sessions-own"),
        "the receiving session's jar supplies the credential: {sent}"
    );
    // And it is in this session's receipts, because this session made it.
    assert!(
        world.log.iter().any(|r| r.url.contains("/doc?id=1")),
        "a composed request is recorded like any other"
    );
}

/// A browser follows a `Location`; a test wants the 302 itself.
#[test]
fn a_replay_can_stop_at_the_redirect_and_report_it() {
    let mut world = World::new(Policy::new(), redirects_once("/home"));
    let given = editable("GET", "http://127.0.0.1:8001/login", Vec::new(), b"");
    let plan = Sends {
        count: 1,
        together: false,
        no_follow: true,
        ..Default::default()
    };
    let Ok(Replay::Fetch { fetch, .. }) = plan_replay(&given, &plan) else {
        panic!("an ordinary replay is a fetch");
    };
    let stopped = world.send(fetch);

    assert_eq!(stopped.status, Some(302), "the hop itself, not the page");
    assert!(
        stopped.error.is_none(),
        "stopping where you asked to stop is not a failure: {:?}",
        stopped.error
    );
    assert!(
        stopped
            .headers
            .iter()
            .any(|(name, value)| name == "location" && value == "/home"),
        "the `Location` is the whole content of a redirect: {:?}",
        stopped.headers
    );
}

/// A raw target reaches the wire without URL normalization.
#[test]
fn a_raw_target_reaches_the_wire_unresolved() {
    let given = editable("GET", "http://127.0.0.1:8001/", Vec::new(), b"");
    let plan = Sends {
        count: 1,
        together: false,
        no_follow: false,
        raw_target: Some("/cgi-bin/.%2e/.%2e/etc/passwd".to_string()),
        raw_request: None,
    };
    let Ok(Replay::Raw { raw, .. }) = plan_replay(&given, &plan) else {
        panic!("a raw target is a raw request");
    };
    let text = String::from_utf8_lossy(&raw.wire).to_string();
    let echoed = text.lines().next().unwrap();
    assert_eq!(
        echoed, "GET /cgi-bin/.%2e/.%2e/etc/passwd HTTP/1.1",
        "the server saw the verbatim target, not one a parser straightened"
    );

    let policy = Policy::new();
    let mut passage = raw_passage(&raw, 0);
    let step = passage.check_name(&policy, false, None, None, false);
    assert!(matches!(step, Step::Resolve { .. }));
    let found = Ok(vec![IpAddr::V4([127, 0, 0, 1])]);
    assert_eq!(
        passage.check_addresses(&policy, &found, None, false),
        Step::Claim
    );
    assert!(matches!(passage.claimed(Ok(())), Step::Record(_)));
    assert_eq!(passage.recorded(Ok(())), Step::Go);
    let answer = RawAnswer {
        status: Some(200),
        headers: Vec::new(),
        body: echoed.as_bytes().to_vec(),
        trailing: Vec::new(),
    };
    let (_, outcome) = raw_answered(&raw, &passage.receipt(), answer, 0, 3);
    assert_eq!(outcome.status, Some(200));
    assert_eq!(outcome.body, echoed.as_bytes());
}

/// A raw request preserves its bytes and records its framing headers.
#[test]
fn a_raw_request_is_written_verbatim_and_its_framing_is_noted() {
    let editable = Editable {
        method: "GET".to_string(),
        url: Url::parse("http://app.test/").unwrap(),
        headers: Vec::new(),
        body: Vec::new(),
    };
    let wire = b"POST / HTTP/1.1\r\nHost: x\r\nContent-Length: 5\r\n\
                 Transfer-Encoding: chunked\r\n\r\n0\r\n\r\n"
        .to_vec();
    let plan = Sends {
        raw_request: Some(wire.clone()),
        ..Default::default()
    };
    let raw = build_raw_request(&editable, &plan).expect("built");
    assert_eq!(raw.method, "POST");
    assert_eq!(raw.target, "/");
    assert_eq!(raw.wire, wire, "not one byte is changed");
    assert!(raw.broke.contains(&"content-length".to_string()));
    assert!(raw.broke.contains(&"transfer-encoding".to_string()));
}

/// A managed raw request computes framing but preserves its target.
#[test]
fn a_managed_raw_request_frames_itself() {
    let editable = Editable {
        method: "post".to_string(),
        url: Url::parse("http://127.0.0.1:8080/ignored").unwrap(),
        headers: vec![("Accept".to_string(), "*/*".to_string())],
        body: b"hello".to_vec(),
    };
    let raw = build_managed_raw(&editable, "/cgi-bin/.%2e/bin/sh");
    let text = String::from_utf8_lossy(&raw.wire);
    assert!(text.starts_with("POST /cgi-bin/.%2e/bin/sh HTTP/1.1\r\n"));
    assert!(text.contains("Host: 127.0.0.1:8080\r\n"), "{text}");
    assert!(text.contains("Content-Length: 5\r\n"), "{text}");
    assert!(text.ends_with("\r\n\r\nhello"), "{text}");
    assert!(raw.broke.is_empty(), "the managed shape breaks nothing");
}

/// A session that never captured has nothing to replay, and the message says
/// what to do about it.
#[test]
fn a_session_without_a_store_says_why_it_cannot_replay() {
    let error = no_capture();
    assert_eq!(error.code, "no-capture");
    assert!(error.message.contains("--capture"), "{}", error.message);
}

// ---------------------------------------------------------------- redirects

/// Where a server redirected a page is not the page's to learn.
#[test]
fn a_page_is_not_told_where_a_refused_redirect_pointed_and_the_agent_is() {
    const TARGET: &str = "https://tracker.example/users/alice?token=s3cr3t";
    // The page asked: a `fetch` from a document, so a CORS context exists.
    let mut world = World::new(Policy::new(), redirects_once(TARGET));
    let outcome = world.send_script(
        &url("http://127.0.0.1:8001/me"),
        "GET",
        &url("http://127.0.0.1:8001/"),
        Vec::new(),
        Mode::Cors,
        Credentials::SameOrigin,
    );
    let error = outcome.error.expect("the hop is refused");
    assert!(!error.contains("tracker.example"), "{error}");
    assert!(!error.contains("s3cr3t"), "{error}");
    assert!(error.contains("redirected"), "{error}");
    // The receipt has it either way: the audit lane is not the page's to be
    // protected from.
    assert!(
        world.log.iter().any(|r| r.url.contains("tracker.example")),
        "the refused hop is not in the log"
    );

    // The agent asking the same thing is told where it went.
    let mut world = World::new(Policy::new(), redirects_once(TARGET));
    let outcome = world.fetch(&url("http://127.0.0.1:8001/me"), Initiator::Navigation);
    let error = outcome.error.expect("the hop is refused");
    assert!(error.contains("tracker.example"), "{error}");
    assert!(
        world.log.iter().any(|r| r.url.contains("tracker.example")),
        "the refused hop is not in the log"
    );
}

/// A server that redirects once with this status.
fn redirecting_server(status: u16) -> impl FnMut(&WireRequest) -> Result<Served, String> {
    let mut hop = 0;
    move |_| {
        hop += 1;
        if hop == 1 {
            Ok((status, vec![head("location", "/after")], Vec::new()))
        } else {
            Ok((200, Vec::new(), b"<html><body>done</body></html>".to_vec()))
        }
    }
}

fn login() -> Fetch {
    let mut fetch = Fetch::get(&url("http://127.0.0.1:8001/login"), Initiator::Navigation);
    fetch.method = "POST".to_string();
    fetch.body = b"password=hunter2".to_vec();
    fetch.content_type = Some("application/x-www-form-urlencoded".to_string());
    fetch
}

#[test]
fn a_redirected_post_does_not_replay_its_body_to_the_next_host() {
    // The browser rule, and it is a security rule: 301/302/303 turn the
    // follow-up into a bodyless GET, so a password typed into one form is not
    // re-sent to wherever that server points next.
    for status in [301u16, 302, 303] {
        let mut world = World::new(Policy::new(), redirecting_server(status));
        let outcome = world.send(login());
        assert!(outcome.is_ok(), "{status}: {:?}", outcome.error);

        let second = &world.seen[1];
        let followed = format!(
            "{} body={}",
            second.method,
            String::from_utf8_lossy(&second.body)
        );
        assert_eq!(
            followed, "GET body=",
            "{status} must downgrade to a bodyless GET, got {followed:?}"
        );
        assert_eq!(count(&head_of(second), "content-type"), 0);
    }
}

#[test]
fn a_307_keeps_the_method_because_the_server_asked_for_that_explicitly() {
    let mut world = World::new(Policy::new(), redirecting_server(307));
    world.send(login());

    let second = &world.seen[1];
    let followed = format!(
        "{} body={}",
        second.method,
        String::from_utf8_lossy(&second.body)
    );
    assert_eq!(followed, "POST body=password=hunter2", "got {followed:?}");
}

#[test]
fn a_session_survives_between_requests_and_never_reaches_the_log() {
    let mut world = World::new(Policy::new(), |w: &WireRequest| {
        if w.url.path == "/login" {
            Ok((
                200,
                vec![head("set-cookie", "sid=s3cr3t-value; Path=/")],
                b"<html><body>ok</body></html>".to_vec(),
            ))
        } else {
            let saw = w
                .headers
                .iter()
                .find(|(n, _)| n == "cookie")
                .map(|(_, v)| v.clone())
                .unwrap_or_default();
            Ok((
                200,
                Vec::new(),
                format!("<html><body>saw:{saw}</body></html>").into_bytes(),
            ))
        }
    });

    let outcome = world.fetch(&url("http://127.0.0.1:8001/login"), Initiator::Navigation);
    assert!(outcome.is_ok(), "login failed: {:?}", outcome.error);
    assert_eq!(world.jar.len(), 1, "the session cookie was kept");

    let outcome = world.fetch(&url("http://127.0.0.1:8001/app"), Initiator::Navigation);
    let body = String::from_utf8_lossy(&outcome.body).to_string();
    assert!(
        body.contains("saw:sid=s3cr3t-value"),
        "the second request carried the session: {body}"
    );

    // The receipt says how many, and nothing more. A credential in a request
    // log is a credential in every export that log ends up in.
    let log = format!("{:?}", world.log);
    assert!(!log.contains("s3cr3t-value"), "a value reached the log:\n{log}");
    assert!(log.contains("cookies_sent"), "the count is recorded:\n{log}");

    let sent: Vec<usize> = world.log.iter().filter_map(|r| r.cookies_sent).collect();
    assert_eq!(sent, vec![0, 1], "none on login, one on the page after it");
}

// ---------------------------------------------------------------- allowance

/// Takes a passage as far as it goes, with everything but the allowance in
/// favour.
fn authorise(world: &mut World, mut passage: Passage) -> Result<Passage, String> {
    let mut step = passage.check_name(&world.policy, false, None, None, false);
    loop {
        step = match step {
            Step::Refused(refusal) => {
                let told = refusal.told.clone();
                let (a, b) = refusal.record_pair();
                let pair = world.append_pair(a, b);
                return Err(refuse_channel(told, pair));
            }
            Step::Turned(told) => return Err(told),
            Step::Resolve { host, .. } => {
                passage.check_addresses(&world.policy, &World::resolve(&host), None, false)
            }
            Step::Ask => panic!("no document asks"),
            Step::Claim => {
                let claim = world.claim();
                passage.claimed(claim)
            }
            Step::Record(record) => {
                let written = world.append(record);
                passage.recorded(written)
            }
            Step::Go => return Ok(passage),
        };
    }
}

/// Every request on the wire counts, including the ones that are not the
/// page's own `fetch`.
#[test]
fn a_preflight_a_socket_and_a_stream_all_spend_the_pages_allowance() {
    let mut world = World::new(Policy::new(), |_| ok());
    world.allowance = Some(2);

    let ws = url("ws://127.0.0.1:9/hmr");
    let seq = world.number();
    let first = authorise(&mut world, socket_passage(seq, &ws));
    assert!(first.is_ok(), "the first is inside the allowance");
    assert_eq!(first.unwrap().stage, Stage::Open);

    let sse = url("http://127.0.0.1:9/stream");
    assert!(stream_context(None).is_none(), "nobody's document asks");
    let seq = world.number();
    let second = authorise(&mut world, stream_passage(seq, &sse)).expect("the last of it");
    let (record, told) = stream_unsent(&second.receipt(), "connection refused");
    assert_eq!(record.error.as_deref(), Some("connection refused"));
    assert!(told.contains("connection refused"), "{told}");

    let seq = world.number();
    let over = authorise(&mut world, socket_passage(seq, &ws))
        .expect_err("the third is over the allowance");
    assert!(over.contains("budget-exceeded"), "{over}");

    // A preflight is refused the same way.
    let refused = world.send_script(
        &url("http://127.0.0.1:8002/item"),
        "DELETE",
        &url("http://127.0.0.1:8001/"),
        Vec::new(),
        Mode::Cors,
        Credentials::default(),
    );
    assert!(refused.error.unwrap().contains("budget-exceeded"));
    assert!(world.seen.is_empty());
}

/// A page cannot hold one connection open and pull gigabytes through it
/// uncounted: every frame is on record, and the one that is too many says so.
#[test]
fn a_long_lived_connection_is_charged_for_what_it_carries() {
    let mut world = World::new(Policy::new(), |_| ok());
    let at = url("ws://127.0.0.1:9/hmr");
    for bytes in [1_024u64, 8_192] {
        let seq = world.number();
        let (a, b) = frame_records(seq, &at, "WS-RECV", bytes);
        world.append_pair(a, b).unwrap();
        world.wire_spent += bytes;
        if world.wire_spent > 4_096 {
            let why = frame_over("budget-exceeded: 4096 bytes.");
            assert!(why.starts_with("budget-exceeded"), "{why}");
            assert!(why.contains("charged per frame"), "{why}");
        }
    }
    assert_eq!(
        world
            .log
            .iter()
            .filter(|r| r.method == "WS-RECV" && r.phase == Phase::Response)
            .count(),
        2
    );
    assert_eq!(world.log[1].bytes, Some(1_024));
}

/// The gap the budget fills: no limit on one request bounds a page that makes
/// many.
#[test]
fn a_page_that_keeps_asking_is_eventually_refused() {
    let mut world = World::new(Policy::new(), |_| ok());
    world.allowance = Some(3);
    let at = url("http://127.0.0.1:8001/");

    for n in 1..=3 {
        let outcome = world.fetch(&at, Initiator::Subresource);
        assert!(outcome.error.is_none(), "request {n}: {outcome:?}");
    }
    let refused = world.fetch(&at, Initiator::Subresource);
    let why = refused.error.expect("the fourth is over budget");
    assert!(why.contains("budget-exceeded"), "{why}");

    // And it is *recorded* as a denial, because "the page ran out of
    // allowance" is exactly what a reader of the log needs to see.
    let denied = world
        .log
        .iter()
        .filter(|r| !r.allowed)
        .filter(|r| {
            r.reason
                .as_deref()
                .is_some_and(|why| why.contains("budget-exceeded"))
        })
        .count();
    assert!(denied >= 1, "the refusal must be in the log");
    assert_eq!(world.seen.len(), 3);
}

// ----------------------------------------------------------------- decoding

#[test]
fn a_compressed_response_is_decoded_and_both_sizes_are_recorded() {
    const BODY: &[u8] = b"<html><body>compressible filler compressible filler                               compressible filler compressible filler</body></html>";
    let mut encoder = flate2::write::GzEncoder::new(Vec::new(), flate2::Compression::default());
    encoder.write_all(BODY).unwrap();
    let payload = encoder.finish().unwrap();
    let size = payload.len() as u64;
    let mut world = World::new(Policy::new(), move |_| {
        Ok((
            200,
            vec![head("content-type", "text/html"), head("content-encoding", "gzip")],
            payload.clone(),
        ))
    });

    let outcome = world.fetch(&url("http://127.0.0.1:8001/"), Initiator::Navigation);
    assert!(outcome.error.is_none(), "{outcome:?}");
    assert_eq!(outcome.body, BODY, "the body must arrive decoded");

    // The engine asked for what it can decode, and nothing else.
    assert!(world.seen[0]
        .headers
        .contains(&head("accept-encoding", "gzip, br, deflate")));

    let response = world
        .log
        .iter()
        .find(|r| r.phase == Phase::Response)
        .expect("a response record");
    assert_eq!(response.bytes, Some(BODY.len() as u64), "what the page got");
    let wire = response.wire_bytes.expect("what the wire carried");
    assert_eq!(wire, size);
    assert!(
        wire < BODY.len() as u64,
        "the compressed size should be smaller: {wire} vs {}",
        BODY.len()
    );
    assert_eq!(response.content_encoding.as_deref(), Some("gzip"));
    assert_eq!(world.wire_spent, size, "the page is charged for the wire");
}

/// A few kilobytes of zeroes is gigabytes of zeroes, and a browser that
/// decoded without a limit would let any allowed origin exhaust memory.
#[test]
fn a_response_that_decompresses_past_the_cap_is_refused() {
    // 4 MiB of zeroes compresses to a few kilobytes: small enough to pass the
    // wire cap, far past the decoded one.
    let bomb = vec![0u8; 4 * 1024 * 1024];
    let mut encoder = flate2::write::GzEncoder::new(Vec::new(), flate2::Compression::best());
    encoder.write_all(&bomb).unwrap();
    let compressed = encoder.finish().unwrap();
    assert!(compressed.len() < 64 * 1024, "the bomb must pass the wire cap");

    let refused = decode_capped(&compressed, "gzip", 64 * 1024);
    let why = refused.expect_err("a decompression bomb must be refused");
    assert!(
        why.contains("decompresses past"),
        "the refusal should name what happened: {why}"
    );

    let mut world = World::new(
        Policy::new().set_max_response_bytes(64 * 1024),
        move |_| Ok((200, vec![head("Content-Encoding", "gzip")], compressed.clone())),
    );
    let outcome = world.fetch(&url("http://127.0.0.1:8001/"), Initiator::Navigation);
    assert!(outcome.error.unwrap().contains("decompresses past"));
    assert!(outcome.body.is_empty());
}

/// An encoding this engine cannot decode is an error, not a body passed
/// through.
#[test]
fn an_encoding_this_engine_did_not_ask_for_is_an_error() {
    let why = decode_capped(b"whatever", "exotic-zip", 8 * 1024 * 1024)
        .expect_err("an unknown encoding is an error");
    assert!(why.contains("exotic-zip"), "{why}");
}

#[test]
fn every_encoding_this_engine_advertises_round_trips() {
    let cap = 8 * 1024 * 1024;
    let body = b"round trip me".repeat(50);

    let mut gz = flate2::write::GzEncoder::new(Vec::new(), flate2::Compression::default());
    gz.write_all(&body).unwrap();
    assert_eq!(decode_capped(&gz.finish().unwrap(), "gzip", cap).unwrap(), body);

    let mut zl = flate2::write::ZlibEncoder::new(Vec::new(), flate2::Compression::default());
    zl.write_all(&body).unwrap();
    assert_eq!(
        decode_capped(&zl.finish().unwrap(), "deflate", cap).unwrap(),
        body
    );

    // Raw deflate too: the spec says zlib and enough servers send bare that a
    // browser has to try both.
    let mut raw = flate2::write::DeflateEncoder::new(Vec::new(), flate2::Compression::default());
    raw.write_all(&body).unwrap();
    assert_eq!(
        decode_capped(&raw.finish().unwrap(), "deflate", cap).unwrap(),
        body
    );

    let mut br = Vec::new();
    {
        let mut writer = brotli::CompressorWriter::new(&mut br, 4096, 5, 22);
        writer.write_all(&body).unwrap();
    }
    assert_eq!(decode_capped(&br, "br", cap).unwrap(), body);

    // A stacked encoding is refused by name. Reading the last one made the
    // engine brotli-decode gzip output and blame brotli for it.
    let mut gz = flate2::write::GzEncoder::new(Vec::new(), flate2::Compression::default());
    gz.write_all(&body).unwrap();
    let err = decode_capped(&gz.finish().unwrap(), "gzip, br", cap)
        .expect_err("stacked encodings are refused");
    assert!(err.contains("stacks encodings"), "{err}");
    // `identity` in the list is a no-op, not a second layer.
    let mut gz = flate2::write::GzEncoder::new(Vec::new(), flate2::Compression::default());
    gz.write_all(&body).unwrap();
    assert_eq!(
        decode_capped(&gz.finish().unwrap(), "identity, gzip", cap).unwrap(),
        body
    );
}

// --------------------------------------------------------------- across origins

/// Serves a page with whatever CORS headers the test wants.
fn cors_server(
    allow: Option<&'static str>,
    allow_credentials: bool,
) -> impl FnMut(&WireRequest) -> Result<Served, String> {
    move |_| {
        let mut headers = vec![head("content-type", "text/plain"), head("x-private", "nope")];
        if let Some(allow) = allow {
            headers.push(head("access-control-allow-origin", allow));
            headers.push(head("access-control-allow-methods", "DELETE"));
            headers.push(head("access-control-allow-headers", "x-token"));
        }
        if allow_credentials {
            headers.push(head("access-control-allow-credentials", "true"));
        }
        // So a test can also ask what the *response* was allowed to leave
        // behind, not only what the request carried.
        headers.push(head("set-cookie", "planted=1; Path=/"));
        Ok((200, headers, b"SECRET-BODY".to_vec()))
    }
}

/// Loopback is reachable by default (it is the dev server), so two pages on it
/// are two *origins*, different ports, that the allowlist both permits.
#[test]
fn a_cross_origin_read_is_refused_unless_the_server_allows_it() {
    let mut world = World::new(Policy::new(), cors_server(None, false));
    let outcome = world.send_script(
        &url("http://127.0.0.1:8001/secret"),
        "GET",
        &url("http://127.0.0.1:1/page"),
        Vec::new(),
        Mode::Cors,
        Credentials::default(),
    );

    assert!(
        outcome.error.is_some(),
        "a cross-origin body must not be handed over: {outcome:?}"
    );
    assert!(
        outcome.error.as_deref().unwrap().contains("same-origin policy"),
        "{outcome:?}"
    );
    assert!(
        outcome.body.is_empty(),
        "the body must not even be read: {outcome:?}"
    );
    // The request *was* made and announced itself, which is what lets a server
    // answer the question at all.
    assert!(world.seen[0]
        .headers
        .contains(&head("origin", "http://127.0.0.1:1")));
}

/// And the other half: a server that names us back gets read.
#[test]
fn a_cross_origin_read_the_server_allows_goes_through() {
    let mut world = World::new(Policy::new(), cors_server(Some("*"), false));
    let outcome = world.send_script(
        &url("http://127.0.0.1:8001/open"),
        "GET",
        &url("http://127.0.0.1:1/page"),
        Vec::new(),
        Mode::Cors,
        Credentials::default(),
    );
    assert!(outcome.error.is_none(), "{outcome:?}");
    assert_eq!(String::from_utf8_lossy(&outcome.body), "SECRET-BODY");
    // Headers are filtered to the safelist: the server exposed nothing.
    assert!(
        !outcome.headers.iter().any(|(n, _)| n.eq_ignore_ascii_case("x-private")),
        "an unexposed header leaked: {:?}",
        outcome.headers
    );
    assert!(
        outcome.headers.iter().any(|(n, _)| n.eq_ignore_ascii_case("content-type")),
        "the safelist should still be visible: {:?}",
        outcome.headers
    );
}

/// The default credentials mode is what stops a cross-origin read from being
/// an authenticated one.
#[test]
fn a_cross_origin_request_does_not_carry_the_session_by_default() {
    let mut world = World::new(Policy::new(), cors_server(Some("*"), false));
    let target = url("http://127.0.0.1:8001/x");
    // A session cookie for the target origin, as a login would have left.
    world.store_cookie(&target, "sid=s3cr3t; Path=/");

    let outcome = world.send_script(
        &target,
        "GET",
        &url("http://127.0.0.1:1/page"),
        Vec::new(),
        Mode::Cors,
        Credentials::default(),
    );
    assert!(outcome.error.is_none(), "{outcome:?}");
    let sent = head_of(&world.seen[0]);
    assert!(
        !sent.contains("s3cr3t"),
        "a cross-origin fetch must not carry the session by default: {sent}"
    );
}

/// The headers a page sets go out on the request that was decided about.
#[test]
fn a_page_set_header_reaches_the_request_it_was_preflighted_for() {
    let mut world = World::new(Policy::new(), cors_server(Some("*"), false));
    let target = url("http://127.0.0.1:8001/x");
    let document = target.join("/page").unwrap();
    let outcome = world.send_script(
        &target,
        "GET",
        &document,
        vec![
            head("X-Token", "carried"),
            // Forbidden: a page choosing `Host` is a page choosing what the
            // boundary was decided about.
            head("Host", "evil.test"),
            head("Cookie", "sid=forged"),
        ],
        Mode::Cors,
        Credentials::default(),
    );
    assert!(outcome.error.is_none(), "{outcome:?}");
    let sent = head_of(&world.seen[0]);
    assert!(sent.contains("x-token: carried"), "{sent}");
    assert!(!sent.contains("evil.test"), "a page may not choose the Host: {sent}");
    assert!(!sent.contains("sid=forged"), "nor forge a Cookie: {sent}");
}

/// A response nobody was allowed to read must not be allowed to write either.
#[test]
fn a_cross_origin_response_does_not_leave_a_cookie_behind_by_default() {
    let mut world = World::new(Policy::new(), cors_server(Some("*"), false));
    let target = url("http://127.0.0.1:8001/x");
    let outcome = world.send_script(
        &target,
        "GET",
        &url("http://127.0.0.1:1/page"),
        Vec::new(),
        Mode::Cors,
        Credentials::default(),
    );
    assert!(outcome.error.is_none(), "{outcome:?}");
    assert!(
        world.cookies_for(&target).is_none(),
        "the response planted a cookie the request was not credentialed for"
    );
}

/// A same-origin request is unaffected by any of it, which is what keeps
/// ordinary pages working.
#[test]
fn a_same_origin_request_still_carries_its_session_and_reads_everything() {
    let mut world = World::new(Policy::new(), cors_server(None, false));
    let target = url("http://127.0.0.1:8001/api");
    world.store_cookie(&target, "sid=s3cr3t; Path=/");

    let outcome = world.send_script(
        &target,
        "GET",
        &url("http://127.0.0.1:8001/page"),
        Vec::new(),
        Mode::Cors,
        Credentials::default(),
    );
    assert!(outcome.error.is_none(), "{outcome:?}");
    assert_eq!(String::from_utf8_lossy(&outcome.body), "SECRET-BODY");
    assert!(
        outcome.headers.iter().any(|(n, _)| n.eq_ignore_ascii_case("x-private")),
        "same-origin sees every header: {:?}",
        outcome.headers
    );

    let sent = head_of(&world.seen[0]);
    assert!(sent.contains("s3cr3t"), "{sent}");
    // No `Origin` header at all: that is how a server tells a same-origin
    // request from a cross-origin one.
    assert_eq!(count(&sent, "origin"), 0, "{sent}");
}

/// A non-simple request asks first, and the preflight is a real request:
/// policy-checked and receipted.
#[test]
fn a_non_simple_request_preflights_and_the_preflight_is_receipted() {
    let mut world = World::new(Policy::new(), cors_server(Some("*"), false));
    let outcome = world.send_script(
        &url("http://127.0.0.1:8001/item"),
        "DELETE",
        &url("http://127.0.0.1:1/page"),
        vec![head("x-token", "abc")],
        Mode::Cors,
        Credentials::default(),
    );
    assert!(outcome.error.is_none(), "{outcome:?}");

    assert_eq!(world.seen.len(), 2, "one preflight, one request");
    assert_eq!(world.seen[0].method, "OPTIONS");
    assert_eq!(world.seen[1].method, "DELETE");

    // And both are in the log. A preflight that did not appear would be a
    // request this engine made and did not record.
    let options = world.log.iter().filter(|r| r.method == "OPTIONS").count();
    assert!(options >= 1, "the preflight must be receipted");
}

/// A server that refuses at preflight time refuses before the real request is
/// made, which is the round trip a preflight buys.
#[test]
fn a_refused_preflight_stops_the_request_before_it_is_made() {
    let mut world = World::new(Policy::new(), cors_server(None, false));
    let outcome = world.send_script(
        &url("http://127.0.0.1:8001/item"),
        "DELETE",
        &url("http://127.0.0.1:1/page"),
        Vec::new(),
        Mode::Cors,
        Credentials::default(),
    );
    assert!(outcome.error.is_some(), "{outcome:?}");

    assert_eq!(world.seen.len(), 1, "only the preflight was sent");
    assert_eq!(world.seen[0].method, "OPTIONS");
}

/// A request the *agent* made is unrestricted.
#[test]
fn an_agent_request_is_not_subject_to_the_same_origin_policy() {
    let mut world = World::new(Policy::new(), cors_server(None, false));
    let outcome = world.fetch(&url("http://127.0.0.1:8001/anything"), Initiator::Navigation);
    assert!(outcome.error.is_none(), "{outcome:?}");
    assert_eq!(String::from_utf8_lossy(&outcome.body), "SECRET-BODY");
}

// --------------------------------------------------------- the dialogue's laws

#[test]
fn a_chain_of_redirects_ends_at_the_limit() {
    let mut world = World::new(Policy::new().set_max_redirects(2), |_| {
        Ok((302, vec![head("location", "/again")], Vec::new()))
    });
    let outcome = world.fetch(&url("http://127.0.0.1:8001/"), Initiator::Navigation);
    assert_eq!(
        outcome.error.as_deref(),
        Some("too many redirects (limit 2)")
    );
    assert_eq!(world.seen.len(), 3);
    // Each hop has a receipt of its own, and the ones after the first say what
    // they are.
    let requests: Vec<Initiator> = world
        .log
        .iter()
        .filter(|r| r.phase == Phase::Request)
        .map(|r| r.initiator)
        .collect();
    assert_eq!(
        requests,
        vec![Initiator::Navigation, Initiator::Redirect, Initiator::Redirect]
    );
}

#[test]
fn a_redirect_without_a_location_is_an_error() {
    let mut world = World::new(Policy::new(), |_| Ok((302, Vec::new(), Vec::new())));
    let outcome = world.fetch(&url("http://127.0.0.1:8001/"), Initiator::Navigation);
    assert_eq!(
        outcome.error.as_deref(),
        Some("redirect without a usable Location")
    );
    assert_eq!(
        world.log[1].error.as_deref(),
        Some("redirect without a usable Location")
    );
    assert_eq!(world.log[1].status, Some(302));
}

#[test]
fn a_name_that_resolves_inward_is_refused_before_the_wire() {
    let policy = Policy::new().allow("https://docs.example.com");
    let (sending, action) = Sending::begin(
        &policy,
        Fetch::get(&url("https://docs.example.com/page"), Initiator::Navigation),
    );
    assert_eq!(action, Action::Number);
    let (sending, action) = sending.next(&policy, false, "en", Event::Numbered(7));
    assert_eq!(
        action,
        Action::Resolve { host: "docs.example.com".to_string(), port: 443 }
    );
    // One address is public and one is not: the name is refused.
    let found = Ok(vec![
        IpAddr::V4([93, 184, 216, 34]),
        IpAddr::V4([169, 254, 169, 254]),
    ]);
    let (sending, action) = sending.next(&policy, false, "en", Event::Resolved(found));
    let Action::AppendPair(a, b) = action else {
        panic!("a refusal is recorded as a pair: {action:?}");
    };
    assert!(!a.allowed && !b.allowed);
    assert_eq!((a.seq, b.seq), (7, 7));
    let (_, action) = sending.next(&policy, false, "en", Event::Appended(Ok(())));
    let Action::Done(outcome) = action else {
        panic!("the fetch is over: {action:?}");
    };
    assert!(outcome.error.unwrap().starts_with("denied by policy: "));
    assert_eq!(outcome.seq, Some(7));
}

#[test]
fn a_proxy_resolves_at_its_far_end() {
    let policy = Policy::new().allow("https://docs.example.com");
    let (sending, _) = Sending::begin(
        &policy,
        Fetch::get(&url("https://docs.example.com/page"), Initiator::Navigation),
    );
    let (_, action) = sending.next(&policy, true, "en", Event::Numbered(0));
    assert_eq!(action, Action::Claim);
}

#[test]
fn an_opaque_answer_shows_nothing() {
    let mut world = World::new(Policy::new(), cors_server(Some("*"), false));
    let outcome = world.send_script(
        &url("http://127.0.0.1:8001/beacon"),
        "POST",
        &url("http://127.0.0.1:1/page"),
        Vec::new(),
        Mode::NoCors,
        Credentials::default(),
    );
    assert!(outcome.opaque);
    assert_eq!(outcome.status, Some(0));
    assert!(outcome.headers.is_empty());
    assert!(outcome.body.is_empty());
    assert!(outcome.error.is_none());
    // The log has what came.
    assert_eq!(world.log.last().unwrap().bytes, Some(11));
}

#[test]
fn a_chain_that_crossed_an_origin_is_opaque_from_there_on() {
    // The first server bounces the page's own request across origins to one
    // that would let `http://127.0.0.1:8001` read.
    let mut hop = 0;
    let mut world = World::new(Policy::new(), move |_| {
        hop += 1;
        if hop == 1 {
            Ok((302, vec![head("location", "http://127.0.0.1:8002/")], Vec::new()))
        } else {
            Ok((
                200,
                vec![head("access-control-allow-origin", "http://127.0.0.1:8001")],
                b"secret".to_vec(),
            ))
        }
    });
    let outcome = world.send_script(
        &url("http://127.0.0.1:8001/"),
        "GET",
        &url("http://127.0.0.1:8001/page"),
        Vec::new(),
        Mode::Cors,
        Credentials::default(),
    );
    assert!(world.seen[1].headers.contains(&head("origin", "null")));
    assert!(outcome.error.unwrap().contains("same-origin policy"));
}

#[test]
fn a_response_past_the_cap_is_refused() {
    let mut world = World::new(Policy::new().set_max_response_bytes(4), |_| {
        Ok((200, Vec::new(), b"12345".to_vec()))
    });
    let outcome = world.fetch(&url("http://127.0.0.1:8001/"), Initiator::Navigation);
    assert_eq!(
        outcome.error.as_deref(),
        Some("response exceeds the 4 byte cap")
    );
    assert_eq!(world.wire_spent, 0);
}

#[test]
fn a_method_that_is_none_goes_out_as_a_get() {
    let mut world = World::new(Policy::new(), |_| ok());
    let mut fetch = Fetch::get(&url("http://127.0.0.1:8001/"), Initiator::Navigation);
    fetch.method = "no such\nmethod".to_string();
    world.send(fetch);
    assert_eq!(world.seen[0].method, "GET");

    let mut fetch = Fetch::get(&url("http://127.0.0.1:8001/"), Initiator::Navigation);
    fetch.method = "purge".to_string();
    world.send(fetch);
    assert_eq!(world.seen[1].method, "PURGE");
}

#[test]
fn a_language_that_cannot_be_a_header_is_refused_at_the_door() {
    assert!(Presented::declared("agent".to_string(), "en\n".to_string())
        .unwrap_err()
        .contains("not a sendable Accept-Language"));
    let presented = Presented::declared("agent".to_string(), "de-DE".to_string()).unwrap();
    assert_eq!(presented.accept_language, "de-DE");
}

// ------------------------------------------------------- what an end names

/// A chain that ends in a redirect was recorded hop by hop, and the outcome
/// names the receipt of the last.
#[test]
fn a_chain_that_runs_out_of_hops_names_its_last_receipt() {
    let mut world = World::new(
        Policy::new().set_max_redirects(1),
        |_: &WireRequest| Ok((302, vec![head("location", "/again")], Vec::new())),
    );
    let outcome = world.fetch(&url("http://127.0.0.1:9/a"), Initiator::Navigation);
    assert_eq!(world.seen.len(), 2);
    assert_eq!(outcome.error.as_deref(), Some("too many redirects (limit 1)"));
    assert!(outcome.body.is_empty());
    assert_eq!(outcome.seq, Some(1));

    let mut world = World::new(Policy::new(), |_: &WireRequest| Ok((302, Vec::new(), Vec::new())));
    let outcome = world.fetch(&url("http://127.0.0.1:9/a"), Initiator::Navigation);
    assert_eq!(outcome.error.as_deref(), Some("redirect without a usable Location"));
    assert_eq!(outcome.seq, Some(0));
}

/// A redirect that is not followed is shown like any other answer, and a
/// cross-origin `no-cors` one shows nothing.
#[test]
fn a_redirect_that_is_the_answer_shows_a_page_no_more_than_an_answer() {
    let answers = |_: &WireRequest| {
        Ok((302, vec![head("location", "/next"), head("x-private", "v")], Vec::new()))
    };
    let document = url("http://127.0.0.1:1/");
    let to = url("http://127.0.0.1:2/x");

    let mut world = World::new(Policy::new().set_max_redirects(0), answers);
    let opaque = world.send_script(
        &to,
        "GET",
        &document,
        Vec::new(),
        Mode::NoCors,
        Credentials::SameOrigin,
    );
    assert!(opaque.opaque);
    assert_eq!(opaque.status, Some(0));
    assert!(opaque.headers.is_empty() && opaque.body.is_empty());
    assert_eq!(opaque.error, None);
    assert_eq!(opaque.seq, Some(0));

    // One that must name the origin back and does not is not shown.
    let mut world = World::new(Policy::new().set_max_redirects(0), answers);
    let blocked = world.send_script(
        &to,
        "GET",
        &document,
        Vec::new(),
        Mode::Cors,
        Credentials::SameOrigin,
    );
    assert_eq!(blocked.status, None);
    assert!(blocked.headers.is_empty());
    assert!(blocked.error.is_some());

    // The agent's own is shown whole.
    let mut world = World::new(Policy::new().set_max_redirects(0), answers);
    let whole = world.fetch(&to, Initiator::Navigation);
    assert_eq!(whole.status, Some(302));
    assert!(whole.headers.contains(&head("x-private", "v")));
    assert!(!whole.opaque);
}

/// A hop whose preflight was refused was never recorded, so its outcome names
/// no receipt.
#[test]
fn a_refused_preflight_leaves_no_receipt_to_name() {
    let mut world = World::new(Policy::new(), |_: &WireRequest| Ok((403, Vec::new(), Vec::new())));
    let outcome = world.send_script(
        &url("http://127.0.0.1:2/x"),
        "DELETE",
        &url("http://127.0.0.1:1/"),
        Vec::new(),
        Mode::Cors,
        Credentials::SameOrigin,
    );
    assert!(outcome.error.is_some());
    assert_eq!(outcome.seq, None);
    assert!(world.log.iter().all(|r| r.method == "OPTIONS"));
}

/// A raw plan is built from the edited request, and one that cannot be built
/// says why.
#[test]
fn a_raw_plan_is_built_from_what_was_edited() {
    let given = editable(
        "post",
        "http://127.0.0.1:8001/form",
        vec![head("x-edited", "yes"), head("content-length", "999")],
        b"a=1",
    );
    let plan = |target: Option<&str>, whole: Option<&[u8]>| Sends {
        count: 1,
        together: false,
        no_follow: false,
        raw_target: target.map(str::to_string),
        raw_request: whole.map(<[u8]>::to_vec),
    };
    let Ok(Replay::Raw { raw, sent }) = plan_replay(&given, &plan(Some("/../x"), None)) else {
        panic!("a raw target is a raw request");
    };
    assert_eq!(
        String::from_utf8(raw.wire.clone()).expect("text"),
        "POST /../x HTTP/1.1\r\nHost: 127.0.0.1:8001\r\nx-edited: yes\r\nContent-Length: 3\r\nConnection: close\r\n\r\na=1"
    );
    assert!(raw.broke.is_empty());
    assert_eq!(sent.method, "POST");
    assert_eq!(sent.url, "http://127.0.0.1:8001/../x");
    assert_eq!(sent.header_names, vec!["Host", "x-edited", "Content-Length", "Connection"]);
    assert_eq!(sent.body_bytes, 3);

    // A whole request wins, and keeps its bytes.
    let bytes: &[u8] = b"PURGE /y HTTP/1.1\r\nContent-Length: 7\r\n\r\nb";
    let Ok(Replay::Raw { raw, sent }) = plan_replay(&given, &plan(Some("/../x"), Some(bytes)))
    else {
        panic!("a whole request is a raw request");
    };
    assert_eq!(raw.wire, bytes);
    assert_eq!((raw.method.as_str(), raw.target.as_str()), ("PURGE", "/y"));
    assert_eq!(raw.broke, vec!["content-length"]);
    assert_eq!(sent.body_bytes, 1);

    let why = plan_replay(&given, &plan(Some("x"), None)).expect_err("no target");
    assert_eq!(why.code, "bad-raw");
    assert!(why.message.starts_with("\"x\" is not a request-target"), "{}", why.message);
    let why = plan_replay(&given, &plan(None, Some(b"\r\n\r\n"))).expect_err("no request-line");
    assert_eq!(why.code, "bad-raw");
    assert!(why.message.contains("first line is \"\""), "{}", why.message);
}
