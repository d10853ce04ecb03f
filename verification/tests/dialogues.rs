use h5i_browser::address::IpAddr;
use h5i_browser::broker::{accept_proxy, unpinned, LocalBroker};
use h5i_browser::channel::{Cause, Crossing, Deed, Dialled, Ending, Word};
use h5i_browser::cors::Preflight;
use h5i_browser::drive::{Action, Event, Sending};
use h5i_browser::fetch::{Fetch, FetchOutcome, WireRequest};
use h5i_browser::opening::Attempt;
use h5i_browser::policy::Policy;
use h5i_browser::raw::{parse_raw_request, RawAnswer};
use h5i_browser::receipt::{Initiator, Phase, RequestRecord};
use h5i_browser::running::{Report, Running, Task};
use h5i_browser::scripts::{fires_input, tells_again, KeyEdit, ScriptElement, Settled};
use h5i_browser::url::Url;
use h5i_browser::wire::{PreflightAnswer, Presented, StreamAnswer};

fn url(s: &str) -> Url {
    Url::parse(s).expect("test url")
}

/// What stands around a crossing.
struct Around {
    policy: Policy,
    proxied: bool,
    log: Vec<RequestRecord>,
    log_refuses: bool,
    claim: Result<(), String>,
    jar: Option<(String, usize)>,
    sent: Vec<WireRequest>,
    dialled: Vec<Vec<u8>>,
    stored: Vec<String>,
    preflight: Result<PreflightAnswer, String>,
    stream: Result<StreamAnswer, String>,
    raw: Option<Dialled>,
}

fn around(policy: Policy) -> Around {
    Around {
        policy,
        proxied: false,
        log: Vec::new(),
        log_refuses: false,
        claim: Ok(()),
        jar: None,
        sent: Vec::new(),
        dialled: Vec::new(),
        stored: Vec::new(),
        preflight: Err("no server".to_string()),
        stream: Err("no server".to_string()),
        raw: None,
    }
}

impl Around {
    fn append(&mut self, record: RequestRecord) -> Result<(), String> {
        if self.log_refuses {
            return Err("disk is on fire".to_string());
        }
        self.log.push(record);
        Ok(())
    }

    fn cross(&mut self, cause: Cause) -> Ending {
        let (mut crossing, mut deed) = Crossing::begin(cause);
        loop {
            let word = match deed {
                Deed::Number => Word::Numbered(7),
                Deed::Resolve { host, .. } => Word::Resolved(Ok(vec![match IpAddr::parse(&host) {
                    Some(addr) => addr,
                    None => IpAddr::V4([93, 184, 216, 34]),
                }])),
                Deed::Claim => Word::Claimed(self.claim.clone()),
                Deed::Append(record) => Word::Appended(self.append(record)),
                Deed::AppendPair(a, b) => {
                    let first = self.append(a);
                    Word::Appended(first.and_then(|_| self.append(b)))
                }
                Deed::Cookies(_) => Word::Cookies(self.jar.clone()),
                Deed::Send(wire) => {
                    let asks = wire.method == "OPTIONS";
                    self.sent.push(wire);
                    if asks {
                        Word::Asked { answer: self.preflight.clone(), elapsed_ms: 4 }
                    } else {
                        Word::Streamed(self.stream.clone())
                    }
                }
                Deed::Dial { wire, .. } => {
                    self.dialled.push(wire);
                    Word::Dialled(self.raw.take().expect("something to say"))
                }
                Deed::Store { set_cookies, .. } => {
                    let n = set_cookies.len();
                    self.stored.extend(set_cookies);
                    Word::Stored(n)
                }
                Deed::Settle { record, .. } => Word::Appended(self.append(record)),
                Deed::Done(end) => return end,
            };
            let (c, d) = crossing.next(&self.policy, self.proxied, "en-US,en;q=0.9", word);
            crossing = c;
            deed = d;
        }
    }
}

fn header<'a>(wire: &'a WireRequest, name: &str) -> Option<&'a str> {
    wire.headers.iter().find(|(n, _)| n == name).map(|(_, v)| v.as_str())
}

// ----------------------------------------------------------------- sockets

#[test]
fn a_socket_is_opened_under_the_number_of_its_receipt() {
    let mut world = around(Policy::new().allow("https://live.test"));
    let end = world.cross(Cause::Socket {
        url: url("wss://live.test/feed"),
        document: Some(url("https://live.test/")),
    });
    assert_eq!(end, Ending::Opened(Ok(7)));
    assert_eq!(world.log.len(), 1);
    assert_eq!(world.log[0].method, "WS-OPEN");
    assert!(world.log[0].allowed);
}

#[test]
fn a_refused_socket_is_on_record_and_says_why() {
    let mut world = around(Policy::new());
    let end = world.cross(Cause::Socket { url: url("wss://live.test/feed"), document: None });
    let Ending::Opened(Err(why)) = end else { panic!("refused") };
    assert!(why.starts_with("denied by policy: "), "{why}");
    assert_eq!(world.log.len(), 2);
    assert!(world.log.iter().all(|r| !r.allowed && r.seq == 7));

    let mut world = around(Policy::new());
    world.log_refuses = true;
    let end = world.cross(Cause::Socket { url: url("wss://live.test/feed"), document: None });
    assert_eq!(end, Ending::Opened(Err("receipt sink refused: disk is on fire".to_string())));
}

#[test]
fn a_socket_without_a_receipt_is_not_opened() {
    let mut world = around(Policy::new().allow("https://live.test"));
    world.log_refuses = true;
    let end = world.cross(Cause::Socket { url: url("wss://live.test/feed"), document: None });
    assert_eq!(
        end,
        Ending::Opened(Err(
            "refusing to connect: the receipt could not be written: disk is on fire".to_string()
        ))
    );
}

#[test]
fn a_socket_past_the_allowance_is_refused() {
    let mut world = around(Policy::new().allow("https://live.test"));
    world.claim = Err("budget-exceeded: no requests left".to_string());
    let end = world.cross(Cause::Socket { url: url("wss://live.test/feed"), document: None });
    assert_eq!(end, Ending::Opened(Err("budget-exceeded: no requests left".to_string())));
    assert_eq!(world.log.len(), 2);
    assert!(!world.log[0].allowed);
}

// ----------------------------------------------------------------- streams

fn stream_answer(kind: Option<&str>, origin: Option<&str>) -> Result<StreamAnswer, String> {
    Ok(StreamAnswer {
        status: 200,
        allow_origin: origin.map(str::to_string),
        allow_credentials: None,
        content_type: kind.map(str::to_string),
    })
}

#[test]
fn a_stream_of_ones_own_carries_the_session_and_is_read() {
    let mut world = around(Policy::new().allow("https://live.test"));
    world.jar = Some(("session=abc".to_string(), 1));
    world.stream = stream_answer(Some("text/Event-Stream; charset=utf-8"), None);
    let end = world.cross(Cause::Stream {
        url: url("https://live.test/events"),
        document: Some(url("https://live.test/page")),
    });
    assert_eq!(end, Ending::Streamed(Ok(())));
    let sent = &world.sent[0];
    assert_eq!(sent.method, "GET");
    assert_eq!(header(sent, "accept"), Some("text/event-stream"));
    assert_eq!(header(sent, "accept-language"), Some("en-US,en;q=0.9"));
    assert_eq!(header(sent, "cookie"), Some("session=abc"));
    assert_eq!(header(sent, "origin"), None);
    assert_eq!(world.log.len(), 2);
    assert_eq!(world.log[1].phase, Phase::Response);
    assert_eq!(world.log[1].status, Some(200));
    assert_eq!(world.log[1].error, None);
}

#[test]
fn a_stream_across_origins_leaves_the_session_at_home_and_asks() {
    let mut world = around(Policy::new().allow("https://live.test"));
    world.jar = Some(("session=abc".to_string(), 1));
    world.stream = stream_answer(Some("text/event-stream"), None);
    let end = world.cross(Cause::Stream {
        url: url("https://live.test/events"),
        document: Some(url("https://other.test/")),
    });
    let Ending::Streamed(Err(why)) = end else { panic!("not readable") };
    assert!(why.starts_with("blocked by the same-origin policy: "), "{why}");
    assert_eq!(header(&world.sent[0], "cookie"), None);
    assert_eq!(header(&world.sent[0], "origin"), Some("https://other.test"));
    assert_eq!(world.log[1].error.as_deref(), Some(why.as_str()));

    world.stream = stream_answer(Some("text/event-stream"), Some("https://other.test"));
    let end = world.cross(Cause::Stream {
        url: url("https://live.test/events"),
        document: Some(url("https://other.test/")),
    });
    assert_eq!(end, Ending::Streamed(Ok(())));
}

#[test]
fn an_answer_that_is_no_stream_is_not_read_as_one() {
    let mut world = around(Policy::new().allow("https://live.test"));
    world.stream = stream_answer(Some("text/html"), None);
    let end = world.cross(Cause::Stream { url: url("https://live.test/x"), document: None });
    assert_eq!(
        end,
        Ending::Streamed(Err(
            "the answer is `text/html`, not `text/event-stream`, so it is not an event stream and was not read.".to_string()
        ))
    );
    world.stream = stream_answer(None, None);
    let end = world.cross(Cause::Stream { url: url("https://live.test/x"), document: None });
    assert_eq!(
        end,
        Ending::Streamed(Err(
            "the answer is `(no content type)`, not `text/event-stream`, so it is not an event stream and was not read.".to_string()
        ))
    );
    world.stream = Err("connection reset".to_string());
    let end = world.cross(Cause::Stream { url: url("https://live.test/x"), document: None });
    assert_eq!(
        end,
        Ending::Streamed(Err("could not open the event stream: connection reset".to_string()))
    );
}

// -------------------------------------------------------------- preflights

fn ask() -> Preflight {
    Preflight {
        origin: "https://app.test".to_string(),
        method: "PUT".to_string(),
        headers: vec!["x-a".to_string(), "x-b".to_string()],
        credentials: false,
    }
}

#[test]
fn a_preflight_asks_without_a_credential() {
    let mut world = around(Policy::new().allow("https://api.test"));
    world.jar = Some(("session=abc".to_string(), 1));
    world.preflight = Ok(PreflightAnswer {
        status: 204,
        allow_origin: Some("https://app.test".to_string()),
        allow_credentials: None,
        allow_methods: Some("PUT".to_string()),
        allow_headers: Some("x-a, x-b".to_string()),
    });
    let end = world.cross(Cause::Preflight {
        ask: ask(),
        url: url("https://api.test/thing"),
        document: Some(url("https://app.test/")),
    });
    assert_eq!(end, Ending::Asked(Ok(())));
    let sent = &world.sent[0];
    assert_eq!(sent.method, "OPTIONS");
    assert_eq!(header(sent, "origin"), Some("https://app.test"));
    assert_eq!(header(sent, "access-control-request-method"), Some("PUT"));
    assert_eq!(header(sent, "access-control-request-headers"), Some("x-a, x-b"));
    assert_eq!(header(sent, "cookie"), None);
    assert_eq!(world.log[1].duration_ms, Some(4));
}

#[test]
fn a_preflight_that_is_not_answered_in_favour_stops_the_request() {
    let mut world = around(Policy::new().allow("https://api.test"));
    world.preflight = Ok(PreflightAnswer {
        status: 500,
        allow_origin: None,
        allow_credentials: None,
        allow_methods: None,
        allow_headers: None,
    });
    let cause = || Cause::Preflight {
        ask: ask(),
        url: url("https://api.test/thing"),
        document: Some(url("https://app.test/")),
    };
    assert_eq!(
        world.cross(cause()),
        Ending::Asked(Err(
            "the preflight was answered with 500, so the request was not made.".to_string()
        ))
    );
    world.preflight = Err("connection reset".to_string());
    assert_eq!(
        world.cross(cause()),
        Ending::Asked(Err("the preflight could not be sent: connection reset".to_string()))
    );
    // Refused either way, whether or not the refusal could be written.
    let mut world = around(Policy::new());
    world.log_refuses = true;
    let Ending::Asked(Err(why)) = world.cross(cause()) else { panic!("refused") };
    assert!(why.starts_with("the preflight was denied by policy: "), "{why}");
}

// ---------------------------------------------------------------- raw bytes

#[test]
fn a_raw_request_is_dialled_as_its_bytes() {
    let mut world = around(Policy::new().allow("https://a.test"));
    world.raw = Some(Dialled::Answered {
        answer: RawAnswer {
            status: Some(200),
            headers: vec![("Set-Cookie".to_string(), "k=v".to_string())],
            body: b"hello".to_vec(),
            trailing: b"HTTP/1.1 200".to_vec(),
        },
        ttfb_ms: 9,
    });
    let bytes = b"POST /a HTTP/1.1\r\nHost: a.test\r\nContent-Length: 2\r\n\r\nhi".to_vec();
    let raw = parse_raw_request(url("https://a.test/a"), bytes.clone()).expect("a request");
    let Ending::Sent(outcome) = world.cross(Cause::Raw(raw)) else { panic!("sent") };
    assert_eq!(world.dialled, vec![bytes]);
    assert_eq!(world.stored, vec!["k=v".to_string()]);
    assert_eq!(outcome.status, Some(200));
    assert_eq!(outcome.body, b"hello".to_vec());
    assert_eq!(outcome.seq, Some(7));
    assert_eq!(world.log[1].cookies_stored, Some(1));
    assert_eq!(world.log[1].trailing_bytes, Some(12));
    assert_eq!(world.log[1].ttfb_ms, Some(9));
}

#[test]
fn a_raw_request_that_fails_says_where() {
    let raw = || {
        parse_raw_request(url("https://a.test/a"), b"GET /a HTTP/1.1\r\n\r\n".to_vec())
            .expect("a request")
    };
    for (said, expected) in [
        (
            Dialled::Unreachable { error: "refused".to_string(), elapsed_ms: 1 },
            "refused",
        ),
        (
            Dialled::Unwritten { error: "broken pipe".to_string(), elapsed_ms: 2 },
            "writing the request failed: broken pipe",
        ),
        (
            Dialled::Unanswered { error: "timed out".to_string(), ttfb_ms: 3 },
            "timed out",
        ),
    ] {
        let mut world = around(Policy::new().allow("https://a.test"));
        world.raw = Some(said);
        let Ending::Sent(outcome) = world.cross(Cause::Raw(raw())) else { panic!("sent") };
        assert_eq!(outcome.error.as_deref(), Some(expected));
        assert_eq!(world.log[1].error.as_deref(), Some(expected));
    }
}

#[test]
fn a_raw_request_does_not_go_round_the_proxy() {
    let mut world = around(Policy::new().allow("https://a.test"));
    world.proxied = true;
    let raw = parse_raw_request(url("https://a.test/a"), b"GET /a HTTP/1.1\r\n\r\n".to_vec())
        .expect("a request");
    let Ending::Sent(outcome) = world.cross(Cause::Raw(raw)) else { panic!("sent") };
    assert!(outcome.error.unwrap().contains("egress proxy does not carry"));
    assert!(world.dialled.is_empty());
    assert_eq!(world.log.len(), 2);
}

// ------------------------------------------------------------------- broker

#[test]
fn a_broker_numbers_records_and_remembers() {
    let mut broker = LocalBroker::new(Policy::new(), Some("  ")).expect("a broker");
    assert!(!broker.has_proxy());
    assert!(broker.has_number());
    assert_eq!(broker.identity().accept_language, "en-US,en;q=0.9");
    assert_eq!(broker.number(), 0);
    let (first, second) = broker.record_socket_frame(&url("wss://live.test/feed"), "WS-SEND", 12);
    assert_eq!((first.seq, second.seq), (1, 1));
    assert_eq!(first.method, "WS-SEND");
    assert_eq!(second.bytes, Some(12));
    assert_eq!(second.status, None);
    assert!(broker.log().is_empty());
    broker.append(first);
    assert_eq!(broker.log().len(), 1);
    assert_eq!(broker.number(), 2);

    let live = url("https://Live.test/");
    assert_eq!(broker.pin_addresses(&live, &Ok(vec![IpAddr::V4([1, 2, 3, 4])])), Ok(()));
    assert_eq!(broker.pin_addresses(&live, &Ok(vec![IpAddr::V4([5, 6, 7, 8])])), Ok(()));
    assert_eq!(
        broker.approved_addresses("LIVE.TEST"),
        Some(vec![IpAddr::V4([5, 6, 7, 8])])
    );
    assert_eq!(broker.approved_addresses("other.test"), None);
    assert_eq!(
        unpinned("other.test"),
        "`other.test` was not resolved through the policy, so this engine will not connect to it"
    );
}

/// The check decides about the addresses, and only what passed it is pinned.
#[test]
fn an_internal_address_is_not_pinned() {
    let mut broker = LocalBroker::new(Policy::new().allow("docs.test"), None).expect("a broker");
    let docs = url("https://docs.test/");
    let inward = IpAddr::V4([10, 0, 0, 1]);
    let public = IpAddr::V4([93, 184, 216, 34]);
    for found in [vec![inward], vec![public, inward]] {
        let why = broker.pin_addresses(&docs, &Ok(found)).expect_err("refused");
        assert!(why.contains("internal address"), "{why}");
        assert_eq!(broker.approved_addresses("docs.test"), None);
    }
    assert_eq!(
        broker.pin_addresses(&docs, &Ok(Vec::new())),
        Err("`docs.test` resolved to no addresses".to_string())
    );
    assert_eq!(
        broker.pin_addresses(&docs, &Err("no such host".to_string())),
        Err("`docs.test` could not be resolved: no such host".to_string())
    );
    assert_eq!(broker.pin_addresses(&docs, &Ok(vec![public])), Ok(()));
    assert_eq!(broker.approved_addresses("docs.test"), Some(vec![public]));
    // A lookup that is refused afterwards takes nothing away.
    assert!(broker.pin_addresses(&docs, &Ok(vec![inward])).is_err());
    assert_eq!(broker.approved_addresses("docs.test"), Some(vec![public]));
    // There is nothing to look up for what has no host.
    let inline = url("data:text/plain,x");
    assert_eq!(broker.pin_addresses(&inline, &Err("unasked".to_string())), Ok(()));
}

/// What a fetch is told of a lookup reaches the pins on the way.
#[test]
fn a_fetch_and_a_crossing_pin_what_they_pass() {
    let public = IpAddr::V4([93, 184, 216, 34]);
    let to = url("https://docs.test/");
    let mut broker = LocalBroker::new(Policy::new().allow("docs.test"), None).expect("a broker");

    let (sending, action) = Sending::begin(broker.policy(), Fetch::get(&to, Initiator::Navigation));
    assert!(matches!(action, Action::Number));
    let (sending, action) = broker.advance(sending, Event::Numbered(0));
    assert!(matches!(action, Action::Resolve { .. }));
    let refused = Event::Resolved(Ok(vec![IpAddr::V4([127, 0, 0, 1])]));
    let (_, action) = broker.advance(sending, refused);
    assert!(matches!(action, Action::AppendPair(..)));
    assert_eq!(broker.approved_addresses("docs.test"), None);

    let (sending, _) = Sending::begin(broker.policy(), Fetch::get(&to, Initiator::Navigation));
    let (sending, _) = broker.advance(sending, Event::Numbered(1));
    let (_, action) = broker.advance(sending, Event::Resolved(Ok(vec![public])));
    assert!(matches!(action, Action::Claim));
    assert_eq!(broker.approved_addresses("docs.test"), Some(vec![public]));

    let mut broker = LocalBroker::new(Policy::new().allow("docs.test"), None).expect("a broker");
    let (crossing, _) = broker.authorise_socket(&url("wss://docs.test/feed"), None);
    let (crossing, deed) = broker.cross(crossing, Word::Numbered(0));
    assert!(matches!(deed, Deed::Resolve { .. }));
    let _ = broker.cross(crossing, Word::Resolved(Ok(vec![public])));
    assert_eq!(broker.approved_addresses("docs.test"), Some(vec![public]));
}

#[test]
fn a_broker_behind_a_proxy_pins_nothing() {
    let presented =
        Presented::declared("agent/1".to_string(), "de".to_string()).expect("sendable");
    let mut broker =
        LocalBroker::with_identity(Policy::new(), Some("http://127.0.0.1:8080"), presented)
            .expect("a broker");
    assert!(broker.has_proxy());
    assert_eq!(broker.identity().user_agent, "agent/1");
    let found = Ok(vec![IpAddr::V4([1, 2, 3, 4])]);
    assert_eq!(broker.pin_addresses(&url("https://live.test/"), &found), Ok(()));
    assert_eq!(broker.approved_addresses("live.test"), None);
    let (crossing, deed) =
        broker.begin_event_stream(&url("https://live.test/"), Some(&url("https://a.test/")));
    assert_eq!(deed, Deed::Number);
    assert!(matches!(crossing.cause, Cause::Stream { .. }));
    let (crossing, deed) = broker.authorise_socket(&url("wss://live.test/"), None);
    assert_eq!(deed, Deed::Number);
    assert!(matches!(crossing.cause, Cause::Socket { .. }));
}

#[test]
fn a_bad_proxy_url_is_refused_at_construction_not_at_first_fetch() {
    let result = LocalBroker::new(Policy::new(), Some("not a url"));
    assert!(result.is_err(), "a malformed proxy must fail loudly, early");
    let why = result.expect_err("refused");
    assert!(why.starts_with("egress proxy `not a url` is not usable: "), "{why}");
    assert_eq!(
        accept_proxy("p", Some("odd".to_string())),
        Err("egress proxy `p` is not usable: odd".to_string())
    );
    assert_eq!(accept_proxy("p", None), Ok(()));
}

// ------------------------------------------------------------------ scripts

fn element(node: usize, kind: Option<&str>, src: Option<&str>, text: &str) -> ScriptElement {
    ScriptElement {
        node,
        kind: kind.map(str::to_string),
        src: src.map(str::to_string),
        text: text.to_string(),
    }
}

fn answered(at: &Url, status: u16, body: &str) -> FetchOutcome {
    let mut outcome = FetchOutcome::failed(at.clone(), String::new());
    outcome.error = None;
    outcome.status = Some(status);
    outcome.body = body.as_bytes().to_vec();
    outcome
}

/// Runs a script phase in which every script takes `each_ms`, `served` answers
/// fetches, and running code that says `throw` fails. What was done is listed.
fn run(
    elements: Vec<ScriptElement>,
    each_ms: u64,
    served: impl Fn(&Url) -> FetchOutcome,
) -> Vec<String> {
    let (mut running, mut task) =
        Running::begin(&elements, &url("https://app.test/page"), None, false);
    let mut done: Vec<String> = Vec::new();
    let mut elapsed = 0;
    loop {
        let report = match task {
            Task::Build => Report::Built(Ok(())),
            Task::ImportMap(text) => {
                done.push(format!("map {text}"));
                Report::Done
            }
            Task::Note(note) => {
                done.push(format!("note {note}"));
                Report::Done
            }
            Task::NoteUnrun { script, error } => {
                done.push(format!("unrun {script} | {error}"));
                Report::Done
            }
            Task::InstallNames => Report::Ran(Ok(())),
            Task::Start => Report::Started { remaining_ms: 45_000 },
            Task::Clock | Task::EndClassic => Report::Elapsed(elapsed),
            Task::Fetch { fetch, heard } => {
                done.push(format!("fetch {} {heard}", fetch.url.href));
                assert_eq!(fetch.cors.is_none(), heard);
                Report::Fetched(served(&fetch.url))
            }
            Task::Eval { node, code, name } => {
                elapsed += each_ms;
                done.push(format!("run {node} {name}"));
                Report::Ran(if code.contains("throw") { Err("boom".to_string()) } else { Ok(()) })
            }
            Task::EvalModule { code, path } => {
                elapsed += each_ms;
                done.push(format!("module {path}"));
                Report::Ran(if code.contains("throw") { Err("boom".to_string()) } else { Ok(()) })
            }
            Task::JobBudget(ms) => {
                done.push(format!("jobs {ms}"));
                Report::Done
            }
            Task::FireLifecycle => {
                done.push("loaded".to_string());
                Report::Ran(Ok(()))
            }
            Task::Settle => {
                done.push("settle".to_string());
                Report::Done
            }
            Task::Finished => return done,
            Task::Nothing(settled) => {
                assert_eq!(settled, Settled::trivial());
                assert!(!settled.is_unsettled());
                done.push("nothing".to_string());
                return done;
            }
            Task::Failed(why) => {
                done.push(format!("failed {why}"));
                return done;
            }
        };
        let (r, t) = running.next(report);
        running = r;
        task = t;
    }
}

#[test]
fn modules_run_after_every_classic_script() {
    let done = run(
        vec![
            element(1, Some("importmap"), None, "{\"imports\":{}}"),
            element(2, Some("module"), None, "import 'a'"),
            element(3, None, None, "var a = 1"),
            element(4, Some("importmap"), None, "{}"),
            element(5, Some("application/json"), None, "{}"),
            element(6, None, Some("/b.js"), ""),
            element(7, Some("module"), Some("m.js"), ""),
        ],
        10,
        |at| answered(at, 200, "ok"),
    );
    assert_eq!(
        done,
        vec![
            "map {\"imports\":{}}",
            "note 1 further import map(s) ignored: only the first in document order is used",
            "run 3 inline script #1",
            "fetch https://app.test/b.js true",
            "run 6 /b.js",
            "jobs 19980",
            "module https://app.test/page",
            "fetch https://app.test/m.js false",
            "module https://app.test/m.js",
            "loaded",
            "settle",
        ]
    );
}

#[test]
fn a_script_past_the_budget_is_counted_and_not_started() {
    let done = run(
        vec![
            element(1, None, None, "slow()"),
            element(2, None, Some("/b.js"), ""),
            element(3, Some("module"), Some("/m.js"), ""),
        ],
        20_000,
        |at| answered(at, 200, "ok"),
    );
    assert_eq!(
        done,
        vec![
            "run 1 inline script #1",
            "jobs 1000",
            "loaded",
            "settle",
            "note this page's scripts took longer than 20s, so 2 of them were not run. What follows was rendered by the ones that finished.",
        ]
    );
}

#[test]
fn a_script_that_does_not_load_is_spoken_of_and_not_run() {
    let done = run(
        vec![
            element(1, None, Some("/gone.js"), ""),
            element(2, None, Some("http://["), ""),
            element(3, None, None, "throw 1"),
            element(4, Some("module"), Some("/gone.js"), ""),
            element(5, Some("module"), Some("http://["), ""),
            element(6, Some("module"), None, "throw 1"),
        ],
        0,
        |at| answered(at, 404, "<html>no</html>"),
    );
    assert_eq!(
        done,
        vec![
            "fetch https://app.test/gone.js true",
            "unrun https://app.test/gone.js | could not load https://app.test/gone.js: the server answered 404",
            "note script src `http://[` is not a URL",
            "run 3 inline script #3",
            "unrun inline script #3 | inline script #3: boom",
            "jobs 20000",
            "fetch https://app.test/gone.js false",
            "note could not load https://app.test/gone.js: the server answered 404",
            "note module src `http://[` is not a URL",
            "module https://app.test/page",
            "note boom",
            "loaded",
            "settle",
        ]
    );
}

#[test]
fn a_page_without_script_builds_no_realm() {
    let no_code = vec![element(1, Some("importmap"), None, "{}")];
    assert_eq!(run(no_code.clone(), 0, |at| answered(at, 200, "")), vec!["nothing"]);
    // A handler attribute is script too.
    let (_, task) = Running::begin(&no_code, &url("https://app.test/"), None, true);
    assert_eq!(task, Task::Build);
}

#[test]
fn what_the_realm_cannot_do_is_said() {
    let code = vec![element(1, None, None, "a()")];
    let (running, task) = Running::begin(&code, &url("https://app.test/"), Some(5), false);
    assert_eq!(task, Task::Build);
    let (_, task) = running.next(Report::Built(Err("no memory".to_string())));
    assert_eq!(task, Task::Failed("no memory".to_string()));

    let (running, _) = Running::begin(&code, &url("https://app.test/"), Some(5), false);
    let (running, task) = running.next(Report::Built(Ok(())));
    assert_eq!(task, Task::InstallNames);
    let (running, task) = running.next(Report::Ran(Err("odd".to_string())));
    assert_eq!(task, Task::Note("named access could not be installed: odd".to_string()));
    let (running, task) = running.next(Report::Done);
    assert_eq!(task, Task::Start);
    let (running, _) = running.next(Report::Started { remaining_ms: 45_000 });
    assert_eq!(running.budget_ms, 5);
    let (running, task) = running.next(Report::Elapsed(5));
    assert_eq!(task, Task::EndClassic);
    let (running, _) = running.next(Report::Elapsed(5));
    let (running, task) = running.next(Report::Done);
    assert_eq!(task, Task::FireLifecycle);
    let (_, task) = running.next(Report::Ran(Err("odd".to_string())));
    assert_eq!(task, Task::Note("the load lifecycle could not be fired: odd".to_string()));
}

#[test]
fn an_edit_of_the_users_fires_input_and_a_motion_does_not() {
    let types = KeyEdit::Edit { types: true, moves: false };
    assert!(fires_input(types, true, true));
    assert!(!fires_input(types, true, false));
    assert!(!fires_input(types, false, true));
    assert!(!fires_input(KeyEdit::FocusNext, true, true));
    assert!(tells_again(0, false));
    assert!(!tells_again(1, false));
    assert!(tells_again(2, true));
    assert!(!tells_again(3, true));
}

#[test]
fn a_parse_that_fails_is_tried_with_less() {
    let html = "<img src=\"a.png\" alt=\"y\">";
    assert_eq!(Attempt::Whole.markup(html), html);
    assert!(!Attempt::WithoutImages.markup(html).contains("a.png"));
    assert_eq!(Attempt::Empty.markup(html), "<html><body></body></html>");
    assert_eq!(Attempt::Whole.otherwise(), Some(Attempt::WithoutImages));
    assert_eq!(Attempt::WithoutImages.otherwise(), Some(Attempt::Empty));
    assert_eq!(Attempt::Empty.otherwise(), None);
    assert!(!Attempt::Whole.loses_images());
    assert!(Attempt::Empty.loses_images());
}

#[test]
fn a_script_of_broken_text_is_still_read() {
    let code = vec![element(1, None, Some("/a.js"), "")];
    let (running, _) = Running::begin(&code, &url("https://app.test/"), None, false);
    let (running, _) = running.next(Report::Built(Ok(())));
    let (running, _) = running.next(Report::Ran(Ok(())));
    let (running, _) = running.next(Report::Started { remaining_ms: 45_000 });
    let (running, _) = running.next(Report::Elapsed(0));
    let mut outcome = answered(&url("https://app.test/a.js"), 200, "");
    outcome.body = vec![b'a', 0xff, b'b'];
    let (_, task) = running.next(Report::Fetched(outcome));
    assert_eq!(
        task,
        Task::Eval { node: 1, code: "a\u{fffd}b".to_string(), name: "/a.js".to_string() }
    );
}
