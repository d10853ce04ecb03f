//! What goes on the wire besides a page's own fetches: preflights, sockets and
//! event streams, and who the session says it is.
use vstd::prelude::*;

use crate::cors::{
    check_preflight, check_response, lemma_split_some, origin_of, pairs, preflight_permits,
    response_permits, Credentials, Mode, Origin, Plan, Preflight,
};
use crate::fetch::{
    announces, has_header, jar_view, may_use_cookies, sets, header_if, WireRequest,
};
use crate::passage::{told_of_blocked, ContextView, CorsContext, Errand, Passage, Stage};
use crate::receipt::{request_record, response_record, Initiator, RecordView, RequestRecord};
use crate::text::{
    decimal, decimal_text, join, joined, lower, lowered, same, split, split_on, string_view, texts,
    trim, trimmed, view_of,
};
use crate::url::{url_ref, Url, UrlView};

verus! {

/// The agent string this engine presents under its own name.
pub const USER_AGENT: &'static str =
    "Mozilla/5.0 (compatible; h5i-browser/0.1.0; +https://github.com/h5i-dev/h5i)";

/// What this engine asks for under its own name.
pub const NATIVE_ACCEPT_LANGUAGE: &'static str = "en-US,en;q=0.9";

/// Who a session presents itself as, reduced to the two values a request
/// carries.
#[derive(Debug, Clone, PartialEq, Eq)]
pub struct Presented {
    pub user_agent: String,
    pub accept_language: String,
}

/// A character that may stand in a header value: a tab, or anything that is
/// neither a control character nor DEL.
pub open spec fn is_header_char(c: char) -> bool {
    c == '\t' || (c as u32 >= 32 && c as u32 != 127)
}

pub open spec fn is_header_value(s: Seq<char>) -> bool {
    forall|i: int| 0 <= i < s.len() ==> is_header_char(#[trigger] s[i])
}

/// Asks `reqwest::header::HeaderValue::from_str` whether a text can be a header
/// value. It can where no byte of it is a control character other than a tab;
/// the complaint about another is one fixed sentence.
#[verifier::external_body]
fn header_value_error(s: &str) -> (r: Option<String>)
    ensures
        r is None <==> is_header_value(s@),
        r is Some ==> r->Some_0@ == "failed to parse header value"@,
{
    reqwest::header::HeaderValue::from_str(s).err().map(|e| e.to_string())
}

impl Presented {
    /// The honest one: this engine, under its own name.
    pub fn native() -> (r: Result<Presented, String>)
        ensures
            r is Ok,
            r->Ok_0.user_agent@ == USER_AGENT@,
            r->Ok_0.accept_language@ == NATIVE_ACCEPT_LANGUAGE@,
    {
        proof {
            reveal_strlit("en-US,en;q=0.9");
            assert(is_header_value(NATIVE_ACCEPT_LANGUAGE@));
        }
        Presented::from_parts(USER_AGENT.to_owned(), NATIVE_ACCEPT_LANGUAGE.to_owned())
    }

    /// The one a session was opened with.
    pub fn declared(user_agent: String, accept_language: String) -> (r: Result<Presented, String>)
        ensures
            r is Ok <==> is_header_value(accept_language@),
            r matches Ok(p) ==> p.user_agent@ == user_agent@ && p.accept_language@
                == accept_language@,
            r matches Err(e) ==> e@
                == "that is not a sendable Accept-Language: failed to parse header value"@,
    {
        Presented::from_parts(user_agent, accept_language)
    }

    /// A session whose languages cannot be a header refuses at its door rather
    /// than when a page is waiting on the first request.
    fn from_parts(user_agent: String, accept_language: String) -> (r: Result<Presented, String>)
        ensures
            r is Ok <==> is_header_value(accept_language@),
            r matches Ok(p) ==> p.user_agent@ == user_agent@ && p.accept_language@
                == accept_language@,
            r matches Err(e) ==> e@
                == "that is not a sendable Accept-Language: failed to parse header value"@,
    {
        match header_value_error(&accept_language) {
            Some(e) => {
                let mut why = "that is not a sendable Accept-Language: ".to_owned();
                why.append(&e);
                proof {
                    reveal_strlit("that is not a sendable Accept-Language: ");
                    reveal_strlit("failed to parse header value");
                    reveal_strlit(
                        "that is not a sendable Accept-Language: failed to parse header value",
                    );
                    assert(why@
                        =~= "that is not a sendable Accept-Language: failed to parse header value"@);
                }
                Err(why)
            },
            None => Ok(Presented { user_agent, accept_language }),
        }
    }

    /// The header set a request actually goes out with: the client adds the
    /// agent string where the request names none.
    pub fn headers_as_sent(&self, built: Vec<(String, String)>) -> (r: Vec<(String, String)>)
        ensures
            pairs(r@) == pairs(built@) + header_if(
                !sets(pairs(built@), "user-agent"@),
                "user-agent"@,
                self.user_agent@,
            ),
    {
        let ghost before = pairs(built@);
        let named = has_header(&built, "user-agent");
        let mut out = built;
        if !named {
            out.push(("user-agent".to_owned(), self.user_agent.clone()));
            assert(pairs(out@) =~= before + seq![("user-agent"@, self.user_agent@)]);
        } else {
            assert(pairs(out@) =~= before + Seq::empty());
        }
        out
    }
}

// -------------------------------------------------------------- preflights

/// The passage of a preflight. It is a request like any other.
pub fn preflight_passage(seq: u64, url: &Url) -> (r: Passage)
    ensures
        r.errand == Errand::Preflight,
        r.seq == seq,
        r.initiator == Initiator::Subresource,
        r.verb@ == "OPTIONS"@,
        r.shown@ == url@.href,
        r.method@ == "OPTIONS"@,
        r.url@ == url@,
        r.overridden@.len() == 0,
        r.stage == Stage::Naming,
        r.plan is None,
{
    let none: Vec<String> = Vec::new();
    Passage::new(
        Errand::Preflight,
        seq,
        Initiator::Subresource,
        "OPTIONS",
        &url.href,
        "OPTIONS",
        url,
        &none,
    )
}

/// What a preflight carries: who asks, and what for. Never a credential: it is
/// a question about whether a credentialed request would be allowed.
pub open spec fn preflight_headers(
    ask: crate::cors::PreflightView,
) -> Seq<(Seq<char>, Seq<char>)> {
    seq![("origin"@, ask.origin), ("access-control-request-method"@, ask.method)] + header_if(
        ask.headers.len() > 0,
        "access-control-request-headers"@,
        joined(ask.headers, ", "@),
    )
}

/// The preflight as it goes on the wire.
pub fn preflight_request(ask: &Preflight, url: &Url) -> (r: WireRequest)
    ensures
        r.method@ == "OPTIONS"@,
        r.url@ == url@,
        pairs(r.headers@) == preflight_headers(ask@),
        r.body@.len() == 0,
        r.cookies_sent == 0,
{
    let mut headers: Vec<(String, String)> = Vec::new();
    headers.push(("origin".to_owned(), ask.origin.clone()));
    headers.push(("access-control-request-method".to_owned(), ask.method.clone()));
    assert(pairs(headers@) =~= seq![
        ("origin"@, ask.origin@),
        ("access-control-request-method"@, ask.method@),
    ]);
    if ask.headers.len() > 0 {
        let ghost before = pairs(headers@);
        headers.push(("access-control-request-headers".to_owned(), join(&ask.headers, ", ")));
        assert(pairs(headers@) =~= before + seq![
            ("access-control-request-headers"@, joined(texts(ask.headers@), ", "@)),
        ]);
    }
    assert(pairs(headers@) =~= preflight_headers(ask@));
    WireRequest {
        method: "OPTIONS".to_owned(),
        url: url.copy(),
        headers,
        body: Vec::new(),
        cookies_sent: 0,
    }
}

/// The answer to a preflight, as far as it matters.
#[derive(Debug, Clone, PartialEq, Eq)]
pub struct PreflightAnswer {
    pub status: u16,
    pub allow_origin: Option<String>,
    pub allow_credentials: Option<String>,
    pub allow_methods: Option<String>,
    pub allow_headers: Option<String>,
}

fn as_ref(s: &Option<String>) -> (r: Option<&str>)
    ensures
        view_of(r) == string_view(*s),
{
    match s {
        Some(t) => Some(t.as_str()),
        None => None,
    }
}

/// What a preflight comes to.
pub open spec fn preflight_outcome(
    ask: crate::cors::PreflightView,
    answer: PreflightAnswer,
) -> Result<(), Seq<char>> {
    if 200 <= answer.status < 300 {
        preflight_permits(
            ask,
            string_view(answer.allow_origin),
            string_view(answer.allow_credentials),
            string_view(answer.allow_methods),
            string_view(answer.allow_headers),
        )
    } else {
        Err(
            "the preflight was answered with "@ + decimal(answer.status as nat)
                + ", so the request was not made."@,
        )
    }
}

/// What a preflight comes to, and the response half of its record.
pub fn preflight_answered(
    ask: &Preflight,
    record: &RequestRecord,
    answer: &PreflightAnswer,
    elapsed_ms: u64,
) -> (r: (RequestRecord, Result<(), String>))
    ensures
        r.0@ == (RecordView {
            status: Some(answer.status),
            duration_ms: Some(elapsed_ms),
            ..response_record(record@)
        }),
        crate::cors::outcome(r.1) == preflight_outcome(ask@, *answer),
{
    let mut out = record.response();
    out.status = Some(answer.status);
    out.duration_ms = Some(elapsed_ms);
    if !(200 <= answer.status && answer.status < 300) {
        let mut why = "the preflight was answered with ".to_owned();
        why.append(&decimal_text(answer.status as u64));
        why.append(", so the request was not made.");
        return (out, Err(why));
    }
    let verdict = check_preflight(
        ask,
        as_ref(&answer.allow_origin),
        as_ref(&answer.allow_credentials),
        as_ref(&answer.allow_methods),
        as_ref(&answer.allow_headers),
    );
    (out, verdict)
}

/// A preflight that could not be sent, and the response half of its record.
pub fn preflight_unsent(record: &RequestRecord, error: &str, elapsed_ms: u64) -> (r: (
    RequestRecord,
    String,
))
    ensures
        r.0@ == (RecordView {
            duration_ms: Some(elapsed_ms),
            error: Some(error@),
            ..response_record(record@)
        }),
        r.1@ == "the preflight could not be sent: "@ + error@,
{
    let mut out = record.response();
    out.duration_ms = Some(elapsed_ms);
    out.error = Some(error.to_owned());
    let mut why = "the preflight could not be sent: ".to_owned();
    why.append(error);
    (out, why)
}

// ----------------------------------------------------------------- sockets

/// The passage of a socket's handshake.
pub fn socket_passage(seq: u64, url: &Url) -> (r: Passage)
    ensures
        r.errand == Errand::Socket,
        r.seq == seq,
        r.initiator == Initiator::Subresource,
        r.verb@ == "WS-OPEN"@,
        r.shown@ == url@.href,
        r.method@ == "GET"@,
        r.url@ == url@,
        r.overridden@.len() == 0,
        r.stage == Stage::Naming,
        r.plan is None,
{
    let none: Vec<String> = Vec::new();
    Passage::new(
        Errand::Socket,
        seq,
        Initiator::Subresource,
        "WS-OPEN",
        &url.href,
        "GET",
        url,
        &none,
    )
}

/// Both halves of the record of one frame on an open connection. A frame is
/// not an exchange with a status of its own.
pub fn frame_records(seq: u64, url: &Url, verb: &str, bytes: u64) -> (r: (
    RequestRecord,
    RequestRecord,
))
    ensures
        r.0@ == request_record(seq, Initiator::Subresource, verb@, url@.href),
        r.1@ == (RecordView { bytes: Some(bytes), ..response_record(r.0@) }),
{
    let record = RequestRecord::request(seq, Initiator::Subresource, verb, &url.href);
    let mut outcome = record.response();
    outcome.bytes = Some(bytes);
    (record, outcome)
}

/// What closes a connection that has spent the page's allowance.
pub fn frame_over(over: &str) -> (r: String)
    ensures
        r@ == over@
            + " A long-lived connection is charged per frame, so this is the page's whole allowance rather than this frame's."@,
{
    let mut why = over.to_owned();
    why.append(
        " A long-lived connection is charged per frame, so this is the page's whole allowance rather than this frame's.",
    );
    why
}

/// What a caller is told of a refused socket or stream, once its record was
/// written or was not.
pub fn refuse_channel(told: String, pair: Result<(), String>) -> (r: String)
    ensures
        r@ == (match pair {
            Ok(()) => told@,
            Err(e) => "receipt sink refused: "@ + e@,
        }),
{
    match pair {
        Ok(()) => told,
        Err(e) => {
            let mut why = "receipt sink refused: ".to_owned();
            why.append(&e);
            why
        },
    }
}

// ----------------------------------------------------------- event streams

/// The passage of an event stream.
pub fn stream_passage(seq: u64, url: &Url) -> (r: Passage)
    ensures
        r.errand == Errand::Stream,
        r.seq == seq,
        r.initiator == Initiator::Subresource,
        r.verb@ == "SSE-OPEN"@,
        r.shown@ == url@.href,
        r.method@ == "GET"@,
        r.url@ == url@,
        r.overridden@.len() == 0,
        r.stage == Stage::Naming,
        r.plan is None,
{
    let none: Vec<String> = Vec::new();
    Passage::new(
        Errand::Stream,
        seq,
        Initiator::Subresource,
        "SSE-OPEN",
        &url.href,
        "GET",
        url,
        &none,
    )
}

/// Who opens a stream. An agent naming a URL is unrestricted; a document is
/// subject to the origin boundary, with cookies same-origin and never across.
pub open spec fn stream_asker(document: Option<UrlView>) -> Option<ContextView> {
    match document {
        None => None,
        Some(d) => Some(
            ContextView {
                document: origin_of(d),
                headers: Seq::empty(),
                mode: Mode::Cors,
                credentials: Credentials::SameOrigin,
            },
        ),
    }
}

pub fn stream_context(document: Option<&Url>) -> (r: Option<CorsContext>)
    ensures
        crate::fetch::context_view(r) == stream_asker(url_ref(document)),
{
    match document {
        None => None,
        Some(d) => {
            let headers: Vec<(String, String)> = Vec::new();
            assert(pairs(headers@) =~= Seq::empty());
            Some(
                CorsContext {
                    document: Origin::of(d),
                    headers,
                    mode: Mode::Cors,
                    credentials: Credentials::SameOrigin,
                },
            )
        },
    }
}

/// What the request that opens a stream carries.
pub open spec fn stream_headers(
    plan: Option<Plan>,
    language: Seq<char>,
    jar: Option<(Seq<char>, usize)>,
) -> Seq<(Seq<char>, Seq<char>)> {
    seq![("accept"@, "text/event-stream"@), ("accept-language"@, language)] + header_if(
        may_use_cookies(plan) && jar is Some,
        "cookie"@,
        jar->Some_0.0,
    ) + header_if(announces(plan) is Some, "origin"@, announces(plan)->Some_0)
}

/// How many of the session's cookies that request carries.
pub open spec fn cookies_carried(plan: Option<Plan>, jar: Option<(Seq<char>, usize)>) -> usize {
    match jar {
        Some((_, count)) => if may_use_cookies(plan) {
            count
        } else {
            0
        },
        None => 0,
    }
}

/// The request that opens a stream.
pub fn stream_request(
    plan: &Option<Plan>,
    url: &Url,
    language: &str,
    jar: Option<(String, usize)>,
) -> (r: WireRequest)
    ensures
        r.method@ == "GET"@,
        r.url@ == url@,
        pairs(r.headers@) == stream_headers(*plan, language@, jar_view(jar)),
        r.body@.len() == 0,
        r.cookies_sent == cookies_carried(*plan, jar_view(jar)),
{
    let mut headers: Vec<(String, String)> = Vec::new();
    headers.push(("accept".to_owned(), "text/event-stream".to_owned()));
    headers.push(("accept-language".to_owned(), language.to_owned()));
    let ghost first = seq![("accept"@, "text/event-stream"@), ("accept-language"@, language@)];
    assert(pairs(headers@) =~= first);
    let may = match plan {
        Some(Plan::Send { send_cookies, .. }) => *send_cookies,
        _ => true,
    };
    let mut cookies_sent: usize = 0;
    let ghost second = header_if(may && jar is Some, "cookie"@, jar_view(jar)->Some_0.0);
    if may {
        if let Some((value, count)) = &jar {
            headers.push(("cookie".to_owned(), value.clone()));
            cookies_sent = *count;
        }
    }
    assert(pairs(headers@) =~= first + second);
    if let Some(Plan::Send { origin_header: Some(origin), .. }) = plan {
        headers.push(("origin".to_owned(), origin.clone()));
    }
    assert(pairs(headers@) =~= stream_headers(*plan, language@, jar_view(jar)));
    WireRequest { method: "GET".to_owned(), url: url.copy(), headers, body: Vec::new(), cookies_sent }
}

/// The answer to the request that opens a stream.
#[derive(Debug, Clone, PartialEq, Eq)]
pub struct StreamAnswer {
    pub status: u16,
    pub allow_origin: Option<String>,
    pub allow_credentials: Option<String>,
    pub content_type: Option<String>,
}

/// The content type without its parameters.
pub open spec fn essence(content_type: Option<Seq<char>>) -> Seq<char> {
    lowered(
        trimmed(
            split_on(
                match content_type {
                    Some(t) => t,
                    None => Seq::empty(),
                },
                ';',
            )[0],
        ),
    )
}

/// Why an answer is not read as a stream, where it is not: a document may not
/// read it, or it is no event stream. Without the second, every line beginning
/// `data:` in someone else's document would become a message.
pub open spec fn stream_refusal(plan: Option<Plan>, answer: StreamAnswer) -> Option<Seq<char>> {
    let checked = match plan {
        Some(Plan::Send { origin_header, send_cookies, check_response, .. }) => if check_response {
            response_permits(
                string_view(answer.allow_origin),
                string_view(answer.allow_credentials),
                match string_view(origin_header) {
                    Some(o) => o,
                    None => "null"@,
                },
                send_cookies,
            )
        } else {
            Ok(())
        },
        _ => Ok(()),
    };
    let kind = essence(string_view(answer.content_type));
    match checked {
        Err(why) => Some(told_of_blocked(why)),
        Ok(()) => if kind == "text/event-stream"@ {
            None
        } else {
            Some(
                "the answer is `"@ + (if kind.len() == 0 {
                    "(no content type)"@
                } else {
                    kind
                })
                    + "`, not `text/event-stream`, so it is not an event stream and was not read."@,
            )
        },
    }
}

fn stream_check(plan: &Option<Plan>, answer: &StreamAnswer) -> (r: Result<(), String>)
    ensures
        match r {
            Ok(()) => stream_refusal(*plan, *answer) is None,
            Err(why) => stream_refusal(*plan, *answer) == Some(why@),
        },
{
    if let Some(
        Plan::Send { origin_header, send_cookies, check_response: true, .. },
    ) = plan {
        let asked = match origin_header {
            Some(o) => o.clone(),
            None => "null".to_owned(),
        };
        if let Err(why) = check_response(
            as_ref(&answer.allow_origin),
            as_ref(&answer.allow_credentials),
            &asked,
            *send_cookies,
        ) {
            let mut told = "blocked by the same-origin policy: ".to_owned();
            told.append(&why);
            return Err(told);
        }
    }
    let whole = match &answer.content_type {
        Some(t) => t.clone(),
        None => String::new(),
    };
    let pieces = split(&whole, ';');
    proof {
        lemma_split_some(whole@, ';');
        assert(texts(pieces@)[0] == pieces@[0]@);
    }
    let kind = lower(&trim(&pieces[0]));
    if same(&kind, "text/event-stream") {
        return Ok(());
    }
    let mut why = "the answer is `".to_owned();
    if kind.as_str().is_empty() {
        why.append("(no content type)");
    } else {
        why.append(&kind);
    }
    why.append("`, not `text/event-stream`, so it is not an event stream and was not read.");
    Err(why)
}

/// Whether an answer is read as a stream, and the response half of its record.
pub fn stream_answered(plan: &Option<Plan>, record: &RequestRecord, answer: &StreamAnswer) -> (r: (
    RequestRecord,
    Result<(), String>,
))
    ensures
        match r.1 {
            Ok(()) => stream_refusal(*plan, *answer) is None,
            Err(why) => stream_refusal(*plan, *answer) == Some(why@),
        },
        r.0@ == (RecordView {
            status: Some(answer.status),
            error: match stream_refusal(*plan, *answer) {
                Some(why) => Some(why),
                None => record@.error,
            },
            ..response_record(record@)
        }),
{
    let mut out = record.response();
    out.status = Some(answer.status);
    match stream_check(plan, answer) {
        Ok(()) => (out, Ok(())),
        Err(why) => {
            out.error = Some(why.clone());
            (out, Err(why))
        },
    }
}

/// A stream that could not be opened, and the response half of its record.
pub fn stream_unsent(record: &RequestRecord, error: &str) -> (r: (RequestRecord, String))
    ensures
        r.0@ == (RecordView { error: Some(error@), ..response_record(record@) }),
        r.1@ == "could not open the event stream: "@ + error@,
{
    let mut out = record.response();
    out.error = Some(error.to_owned());
    let mut why = "could not open the event stream: ".to_owned();
    why.append(error);
    (out, why)
}

/// What a caller is told where the record of an open stream could not be
/// written.
pub fn stream_unrecorded(error: &str) -> (r: String)
    ensures
        r@ == "refusing to stream: the receipt could not be written: "@ + error@,
{
    let mut why = "refusing to stream: the receipt could not be written: ".to_owned();
    why.append(error);
    why
}

/// A preflight never carries a cookie.
pub proof fn law_a_preflight_carries_no_credential(ask: crate::cors::PreflightView)
    ensures
        !sets(preflight_headers(ask), "cookie"@),
        !sets(preflight_headers(ask), "authorization"@),
{
    reveal_strlit("cookie");
    reveal_strlit("authorization");
    reveal_strlit("origin");
    reveal_strlit("access-control-request-method");
    reveal_strlit("access-control-request-headers");
    let h = preflight_headers(ask);
    assert("cookie"@[0] == 'c');
    assert("origin"@[0] == 'o');
    assert(lowered("cookie"@)[0] == 'c');
    assert(lowered("origin"@)[0] == 'o');
    assert(lowered("access-control-request-method"@)[0] == 'a');
    assert(lowered("access-control-request-headers"@)[0] == 'a');
    assert(lowered("access-control-request-method"@).len() == 29);
    assert(lowered("access-control-request-headers"@).len() == 30);
    assert(lowered("authorization"@).len() == 13);
    assert forall|i: int| 0 <= i < h.len() implies lowered(#[trigger] h[i].0) != lowered("cookie"@)
        && lowered(h[i].0) != lowered("authorization"@) by {
        assert(h[0].0 == "origin"@);
        assert(h[1].0 == "access-control-request-method"@);
        if i == 2 {
            assert(h[2].0 == "access-control-request-headers"@);
        }
    }
}

/// The session's cookies do not ride to another origin on a stream: where a
/// document opens one across origins, none is sent.
pub proof fn law_a_stream_across_origins_carries_no_cookie(
    document: UrlView,
    url: UrlView,
    stance: crate::cors::Stance,
    plan: Plan,
    tainted: bool,
)
    requires
        crate::cors::planned(
            crate::passage::requester_of(stream_asker(Some(document))->Some_0, tainted),
            url,
            "GET"@,
            Seq::empty(),
            Mode::Cors,
            Credentials::SameOrigin,
            stance,
            plan,
        ),
        !crate::cors::is_same_origin(
            crate::passage::requester_of(stream_asker(Some(document))->Some_0, tainted),
            url,
        ),
    ensures
        !may_use_cookies(Some(plan)),
        plan is Send,
{
}

/// Languages can be sent exactly where every character of theirs is a tab or
/// is printable: not below the space, and not U+007F.
pub proof fn law_which_languages_can_be_sent(
    user_agent: String,
    accept_language: String,
    r: Result<Presented, String>,
)
    requires
        call_ensures(Presented::declared, (user_agent, accept_language), r),
    ensures
        r is Ok <==> forall|i: int|
            0 <= i < accept_language@.len() ==> (#[trigger] accept_language@[i]) == '\t' || (
            accept_language@[i] >= ' ' && accept_language@[i] != '\u{7f}'),
        r is Ok ==> r->Ok_0.user_agent@ == user_agent@ && r->Ok_0.accept_language@
            == accept_language@,
{
    let s = accept_language@;
    assert forall|i: int| 0 <= i < s.len() implies (is_header_char(#[trigger] s[i]) <==> s[i] == '\t'
        || (s[i] >= ' ' && s[i] != '\u{7f}')) by {
        lemma_header_char(s[i]);
    }
}

proof fn lemma_header_char(c: char)
    ensures
        is_header_char(c) <==> c == '\t' || (c >= ' ' && c != '\u{7f}'),
{
}

/// A request names this engine, unless it names another itself, and is
/// otherwise as it was built.
pub proof fn law_a_request_names_its_engine(
    identity: &Presented,
    built: Vec<(String, String)>,
    r: Vec<(String, String)>,
    name: Seq<char>,
)
    requires
        call_ensures(Presented::headers_as_sent, (identity, built), r),
    ensures
        ({
            let own = crate::fetch::values_of(pairs(built@), "user-agent"@);
            &&& crate::fetch::values_of(pairs(r@), "user-agent"@) == if own.len() > 0 {
                own
            } else {
                seq![identity.user_agent@]
            }
            &&& name != "user-agent"@ ==> crate::fetch::values_of(pairs(r@), name)
                == crate::fetch::values_of(pairs(built@), name)
        }),
{
    reveal_strlit("user-agent");
    let key = "user-agent"@;
    assert(lowered(key) =~= key);
    let b = pairs(built@);
    let extra = header_if(!sets(b, key), key, identity.user_agent@);
    crate::fetch::lemma_sets_values(b, key);
    crate::fetch::lemma_values_add(b, extra, key);
    crate::fetch::lemma_values_add(b, extra, name);
    crate::fetch::lemma_values_if(!sets(b, key), key, identity.user_agent@, key);
    crate::fetch::lemma_values_if(!sets(b, key), key, identity.user_agent@, name);
    let all = crate::fetch::values_of(pairs(r@), key);
    if sets(b, key) {
        assert(all =~= crate::fetch::values_of(b, key));
    } else {
        assert(all =~= seq![identity.user_agent@]);
    }
    if name != key {
        assert(crate::fetch::values_of(pairs(r@), name) =~= crate::fetch::values_of(b, name));
    }
}

/// A preflight is an `OPTIONS` without a body that names the origin, the method
/// and, where there are any, the headers, and nothing else.
pub proof fn law_what_a_preflight_says(ask: &Preflight, url: &Url, r: WireRequest)
    requires
        call_ensures(preflight_request, (ask, url), r),
    ensures
        r.method@ == "OPTIONS"@,
        r.url@ == url@,
        r.body@.len() == 0,
        r.cookies_sent == 0,
        pairs(r.headers@)[0] == ("origin"@, ask.origin@),
        pairs(r.headers@)[1] == ("access-control-request-method"@, ask.method@),
        ask.headers@.len() > 0 ==> pairs(r.headers@).len() == 3 && pairs(r.headers@)[2] == (
            "access-control-request-headers"@,
            joined(texts(ask.headers@), ", "@),
        ),
        ask.headers@.len() == 0 ==> pairs(r.headers@).len() == 2,
{
}

/// A preflight lets its request through only with a status in the two hundreds,
/// and then by what its headers say.
pub proof fn law_what_a_preflights_answer_means(
    ask: &Preflight,
    record: &RequestRecord,
    answer: &PreflightAnswer,
    took: u64,
    r: (RequestRecord, Result<(), String>),
)
    requires
        call_ensures(preflight_answered, (ask, record, answer, took), r),
    ensures
        r.1 is Ok <==> 200 <= answer.status <= 299 && preflight_permits(
            ask@,
            string_view(answer.allow_origin),
            string_view(answer.allow_credentials),
            string_view(answer.allow_methods),
            string_view(answer.allow_headers),
        ) is Ok,
        r.0@.status == Some(answer.status),
        r.0@.duration_ms == Some(took),
        r.0@.seq == record@.seq,
        r.0@.phase is Response,
{
}

/// An event stream is asked for as one, with the session's languages, with
/// cookies where the plan lets them go, and with the origin that the plan
/// announces, in that order.
pub proof fn law_what_a_stream_asks(
    plan: &Option<Plan>,
    url: &Url,
    language: &str,
    jar: Option<(String, usize)>,
    r: WireRequest,
)
    requires
        call_ensures(stream_request, (plan, url, language, jar), r),
    ensures
        ({
            let h = pairs(r.headers@);
            let withheld = *plan matches Some(Plan::Send { send_cookies, .. }) && !send_cookies;
            let cookies = !withheld && jar is Some;
            let named = match *plan {
                Some(Plan::Send { origin_header: Some(o), .. }) => Some(o@),
                _ => None,
            };
            &&& h[0] == ("accept"@, "text/event-stream"@)
            &&& h[1] == ("accept-language"@, language@)
            &&& h.len() == 2 + (if cookies {
                1int
            } else {
                0
            }) + (if named is Some {
                1int
            } else {
                0
            })
            &&& cookies ==> h[2] == ("cookie"@, jar->Some_0.0@) && r.cookies_sent == jar->Some_0.1
            &&& !cookies ==> r.cookies_sent == 0
            &&& named is Some ==> h.last() == ("origin"@, named->Some_0)
        }),
        r.method@ == "GET"@,
        r.url@ == url@,
        r.body@.len() == 0,
{
}

/// A stream is read exactly where the response may be read by the origin that
/// asked, as any response, and where its content type, up to the semicolon,
/// trimmed and in any case, is `text/event-stream`.
pub proof fn law_which_streams_are_read(
    plan: &Option<Plan>,
    record: &RequestRecord,
    answer: &StreamAnswer,
    r: (RequestRecord, Result<(), String>),
)
    requires
        call_ensures(stream_answered, (plan, record, answer), r),
    ensures
        ({
            let allowed = match *plan {
                Some(
                    Plan::Send { origin_header, send_cookies, check_response: true, .. },
                ) => response_permits(
                    string_view(answer.allow_origin),
                    string_view(answer.allow_credentials),
                    if origin_header is Some {
                        origin_header->Some_0@
                    } else {
                        "null"@
                    },
                    send_cookies,
                ) is Ok,
                _ => true,
            };
            r.1 is Ok <==> allowed && answer.content_type is Some && lowered(
                trimmed(split_on(answer.content_type->Some_0@, ';')[0]),
            ) == "text/event-stream"@
        }),
        r.1 matches Err(why) ==> r.0@.error == Some(why@),
        r.0@.status == Some(answer.status),
        r.0@.seq == record@.seq,
        r.0@.phase is Response,
{
    reveal_strlit("text/event-stream");
    let none = Seq::<char>::empty();
    assert(split_on(none, ';') =~= seq![none]);
    assert(trimmed(none) =~= none);
    assert(lowered(none) =~= none);
    assert("text/event-stream"@.len() == 17);
}

/// A socket, a stream and a preflight are each on record under their own verb,
/// at the address they go to.
pub proof fn law_how_channels_are_on_record(
    seq: u64,
    url: &Url,
    a: Passage,
    b: Passage,
    c: Passage,
)
    requires
        call_ensures(preflight_passage, (seq, url), a),
        call_ensures(socket_passage, (seq, url), b),
        call_ensures(stream_passage, (seq, url), c),
    ensures
        a.errand is Preflight && b.errand is Socket && c.errand is Stream,
        a.verb@ == "OPTIONS"@ && b.verb@ == "WS-OPEN"@ && c.verb@ == "SSE-OPEN"@,
        a.method@ == "OPTIONS"@ && b.method@ == "GET"@ && c.method@ == "GET"@,
        a.seq == seq && b.seq == seq && c.seq == seq,
        a.shown@ == url@.href && b.shown@ == url@.href && c.shown@ == url@.href,
        a.url@ == url@ && b.url@ == url@ && c.url@ == url@,
        a.stage is Naming && b.stage is Naming && c.stage is Naming,
        a.plan is None && b.plan is None && c.plan is None,
{
}

/// Each frame of a channel is a request and a response of its own, under one
/// number, with its size.
pub proof fn law_each_frame_is_on_record(
    seq: u64,
    url: &Url,
    verb: &str,
    bytes: u64,
    r: (RequestRecord, RequestRecord),
)
    requires
        call_ensures(frame_records, (seq, url, verb, bytes), r),
    ensures
        r.0@.seq == seq && r.1@.seq == seq,
        r.0@.phase is Request && r.1@.phase is Response,
        r.0@.url == url@.href && r.1@.url == url@.href,
        r.0@.method == verb@ && r.1@.method == verb@,
        r.0@.allowed && r.1@.allowed,
        r.0@.bytes is None && r.1@.bytes == Some(bytes),
{
}

/// Under its own name this engine presents its own agent and asks for English.
pub proof fn law_who_this_engine_says_it_is(r: Result<Presented, String>)
    requires
        call_ensures(Presented::native, (), r),
    ensures
        r is Ok,
        r->Ok_0.user_agent@
            == "Mozilla/5.0 (compatible; h5i-browser/0.1.0; +https://github.com/h5i-dev/h5i)"@,
        r->Ok_0.accept_language@ == "en-US,en;q=0.9"@,
{
}

/// What a caller is told of a refused channel, and of a refusal whose record
/// could not be written.
pub proof fn law_what_is_told_of_a_refused_channel(
    told: String,
    pair: Result<(), String>,
    r: String,
)
    requires
        call_ensures(refuse_channel, (told, pair), r),
    ensures
        pair is Ok ==> r@ == told@,
        pair is Err ==> r@ == "receipt sink refused: "@ + pair->Err_0@,
{
}

/// A stream is asked for by its document's origin, under `cors`, with cookies to
/// that origin alone; without a document nobody asks.
pub proof fn law_who_asks_for_a_stream(document: Option<&Url>, r: Option<CorsContext>)
    requires
        call_ensures(stream_context, (document,), r),
    ensures
        r is Some <==> document is Some,
        r matches Some(c) ==> c@.document == origin_of(document->Some_0@) && c@.mode is Cors
            && c@.credentials is SameOrigin && c@.headers.len() == 0,
{
}

} // verus!
