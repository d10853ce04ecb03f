//! One fetch: the request as it goes out on each hop, and what is made of what
//! comes back.
use vstd::prelude::*;

use crate::cors::{
    check_response, exposed, exposure_from, filter_headers, origin_of, origin_option, pairs,
    response_permits, visible_headers, Credentials, Exposure, ExposureView, Mode, Origin, Plan,
};
use crate::decode::{bytes_result, decode_capped, decoded, ACCEPT_ENCODING};
use crate::passage::{
    context_ref, told_of_blocked, ContextView, CorsContext, Errand, Passage, Stage,
};
use crate::policy::{Policy, PolicyView};
use crate::receipt::{response_record, Initiator, RecordView, RequestRecord};
use crate::text::{
    begins, decimal, decimal_text, is_digit, lower, lowered, same, same_but_case, starts_with,
    string_view, texts, trim, trimmed, upper, uppered, view_of,
};
use crate::url::{copy_option, url_joined, url_option, Url, UrlView};

verus! {

/// What a fetch produced. A denied or failed fetch is still an outcome, with
/// an empty body and a reason. Never an absence.
#[derive(Debug, Clone, PartialEq, Eq)]
pub struct FetchOutcome {
    /// The receipt number this request was recorded under; `None` when it
    /// never reached the point of being recorded.
    pub seq: Option<u64>,
    /// Response headers, in arrival order.
    pub headers: Vec<(String, String)>,
    pub final_url: Url,
    pub body: Vec<u8>,
    pub status: Option<u16>,
    pub error: Option<String>,
    /// Set when this was a cross-origin `no-cors` request: the body and headers
    /// are empty and the status is zero, and this says that it is not a
    /// failure.
    pub opaque: bool,
}

/// What a [`FetchOutcome`] says.
#[verifier::ext_equal]
pub struct OutcomeView {
    pub seq: Option<u64>,
    pub headers: Seq<(Seq<char>, Seq<char>)>,
    pub final_url: UrlView,
    pub body: Seq<u8>,
    pub status: Option<u16>,
    pub error: Option<Seq<char>>,
    pub opaque: bool,
}

impl View for FetchOutcome {
    type V = OutcomeView;

    open spec fn view(&self) -> OutcomeView {
        OutcomeView {
            seq: self.seq,
            headers: pairs(self.headers@),
            final_url: self.final_url@,
            body: self.body@,
            status: self.status,
            error: string_view(self.error),
            opaque: self.opaque,
        }
    }
}

/// A fetch that brought nothing, and why.
pub open spec fn failed_outcome(url: UrlView, error: Seq<char>, seq: Option<u64>) -> OutcomeView {
    OutcomeView {
        seq,
        headers: Seq::empty(),
        final_url: url,
        body: Seq::empty(),
        status: None,
        error: Some(error),
        opaque: false,
    }
}

impl FetchOutcome {
    /// An outcome that never reached the wire. Public because the script realm
    /// needs to answer a request it could not even start.
    pub fn refused(url: Url, error: String) -> (r: FetchOutcome)
        ensures
            r@ == failed_outcome(url@, error@, None),
    {
        Self::failed(url, error)
    }

    pub fn failed(url: Url, error: String) -> (r: FetchOutcome)
        ensures
            r@ == failed_outcome(url@, error@, None),
    {
        Self::failed_at(url, error, None)
    }

    pub fn failed_at(url: Url, error: String, seq: Option<u64>) -> (r: FetchOutcome)
        ensures
            r@ == failed_outcome(url@, error@, seq),
    {
        let r = FetchOutcome {
            seq,
            headers: Vec::new(),
            final_url: url,
            body: Vec::new(),
            status: None,
            error: Some(error),
            opaque: false,
        };
        assert(r@ =~= failed_outcome(url@, error@, seq));
        r
    }

    pub fn is_ok(&self) -> (r: bool)
        ensures
            r == (self@.error is None),
    {
        self.error.is_none()
    }
}

/// What this engine will take, by what asked for it. A frame negotiates like a
/// navigation, because the server on the other end is serving a page.
pub open spec fn acceptable(initiator: Initiator) -> Seq<char> {
    match initiator {
        Initiator::Navigation | Initiator::Redirect | Initiator::Frame =>
            "text/html,application/xhtml+xml,application/xml;q=0.9,*/*;q=0.8"@,
        Initiator::Subresource | Initiator::Replay => "*/*"@,
    }
}

pub fn accept_for(initiator: Initiator) -> (r: &'static str)
    ensures
        r@ == acceptable(initiator),
{
    match initiator {
        Initiator::Navigation | Initiator::Redirect | Initiator::Frame => {
            "text/html,application/xhtml+xml,application/xml;q=0.9,*/*;q=0.8"
        },
        Initiator::Subresource | Initiator::Replay => "*/*",
    }
}

/// A header the engine owns rather than the page: one that describes the
/// connection, one that the boundary is decided on, and `Accept-Encoding`,
/// because it is this engine that has to decode the answer.
pub open spec fn is_the_engines(name: Seq<char>) -> bool {
    let n = lowered(trimmed(name));
    ||| n == "accept-charset"@
    ||| n == "accept-encoding"@
    ||| n == "access-control-request-headers"@
    ||| n == "access-control-request-method"@
    ||| n == "connection"@
    ||| n == "content-length"@
    ||| n == "cookie"@
    ||| n == "cookie2"@
    ||| n == "date"@
    ||| n == "dnt"@
    ||| n == "expect"@
    ||| n == "host"@
    ||| n == "keep-alive"@
    ||| n == "origin"@
    ||| n == "referer"@
    ||| n == "te"@
    ||| n == "trailer"@
    ||| n == "transfer-encoding"@
    ||| n == "upgrade"@
    ||| n == "via"@
    ||| starts_with(n, "proxy-"@)
    ||| starts_with(n, "sec-"@)
}

/// Is this a header the engine owns rather than the page?
pub fn header_is_the_engines(name: &str) -> (r: bool)
    ensures
        r == is_the_engines(name@),
{
    let n = lower(&trim(name));
    same(&n, "accept-charset") || same(&n, "accept-encoding") || same(
        &n,
        "access-control-request-headers",
    ) || same(&n, "access-control-request-method") || same(&n, "connection") || same(
        &n,
        "content-length",
    ) || same(&n, "cookie") || same(&n, "cookie2") || same(&n, "date") || same(&n, "dnt") || same(
        &n,
        "expect",
    ) || same(&n, "host") || same(&n, "keep-alive") || same(&n, "origin") || same(&n, "referer")
        || same(&n, "te") || same(&n, "trailer") || same(&n, "transfer-encoding") || same(
        &n,
        "upgrade",
    ) || same(&n, "via") || begins(&n, "proxy-") || begins(&n, "sec-")
}

/// The three headers a client must compute for itself: they frame the message.
pub open spec fn is_the_clients(name: Seq<char>) -> bool {
    let n = lowered(trimmed(name));
    n == "content-length"@ || n == "transfer-encoding"@ || n == "connection"@
}

/// The three headers a client must compute for itself. A caller setting one is
/// refused and told.
pub fn header_is_the_clients(name: &str) -> (r: bool)
    ensures
        r == is_the_clients(name@),
{
    let n = lower(&trim(name));
    same(&n, "content-length") || same(&n, "transfer-encoding") || same(&n, "connection")
}

/// Headers that carry a credential, and so do not cross an origin boundary.
pub open spec fn is_a_credential(name: Seq<char>) -> bool {
    let n = lowered(trimmed(name));
    n == "authorization"@ || n == "cookie"@ || n == "proxy-authorization"@
}

/// Headers that carry a credential: otherwise any server in a redirect chain
/// could harvest it by bouncing the request to itself.
pub fn header_is_a_credential(name: &str) -> (r: bool)
    ensures
        r == is_a_credential(name@),
{
    let n = lower(&trim(name));
    same(&n, "authorization") || same(&n, "cookie") || same(&n, "proxy-authorization")
}

/// What is to be fetched, as the caller asks for it.
#[derive(Debug, Clone, PartialEq, Eq)]
pub struct Fetch {
    pub url: Url,
    pub initiator: Initiator,
    pub method: String,
    pub body: Vec<u8>,
    pub content_type: Option<String>,
    pub headers: Vec<(String, String)>,
    /// Fewer hops than the policy allows, never more.
    pub max_redirects: Option<usize>,
    pub document: Option<Url>,
    pub cors: Option<CorsContext>,
}

impl Fetch {
    /// A plain `GET`, asked for by whoever drives the engine.
    pub fn get(url: &Url, initiator: Initiator) -> (r: Fetch)
        ensures
            r.url@ == url@,
            r.initiator == initiator,
            r.method@ == "GET"@,
            r.body@.len() == 0,
            r.content_type is None,
            r.headers@.len() == 0,
            r.max_redirects is None,
            r.document is None,
            r.cors is None,
    {
        Fetch {
            url: url.copy(),
            initiator,
            method: "GET".to_owned(),
            body: Vec::new(),
            content_type: None,
            headers: Vec::new(),
            max_redirects: None,
            document: None,
            cors: None,
        }
    }

    /// The same with these headers.
    pub fn with_headers(self, headers: Vec<(String, String)>) -> (r: Fetch)
        ensures
            r == (Fetch { headers, ..self }),
    {
        Fetch { headers, ..self }
    }
}

/// The context of a request that a document's script makes.
pub fn script_context(
    document: &Url,
    headers: Vec<(String, String)>,
    mode: Mode,
    credentials: Credentials,
) -> (r: CorsContext)
    ensures
        r@ == (ContextView {
            document: origin_of(document@),
            headers: pairs(headers@),
            mode,
            credentials,
        }),
{
    CorsContext { document: Origin::of(document), headers, mode, credentials }
}

/// A fetch under way.
#[derive(Debug, PartialEq, Eq)]
pub struct Exchange {
    pub asked: Fetch,
    /// The caller's headers, without those the client owns.
    pub caller_headers: Vec<(String, String)>,
    /// The names of those that the client owns.
    pub overridden: Vec<String>,
    /// Where the chain began.
    pub started_at: Option<Origin>,
    pub hop_limit: usize,
    pub hop: usize,
    pub current: Url,
    pub initiator: Initiator,
    pub method: String,
    pub body: Vec<u8>,
    /// A redirect has crossed an origin, which makes the request's own origin
    /// opaque from there on.
    pub tainted: bool,
}

/// What stays the same from hop to hop.
pub open spec fn same_fetch(a: Exchange, b: Exchange) -> bool {
    &&& a.asked == b.asked
    &&& a.caller_headers == b.caller_headers
    &&& a.overridden == b.overridden
    &&& a.started_at == b.started_at
    &&& a.hop_limit == b.hop_limit
}

/// The names of the headers that the client owns, as the receipt lists them.
pub open spec fn overridden_names(headers: Seq<(Seq<char>, Seq<char>)>) -> Seq<Seq<char>> {
    headers.filter(|h: (Seq<char>, Seq<char>)| is_the_clients(h.0)).map_values(
        |h: (Seq<char>, Seq<char>)| lowered(trimmed(h.0)),
    )
}

/// The headers that are the caller's to set.
pub open spec fn settable(headers: Seq<(Seq<char>, Seq<char>)>) -> Seq<(Seq<char>, Seq<char>)> {
    headers.filter(|h: (Seq<char>, Seq<char>)| !is_the_clients(h.0))
}

pub open spec fn hops_allowed(asked: Option<usize>, policy: PolicyView) -> usize {
    match asked {
        Some(n) => if n < policy.max_redirects {
            n
        } else {
            policy.max_redirects
        },
        None => policy.max_redirects,
    }
}

/// The exchange before its first hop.
pub open spec fn fresh(policy: PolicyView, fetch: Fetch, x: Exchange) -> bool {
    &&& x.asked == fetch
    &&& pairs(x.caller_headers@) == settable(pairs(fetch.headers@))
    &&& texts(x.overridden@) == overridden_names(pairs(fetch.headers@))
    &&& origin_option(x.started_at) == origin_of(fetch.url@)
    &&& x.hop_limit == hops_allowed(fetch.max_redirects, policy)
    &&& x.hop == 0
    &&& x.current@ == fetch.url@
    &&& x.initiator == fetch.initiator
    &&& x.method@ == uppered(fetch.method@)
    &&& x.body@ == fetch.body@
    &&& !x.tainted
}

/// The split of a caller's headers into its own and the client's.
fn split_headers(headers: &Vec<(String, String)>) -> (r: (Vec<(String, String)>, Vec<String>))
    ensures
        pairs(r.0@) == settable(pairs(headers@)),
        texts(r.1@) == overridden_names(pairs(headers@)),
{
    let mut own: Vec<(String, String)> = Vec::new();
    let mut overridden: Vec<String> = Vec::new();
    let ghost all = pairs(headers@);
    let ghost mine = |h: (Seq<char>, Seq<char>)| !is_the_clients(h.0);
    let ghost theirs = |h: (Seq<char>, Seq<char>)| is_the_clients(h.0);
    let ghost name = |h: (Seq<char>, Seq<char>)| lowered(trimmed(h.0));
    let mut i: usize = 0;
    proof {
        reveal(Seq::filter);
        assert(pairs(own@) =~= all.take(0).filter(mine));
        assert(texts(overridden@) =~= all.take(0).filter(theirs).map_values(name));
    }
    while i < headers.len()
        invariant
            i <= headers.len(),
            all == pairs(headers@),
            mine == (|h: (Seq<char>, Seq<char>)| !is_the_clients(h.0)),
            theirs == (|h: (Seq<char>, Seq<char>)| is_the_clients(h.0)),
            name == (|h: (Seq<char>, Seq<char>)| lowered(trimmed(h.0))),
            pairs(own@) == all.take(i as int).filter(mine),
            texts(overridden@) == all.take(i as int).filter(theirs).map_values(name),
        decreases headers.len() - i,
    {
        assert(all[i as int] == (headers@[i as int].0@, headers@[i as int].1@));
        let ghost own_before = own@;
        let ghost over_before = overridden@;
        if header_is_the_clients(&headers[i].0) {
            overridden.push(lower(&trim(&headers[i].0)));
            assert(texts(overridden@) =~= texts(over_before).push(name(all[i as int])));
        } else {
            own.push((headers[i].0.clone(), headers[i].1.clone()));
            assert(pairs(own@) =~= pairs(own_before).push(all[i as int]));
        }
        i += 1;
        proof {
            reveal(Seq::filter);
            let now = all.take(i as int);
            assert(now.drop_last() =~= all.take(i - 1));
            assert(now.last() == all[i - 1]);
            let kept = all.take(i - 1).filter(theirs);
            assert(kept.push(all[i - 1]).map_values(name) =~= kept.map_values(name).push(
                name(all[i - 1]),
            ));
        }
    }
    assert(all.take(i as int) =~= all);
    (own, overridden)
}

pub fn copy_bytes(v: &Vec<u8>) -> (r: Vec<u8>)
    ensures
        r@ == v@,
{
    let mut out: Vec<u8> = Vec::new();
    let mut i: usize = 0;
    while i < v.len()
        invariant
            i <= v.len(),
            out@ == v@.take(i as int),
        decreases v.len() - i,
    {
        out.push(v[i]);
        i += 1;
        assert(out@ =~= v@.take(i as int));
    }
    assert(v@.take(i as int) =~= v@);
    out
}

/// Whether a header of that name is among them, in any case.
pub open spec fn sets(headers: Seq<(Seq<char>, Seq<char>)>, name: Seq<char>) -> bool {
    exists|i: int| 0 <= i < headers.len() && lowered(#[trigger] headers[i].0) == lowered(name)
}

pub fn has_header(headers: &Vec<(String, String)>, name: &str) -> (r: bool)
    ensures
        r == sets(pairs(headers@), name@),
{
    let ghost all = pairs(headers@);
    let mut i: usize = 0;
    while i < headers.len()
        invariant
            i <= headers.len(),
            all == pairs(headers@),
            forall|k: int| 0 <= k < i ==> lowered(#[trigger] all[k].0) != lowered(name@),
        decreases headers.len() - i,
    {
        assert(all[i as int].0 == headers@[i as int].0@);
        if same_but_case(&headers[i].0, name) {
            return true;
        }
        i += 1;
    }
    false
}

/// The value of the first header of that name, in any case.
pub open spec fn header_value(
    headers: Seq<(Seq<char>, Seq<char>)>,
    name: Seq<char>,
) -> Option<Seq<char>>
    decreases headers.len(),
{
    if headers.len() == 0 {
        None
    } else if lowered(headers[0].0) == lowered(name) {
        Some(headers[0].1)
    } else {
        header_value(headers.drop_first(), name)
    }
}

pub fn find_header<'a>(headers: &'a Vec<(String, String)>, name: &str) -> (r: Option<&'a str>)
    ensures
        view_of(r) == header_value(pairs(headers@), name@),
{
    let ghost all = pairs(headers@);
    let mut i: usize = 0;
    assert(all.skip(0) =~= all);
    while i < headers.len()
        invariant
            i <= headers.len(),
            all == pairs(headers@),
            header_value(all, name@) == header_value(all.skip(i as int), name@),
        decreases headers.len() - i,
    {
        assert(all.skip(i as int)[0] == (headers@[i as int].0@, headers@[i as int].1@));
        assert(all.skip(i as int).drop_first() =~= all.skip(i + 1));
        if same_but_case(&headers[i].0, name) {
            return Some(headers[i].1.as_str());
        }
        i += 1;
    }
    None
}

/// The page's headers that are its own to set.
pub open spec fn page_headers(c: Option<ContextView>) -> Seq<(Seq<char>, Seq<char>)> {
    match c {
        Some(x) => x.headers.filter(|h: (Seq<char>, Seq<char>)| !is_the_engines(h.0)),
        None => Seq::empty(),
    }
}

/// The caller's headers on a hop. A chain that has changed origin no longer
/// carries the credential that was meant for the origin the caller named.
pub open spec fn carried(
    headers: Seq<(Seq<char>, Seq<char>)>,
    crossed: bool,
) -> Seq<(Seq<char>, Seq<char>)> {
    headers.filter(|h: (Seq<char>, Seq<char>)| !(crossed && is_a_credential(h.0)))
}

/// The hop goes to another origin than the one the chain began at.
pub open spec fn has_crossed(x: Exchange) -> bool {
    origin_of(x.current@) != origin_option(x.started_at)
}

pub open spec fn caller_now(x: Exchange) -> Seq<(Seq<char>, Seq<char>)> {
    carried(pairs(x.caller_headers@), has_crossed(x))
}

fn own_page_headers(c: Option<&CorsContext>) -> (r: Vec<(String, String)>)
    ensures
        pairs(r@) == page_headers(context_ref(c)),
{
    let mut out: Vec<(String, String)> = Vec::new();
    if let Some(x) = c {
        let ghost all = pairs(x.headers@);
        let ghost keep = |h: (Seq<char>, Seq<char>)| !is_the_engines(h.0);
        let mut i: usize = 0;
        proof {
            reveal(Seq::filter);
            assert(pairs(out@) =~= all.take(0).filter(keep));
        }
        while i < x.headers.len()
            invariant
                i <= x.headers.len(),
                all == pairs(x.headers@),
                keep == (|h: (Seq<char>, Seq<char>)| !is_the_engines(h.0)),
                pairs(out@) == all.take(i as int).filter(keep),
            decreases x.headers.len() - i,
        {
            assert(all[i as int] == (x.headers@[i as int].0@, x.headers@[i as int].1@));
            let ghost before = out@;
            if !header_is_the_engines(&x.headers[i].0) {
                out.push((x.headers[i].0.clone(), x.headers[i].1.clone()));
                assert(pairs(out@) =~= pairs(before).push(all[i as int]));
            }
            i += 1;
            proof {
                reveal(Seq::filter);
                assert(all.take(i as int).drop_last() =~= all.take(i - 1));
                assert(all.take(i as int).last() == all[i - 1]);
            }
        }
        assert(all.take(i as int) =~= all);
    } else {
        assert(pairs(out@) =~= Seq::empty());
    }
    out
}

fn carry(headers: &Vec<(String, String)>, crossed: bool) -> (r: Vec<(String, String)>)
    ensures
        pairs(r@) == carried(pairs(headers@), crossed),
{
    let mut out: Vec<(String, String)> = Vec::new();
    let ghost all = pairs(headers@);
    let ghost keep = |h: (Seq<char>, Seq<char>)| !(crossed && is_a_credential(h.0));
    let mut i: usize = 0;
    proof {
        reveal(Seq::filter);
        assert(pairs(out@) =~= all.take(0).filter(keep));
    }
    while i < headers.len()
        invariant
            i <= headers.len(),
            all == pairs(headers@),
            keep == (|h: (Seq<char>, Seq<char>)| !(crossed && is_a_credential(h.0))),
            pairs(out@) == all.take(i as int).filter(keep),
        decreases headers.len() - i,
    {
        assert(all[i as int] == (headers@[i as int].0@, headers@[i as int].1@));
        let ghost before = out@;
        if !(crossed && header_is_a_credential(&headers[i].0)) {
            out.push((headers[i].0.clone(), headers[i].1.clone()));
            assert(pairs(out@) =~= pairs(before).push(all[i as int]));
        }
        i += 1;
        proof {
            reveal(Seq::filter);
            assert(all.take(i as int).drop_last() =~= all.take(i - 1));
            assert(all.take(i as int).last() == all[i - 1]);
        }
    }
    assert(all.take(i as int) =~= all);
    out
}

/// Whether the session's cookies may ride along, and come back.
pub open spec fn may_use_cookies(plan: Option<Plan>) -> bool {
    match plan {
        Some(Plan::Send { send_cookies, .. }) => send_cookies,
        _ => true,
    }
}

/// How the request names its origin, where it crosses one.
pub open spec fn announces(plan: Option<Plan>) -> Option<Seq<char>> {
    match plan {
        Some(Plan::Send { origin_header, .. }) => string_view(origin_header),
        _ => None,
    }
}

/// A character of a method name, as HTTP has them.
pub open spec fn is_method_char(c: char) -> bool {
    ||| 'a' <= c <= 'z'
    ||| 'A' <= c <= 'Z'
    ||| is_digit(c)
    ||| c == '!' || c == '#' || c == '$' || c == '%' || c == '&' || c == '\'' || c == '*' || c
        == '+' || c == '-' || c == '.' || c == '^' || c == '_' || c == '`' || c == '|' || c == '~'
}

/// A name that a request may have for its method.
pub open spec fn is_method(m: Seq<char>) -> bool {
    m.len() > 0 && forall|i: int| 0 <= i < m.len() ==> is_method_char(#[trigger] m[i])
}

/// Reads a method with `reqwest::Method::from_bytes`, which takes every
/// non-empty name made of HTTP's method characters and keeps it as it is.
#[verifier::external_body]
fn known_method(m: &str) -> (r: Option<String>)
    ensures
        r is Some <==> is_method(m@),
        r is Some ==> r->Some_0@ == m@,
{
    reqwest::Method::from_bytes(m.as_bytes()).ok().map(|v| v.as_str().to_owned())
}

/// The method on the wire: the one asked for, or `GET` where that is none.
pub open spec fn wire_method(m: Seq<char>) -> Seq<char> {
    if is_method(m) {
        m
    } else {
        "GET"@
    }
}

/// A header that is sent where the condition holds.
pub open spec fn header_if(cond: bool, name: Seq<char>, value: Seq<char>) -> Seq<
    (Seq<char>, Seq<char>),
> {
    if cond {
        seq![(name, value)]
    } else {
        Seq::empty()
    }
}

/// Whether the jar is asked: a caller that named `Cookie` itself is testing
/// what that exact value does.
pub open spec fn asks_the_jar(x: Exchange, plan: Option<Plan>) -> bool {
    may_use_cookies(plan) && !sets(caller_now(x), "cookie"@)
}

pub open spec fn jar_view(jar: Option<(String, usize)>) -> Option<(Seq<char>, usize)> {
    match jar {
        Some((header, count)) => Some((header@, count)),
        None => None,
    }
}

/// The headers of a hop. Every default stands aside for a page or a caller
/// that set it: two of one name are a request neither asked for.
pub open spec fn dressed(
    x: Exchange,
    plan: Option<Plan>,
    language: Seq<char>,
    jar: Option<(Seq<char>, usize)>,
) -> Seq<(Seq<char>, Seq<char>)> {
    let page = page_headers(context_view(x.asked.cors));
    let caller = caller_now(x);
    header_if(!sets(caller, "accept-encoding"@), "accept-encoding"@, ACCEPT_ENCODING@) + header_if(
        !sets(page, "accept"@) && !sets(caller, "accept"@),
        "accept"@,
        acceptable(x.asked.initiator),
    ) + header_if(
        !sets(page, "accept-language"@) && !sets(caller, "accept-language"@),
        "accept-language"@,
        language,
    ) + page + caller + header_if(
        x.body@.len() > 0 && x.asked.content_type is Some && !sets(page, "content-type"@) && !sets(
            caller,
            "content-type"@,
        ),
        "content-type"@,
        string_view(x.asked.content_type)->Some_0,
    ) + header_if(asks_the_jar(x, plan) && jar is Some, "cookie"@, jar->Some_0.0) + header_if(
        announces(plan) is Some,
        "origin"@,
        announces(plan)->Some_0,
    )
}

pub open spec fn context_view(c: Option<CorsContext>) -> Option<ContextView> {
    match c {
        Some(x) => Some(x@),
        None => None,
    }
}

/// A request as it goes on the wire.
#[derive(Debug, Clone, PartialEq, Eq)]
pub struct WireRequest {
    pub method: String,
    pub url: Url,
    pub headers: Vec<(String, String)>,
    pub body: Vec<u8>,
    /// How many of the session's cookies it carries.
    pub cookies_sent: usize,
}

/// What came back, before its body.
#[derive(Debug, Clone, PartialEq, Eq)]
pub struct Answer {
    pub status: u16,
    pub headers: Vec<(String, String)>,
    /// The `Location` header.
    pub location: Option<String>,
}

/// What to do about an answer.
#[derive(Debug, Clone, PartialEq, Eq)]
pub enum Reaction {
    /// Go on to where the answer points: the exchange stands there already.
    Follow,
    /// The chain ends here. `error` is what the record says went wrong.
    Stop { outcome: FetchOutcome, error: Option<String> },
    /// The answer does not permit this origin to read it.
    Blocked(String),
    /// Read the body, and show this much of it.
    Read(Exposure),
}

pub open spec fn is_redirect(status: u16) -> bool {
    300 <= status < 400
}

/// A follow-up of these is a `GET` without a body: carrying a form onward would
/// replay a password to whatever the server named next.
pub open spec fn drops_body(status: u16) -> bool {
    301 <= status <= 303
}

/// The exchange one hop further on.
pub open spec fn followed(pre: Exchange, status: u16, next: UrlView, post: Exchange) -> bool {
    &&& same_fetch(pre, post)
    &&& post.hop == pre.hop + 1
    &&& post.current@ == next
    &&& post.initiator == Initiator::Redirect
    &&& post.tainted == (pre.tainted || (pre.asked.cors is Some && origin_of(next) != origin_of(
        pre.current@,
    )))
    &&& post.method@ == (if drops_body(status) {
        "GET"@
    } else {
        pre.method@
    })
    &&& post.body@ == (if drops_body(status) {
        Seq::empty()
    } else {
        pre.body@
    })
}

pub open spec fn no_location() -> Seq<char> {
    "redirect without a usable Location"@
}

/// How much of an answer is shown, or what is said of one that this origin may
/// not read.
pub open spec fn admission(
    plan: Option<Plan>,
    headers: Seq<(Seq<char>, Seq<char>)>,
) -> Result<ExposureView, Seq<char>> {
    match plan {
        Some(Plan::Send { origin_header, send_cookies, check_response, exposure, .. }) => if check_response {
            let asked = match string_view(origin_header) {
                Some(o) => o,
                None => "null"@,
            };
            match response_permits(
                header_value(headers, "access-control-allow-origin"@),
                header_value(headers, "access-control-allow-credentials"@),
                asked,
                send_cookies,
            ) {
                Err(why) => Err(told_of_blocked(why)),
                Ok(()) => Ok(
                    exposed(
                        header_value(headers, "access-control-expose-headers"@),
                        send_cookies,
                    ),
                ),
            }
        } else if exposure is Opaque {
            Ok(ExposureView::Opaque)
        } else {
            Ok(ExposureView::Full)
        },
        _ => Ok(ExposureView::Full),
    }
}

/// What a redirect comes to. The hop was recorded, so every outcome names it.
pub open spec fn redirected(
    pre: Exchange,
    plan: Option<Plan>,
    seq: u64,
    answer: Answer,
    next: Option<UrlView>,
    post: Exchange,
    r: Reaction,
) -> bool {
    match next {
        None => post == pre && (r matches Reaction::Stop { outcome, error } && outcome@
            == failed_outcome(pre.current@, no_location(), Some(seq)) && string_view(error) == Some(
            no_location(),
        )),
        Some(to) => if pre.hop < pre.hop_limit {
            r is Follow && followed(pre, answer.status, to, post)
        } else if pre.hop_limit == 0 {
            // With a limit of zero the redirect is the answer, and is shown as
            // any other answer of its headers would be.
            post == pre && (r matches Reaction::Stop { outcome, error } && match admission(
                plan,
                pairs(answer.headers@),
            ) {
                Err(told) => string_view(error) == Some(told) && outcome@ == failed_outcome(
                    pre.current@,
                    told,
                    Some(seq),
                ),
                Ok(e) => error is None && outcome@ == shown_outcome(
                    seq,
                    pre.current@,
                    answer.status,
                    pairs(answer.headers@),
                    Seq::empty(),
                    e,
                ),
            })
        } else {
            post == pre && (r matches Reaction::Stop { outcome, error } && error is None
                && outcome@ == failed_outcome(
                pre.current@,
                "too many redirects (limit "@ + decimal(pre.hop_limit as nat) + ")"@,
                Some(seq),
            ))
        },
    }
}

/// Whether an answer may be read, and how much of it is shown.
pub open spec fn admitted(plan: Option<Plan>, headers: Seq<(Seq<char>, Seq<char>)>, r: Reaction) -> bool {
    match admission(plan, headers) {
        Err(told) => r matches Reaction::Blocked(t) && t@ == told,
        Ok(e) => r matches Reaction::Read(shown) && shown@ == e,
    }
}

/// What an answer comes to.
pub open spec fn reacted(
    pre: Exchange,
    plan: Option<Plan>,
    seq: u64,
    answer: Answer,
    next: Option<UrlView>,
    post: Exchange,
    r: Reaction,
) -> bool {
    if is_redirect(answer.status) {
        redirected(pre, plan, seq, answer, next, post, r)
    } else {
        post == pre && admitted(plan, pairs(answer.headers@), r)
    }
}

impl Exchange {
    /// The exchange before its first hop.
    pub fn begin(policy: &Policy, fetch: Fetch) -> (r: Exchange)
        ensures
            fresh(policy@, fetch, r),
    {
        let (caller_headers, overridden) = split_headers(&fetch.headers);
        let ceiling: usize = policy.max_redirects();
        let hop_limit: usize = match fetch.max_redirects {
            Some(n) => if n < ceiling {
                n
            } else {
                ceiling
            },
            None => ceiling,
        };
        let started_at = Origin::of(&fetch.url);
        let current = fetch.url.copy();
        let method = upper(&fetch.method);
        let body = copy_bytes(&fetch.body);
        let initiator = fetch.initiator;
        Exchange {
            asked: fetch,
            caller_headers,
            overridden,
            started_at,
            hop_limit,
            hop: 0,
            current,
            initiator,
            method,
            body,
            tainted: false,
        }
    }

    /// The passage of the hop that the exchange stands at.
    pub fn passage(&self, seq: u64) -> (r: Passage)
        ensures
            r.errand == (Errand::Hop { first: self.hop == 0, page: self.asked.cors is Some }),
            r.seq == seq,
            r.initiator == self.initiator,
            r.verb@ == self.method@,
            r.shown@ == self.current@.href,
            r.method@ == self.method@,
            r.url@ == self.current@,
            r.overridden@ == self.overridden@,
            r.stage == Stage::Naming,
            r.plan is None,
    {
        Passage::new(
            Errand::Hop { first: self.hop == 0, page: self.asked.cors.is_some() },
            seq,
            self.initiator,
            &self.method,
            &self.current.href,
            &self.method,
            &self.current,
            &self.overridden,
        )
    }

    fn crossed(&self) -> (r: bool)
        ensures
            r == has_crossed(*self),
    {
        match (&Origin::of(&self.current), &self.started_at) {
            (Some(a), Some(b)) => !a.is(b),
            (None, None) => false,
            _ => true,
        }
    }

    /// Whether the cookies that an answer sets are kept: what governs sending
    /// them governs both directions.
    pub fn keeps_cookies(plan: &Option<Plan>) -> (r: bool)
        ensures
            r == may_use_cookies(*plan),
    {
        match plan {
            Some(Plan::Send { send_cookies, .. }) => *send_cookies,
            _ => true,
        }
    }

    /// Whether the jar is asked for this hop.
    pub fn wants_cookies(&self, plan: &Option<Plan>) -> (r: bool)
        ensures
            r == asks_the_jar(*self, *plan),
    {
        let caller = carry(&self.caller_headers, self.crossed());
        Exchange::keeps_cookies(plan) && !has_header(&caller, "cookie")
    }

    /// The request of this hop as it goes on the wire.
    pub fn dress(
        &self,
        plan: &Option<Plan>,
        language: &str,
        jar: Option<(String, usize)>,
    ) -> (r: WireRequest)
        ensures
            r.method@ == wire_method(self.method@),
            r.url@ == self.current@,
            pairs(r.headers@) == dressed(*self, *plan, language@, jar_view(jar)),
            r.body@ == self.body@,
            r.cookies_sent == (if asks_the_jar(*self, *plan) && jar is Some {
                jar->Some_0.1
            } else {
                0
            }),
    {
        let page = own_page_headers(self.asked.cors.as_ref());
        let caller = carry(&self.caller_headers, self.crossed());
        let mut headers: Vec<(String, String)> = Vec::new();
        assert(pairs(headers@) =~= Seq::empty());
        push_if(
            &mut headers,
            !has_header(&caller, "accept-encoding"),
            "accept-encoding",
            ACCEPT_ENCODING,
        );
        push_if(
            &mut headers,
            !has_header(&page, "accept") && !has_header(&caller, "accept"),
            "accept",
            accept_for(self.asked.initiator),
        );
        push_if(
            &mut headers,
            !has_header(&page, "accept-language") && !has_header(&caller, "accept-language"),
            "accept-language",
            language,
        );
        push_all(&mut headers, &page);
        push_all(&mut headers, &caller);
        if let Some(kind) = &self.asked.content_type {
            push_if(
                &mut headers,
                self.body.len() > 0 && !has_header(&page, "content-type") && !has_header(
                    &caller,
                    "content-type",
                ),
                "content-type",
                kind,
            );
        }
        let mut cookies_sent: usize = 0;
        if self.wants_cookies(plan) {
            if let Some((header, count)) = &jar {
                push_if(&mut headers, true, "cookie", header);
                cookies_sent = *count;
            }
        }
        if let Some(Plan::Send { origin_header: Some(origin), .. }) = plan {
            push_if(&mut headers, true, "origin", origin);
        }
        let method = match known_method(&self.method) {
            Some(m) => m,
            None => "GET".to_owned(),
        };
        WireRequest {
            method,
            url: self.current.copy(),
            headers,
            body: copy_bytes(&self.body),
            cookies_sent,
        }
    }

    /// Where an answer points.
    pub fn next_location(&self, answer: &Answer) -> (r: Option<Url>)
        ensures
            url_option(r) == (match string_view(answer.location) {
                Some(to) => match url_joined(self.current@.href, to) {
                    Ok(u) => Some(u),
                    Err(_) => None,
                },
                None => None,
            }),
    {
        match &answer.location {
            Some(to) => match self.current.join(to) {
                Ok(u) => Some(u),
                Err(_) => None,
            },
            None => None,
        }
    }

    fn redirect(
        &mut self,
        plan: &Option<Plan>,
        seq: u64,
        answer: &Answer,
        next: Option<Url>,
    ) -> (r: Reaction)
        ensures
            redirected(*old(self), *plan, seq, *answer, url_option(next), *final(self), r),
    {
        match next {
            None => Reaction::Stop {
                outcome: FetchOutcome::failed_at(
                    self.current.copy(),
                    "redirect without a usable Location".to_owned(),
                    Some(seq),
                ),
                error: Some("redirect without a usable Location".to_owned()),
            },
            Some(to) => {
                if self.hop < self.hop_limit {
                    if self.asked.cors.is_some() {
                        let changed = match (&Origin::of(&to), &Origin::of(&self.current)) {
                            (Some(a), Some(b)) => !a.is(b),
                            (None, None) => false,
                            _ => true,
                        };
                        if changed {
                            self.tainted = true;
                        }
                    }
                    self.current = to;
                    self.hop = self.hop + 1;
                    self.initiator = Initiator::Redirect;
                    if 301 <= answer.status && answer.status <= 303 {
                        self.method = "GET".to_owned();
                        self.body = Vec::new();
                    }
                    return Reaction::Follow;
                }
                if self.hop_limit == 0 {
                    return match weigh_answer(plan, &answer.headers) {
                        Err(told) => Reaction::Stop {
                            outcome: FetchOutcome::failed_at(
                                self.current.copy(),
                                told.clone(),
                                Some(seq),
                            ),
                            error: Some(told),
                        },
                        Ok(e) => Reaction::Stop {
                            outcome: show(
                                seq,
                                &self.current,
                                answer.status,
                                &answer.headers,
                                Vec::new(),
                                &e,
                            ),
                            error: None,
                        },
                    };
                }
                let mut why = "too many redirects (limit ".to_owned();
                why.append(&decimal_text(self.hop_limit as u64));
                why.append(")");
                Reaction::Stop {
                    outcome: FetchOutcome::failed_at(self.current.copy(), why, Some(seq)),
                    error: None,
                }
            },
        }
    }

    /// Decides what an answer comes to. `next` is where it points.
    pub fn react(
        &mut self,
        plan: &Option<Plan>,
        seq: u64,
        answer: &Answer,
        next: Option<Url>,
    ) -> (r: Reaction)
        ensures
            reacted(*old(self), *plan, seq, *answer, url_option(next), *final(self), r),
    {
        if 300 <= answer.status && answer.status < 400 {
            return self.redirect(plan, seq, answer, next);
        }
        match weigh_answer(plan, &answer.headers) {
            Err(told) => Reaction::Blocked(told),
            Ok(e) => Reaction::Read(e),
        }
    }
}

/// Decides how much of an answer is shown, or what is said of one that this
/// origin may not read.
fn weigh_answer(plan: &Option<Plan>, headers: &Vec<(String, String)>) -> (r: Result<Exposure, String>)
    ensures
        match admission(*plan, pairs(headers@)) {
            Err(told) => r matches Err(t) && t@ == told,
            Ok(e) => r matches Ok(shown) && shown@ == e,
        },
{
    match plan {
        Some(Plan::Send { origin_header, send_cookies, check_response: check, exposure, .. }) => {
            if *check {
                let asked = match origin_header {
                    Some(o) => o.clone(),
                    None => "null".to_owned(),
                };
                match check_response(
                    find_header(headers, "access-control-allow-origin"),
                    find_header(headers, "access-control-allow-credentials"),
                    &asked,
                    *send_cookies,
                ) {
                    Err(why) => {
                        let mut told = "blocked by the same-origin policy: ".to_owned();
                        told.append(&why);
                        Err(told)
                    },
                    Ok(()) => Ok(
                        exposure_from(
                            find_header(headers, "access-control-expose-headers"),
                            *send_cookies,
                        ),
                    ),
                }
            } else {
                match exposure {
                    Exposure::Opaque => Ok(Exposure::Opaque),
                    _ => Ok(Exposure::Full),
                }
            }
        },
        _ => Ok(Exposure::Full),
    }
}

/// What a caller is shown of an answer.
fn show(
    seq: u64,
    url: &Url,
    status: u16,
    headers: &Vec<(String, String)>,
    body: Vec<u8>,
    exposure: &Exposure,
) -> (r: FetchOutcome)
    ensures
        r@ == shown_outcome(seq, url@, status, pairs(headers@), body@, exposure@),
{
    let opaque = match exposure {
        Exposure::Opaque => true,
        _ => false,
    };
    let r = FetchOutcome {
        seq: Some(seq),
        headers: filter_headers(headers.as_slice(), exposure),
        final_url: url.copy(),
        body: if opaque {
            Vec::new()
        } else {
            body
        },
        status: Some(
            if opaque {
                0
            } else {
                status
            },
        ),
        error: None,
        opaque,
    };
    assert(opaque ==> r.body@ =~= Seq::empty());
    r
}

fn push_if(headers: &mut Vec<(String, String)>, cond: bool, name: &str, value: &str)
    ensures
        pairs(final(headers)@) == pairs(old(headers)@) + header_if(cond, name@, value@),
{
    let ghost before = headers@;
    if cond {
        headers.push((name.to_owned(), value.to_owned()));
        assert(pairs(headers@) =~= pairs(before) + seq![(name@, value@)]);
    } else {
        assert(pairs(headers@) =~= pairs(before) + Seq::empty());
    }
}

fn push_all(headers: &mut Vec<(String, String)>, more: &Vec<(String, String)>)
    ensures
        pairs(final(headers)@) == pairs(old(headers)@) + pairs(more@),
{
    let ghost start = pairs(headers@);
    let ghost all = pairs(more@);
    let mut i: usize = 0;
    assert(start + all.take(0) =~= start);
    while i < more.len()
        invariant
            i <= more.len(),
            all == pairs(more@),
            pairs(headers@) == start + all.take(i as int),
        decreases more.len() - i,
    {
        let ghost before = headers@;
        headers.push((more[i].0.clone(), more[i].1.clone()));
        assert(pairs(headers@) =~= pairs(before).push(all[i as int]));
        i += 1;
        assert(start + all.take(i as int) =~= (start + all.take(i - 1)).push(all[i - 1]));
    }
    assert(all.take(i as int) =~= all);
}

/// The encoding of a body, where it has one that needs decoding.
pub open spec fn content_encoding(headers: Seq<(Seq<char>, Seq<char>)>) -> Option<Seq<char>> {
    match header_value(headers, "content-encoding"@) {
        Some(v) => if lowered(trimmed(v)).len() == 0 || lowered(trimmed(v)) == "identity"@ {
            None
        } else {
            Some(lowered(trimmed(v)))
        },
        None => None,
    }
}

/// The encoding of a body, where it has one that needs decoding.
pub fn encoding_of(headers: &Vec<(String, String)>) -> (r: Option<String>)
    ensures
        string_view(r) == content_encoding(pairs(headers@)),
{
    match find_header(headers, "content-encoding") {
        Some(v) => {
            let name = lower(&trim(v));
            if name.as_str().is_empty() || same(&name, "identity") {
                None
            } else {
                Some(name)
            }
        },
        None => None,
    }
}

/// A body as it is handed on: what came, decoded where it was encoded.
pub open spec fn unpacked(
    read: Result<Seq<u8>, Seq<char>>,
    encoding: Option<Seq<char>>,
    cap: u64,
) -> Result<Seq<u8>, Seq<char>> {
    match (read, encoding) {
        (Err(e), _) => Err(e),
        (Ok(raw), None) => Ok(raw),
        (Ok(raw), Some(name)) => decoded(raw, name, cap),
    }
}

/// A body that was read, and what it measures before and after decoding.
#[derive(Debug, Clone, PartialEq, Eq)]
pub struct Unpacked {
    pub body: Vec<u8>,
    pub wire: u64,
}

/// Decodes a body that was read under the cap.
pub fn unpack(
    read: Result<Vec<u8>, String>,
    encoding: &Option<String>,
    cap: u64,
) -> (r: Result<Unpacked, String>)
    requires
        cap < u64::MAX,
    ensures
        match r {
            Ok(u) => unpacked(bytes_result(read), string_view(*encoding), cap) == Ok::<
                Seq<u8>,
                Seq<char>,
            >(u.body@) && read is Ok && u.wire == read->Ok_0@.len(),
            Err(e) => unpacked(bytes_result(read), string_view(*encoding), cap) == Err::<
                Seq<u8>,
                Seq<char>,
            >(e@),
        },
{
    match read {
        Err(e) => Err(e),
        Ok(raw) => {
            let wire = raw.len() as u64;
            match encoding {
                None => Ok(Unpacked { body: raw, wire }),
                Some(name) => match decode_capped(raw.as_slice(), name, cap) {
                    Ok(body) => Ok(Unpacked { body, wire }),
                    Err(e) => Err(e),
                },
            }
        },
    }
}

/// What is known of an exchange once its headers are in.
#[derive(Debug, Clone, Copy, PartialEq, Eq)]
pub struct Measured {
    pub duration_ms: u64,
    pub ttfb_ms: u64,
    pub cookies_sent: usize,
    pub cookies_stored: usize,
}

/// The response half of a record, for an answer that came.
pub open spec fn noted_record(
    record: RecordView,
    status: u16,
    m: Measured,
    error: Option<Seq<char>>,
) -> RecordView {
    RecordView {
        status: Some(status),
        duration_ms: Some(m.duration_ms),
        ttfb_ms: Some(m.ttfb_ms),
        cookies_sent: Some(m.cookies_sent),
        cookies_stored: Some(m.cookies_stored),
        error,
        ..response_record(record)
    }
}

/// The response half of a record, for an answer whose body is not read: a
/// redirect, or one that may not be read.
pub fn note(
    record: &RequestRecord,
    status: u16,
    m: Measured,
    error: Option<String>,
) -> (r: RequestRecord)
    ensures
        r@ == noted_record(record@, status, m, string_view(error)),
{
    let mut out = record.response();
    out.status = Some(status);
    out.duration_ms = Some(m.duration_ms);
    out.ttfb_ms = Some(m.ttfb_ms);
    out.cookies_sent = Some(m.cookies_sent);
    out.cookies_stored = Some(m.cookies_stored);
    out.error = error;
    out
}

/// The response half of a record, for a request that got no answer.
pub open spec fn unanswered_record(
    record: RecordView,
    ttfb_ms: u64,
    cookies_sent: usize,
    error: Seq<char>,
) -> RecordView {
    RecordView {
        duration_ms: Some(ttfb_ms),
        ttfb_ms: Some(ttfb_ms),
        cookies_sent: Some(cookies_sent),
        error: Some(error),
        ..response_record(record)
    }
}

/// What a fetch ends with: its record, its outcome, and what it is charged for.
#[derive(Debug, Clone, PartialEq, Eq)]
pub struct Conclusion {
    pub record: RequestRecord,
    pub outcome: FetchOutcome,
    /// What it cost on the wire.
    pub wire_charge: u64,
    /// What it cost in memory.
    pub memory_charge: u64,
    /// The body as it came, before anything is withheld from a page.
    pub received: Option<Vec<u8>>,
}

pub open spec fn received_view(b: Option<Vec<u8>>) -> Option<Seq<u8>> {
    match b {
        Some(v) => Some(v@),
        None => None,
    }
}

/// The outcome of an answer that was read. A caller sees what its exposure
/// lets it see; of an opaque answer that is nothing.
pub open spec fn shown_outcome(
    seq: u64,
    url: UrlView,
    status: u16,
    headers: Seq<(Seq<char>, Seq<char>)>,
    body: Seq<u8>,
    exposure: ExposureView,
) -> OutcomeView {
    OutcomeView {
        seq: Some(seq),
        headers: visible_headers(headers, exposure),
        final_url: url,
        body: if exposure is Opaque {
            Seq::empty()
        } else {
            body
        },
        status: Some(
            if exposure is Opaque {
                0
            } else {
                status
            },
        ),
        error: None,
        opaque: exposure is Opaque,
    }
}

impl Exchange {
    /// A request that got no answer.
    pub fn unanswered(
        &self,
        record: &RequestRecord,
        ttfb_ms: u64,
        cookies_sent: usize,
        error: String,
    ) -> (r: (RequestRecord, FetchOutcome))
        ensures
            r.0@ == unanswered_record(record@, ttfb_ms, cookies_sent, error@),
            r.1@ == failed_outcome(self.current@, error@, Some(record@.seq)),
    {
        let mut out = record.response();
        out.duration_ms = Some(ttfb_ms);
        out.ttfb_ms = Some(ttfb_ms);
        out.cookies_sent = Some(cookies_sent);
        out.error = Some(error.clone());
        (out, FetchOutcome::failed_at(self.current.copy(), error, Some(record.seq)))
    }

    /// An answer that does not permit this origin to read it.
    pub fn blocked(&self, record: &RequestRecord, answer: &Answer, m: Measured, told: String) -> (r:
        (RequestRecord, FetchOutcome))
        ensures
            r.0@ == noted_record(record@, answer.status, m, Some(told@)),
            r.1@ == failed_outcome(self.current@, told@, Some(record@.seq)),
    {
        let noted = note(record, answer.status, m, Some(told.clone()));
        (noted, FetchOutcome::failed_at(self.current.copy(), told, Some(record.seq)))
    }

    /// An answer whose body was read, or could not be.
    pub fn conclude(
        &self,
        record: &RequestRecord,
        answer: &Answer,
        exposure: &Exposure,
        encoding: &Option<String>,
        read: Result<Unpacked, String>,
        m: Measured,
    ) -> (r: Conclusion)
        ensures
            match read {
                Ok(u) => {
                    &&& r.record@ == (RecordView {
                        bytes: Some(u.body@.len() as u64),
                        wire_bytes: if encoding is Some {
                            Some(u.wire)
                        } else {
                            record@.wire_bytes
                        },
                        content_encoding: if encoding is Some {
                            string_view(*encoding)
                        } else {
                            record@.content_encoding
                        },
                        ..noted_record(record@, answer.status, m, record@.error)
                    })
                    &&& r.outcome@ == shown_outcome(
                        record@.seq,
                        self.current@,
                        answer.status,
                        pairs(answer.headers@),
                        u.body@,
                        exposure@,
                    )
                    &&& r.wire_charge == u.wire
                    &&& r.memory_charge == u.body@.len() as u64
                    &&& received_view(r.received) == Some(u.body@)
                },
                Err(e) => {
                    &&& r.record@ == noted_record(record@, answer.status, m, Some(e@))
                    &&& r.outcome@ == failed_outcome(self.current@, e@, Some(record@.seq))
                    &&& r.wire_charge == 0
                    &&& r.memory_charge == 0
                    &&& r.received is None
                },
            },
    {
        match read {
            Ok(u) => {
                let mut out = note(record, answer.status, m, copy_option(&record.error));
                out.bytes = Some(u.body.len() as u64);
                if encoding.is_some() {
                    out.wire_bytes = Some(u.wire);
                    out.content_encoding = copy_option(encoding);
                }
                let size = u.body.len() as u64;
                let outcome = show(
                    record.seq,
                    &self.current,
                    answer.status,
                    &answer.headers,
                    copy_bytes(&u.body),
                    exposure,
                );
                Conclusion {
                    record: out,
                    outcome,
                    wire_charge: u.wire,
                    memory_charge: size,
                    received: Some(u.body),
                }
            },
            Err(e) => {
                let out = note(record, answer.status, m, Some(e.clone()));
                Conclusion {
                    record: out,
                    outcome: FetchOutcome::failed_at(self.current.copy(), e, Some(record.seq)),
                    wire_charge: 0,
                    memory_charge: 0,
                    received: None,
                }
            },
        }
    }
}

/// What a hop that was refused comes to: the refusal, unless its record could
/// not be written.
pub open spec fn refused_outcome(
    url: UrlView,
    told: Seq<char>,
    seq: u64,
    pair: Result<(), Seq<char>>,
) -> OutcomeView {
    match pair {
        Ok(()) => failed_outcome(url, told, Some(seq)),
        Err(e) => failed_outcome(url, "receipt sink refused: "@ + e, None),
    }
}

/// The outcome of a refused hop, once its record was written or was not.
pub fn refuse_hop(url: &Url, told: String, seq: u64, pair: Result<(), String>) -> (r: FetchOutcome)
    ensures
        r@ == refused_outcome(url@, told@, seq, crate::cors::outcome(pair)),
{
    match pair {
        Ok(()) => FetchOutcome::failed_at(url.copy(), told, Some(seq)),
        Err(e) => {
            let mut why = "receipt sink refused: ".to_owned();
            why.append(&e);
            FetchOutcome::failed(url.copy(), why)
        },
    }
}

// ------------------------------------------------------------------- laws

proof fn lemma_filter_holds<T>(s: Seq<T>, f: spec_fn(T) -> bool, x: T)
    requires
        s.filter(f).contains(x),
    ensures
        f(x),
        s.contains(x),
    decreases s.len(),
{
    reveal(Seq::filter);
    if s.len() > 0 {
        let rest = s.drop_last();
        let kept = s.filter(f);
        let k = choose|k: int| 0 <= k < kept.len() && kept[k] == x;
        if k < rest.filter(f).len() {
            assert(rest.filter(f)[k] == x);
            lemma_filter_holds(rest, f, x);
            let i = choose|i: int| 0 <= i < rest.len() && rest[i] == x;
            assert(s[i] == x);
        } else {
            assert(s[s.len() - 1] == x);
        }
    }
}

/// A credential the caller set does not cross to another origin: on a hop that
/// left the origin the chain began at, none of the caller's headers carries
/// one.
pub proof fn law_a_credential_does_not_cross_an_origin(x: Exchange, h: (Seq<char>, Seq<char>))
    requires
        has_crossed(x),
        caller_now(x).contains(h),
    ensures
        !is_a_credential(h.0),
        pairs(x.caller_headers@).contains(h),
{
    lemma_filter_holds(
        pairs(x.caller_headers@),
        |h: (Seq<char>, Seq<char>)| !(has_crossed(x) && is_a_credential(h.0)),
        h,
    );
}

/// On the origin the chain began at, every header that is the caller's to set
/// goes out.
pub proof fn law_caller_headers_follow_on_their_own_origin(x: Exchange)
    requires
        !has_crossed(x),
    ensures
        caller_now(x) == pairs(x.caller_headers@),
{
    lemma_filter_all(
        pairs(x.caller_headers@),
        |h: (Seq<char>, Seq<char>)| !(has_crossed(x) && is_a_credential(h.0)),
    );
}

proof fn lemma_filter_all<T>(s: Seq<T>, f: spec_fn(T) -> bool)
    requires
        forall|i: int| 0 <= i < s.len() ==> f(#[trigger] s[i]),
    ensures
        s.filter(f) == s,
    decreases s.len(),
{
    reveal(Seq::filter);
    if s.len() > 0 {
        let rest = s.drop_last();
        assert forall|i: int| 0 <= i < rest.len() implies f(#[trigger] rest[i]) by {
            assert(rest[i] == s[i]);
        }
        lemma_filter_all(rest, f);
        assert(s[s.len() - 1] == s.last());
        assert(s =~= rest.push(s.last()));
    }
}

/// A header that frames the message is never the caller's: it is not among
/// what goes out for the caller, and the receipt names it.
pub proof fn law_the_client_frames_the_message(
    policy: PolicyView,
    fetch: Fetch,
    x: Exchange,
    h: (Seq<char>, Seq<char>),
)
    requires
        fresh(policy, fetch, x),
        pairs(fetch.headers@).contains(h),
        is_the_clients(h.0),
    ensures
        !caller_now(x).contains(h),
        texts(x.overridden@).contains(lowered(trimmed(h.0))),
{
    let all = pairs(fetch.headers@);
    let theirs = |h: (Seq<char>, Seq<char>)| is_the_clients(h.0);
    let mine = |h: (Seq<char>, Seq<char>)| !is_the_clients(h.0);
    if caller_now(x).contains(h) {
        lemma_filter_holds(
            pairs(x.caller_headers@),
            |h: (Seq<char>, Seq<char>)| !(has_crossed(x) && is_a_credential(h.0)),
            h,
        );
        lemma_filter_holds(all, mine, h);
    }
    lemma_filter_keeps(all, theirs, h);
    let kept = all.filter(theirs);
    let i = choose|i: int| 0 <= i < kept.len() && kept[i] == h;
    assert(overridden_names(all)[i] == lowered(trimmed(h.0)));
}

proof fn lemma_filter_keeps<T>(s: Seq<T>, f: spec_fn(T) -> bool, x: T)
    requires
        s.contains(x),
        f(x),
    ensures
        s.filter(f).contains(x),
    decreases s.len(),
{
    reveal(Seq::filter);
    if s.len() > 0 {
        let rest = s.drop_last();
        let i = choose|i: int| 0 <= i < s.len() && s[i] == x;
        if i < rest.len() {
            assert(rest[i] == x);
            lemma_filter_keeps(rest, f, x);
            let k = choose|k: int| 0 <= k < rest.filter(f).len() && rest.filter(f)[k] == x;
            assert(s.filter(f)[k] == x);
        } else {
            assert(s.filter(f).last() == x);
            assert(s.filter(f)[s.filter(f).len() - 1] == x);
        }
    }
}

/// The caller may ask for fewer hops than the policy allows, never more, and no
/// answer takes an exchange past its limit.
pub proof fn law_hops_stay_within_the_limit(
    policy: PolicyView,
    fetch: Fetch,
    start: Exchange,
    pre: Exchange,
    plan: Option<Plan>,
    seq: u64,
    answer: Answer,
    next: Option<UrlView>,
    post: Exchange,
    r: Reaction,
)
    requires
        fresh(policy, fetch, start),
        pre.hop <= pre.hop_limit,
        reacted(pre, plan, seq, answer, next, post, r),
    ensures
        start.hop <= start.hop_limit <= policy.max_redirects,
        fetch.max_redirects matches Some(n) ==> start.hop_limit <= n,
        post.hop <= post.hop_limit,
        post.hop_limit == pre.hop_limit,
        r is Follow ==> post.hop == pre.hop + 1,
{
}

/// A 301, 302 or 303 is followed with a `GET` that carries no body; another
/// redirect keeps the method and the body, because the server asked for that.
pub proof fn law_a_redirected_post_does_not_replay_its_body(
    pre: Exchange,
    plan: Option<Plan>,
    seq: u64,
    answer: Answer,
    next: Option<UrlView>,
    post: Exchange,
)
    requires
        reacted(pre, plan, seq, answer, next, post, Reaction::Follow),
    ensures
        301 <= answer.status <= 303 ==> post.method@ == "GET"@ && post.body@.len() == 0,
        answer.status == 307 || answer.status == 308 ==> post.method@ == pre.method@ && post.body@
            == pre.body@,
{
}

/// Once a page's request has been bounced across origins, its origin stays
/// opaque to the end of the chain.
pub proof fn law_a_crossed_chain_stays_tainted(
    pre: Exchange,
    plan: Option<Plan>,
    seq: u64,
    answer: Answer,
    next: Option<UrlView>,
    post: Exchange,
    r: Reaction,
)
    requires
        reacted(pre, plan, seq, answer, next, post, r),
    ensures
        pre.tainted ==> post.tainted,
        r is Follow && pre.asked.cors is Some && origin_of(post.current@) != origin_of(pre.current@)
            ==> post.tainted,
{
}

/// What a caller is shown of an opaque answer is that it came, and nothing
/// else.
pub proof fn law_an_opaque_answer_shows_nothing(
    seq: u64,
    url: UrlView,
    status: u16,
    headers: Seq<(Seq<char>, Seq<char>)>,
    body: Seq<u8>,
)
    ensures
        ({
            let o = shown_outcome(seq, url, status, headers, body, ExposureView::Opaque);
            &&& o.headers.len() == 0
            &&& o.body.len() == 0
            &&& o.status == Some(0u16)
            &&& o.opaque
        }),
{
    crate::cors::law_opaque_shows_nothing(headers);
}

/// What the same-origin policy hides of an answer it hides of a redirect that
/// is not followed: an opaque one shows nothing, and one that this origin may
/// not read is not shown.
pub proof fn law_a_redirect_that_is_the_answer_is_shown_as_one(
    pre: Exchange,
    plan: Option<Plan>,
    seq: u64,
    answer: Answer,
    next: Option<UrlView>,
    post: Exchange,
    r: Reaction,
)
    requires
        pre.hop_limit == 0,
        is_redirect(answer.status),
        next is Some,
        reacted(pre, plan, seq, answer, next, post, r),
    ensures
        admission(plan, pairs(answer.headers@)) == Ok::<_, Seq<char>>(ExposureView::Opaque) ==> (r matches Reaction::Stop {
            outcome,
            ..
        } && outcome@.opaque && outcome@.status == Some(0u16) && outcome@.headers.len() == 0
            && outcome@.body.len() == 0),
        admission(plan, pairs(answer.headers@)) is Err ==> (r matches Reaction::Stop {
            outcome,
            ..
        } && outcome@.status is None && outcome@.headers.len() == 0 && outcome@.body.len() == 0
            && outcome@.error is Some),
{
    crate::cors::law_opaque_shows_nothing(pairs(answer.headers@));
}

/// A redirect that ends the chain was recorded, and the outcome names its
/// receipt.
pub proof fn law_a_chain_that_ends_in_a_redirect_names_its_receipt(
    pre: Exchange,
    plan: Option<Plan>,
    seq: u64,
    answer: Answer,
    next: Option<UrlView>,
    post: Exchange,
    r: Reaction,
)
    requires
        is_redirect(answer.status),
        reacted(pre, plan, seq, answer, next, post, r),
    ensures
        r is Follow || (r matches Reaction::Stop { outcome, .. } && outcome@.seq == Some(seq)),
{
}

/// The engine's own headers go out once: a default is sent only where neither
/// the page nor the caller set a header of that name.
pub proof fn law_a_default_stands_aside(
    x: Exchange,
    plan: Option<Plan>,
    language: Seq<char>,
    jar: Option<(Seq<char>, usize)>,
)
    ensures
        sets(caller_now(x), "cookie"@) ==> dressed(x, plan, language, jar) == dressed(
            x,
            plan,
            language,
            None,
        ),
        sets(caller_now(x), "accept-language"@) ==> dressed(x, plan, language, jar) == dressed(
            x,
            plan,
            Seq::empty(),
            jar,
        ),
{
}

// ------------------------------------------------- what goes on the wire

/// The values of the headers of a name in any case, in order. The name is
/// given in lower case.
pub open spec fn values_of(headers: Seq<(Seq<char>, Seq<char>)>, name: Seq<char>) -> Seq<
    Seq<char>,
> {
    headers.filter(|h: (Seq<char>, Seq<char>)| lowered(h.0) == name).map_values(
        |h: (Seq<char>, Seq<char>)| h.1,
    )
}

/// The headers that the page itself asked for.
pub open spec fn asked_by_page(x: Exchange) -> Seq<(Seq<char>, Seq<char>)> {
    match x.asked.cors {
        Some(c) => pairs(c.headers@),
        None => Seq::empty(),
    }
}

pub proof fn lemma_values_add(
    a: Seq<(Seq<char>, Seq<char>)>,
    b: Seq<(Seq<char>, Seq<char>)>,
    name: Seq<char>,
)
    ensures
        values_of(a + b, name) == values_of(a, name) + values_of(b, name),
{
    let f = |h: (Seq<char>, Seq<char>)| lowered(h.0) == name;
    Seq::filter_distributes_over_add(a, b, f);
    assert(values_of(a + b, name) =~= values_of(a, name) + values_of(b, name));
}

pub proof fn lemma_values_if(cond: bool, key: Seq<char>, value: Seq<char>, name: Seq<char>)
    ensures
        values_of(header_if(cond, key, value), name) == (if cond && lowered(key) == name {
            seq![value]
        } else {
            Seq::empty()
        }),
{
    reveal(Seq::filter);
    let h = header_if(cond, key, value);
    let f = |h: (Seq<char>, Seq<char>)| lowered(h.0) == name;
    if cond {
        assert(h.drop_last() =~= Seq::empty());
        assert(h.last() == (key, value));
        assert(h.drop_last().filter(f) =~= Seq::empty());
        if lowered(key) == name {
            assert(h.filter(f) =~= seq![(key, value)]);
            assert(values_of(h, name) =~= seq![value]);
        } else {
            assert(values_of(h, name) =~= Seq::empty());
        }
    } else {
        assert(values_of(h, name) =~= Seq::empty());
    }
}

/// What a filter leaves of a name that it lets through whole, or takes whole.
pub proof fn lemma_values_filtered(
    headers: Seq<(Seq<char>, Seq<char>)>,
    keep: spec_fn((Seq<char>, Seq<char>)) -> bool,
    name: Seq<char>,
)
    ensures
        (forall|h: (Seq<char>, Seq<char>)| lowered(#[trigger] h.0) == name ==> keep(h))
            ==> values_of(headers.filter(keep), name) == values_of(headers, name),
        (forall|h: (Seq<char>, Seq<char>)| lowered(#[trigger] h.0) == name ==> !keep(h))
            ==> values_of(headers.filter(keep), name) == Seq::<Seq<char>>::empty(),
    decreases headers.len(),
{
    reveal(Seq::filter);
    let f = |h: (Seq<char>, Seq<char>)| lowered(h.0) == name;
    if headers.len() == 0 {
        assert(headers.filter(keep) =~= headers);
        assert(values_of(headers, name) =~= Seq::<Seq<char>>::empty());
    } else {
        let front = headers.drop_last();
        let h = headers.last();
        lemma_values_filtered(front, keep, name);
        assert(headers =~= front + seq![h]);
        lemma_values_add(front, seq![h], name);
        let one = header_if(keep(h), h.0, h.1);
        assert(h == (h.0, h.1));
        assert(headers.filter(keep) =~= front.filter(keep) + one);
        lemma_values_add(front.filter(keep), one, name);
        lemma_values_if(keep(h), h.0, h.1, name);
        lemma_values_if(true, h.0, h.1, name);
        assert(header_if(true, h.0, h.1) =~= seq![h]);
        assert(Seq::<Seq<char>>::empty() + Seq::<Seq<char>>::empty() =~= Seq::<
            Seq<char>,
        >::empty());
    }
}

pub proof fn lemma_sets_values(headers: Seq<(Seq<char>, Seq<char>)>, name: Seq<char>)
    requires
        lowered(name) == name,
    ensures
        sets(headers, name) <==> values_of(headers, name).len() > 0,
    decreases headers.len(),
{
    reveal(Seq::filter);
    if headers.len() > 0 {
        let front = headers.drop_last();
        let h = headers.last();
        lemma_sets_values(front, name);
        assert(headers =~= front + seq![h]);
        lemma_values_add(front, seq![h], name);
        lemma_values_if(true, h.0, h.1, name);
        assert(header_if(true, h.0, h.1) =~= seq![h]);
        if lowered(h.0) == name {
            assert(headers[headers.len() - 1] == h);
            assert(sets(headers, name));
        }
        if sets(front, name) {
            let i = choose|i: int|
                0 <= i < front.len() && lowered(#[trigger] front[i].0) == lowered(name);
            assert(headers[i] == front[i]);
        }
        if sets(headers, name) {
            let i = choose|i: int|
                0 <= i < headers.len() && lowered(#[trigger] headers[i].0) == lowered(name);
            if i < front.len() {
                assert(front[i] == headers[i]);
            }
        }
    }
}

/// A name with no space at either end, lowered, is the same trimmed first.
proof fn lemma_bare_name(s: Seq<char>, name: Seq<char>)
    requires
        lowered(s) == name,
        name.len() > 0,
        !crate::text::is_space(name[0]),
        !crate::text::is_space(name.last()),
    ensures
        lowered(trimmed(s)) == name,
{
    assert(s.len() == name.len());
    assert(crate::text::lower_char(s[0]) == name[0]);
    assert(crate::text::lower_char(s.last()) == name.last());
    assert(!crate::text::is_space(s[0]));
    assert(!crate::text::is_space(s.last()));
    assert(crate::text::trimmed_start(s) == s);
    assert(crate::text::trimmed_end(s) == s);
}

/// The values that a name has on the wire, part by part.
proof fn lemma_wire_values(
    x: Exchange,
    plan: Option<Plan>,
    language: Seq<char>,
    jar: Option<(Seq<char>, usize)>,
    name: Seq<char>,
)
    ensures
        ({
            let page = page_headers(context_view(x.asked.cors));
            let caller = caller_now(x);
            values_of(dressed(x, plan, language, jar), name) == values_of(
                header_if(
                    !sets(caller, "accept-encoding"@),
                    "accept-encoding"@,
                    ACCEPT_ENCODING@,
                ),
                name,
            ) + values_of(
                header_if(
                    !sets(page, "accept"@) && !sets(caller, "accept"@),
                    "accept"@,
                    acceptable(x.asked.initiator),
                ),
                name,
            ) + values_of(
                header_if(
                    !sets(page, "accept-language"@) && !sets(caller, "accept-language"@),
                    "accept-language"@,
                    language,
                ),
                name,
            ) + values_of(page, name) + values_of(caller, name) + values_of(
                header_if(
                    x.body@.len() > 0 && x.asked.content_type is Some && !sets(
                        page,
                        "content-type"@,
                    ) && !sets(caller, "content-type"@),
                    "content-type"@,
                    string_view(x.asked.content_type)->Some_0,
                ),
                name,
            ) + values_of(
                header_if(asks_the_jar(x, plan) && jar is Some, "cookie"@, jar->Some_0.0),
                name,
            ) + values_of(
                header_if(announces(plan) is Some, "origin"@, announces(plan)->Some_0),
                name,
            )
        }),
{
    let page = page_headers(context_view(x.asked.cors));
    let caller = caller_now(x);
    let p1 = header_if(!sets(caller, "accept-encoding"@), "accept-encoding"@, ACCEPT_ENCODING@);
    let p2 = header_if(
        !sets(page, "accept"@) && !sets(caller, "accept"@),
        "accept"@,
        acceptable(x.asked.initiator),
    );
    let p3 = header_if(
        !sets(page, "accept-language"@) && !sets(caller, "accept-language"@),
        "accept-language"@,
        language,
    );
    let p4 = header_if(
        x.body@.len() > 0 && x.asked.content_type is Some && !sets(page, "content-type"@) && !sets(
            caller,
            "content-type"@,
        ),
        "content-type"@,
        string_view(x.asked.content_type)->Some_0,
    );
    let p5 = header_if(asks_the_jar(x, plan) && jar is Some, "cookie"@, jar->Some_0.0);
    let p6 = header_if(announces(plan) is Some, "origin"@, announces(plan)->Some_0);
    lemma_values_add(p1, p2, name);
    lemma_values_add(p1 + p2, p3, name);
    lemma_values_add(p1 + p2 + p3, page, name);
    lemma_values_add(p1 + p2 + p3 + page, caller, name);
    lemma_values_add(p1 + p2 + p3 + page + caller, p4, name);
    lemma_values_add(p1 + p2 + p3 + page + caller + p4, p5, name);
    lemma_values_add(p1 + p2 + p3 + page + caller + p4 + p5, p6, name);
}

proof fn lemma_default_names()
    ensures
        lowered("accept-encoding"@) == "accept-encoding"@,
        lowered("accept"@) == "accept"@,
        lowered("accept-language"@) == "accept-language"@,
        lowered("content-type"@) == "content-type"@,
        lowered("cookie"@) == "cookie"@,
        lowered("origin"@) == "origin"@,
        "accept-encoding"@.len() == 15,
        "accept-encoding"@[7] == 'e',
        "accept"@.len() == 6,
        "accept"@[0] == 'a',
        "accept-language"@.len() == 15,
        "accept-language"@[7] == 'l',
        "content-type"@.len() == 12,
        "cookie"@.len() == 6,
        "cookie"@[0] == 'c',
        "origin"@.len() == 6,
        "origin"@[0] == 'o',
        "accept-encoding"@[0] == 'a',
        "accept-encoding"@.last() == 'g',
        "cookie"@.last() == 'e',
        "origin"@.last() == 'n',
{
    reveal_strlit("accept-encoding");
    reveal_strlit("accept");
    reveal_strlit("accept-language");
    reveal_strlit("content-type");
    reveal_strlit("cookie");
    reveal_strlit("origin");
    assert(lowered("accept-encoding"@) =~= "accept-encoding"@);
    assert(lowered("accept"@) =~= "accept"@);
    assert(lowered("accept-language"@) =~= "accept-language"@);
    assert(lowered("content-type"@) =~= "content-type"@);
    assert(lowered("cookie"@) =~= "cookie"@);
    assert(lowered("origin"@) =~= "origin"@);
}

/// None of the names that a default has, but for `accept-encoding`, `cookie`
/// and `origin`, is the engine's own.
proof fn lemma_engine_names(n: Seq<char>)
    ensures
        n == "accept"@ || n == "accept-language"@ || n == "content-type"@ ==> n
            != "accept-charset"@ && n != "accept-encoding"@ && n
            != "access-control-request-headers"@ && n != "access-control-request-method"@ && n
            != "connection"@ && n != "content-length"@ && n != "cookie"@ && n != "cookie2"@ && n
            != "date"@ && n != "dnt"@ && n != "expect"@ && n != "host"@ && n != "keep-alive"@ && n
            != "origin"@ && n != "referer"@ && n != "te"@ && n != "trailer"@ && n
            != "transfer-encoding"@ && n != "upgrade"@ && n != "via"@ && !starts_with(n, "proxy-"@)
            && !starts_with(n, "sec-"@),
        n == "accept"@ || n == "accept-language"@ || n == "content-type"@ || n
            == "accept-encoding"@ || n == "origin"@ ==> n != "authorization"@ && n != "cookie"@ && n
            != "proxy-authorization"@,
        n == "accept"@ || n == "accept-language"@ || n == "content-type"@ || n
            == "accept-encoding"@ || n == "origin"@ || n == "cookie"@ ==> n.len() > 0
            && !crate::text::is_space(n[0]) && !crate::text::is_space(n.last()),
{
    lemma_default_names();
    reveal_strlit("accept");
    reveal_strlit("accept-language");
    reveal_strlit("content-type");
    reveal_strlit("accept-charset");
    reveal_strlit("access-control-request-headers");
    reveal_strlit("access-control-request-method");
    reveal_strlit("connection");
    reveal_strlit("content-length");
    reveal_strlit("cookie2");
    reveal_strlit("date");
    reveal_strlit("dnt");
    reveal_strlit("expect");
    reveal_strlit("host");
    reveal_strlit("keep-alive");
    reveal_strlit("referer");
    reveal_strlit("te");
    reveal_strlit("trailer");
    reveal_strlit("transfer-encoding");
    reveal_strlit("upgrade");
    reveal_strlit("via");
    reveal_strlit("proxy-");
    reveal_strlit("sec-");
    reveal_strlit("authorization");
    reveal_strlit("proxy-authorization");
    if starts_with(n, "proxy-"@) {
        assert(n.subrange(0, 6)[0] == 'p');
    }
    if starts_with(n, "sec-"@) {
        assert(n.subrange(0, 4)[0] == 's');
    }
}

/// What the page and the caller put on the wire under the names that a
/// default has.
proof fn lemma_own_values(x: Exchange, name: Seq<char>)
    requires
        name == "accept"@ || name == "accept-language"@ || name == "content-type"@ || name
            == "accept-encoding"@ || name == "origin"@ || name == "cookie"@,
    ensures
        values_of(page_headers(context_view(x.asked.cors)), name) == (if name
            == "accept-encoding"@ || name == "origin"@ || name == "cookie"@ {
            Seq::empty()
        } else {
            values_of(asked_by_page(x), name)
        }),
        values_of(caller_now(x), name) == (if name == "cookie"@ && origin_of(x.current@)
            != origin_option(x.started_at) {
            Seq::empty()
        } else {
            values_of(pairs(x.caller_headers@), name)
        }),
{
    lemma_default_names();
    lemma_engine_names(name);
    let crossed = has_crossed(x);
    let kept = |h: (Seq<char>, Seq<char>)| !is_the_engines(h.0);
    let carry = |h: (Seq<char>, Seq<char>)| !(crossed && is_a_credential(h.0));
    assert forall|h: (Seq<char>, Seq<char>)| lowered(#[trigger] h.0) == name implies lowered(
        trimmed(h.0),
    ) == name by {
        lemma_bare_name(h.0, name);
    }
    lemma_values_filtered(asked_by_page(x), kept, name);
    lemma_values_filtered(pairs(x.caller_headers@), carry, name);
    assert(values_of(Seq::empty(), name) =~= Seq::empty()) by {
        reveal(Seq::filter);
    }
    match x.asked.cors {
        Some(c) => {
            assert(c@.headers == asked_by_page(x));
        },
        None => {},
    }
}

/// On every hop, the first one included: the wire has what the page and then
/// the caller set as content type, and where neither set one, exactly one
/// value, that of the fetch, wherever the hop has a body and the fetch names
/// a type, and no value elsewhere.
pub proof fn law_a_body_goes_with_its_content_type(
    x: Exchange,
    plan: Option<Plan>,
    language: Seq<char>,
    jar: Option<(Seq<char>, usize)>,
)
    ensures
        ({
            let wire = values_of(dressed(x, plan, language, jar), "content-type"@);
            let set = values_of(asked_by_page(x), "content-type"@) + values_of(
                pairs(x.caller_headers@),
                "content-type"@,
            );
            &&& set.len() > 0 ==> wire == set
            &&& set.len() == 0 && x.body@.len() > 0 && x.asked.content_type is Some ==> wire
                == seq![x.asked.content_type->Some_0@]
            &&& set.len() == 0 && (x.body@.len() == 0 || x.asked.content_type is None)
                ==> wire.len() == 0
        }),
{
    let name = "content-type"@;
    lemma_default_names();
    lemma_own_values(x, name);
    lemma_wire_values(x, plan, language, jar, name);
    let page = page_headers(context_view(x.asked.cors));
    let caller = caller_now(x);
    lemma_sets_values(page, name);
    lemma_sets_values(caller, name);
    lemma_part_values(name);
    let set = values_of(asked_by_page(x), name) + values_of(pairs(x.caller_headers@), name);
    let wire = values_of(dressed(x, plan, language, jar), name);
    if set.len() > 0 {
        assert(wire =~= set);
    } else if x.body@.len() > 0 && x.asked.content_type is Some {
        assert(wire =~= seq![x.asked.content_type->Some_0@]);
    }
}

proof fn lemma_part_values(name: Seq<char>)
    ensures
        forall|cond: bool, key: Seq<char>, value: Seq<char>| #[trigger]
            values_of(header_if(cond, key, value), name) == (if cond && lowered(key) == name {
                seq![value]
            } else {
                Seq::empty()
            }),
{
    assert forall|cond: bool, key: Seq<char>, value: Seq<char>| #[trigger]
        values_of(header_if(cond, key, value), name) == (if cond && lowered(key) == name {
            seq![value]
        } else {
            Seq::empty()
        }) by {
        lemma_values_if(cond, key, value, name);
    }
}

/// On every hop the wire has what the page and then the caller accept, and
/// where neither says, one value: a page for a navigation, a redirect or a
/// frame, and anything for all else.
pub proof fn law_what_a_request_accepts(
    x: Exchange,
    plan: Option<Plan>,
    language: Seq<char>,
    jar: Option<(Seq<char>, usize)>,
)
    ensures
        ({
            let wire = values_of(dressed(x, plan, language, jar), "accept"@);
            let set = values_of(asked_by_page(x), "accept"@) + values_of(
                pairs(x.caller_headers@),
                "accept"@,
            );
            let by = x.asked.initiator;
            &&& set.len() > 0 ==> wire == set
            &&& set.len() == 0 && (by is Navigation || by is Redirect || by is Frame) ==> wire
                == seq!["text/html,application/xhtml+xml,application/xml;q=0.9,*/*;q=0.8"@]
            &&& set.len() == 0 && (by is Subresource || by is Replay) ==> wire == seq!["*/*"@]
        }),
{
    let name = "accept"@;
    lemma_default_names();
    lemma_own_values(x, name);
    lemma_wire_values(x, plan, language, jar, name);
    lemma_sets_values(page_headers(context_view(x.asked.cors)), name);
    lemma_sets_values(caller_now(x), name);
    lemma_part_values(name);
    let set = values_of(asked_by_page(x), name) + values_of(pairs(x.caller_headers@), name);
    let wire = values_of(dressed(x, plan, language, jar), name);
    if set.len() > 0 {
        assert(wire =~= set);
    } else {
        assert(wire =~= seq![acceptable(x.asked.initiator)]);
    }
}

/// On every hop the wire has the languages that the page and then the caller
/// set, and where neither did, the session's own, once.
pub proof fn law_what_language_a_request_asks_for(
    x: Exchange,
    plan: Option<Plan>,
    language: Seq<char>,
    jar: Option<(Seq<char>, usize)>,
)
    ensures
        ({
            let wire = values_of(dressed(x, plan, language, jar), "accept-language"@);
            let set = values_of(asked_by_page(x), "accept-language"@) + values_of(
                pairs(x.caller_headers@),
                "accept-language"@,
            );
            wire == if set.len() > 0 {
                set
            } else {
                seq![language]
            }
        }),
{
    let name = "accept-language"@;
    lemma_default_names();
    lemma_own_values(x, name);
    lemma_wire_values(x, plan, language, jar, name);
    lemma_sets_values(page_headers(context_view(x.asked.cors)), name);
    lemma_sets_values(caller_now(x), name);
    lemma_part_values(name);
    let set = values_of(asked_by_page(x), name) + values_of(pairs(x.caller_headers@), name);
    let wire = values_of(dressed(x, plan, language, jar), name);
    if set.len() > 0 {
        assert(wire =~= set);
    } else {
        assert(wire =~= seq![language]);
    }
}

/// On every hop the wire has the encodings that the caller set, and where it
/// set none the three that can be undone, once. The page has no say.
pub proof fn law_what_encodings_a_request_takes(
    x: Exchange,
    plan: Option<Plan>,
    language: Seq<char>,
    jar: Option<(Seq<char>, usize)>,
)
    ensures
        ({
            let wire = values_of(dressed(x, plan, language, jar), "accept-encoding"@);
            let set = values_of(pairs(x.caller_headers@), "accept-encoding"@);
            wire == if set.len() > 0 {
                set
            } else {
                seq!["gzip, br, deflate"@]
            }
        }),
{
    let name = "accept-encoding"@;
    lemma_default_names();
    lemma_own_values(x, name);
    lemma_wire_values(x, plan, language, jar, name);
    lemma_sets_values(caller_now(x), name);
    lemma_part_values(name);
    let set = values_of(pairs(x.caller_headers@), name);
    let wire = values_of(dressed(x, plan, language, jar), name);
    if set.len() > 0 {
        assert(wire =~= set);
    } else {
        assert(wire =~= seq!["gzip, br, deflate"@]);
    }
}

/// The cookies on the wire are those that the caller set, as long as the hop
/// is on the origin that the fetch started at, and otherwise those of the jar,
/// as one header, unless the plan says that none go. The page has no say.
pub proof fn law_whose_cookies_a_request_carries(
    x: Exchange,
    plan: Option<Plan>,
    language: Seq<char>,
    jar: Option<(Seq<char>, usize)>,
)
    ensures
        ({
            let wire = values_of(dressed(x, plan, language, jar), "cookie"@);
            let set = values_of(pairs(x.caller_headers@), "cookie"@);
            let at_home = origin_of(x.current@) == origin_option(x.started_at);
            let withheld = plan matches Some(Plan::Send { send_cookies, .. }) && !send_cookies;
            &&& at_home && set.len() > 0 ==> wire == set
            &&& (!at_home || set.len() == 0) && !withheld && jar is Some ==> wire
                == seq![jar->Some_0.0]
            &&& (!at_home || set.len() == 0) && (withheld || jar is None) ==> wire.len() == 0
        }),
{
    let name = "cookie"@;
    lemma_default_names();
    lemma_own_values(x, name);
    lemma_wire_values(x, plan, language, jar, name);
    lemma_sets_values(caller_now(x), name);
    lemma_part_values(name);
    let set = values_of(pairs(x.caller_headers@), name);
    let wire = values_of(dressed(x, plan, language, jar), name);
    let at_home = origin_of(x.current@) == origin_option(x.started_at);
    if at_home && set.len() > 0 {
        assert(wire =~= set);
    } else if may_use_cookies(plan) && jar is Some {
        assert(wire =~= seq![jar->Some_0.0]);
    }
}

/// The origins on the wire are those that the caller set, and after them the
/// one that the plan announces. The page has no say.
pub proof fn law_what_origin_a_request_names(
    x: Exchange,
    plan: Option<Plan>,
    language: Seq<char>,
    jar: Option<(Seq<char>, usize)>,
)
    ensures
        values_of(dressed(x, plan, language, jar), "origin"@) == values_of(
            pairs(x.caller_headers@),
            "origin"@,
        ) + (match plan {
            Some(Plan::Send { origin_header: Some(named), .. }) => seq![named@],
            _ => Seq::empty(),
        }),
{
    let name = "origin"@;
    lemma_default_names();
    lemma_own_values(x, name);
    lemma_wire_values(x, plan, language, jar, name);
    lemma_part_values(name);
    let wire = values_of(dressed(x, plan, language, jar), name);
    let set = values_of(pairs(x.caller_headers@), name);
    match plan {
        Some(Plan::Send { origin_header: Some(named), .. }) => {
            assert(wire =~= set + seq![named@]);
        },
        _ => {
            assert(wire =~= set + Seq::empty());
        },
    }
}

/// The headers of one spelling, in order.
pub open spec fn spelled(headers: Seq<(Seq<char>, Seq<char>)>, name: Seq<char>) -> Seq<
    (Seq<char>, Seq<char>),
> {
    headers.filter(|h: (Seq<char>, Seq<char>)| h.0 == name)
}

proof fn lemma_spelled_filtered(
    headers: Seq<(Seq<char>, Seq<char>)>,
    keep: spec_fn((Seq<char>, Seq<char>)) -> bool,
    name: Seq<char>,
)
    ensures
        (forall|h: (Seq<char>, Seq<char>)| #[trigger] h.0 == name ==> keep(h)) ==> spelled(
            headers.filter(keep),
            name,
        ) == spelled(headers, name),
        (forall|h: (Seq<char>, Seq<char>)| #[trigger] h.0 == name ==> !keep(h)) ==> spelled(
            headers.filter(keep),
            name,
        ) == Seq::<(Seq<char>, Seq<char>)>::empty(),
    decreases headers.len(),
{
    reveal(Seq::filter);
    if headers.len() == 0 {
        assert(headers.filter(keep) =~= headers);
        assert(spelled(headers, name) =~= Seq::<(Seq<char>, Seq<char>)>::empty());
    } else {
        let front = headers.drop_last();
        let h = headers.last();
        lemma_spelled_filtered(front, keep, name);
        if keep(h) {
            assert(headers.filter(keep).drop_last() =~= front.filter(keep));
            assert(headers.filter(keep).last() == h);
        }
        assert(h.0 == name ==> h.0 == name);
    }
}

proof fn lemma_spelled_if(cond: bool, key: Seq<char>, value: Seq<char>, name: Seq<char>)
    requires
        key != name,
    ensures
        spelled(header_if(cond, key, value), name) == Seq::<(Seq<char>, Seq<char>)>::empty(),
{
    reveal(Seq::filter);
    let h = header_if(cond, key, value);
    if cond {
        assert(h.drop_last() =~= Seq::empty());
        assert(h.last() == (key, value));
        assert(spelled(h.drop_last(), name) =~= Seq::empty());
    }
}

/// A header that is none of the defaults goes on the wire as the page and then
/// the caller set it, but for a name that the page may not set, and for a
/// credential of the caller's on another origin than the fetch started at.
pub proof fn law_the_other_headers_go_out_as_they_were_set(
    x: Exchange,
    plan: Option<Plan>,
    language: Seq<char>,
    jar: Option<(Seq<char>, usize)>,
    name: Seq<char>,
)
    requires
        name != "accept-encoding"@,
        name != "accept"@,
        name != "accept-language"@,
        name != "content-type"@,
        name != "cookie"@,
        name != "origin"@,
    ensures
        ({
            let n = lowered(trimmed(name));
            let barred = n == "accept-charset"@ || n == "accept-encoding"@ || n
                == "access-control-request-headers"@ || n == "access-control-request-method"@ || n
                == "connection"@ || n == "content-length"@ || n == "cookie"@ || n == "cookie2"@ || n
                == "date"@ || n == "dnt"@ || n == "expect"@ || n == "host"@ || n == "keep-alive"@
                || n == "origin"@ || n == "referer"@ || n == "te"@ || n == "trailer"@ || n
                == "transfer-encoding"@ || n == "upgrade"@ || n == "via"@ || (n.len() >= 6
                && n.take(6) == "proxy-"@) || (n.len() >= 4 && n.take(4) == "sec-"@);
            let left_behind = origin_of(x.current@) != origin_option(x.started_at) && (n
                == "authorization"@ || n == "cookie"@ || n == "proxy-authorization"@);
            spelled(dressed(x, plan, language, jar), name) == (if barred {
                Seq::empty()
            } else {
                spelled(asked_by_page(x), name)
            }) + (if left_behind {
                Seq::empty()
            } else {
                spelled(pairs(x.caller_headers@), name)
            })
        }),
{
    let n = lowered(trimmed(name));
    reveal_strlit("proxy-");
    reveal_strlit("sec-");
    assert(n.len() >= 6 ==> n.take(6) =~= n.subrange(0, 6));
    assert(n.len() >= 4 ==> n.take(4) =~= n.subrange(0, 4));
    let page = page_headers(context_view(x.asked.cors));
    let caller = caller_now(x);
    let crossed = has_crossed(x);
    let kept = |h: (Seq<char>, Seq<char>)| !is_the_engines(h.0);
    let carry = |h: (Seq<char>, Seq<char>)| !(crossed && is_a_credential(h.0));
    lemma_spelled_filtered(asked_by_page(x), kept, name);
    lemma_spelled_filtered(pairs(x.caller_headers@), carry, name);
    assert(spelled(Seq::empty(), name) =~= Seq::empty()) by {
        reveal(Seq::filter);
    }
    match x.asked.cors {
        Some(c) => {
            assert(c@.headers == asked_by_page(x));
        },
        None => {},
    }
    let p1 = header_if(!sets(caller, "accept-encoding"@), "accept-encoding"@, ACCEPT_ENCODING@);
    let p2 = header_if(
        !sets(page, "accept"@) && !sets(caller, "accept"@),
        "accept"@,
        acceptable(x.asked.initiator),
    );
    let p3 = header_if(
        !sets(page, "accept-language"@) && !sets(caller, "accept-language"@),
        "accept-language"@,
        language,
    );
    let p4 = header_if(
        x.body@.len() > 0 && x.asked.content_type is Some && !sets(page, "content-type"@) && !sets(
            caller,
            "content-type"@,
        ),
        "content-type"@,
        string_view(x.asked.content_type)->Some_0,
    );
    let p5 = header_if(asks_the_jar(x, plan) && jar is Some, "cookie"@, jar->Some_0.0);
    let p6 = header_if(announces(plan) is Some, "origin"@, announces(plan)->Some_0);
    assert forall|cond: bool, key: Seq<char>, value: Seq<char>| key != name implies #[trigger] spelled(
        header_if(cond, key, value),
        name,
    ) == Seq::<(Seq<char>, Seq<char>)>::empty() by {
        lemma_spelled_if(cond, key, value, name);
    }
    let f = |h: (Seq<char>, Seq<char>)| h.0 == name;
    Seq::filter_distributes_over_add(p1, p2, f);
    Seq::filter_distributes_over_add(p1 + p2, p3, f);
    Seq::filter_distributes_over_add(p1 + p2 + p3, page, f);
    Seq::filter_distributes_over_add(p1 + p2 + p3 + page, caller, f);
    Seq::filter_distributes_over_add(p1 + p2 + p3 + page + caller, p4, f);
    Seq::filter_distributes_over_add(p1 + p2 + p3 + page + caller + p4, p5, f);
    Seq::filter_distributes_over_add(p1 + p2 + p3 + page + caller + p4 + p5, p6, f);
    assert(spelled(p1, name).len() == 0);
    assert(spelled(p2, name).len() == 0);
    assert(spelled(p3, name).len() == 0);
    assert(spelled(p4, name).len() == 0);
    assert(spelled(p5, name).len() == 0);
    assert(spelled(p6, name).len() == 0);
    assert(dressed(x, plan, language, jar) == p1 + p2 + p3 + page + caller + p4 + p5 + p6);
    assert(spelled(dressed(x, plan, language, jar), name) =~= spelled(page, name) + spelled(
        caller,
        name,
    ));
}

/// A method goes out as it is where it is a token: at least one character,
/// each of them a visible one of ASCII that is none of the delimiters. Any
/// other goes out as `GET`.
pub proof fn law_a_method_is_a_token_or_get(m: Seq<char>)
    ensures
        ({
            let token = m.len() > 0 && forall|i: int|
                0 <= i < m.len() ==> '!' <= #[trigger] m[i] <= '~' && m[i] != '"' && m[i]
                    != '(' && m[i] != ')' && m[i] != ',' && m[i] != '/' && m[i] != ':' && m[i]
                    != ';' && m[i] != '<' && m[i] != '=' && m[i] != '>' && m[i] != '?' && m[i]
                    != '@' && m[i] != '[' && m[i] != '\\' && m[i] != ']' && m[i] != '{' && m[i]
                    != '}';
            wire_method(m) == if token {
                m
            } else {
                "GET"@
            }
        }),
{
    assert forall|c: char| #[trigger]
        is_method_char(c) <==> '!' <= c <= '~' && c != '"' && c != '(' && c != ')' && c
            != ',' && c != '/' && c != ':' && c != ';' && c != '<' && c != '=' && c != '>' && c
            != '?' && c != '@' && c != '[' && c != '\\' && c != ']' && c != '{' && c != '}' by {}
    assert(is_method(m) <==> m.len() > 0 && forall|i: int|
        0 <= i < m.len() ==> is_method_char(#[trigger] m[i]));
}

/// The value of a header is that of the first one of its name in any case.
pub proof fn law_a_header_is_the_first_of_its_name(
    headers: Seq<(Seq<char>, Seq<char>)>,
    name: Seq<char>,
)
    ensures
        ({
            let all = values_of(headers, lowered(name));
            header_value(headers, name) == if all.len() > 0 {
                Some(all[0])
            } else {
                None
            }
        }),
    decreases headers.len(),
{
    reveal(Seq::filter);
    let n = lowered(name);
    if headers.len() == 0 {
        assert(values_of(headers, n) =~= Seq::empty());
    } else {
        let rest = headers.drop_first();
        let h = headers[0];
        law_a_header_is_the_first_of_its_name(rest, name);
        assert(headers =~= seq![h] + rest);
        lemma_values_add(seq![h], rest, n);
        lemma_values_if(true, h.0, h.1, n);
        assert(header_if(true, h.0, h.1) =~= seq![h]);
        if lowered(h.0) != n {
            assert(values_of(headers, n) =~= values_of(rest, n));
        } else {
            assert(values_of(headers, n)[0] == h.1);
        }
    }
}

proof fn lemma_spelled_somewhere(headers: Seq<(Seq<char>, Seq<char>)>, name: Seq<char>)
    requires
        spelled(headers, name).len() > 0,
    ensures
        exists|k: int| 0 <= k < headers.len() && (#[trigger] headers[k]).0 == name,
    decreases headers.len(),
{
    reveal(Seq::filter);
    if headers.last().0 == name {
        assert(headers[headers.len() - 1].0 == name);
    } else {
        lemma_spelled_somewhere(headers.drop_last(), name);
        let k = choose|k: int|
            0 <= k < headers.len() - 1 && (#[trigger] headers.drop_last()[k]).0 == name;
        assert(headers[k].0 == name);
    }
}

/// A fetch starts at its own address, in capitals, with its own body, and
/// with all that the caller set but `Content-Length`, `Transfer-Encoding` and
/// `Connection`, which are listed as overridden.
pub proof fn law_how_a_fetch_starts(policy: PolicyView, fetch: Fetch, x: Exchange, name: Seq<char>)
    requires
        fresh(policy, fetch, x),
    ensures
        ({
            let n = lowered(trimmed(name));
            let framing = n == "content-length"@ || n == "transfer-encoding"@ || n == "connection"@;
            &&& spelled(pairs(x.caller_headers@), name) == if framing {
                Seq::empty()
            } else {
                spelled(pairs(fetch.headers@), name)
            }
            &&& framing && spelled(pairs(fetch.headers@), name).len() > 0 ==> texts(
                x.overridden@,
            ).contains(n)
        }),
        forall|o: Seq<char>| #[trigger]
            texts(x.overridden@).contains(o) ==> o == "content-length"@ || o
                == "transfer-encoding"@ || o == "connection"@,
        x.current@ == fetch.url@,
        x.method@ == uppered(fetch.method@),
        x.body@ == fetch.body@,
        x.initiator == fetch.initiator,
        origin_option(x.started_at) == origin_of(fetch.url@),
        x.hop == 0,
        !x.tainted,
        x.asked == fetch,
{
    let n = lowered(trimmed(name));
    let all = pairs(fetch.headers@);
    let kept = |h: (Seq<char>, Seq<char>)| !is_the_clients(h.0);
    let taken = |h: (Seq<char>, Seq<char>)| is_the_clients(h.0);
    lemma_spelled_filtered(all, kept, name);
    let gone = all.filter(taken);
    let low = |h: (Seq<char>, Seq<char>)| lowered(trimmed(h.0));
    assert forall|o: Seq<char>| #[trigger] texts(x.overridden@).contains(o) implies o
        == "content-length"@ || o == "transfer-encoding"@ || o == "connection"@ by {
        let i = choose|i: int| 0 <= i < gone.map_values(low).len() && gone.map_values(low)[i] == o;
        all.lemma_filter_pred(taken, i);
        assert(gone.map_values(low)[i] == low(gone[i]));
    }
    if spelled(all, name).len() > 0 && (n == "content-length"@ || n == "transfer-encoding"@ || n
        == "connection"@) {
        lemma_spelled_somewhere(all, name);
        let k = choose|k: int| 0 <= k < all.len() && (#[trigger] all[k]).0 == name;
        let h = all[k];
        all.lemma_filter_contains(taken, k);
        let i = choose|i: int| 0 <= i < gone.len() && gone[i] == h;
        assert(gone.map_values(low)[i] == n);
        assert(texts(x.overridden@)[i] == n);
    }
}

/// A fetch follows no more redirects than the policy lets it, nor than it was
/// asked to, and no fewer than the lower of the two.
pub proof fn law_how_far_a_fetch_may_go(policy: PolicyView, fetch: Fetch, x: Exchange)
    requires
        fresh(policy, fetch, x),
    ensures
        x.hop_limit <= policy.max_redirects,
        fetch.max_redirects is None ==> x.hop_limit == policy.max_redirects,
        fetch.max_redirects matches Some(n) ==> x.hop_limit <= n && (x.hop_limit == n
            || x.hop_limit == policy.max_redirects),
{
}

/// A status of 3xx that names where to go is followed exactly as long as the
/// hops last, and is never read. Any other status is read or blocked, and
/// leaves the fetch where it is.
pub proof fn law_only_a_redirect_is_followed(
    pre: Exchange,
    plan: Option<Plan>,
    seq: u64,
    answer: Answer,
    next: Option<UrlView>,
    post: Exchange,
    r: Reaction,
)
    requires
        reacted(pre, plan, seq, answer, next, post, r),
    ensures
        r is Follow <==> 300 <= answer.status <= 399 && next is Some && pre.hop < pre.hop_limit,
        r is Stop <==> 300 <= answer.status <= 399 && (next is None || pre.hop >= pre.hop_limit),
        !(r is Follow) ==> post == pre,
{
}

/// A hop that is followed stands at the address named, one further, on behalf
/// of the same fetch. 301, 302 and 303 turn it into a `GET` without a body,
/// and no other status touches the method or the body. It is tainted exactly
/// where it was, or where a page asked for it and it left the origin of the
/// hop before.
pub proof fn law_where_a_redirect_leads(
    pre: Exchange,
    plan: Option<Plan>,
    seq: u64,
    answer: Answer,
    next: Option<UrlView>,
    post: Exchange,
    r: Reaction,
)
    requires
        reacted(pre, plan, seq, answer, next, post, r),
        r is Follow,
    ensures
        next == Some(post.current@),
        post.hop == pre.hop + 1,
        post.initiator is Redirect,
        post.asked == pre.asked,
        post.caller_headers == pre.caller_headers,
        post.started_at == pre.started_at,
        post.hop_limit == pre.hop_limit,
        post.overridden == pre.overridden,
        ({
            let rewritten = answer.status == 301 || answer.status == 302 || answer.status == 303;
            &&& rewritten ==> post.method@ == "GET"@ && post.body@.len() == 0
            &&& !rewritten ==> post.method@ == pre.method@ && post.body@ == pre.body@
        }),
        post.tainted <==> pre.tainted || (pre.asked.cors is Some && origin_of(post.current@)
            != origin_of(pre.current@)),
{
}

/// A redirect that cannot be followed says why: it names no usable address, or
/// the hops have run out, unless none were allowed.
pub proof fn law_what_stops_a_redirect(
    pre: Exchange,
    plan: Option<Plan>,
    seq: u64,
    answer: Answer,
    next: Option<UrlView>,
    post: Exchange,
    r: Reaction,
)
    requires
        reacted(pre, plan, seq, answer, next, post, r),
        r is Stop,
    ensures
        ({
            let o = r->outcome@;
            &&& o.final_url == pre.current@
            &&& o.seq == Some(seq)
            &&& next is None ==> o.error == Some("redirect without a usable Location"@)
                && string_view(r->error) == o.error
            &&& next is Some && pre.hop_limit > 0 ==> o.error == Some(
                "too many redirects (limit "@ + decimal(pre.hop_limit as nat) + ")"@,
            ) && r->error is None
            &&& o.body.len() == 0
            &&& o.error is Some ==> o.status is None && o.headers.len() == 0 && !o.opaque
        }),
{
}

/// A response that the plan checks is read only where its
/// `Access-Control-Allow-Origin`, trimmed, is the origin that asked, in any
/// case, or is `*` and no cookies went; and where cookies went, only with
/// `Access-Control-Allow-Credentials: true`. One that the plan does not check
/// is never blocked.
pub proof fn law_who_may_read_a_response(
    pre: Exchange,
    plan: Option<Plan>,
    seq: u64,
    answer: Answer,
    next: Option<UrlView>,
    post: Exchange,
    r: Reaction,
)
    requires
        reacted(pre, plan, seq, answer, next, post, r),
        !(300 <= answer.status <= 399),
    ensures
        match plan {
            Some(Plan::Send { origin_header, send_cookies, check_response: true, .. }) => {
                let allowed = values_of(
                    pairs(answer.headers@),
                    lowered("access-control-allow-origin"@),
                );
                let agreed = values_of(
                    pairs(answer.headers@),
                    lowered("access-control-allow-credentials"@),
                );
                let asked = if origin_header is Some {
                    origin_header->Some_0@
                } else {
                    "null"@
                };
                r is Read <==> {
                    &&& allowed.len() > 0
                    &&& trimmed(allowed[0]) == "*"@ || lowered(trimmed(allowed[0])) == lowered(
                        asked,
                    )
                    &&& send_cookies ==> trimmed(allowed[0]) != "*"@ && agreed.len() > 0 && lowered(
                        trimmed(agreed[0]),
                    ) == lowered("true"@)
                }
            },
            _ => r is Read,
        },
        r is Read || r is Blocked,
{
    let h = pairs(answer.headers@);
    law_a_header_is_the_first_of_its_name(h, "access-control-allow-origin"@);
    law_a_header_is_the_first_of_its_name(h, "access-control-allow-credentials"@);
}

/// What a page sees of a response that it may read: all of it where the plan
/// neither checks it nor hides it, nothing where the plan hides it, and
/// otherwise the listed headers that the server named as exposed.
pub proof fn law_how_much_of_a_response_is_seen(
    plan: Option<Plan>,
    headers: Seq<(Seq<char>, Seq<char>)>,
    r: Reaction,
)
    requires
        admitted(plan, headers, r),
        r is Read,
    ensures
        match plan {
            Some(Plan::Send { send_cookies, check_response, exposure, .. }) => if check_response {
                let named = values_of(headers, lowered("access-control-expose-headers"@));
                r->Read_0@ == exposed(
                    if named.len() > 0 {
                        Some(named[0])
                    } else {
                        None
                    },
                    send_cookies,
                )
            } else {
                (r->Read_0@ is Opaque <==> exposure is Opaque) && (r->Read_0@ is Full
                    <==> !(exposure is Opaque))
            },
            _ => r->Read_0@ is Full,
        },
{
    law_a_header_is_the_first_of_its_name(headers, "access-control-expose-headers"@);
}

/// A body is decoded by what its first `Content-Encoding` says, trimmed and in
/// any case, and not at all where there is none, or it is empty or says
/// `identity`.
pub proof fn law_what_encoding_a_body_has(headers: Seq<(Seq<char>, Seq<char>)>)
    ensures
        ({
            let said = values_of(headers, lowered("content-encoding"@));
            let plain = said.len() == 0 || trimmed(said[0]).len() == 0 || lowered(trimmed(said[0]))
                == "identity"@;
            &&& plain ==> content_encoding(headers) is None
            &&& !plain ==> content_encoding(headers) == Some(lowered(trimmed(said[0])))
        }),
{
    law_a_header_is_the_first_of_its_name(headers, "content-encoding"@);
}

/// An outcome that is shown says what came back, at the address it came from,
/// and only an opaque one hides it.
pub proof fn law_what_is_shown_is_what_came_back(
    seq: u64,
    url: UrlView,
    status: u16,
    headers: Seq<(Seq<char>, Seq<char>)>,
    body: Seq<u8>,
    exposure: ExposureView,
)
    requires
        !(exposure is Opaque),
    ensures
        ({
            let o = shown_outcome(seq, url, status, headers, body, exposure);
            &&& o.seq == Some(seq)
            &&& o.final_url == url
            &&& o.status == Some(status)
            &&& o.body == body
            &&& o.error is None
            &&& !o.opaque
            &&& exposure is Full ==> forall|name: Seq<char>| #[trigger]
                spelled(o.headers, name) == if lowered(name) == "set-cookie"@ || lowered(name)
                    == "set-cookie2"@ {
                    Seq::empty()
                } else {
                    spelled(headers, name)
                }
        }),
{
    let keep = |h: (Seq<char>, Seq<char>)| crate::cors::is_visible(h.0, exposure);
    assert forall|name: Seq<char>| exposure is Full implies #[trigger] spelled(
        headers.filter(keep),
        name,
    ) == if lowered(name) == "set-cookie"@ || lowered(name) == "set-cookie2"@ {
        Seq::empty()
    } else {
        spelled(headers, name)
    } by {
        lemma_spelled_filtered(headers, keep, name);
    }
}

/// What goes on the wire for a hop: to the address it stands at, with its body,
/// and on every hop, the first one included, with exactly the fetch's content
/// type where there is a body and a type, and nobody set another. It counts
/// the cookies of the jar where those are the ones that go.
pub proof fn law_what_goes_on_the_wire(
    x: Exchange,
    plan: Option<Plan>,
    language: &str,
    jar: Option<(String, usize)>,
    r: WireRequest,
)
    requires
        call_ensures(Exchange::dress, (&x, &plan, language, jar), r),
    ensures
        r.url@ == x.current@,
        r.body@ == x.body@,
        ({
            let wire = values_of(pairs(r.headers@), "content-type"@);
            let set = values_of(asked_by_page(x), "content-type"@) + values_of(
                pairs(x.caller_headers@),
                "content-type"@,
            );
            &&& set.len() > 0 ==> wire == set
            &&& set.len() == 0 && x.body@.len() > 0 && x.asked.content_type is Some ==> wire
                == seq![x.asked.content_type->Some_0@]
            &&& set.len() == 0 && (x.body@.len() == 0 || x.asked.content_type is None)
                ==> wire.len() == 0
        }),
        ({
            let set = values_of(pairs(x.caller_headers@), "cookie"@);
            let at_home = origin_of(x.current@) == origin_option(x.started_at);
            let withheld = plan matches Some(Plan::Send { send_cookies, .. }) && !send_cookies;
            r.cookies_sent == if (at_home && set.len() > 0) || withheld || jar is None {
                0
            } else {
                jar->Some_0.1
            }
        }),
{
    law_a_body_goes_with_its_content_type(x, plan, language@, jar_view(jar));
    lemma_default_names();
    lemma_own_values(x, "cookie"@);
    lemma_sets_values(caller_now(x), "cookie"@);
}

/// What a hop's record says once it is over: the number, the address, the
/// method and who asked are those of the request, and the rest is what was
/// measured.
pub proof fn law_how_a_hop_is_recorded(
    x: Exchange,
    record: RequestRecord,
    answer: Answer,
    exposure: Exposure,
    encoding: Option<String>,
    read: Result<Unpacked, String>,
    m: Measured,
    r: Conclusion,
)
    requires
        call_ensures(
            Exchange::conclude,
            (&x, &record, &answer, &exposure, &encoding, read, m),
            r,
        ),
    ensures
        r.record@.phase is Response,
        r.record@.seq == record.seq,
        r.record@.url == record.url@,
        r.record@.method == record.method@,
        r.record@.initiator == record.initiator,
        r.record@.allowed == record.allowed,
        r.record@.status == Some(answer.status),
        r.record@.duration_ms == Some(m.duration_ms),
        r.record@.ttfb_ms == Some(m.ttfb_ms),
        r.record@.cookies_sent == Some(m.cookies_sent),
        r.record@.cookies_stored == Some(m.cookies_stored),
        r.outcome@.seq == Some(record.seq),
        r.outcome@.final_url == x.current@,
        r.outcome@.error is None <==> read is Ok,
        read matches Ok(u) ==> {
            &&& r.record@.bytes == Some(u.body@.len() as u64)
            &&& r.wire_charge == u.wire
            &&& r.memory_charge == u.body@.len() as u64
            &&& received_view(r.received) == Some(u.body@)
            &&& encoding is Some ==> r.record@.wire_bytes == Some(u.wire)
                && r.record@.content_encoding == Some(encoding->Some_0@)
            &&& !(exposure is Opaque) ==> r.outcome@.body == u.body@ && r.outcome@.status == Some(
                answer.status,
            )
            &&& exposure is Opaque ==> r.outcome@.body.len() == 0 && r.outcome@.status == Some(0u16)
                && r.outcome@.opaque
        },
        read matches Err(e) ==> {
            &&& r.record@.error == Some(e@)
            &&& r.outcome@.error == Some(e@)
            &&& r.outcome@.body.len() == 0
            &&& r.outcome@.status is None
            &&& r.wire_charge == 0 && r.memory_charge == 0 && r.received is None
        },
{
}

/// A hop that got no answer, or one that may not be read, is recorded under
/// its own number with the reason, and the outcome says the same.
pub proof fn law_how_a_failed_hop_is_recorded(
    x: Exchange,
    record: RequestRecord,
    answer: Answer,
    m: Measured,
    sent: usize,
    took: u64,
    why: String,
    a: (RequestRecord, FetchOutcome),
    b: (RequestRecord, FetchOutcome),
)
    requires
        call_ensures(Exchange::unanswered, (&x, &record, took, sent, why), a),
        call_ensures(Exchange::blocked, (&x, &record, &answer, m, why), b),
    ensures
        a.0@.phase is Response && b.0@.phase is Response,
        a.0@.seq == record.seq && b.0@.seq == record.seq,
        a.0@.url == record.url@ && b.0@.url == record.url@,
        a.0@.error == Some(why@) && b.0@.error == Some(why@),
        a.0@.cookies_sent == Some(sent) && b.0@.cookies_sent == Some(m.cookies_sent),
        a.0@.ttfb_ms == Some(took) && a.0@.duration_ms == Some(took),
        b.0@.ttfb_ms == Some(m.ttfb_ms) && b.0@.duration_ms == Some(m.duration_ms),
        a.0@.status == record.status && b.0@.status == Some(answer.status),
        a.1@.error == Some(why@) && b.1@.error == Some(why@),
        a.1@.seq == Some(record.seq) && b.1@.seq == Some(record.seq),
        a.1@.status is None && b.1@.status is None,
        a.1@.body.len() == 0 && b.1@.body.len() == 0,
        a.1@.headers.len() == 0 && b.1@.headers.len() == 0,
        a.1@.final_url == x.current@ && b.1@.final_url == x.current@,
{
}

/// A refused hop says why under its number, and where its record could not be
/// written it says that instead, under none.
pub proof fn law_how_a_refused_hop_ends(
    url: Url,
    told: String,
    seq: u64,
    pair: Result<(), String>,
    r: FetchOutcome,
)
    requires
        call_ensures(refuse_hop, (&url, told, seq, pair), r),
    ensures
        r@.final_url == url@,
        r@.status is None && r@.body.len() == 0 && r@.headers.len() == 0 && !r@.opaque,
        pair is Ok ==> r@.error == Some(told@) && r@.seq == Some(seq),
        pair matches Err(e) ==> r@.error == Some("receipt sink refused: "@ + e@) && r@.seq is None,
{
}

/// What was read is taken as it is where it has no encoding, and is what its
/// encoding decodes to where it has one. The wire carried what was read.
pub proof fn law_a_body_is_unpacked_once(
    read: Result<Vec<u8>, String>,
    encoding: Option<String>,
    cap: u64,
    r: Result<Unpacked, String>,
)
    requires
        cap < u64::MAX,
        call_ensures(unpack, (read, &encoding, cap), r),
    ensures
        read is Err ==> r is Err && r->Err_0@ == read->Err_0@,
        read is Ok && encoding is None ==> r is Ok && r->Ok_0.body@ == read->Ok_0@,
        read is Ok && encoding is Some ==> (match decoded(read->Ok_0@, encoding->Some_0@, cap) {
            Ok(bytes) => r is Ok && r->Ok_0.body@ == bytes,
            Err(e) => r is Err && r->Err_0@ == e,
        }),
        r is Ok ==> r->Ok_0.wire == read->Ok_0@.len(),
{
}

/// What a plain fetch asks for, and what a script's asks under.
pub proof fn law_what_a_plain_fetch_asks(
    url: &Url,
    initiator: Initiator,
    document: &Url,
    headers: Vec<(String, String)>,
    mode: Mode,
    credentials: Credentials,
    f: Fetch,
    g: Fetch,
    c: CorsContext,
)
    requires
        call_ensures(Fetch::get, (url, initiator), f),
        call_ensures(Fetch::with_headers, (f, headers), g),
        call_ensures(script_context, (document, headers, mode, credentials), c),
    ensures
        f.url@ == url@ && f.initiator == initiator && f.method@ == "GET"@ && f.body@.len() == 0
            && f.headers@.len() == 0,
        f.content_type is None && f.max_redirects is None && f.document is None && f.cors is None,
        g.headers == headers && g.url == f.url && g.method == f.method && g.body == f.body
            && g.initiator == f.initiator && g.cors == f.cors && g.document == f.document,
        c@.document == origin_of(document@) && c@.headers == pairs(headers@) && c@.mode == mode
            && c@.credentials == credentials,
{
}

/// A failed fetch has its error and nothing else, and an outcome is good exactly
/// where it has none.
pub proof fn law_what_a_failed_fetch_is(
    url: Url,
    error: String,
    seq: Option<u64>,
    r: FetchOutcome,
    good: bool,
)
    requires
        call_ensures(FetchOutcome::failed_at, (url, error, seq), r),
        call_ensures(FetchOutcome::is_ok, (&r,), good),
    ensures
        r@.error == Some(error@) && r@.seq == seq && r@.final_url == url@,
        r@.status is None && r@.body.len() == 0 && r@.headers.len() == 0 && !r@.opaque,
        !good,
{
}

/// Where an answer points is its `Location`, completed by where the hop stands.
pub proof fn law_where_an_answer_points(x: Exchange, answer: &Answer, r: Option<Url>)
    requires
        call_ensures(Exchange::next_location, (&x, answer), r),
    ensures
        answer.location is None ==> r is None,
        answer.location matches Some(to) ==> url_option(r) == (match url_joined(
            x.current@.href,
            to@,
        ) {
            Ok(u) => Some(u),
            Err(_) => None,
        }),
{
}

} // verus!
