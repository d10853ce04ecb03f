//! The Same-Origin Policy, and the cross-origin exception to it.
use vstd::prelude::*;

use crate::text::{
    ascending, decimal, decimal_text, insert_ascending, listed_in, lower, lowered, same,
    same_but_case, split, split_on, string_view, texts, trim, trimmed, upper, uppered, view_of,
};
use crate::url::{
    authority, effective_port, implied_port, is_decodable, is_web_scheme, reads_back, twin, twin_scheme, url_parsed,
    Url, UrlView,
};

verus! {

/// A web origin: scheme, host, port. The unit the whole policy is written in.
#[derive(Debug, Clone, PartialEq, Eq)]
pub struct Origin {
    pub scheme: String,
    pub host: String,
    pub port: u16,
}

/// What an [`Origin`] holds.
pub struct OriginView {
    pub scheme: Seq<char>,
    pub host: Seq<char>,
    pub port: u16,
}

impl View for Origin {
    type V = OriginView;

    open spec fn view(&self) -> OriginView {
        OriginView { scheme: self.scheme@, host: self.host@, port: self.port }
    }
}

/// The origin of a URL: that of its HTTP twin for a socket, and none for a
/// scheme that is not a web scheme.
pub open spec fn origin_of(url: UrlView) -> Option<OriginView> {
    if !is_web_scheme(url.scheme) {
        None
    } else {
        match (url.host, effective_port(url)) {
            (Some(host), Some(port)) => Some(
                OriginView { scheme: twin_scheme(url.scheme), host: lowered(host), port },
            ),
            _ => None,
        }
    }
}

pub open spec fn origin_option(o: Option<Origin>) -> Option<OriginView> {
    match o {
        Some(origin) => Some(origin@),
        None => None,
    }
}

/// The origin as an `Origin:` header carries it: the port only where it is not
/// the scheme's own.
pub open spec fn origin_header(o: OriginView) -> Seq<char> {
    let usual: u16 = if o.scheme == "https"@ {
        443
    } else {
        80
    };
    if o.port == usual {
        o.scheme + "://"@ + o.host
    } else {
        o.scheme + "://"@ + o.host + ":"@ + decimal(o.port as nat)
    }
}

impl Origin {
    /// The origin of a URL, or `None` for one that has none.
    ///
    /// `file:` and `data:` have no origin worth comparing. `None` means
    /// "opaque", and an opaque origin is same-origin with nothing.
    pub fn of(url: &Url) -> (r: Option<Origin>)
        ensures
            origin_option(r) == origin_of(url@),
    {
        if !url.has_web_scheme() {
            return None;
        }
        match (&url.host, url.effective_port()) {
            (Some(host), Some(port)) => Some(
                Origin { scheme: twin(&url.scheme), host: lower(host), port },
            ),
            _ => None,
        }
    }

    /// The serialisation that goes in an `Origin:` header.
    pub fn header(&self) -> (r: String)
        ensures
            r@ == origin_header(self@),
    {
        let usual: u16 = if same(&self.scheme, "https") {
            443
        } else {
            80
        };
        let mut out = self.scheme.clone();
        out.append("://");
        out.append(&self.host);
        if self.port != usual {
            out.append(":");
            out.append(&decimal_text(self.port as u64));
        }
        out
    }

    pub fn copy(&self) -> (r: Origin)
        ensures
            r@ == self@,
    {
        Origin { scheme: self.scheme.clone(), host: self.host.clone(), port: self.port }
    }

    pub fn is(&self, other: &Origin) -> (r: bool)
        ensures
            r == (self@ == other@),
    {
        same(&self.scheme, &other.scheme) && same(&self.host, &other.host) && self.port
            == other.port
    }
}

/// How a request treats the origin boundary. The `mode` of `fetch`.
#[derive(Debug, Clone, Copy, PartialEq, Eq, Structural)]
pub enum Mode {
    /// Refuse to cross it at all.
    SameOrigin,
    /// Cross it by asking the server's permission. The default for `fetch`.
    Cors,
    /// Cross it without asking, and see nothing of the answer.
    NoCors,
}

impl Default for Mode {
    fn default() -> (r: Mode)
        ensures
            r == Mode::Cors,
    {
        Mode::Cors
    }
}

pub open spec fn mode_named(value: Seq<char>) -> Mode {
    let name = lowered(trimmed(value));
    if name == "same-origin"@ {
        Mode::SameOrigin
    } else if name == "no-cors"@ {
        Mode::NoCors
    } else {
        Mode::Cors
    }
}

impl Mode {
    pub fn parse(value: &str) -> (r: Mode)
        ensures
            r == mode_named(value@),
    {
        let name = lower(&trim(value));
        if same(&name, "same-origin") {
            Mode::SameOrigin
        } else if same(&name, "no-cors") {
            Mode::NoCors
        } else {
            Mode::Cors
        }
    }
}

/// Whether cookies ride along. The `credentials` of `fetch`.
#[derive(Debug, Clone, Copy, PartialEq, Eq, Structural)]
pub enum Credentials {
    Omit,
    /// Cookies for a same-origin request only. The default, and the reason a
    /// cross-origin `fetch` does not carry a session by accident.
    SameOrigin,
    Include,
}

impl Default for Credentials {
    fn default() -> (r: Credentials)
        ensures
            r == Credentials::SameOrigin,
    {
        Credentials::SameOrigin
    }
}

pub open spec fn credentials_named(value: Seq<char>) -> Credentials {
    let name = lowered(trimmed(value));
    if name == "omit"@ {
        Credentials::Omit
    } else if name == "include"@ {
        Credentials::Include
    } else {
        Credentials::SameOrigin
    }
}

impl Credentials {
    pub fn parse(value: &str) -> (r: Credentials)
        ensures
            r == credentials_named(value@),
    {
        let name = lower(&trim(value));
        if same(&name, "omit") {
            Credentials::Omit
        } else if same(&name, "include") {
            Credentials::Include
        } else {
            Credentials::SameOrigin
        }
    }
}

/// What the caller may see of a response.
#[derive(Debug, Clone, PartialEq, Eq)]
pub enum Exposure {
    /// Same-origin: everything.
    Full,
    /// Cross-origin and allowed: body and status, headers filtered to the
    /// safelist plus whatever the server exposed.
    Filtered { expose: Vec<String>, all: bool },
    /// Cross-origin `no-cors`: status 0, no headers, no body. A page can tell
    /// the request happened and nothing else, which is what makes it safe to
    /// have sent at all.
    Opaque,
}

/// What an [`Exposure`] says.
pub enum ExposureView {
    Full,
    Filtered { expose: Seq<Seq<char>>, all: bool },
    Opaque,
}

impl View for Exposure {
    type V = ExposureView;

    open spec fn view(&self) -> ExposureView {
        match self {
            Exposure::Full => ExposureView::Full,
            Exposure::Filtered { expose, all } => ExposureView::Filtered {
                expose: texts(expose@),
                all: *all,
            },
            Exposure::Opaque => ExposureView::Opaque,
        }
    }
}

/// What to do about one request, decided before it moves.
#[derive(Debug, Clone, PartialEq, Eq)]
pub enum Plan {
    /// Send it. `origin_header` is `None` for a same-origin request, which is
    /// how a server tells the two apart.
    Send {
        origin_header: Option<String>,
        send_cookies: bool,
        /// Set when the request is not simple and the server must be asked
        /// first. Carries the method and headers the preflight declares.
        preflight: Option<Preflight>,
        /// Whether the response must name this origin back before the caller
        /// sees it.
        check_response: bool,
        exposure: Exposure,
    },
    /// Refused before the wire, with the reason a page should be told.
    Blocked(String),
}

/// What a preflight asks permission for.
#[derive(Debug, Clone, PartialEq, Eq)]
pub struct Preflight {
    pub origin: String,
    pub method: String,
    pub headers: Vec<String>,
    pub credentials: bool,
}

/// What a [`Preflight`] holds.
pub struct PreflightView {
    pub origin: Seq<char>,
    pub method: Seq<char>,
    pub headers: Seq<Seq<char>>,
    pub credentials: bool,
}

impl View for Preflight {
    type V = PreflightView;

    open spec fn view(&self) -> PreflightView {
        PreflightView {
            origin: self.origin@,
            method: self.method@,
            headers: texts(self.headers@),
            credentials: self.credentials,
        }
    }
}

/// Header names and values.
pub open spec fn pairs(v: Seq<(String, String)>) -> Seq<(Seq<char>, Seq<char>)> {
    v.map_values(|p: (String, String)| (p.0@, p.1@))
}

/// Methods a cross-origin request may use without asking first.
pub open spec fn is_simple_method(method: Seq<char>) -> bool {
    method == "GET"@ || method == "HEAD"@ || method == "POST"@
}

fn simple_method(method: &str) -> (r: bool)
    ensures
        r == is_simple_method(method@),
{
    same(method, "GET") || same(method, "HEAD") || same(method, "POST")
}

/// `Content-Type` values that do not trigger a preflight.
///
/// `application/json` is deliberately *not* here: a JSON POST is exactly the
/// shape a CSRF attack takes, so it has to ask permission first.
pub open spec fn is_safe_content_type(essence: Seq<char>) -> bool {
    essence == "application/x-www-form-urlencoded"@ || essence == "multipart/form-data"@ || essence
        == "text/plain"@
}

/// Whether a header may be set cross-origin without a preflight. Of a content
/// type only what stands before its parameters counts.
pub open spec fn is_safelisted(name: Seq<char>, value: Seq<char>) -> bool {
    let lower = lowered(trimmed(name));
    if lower == "content-type"@ {
        is_safe_content_type(lowered(trimmed(split_on(value, ';')[0])))
    } else {
        lower == "accept"@ || lower == "accept-language"@ || lower == "content-language"@ || lower
            == "range"@
    }
}

pub proof fn lemma_split_some(s: Seq<char>, sep: char)
    ensures
        split_on(s, sep).len() > 0,
    decreases s.len(),
{
    if s.len() > 0 {
        lemma_split_some(s.drop_last(), sep);
    }
}

/// Whether a header may be set cross-origin without a preflight.
pub fn header_is_safelisted(name: &str, value: &str) -> (r: bool)
    ensures
        r == is_safelisted(name@, value@),
{
    let lower_name = lower(&trim(name));
    if same(&lower_name, "content-type") {
        let pieces = split(value, ';');
        proof {
            lemma_split_some(value@, ';');
            assert(texts(pieces@)[0] == pieces@[0]@);
        }
        let essence = lower(&trim(&pieces[0]));
        return same(&essence, "application/x-www-form-urlencoded") || same(
            &essence,
            "multipart/form-data",
        ) || same(&essence, "text/plain");
    }
    same(&lower_name, "accept") || same(&lower_name, "accept-language") || same(
        &lower_name,
        "content-language",
    ) || same(&lower_name, "range")
}

/// Who is asking, which is the question the whole policy turns on.
///
/// Three cases and not two: "the agent named this URL" and "a page with no
/// origin of its own asked" are opposites that both look like the *absence* of
/// an origin.
#[derive(Debug, Clone, Copy, PartialEq, Eq)]
pub enum Requester<'a> {
    /// The agent named this URL. Unrestricted.
    Agent,
    /// A document, with the origin it was served from.
    Document(&'a Origin),
    /// A document whose origin is opaque: `file:`, `data:`, or a request
    /// tainted by a cross-origin redirect. Same-origin with nothing.
    Opaque,
}

/// Who a [`Requester`] is.
pub enum RequesterView {
    Agent,
    Document(OriginView),
    Opaque,
}

impl<'a> View for Requester<'a> {
    type V = RequesterView;

    open spec fn view(&self) -> RequesterView {
        match self {
            Requester::Agent => RequesterView::Agent,
            Requester::Document(o) => RequesterView::Document(o@),
            Requester::Opaque => RequesterView::Opaque,
        }
    }
}

/// How a document names itself in an `Origin:` header: an opaque one sends the
/// literal `null`, so it cannot be granted by accident.
pub open spec fn requester_name(who: RequesterView) -> Seq<char> {
    match who {
        RequesterView::Document(o) => origin_header(o),
        _ => "null"@,
    }
}

pub fn serialize(from: Option<&Origin>) -> (r: String)
    ensures
        r@ == (match from {
            Some(o) => origin_header(o@),
            None => "null"@,
        }),
{
    match from {
        Some(origin) => origin.header(),
        None => "null".to_owned(),
    }
}

/// How strictly this session holds the origin boundary.
///
/// One knob, one thing on it: whether a page may put the session's credentials
/// on a request to another origin whose answer nobody can read.
#[derive(Debug, Clone, Copy, PartialEq, Eq, Structural)]
pub enum Stance {
    /// The default: no credential crosses on a request that cannot be checked.
    Contained,
    /// What a browser does, opted into for one session.
    Browser,
}

impl Default for Stance {
    fn default() -> (r: Stance)
        ensures
            r == Stance::Contained,
    {
        Stance::Contained
    }
}

/// A document asks for its own origin. Nobody else is same-origin with
/// anything.
pub open spec fn is_same_origin(who: RequesterView, target: UrlView) -> bool {
    who is Document && origin_of(target) == Some(who->Document_0)
}

/// The request neither needs permission nor gets less than everything.
pub open spec fn is_plain_send(r: Plan, cookies: bool) -> bool {
    r matches Plan::Send { origin_header, send_cookies, preflight, check_response, exposure }
        && origin_header is None && send_cookies == cookies && preflight is None && !check_response
        && exposure@ == ExposureView::Full
}

/// A header name that a preflight has to declare, as it declares it.
pub open spec fn must_declare(headers: Seq<(Seq<char>, Seq<char>)>, name: Seq<char>) -> bool {
    exists|i: int|
        0 <= i < headers.len() && !is_safelisted(#[trigger] headers[i].0, headers[i].1) && name
            == lowered(trimmed(headers[i].0))
}

pub open spec fn must_declare_some(headers: Seq<(Seq<char>, Seq<char>)>) -> bool {
    exists|i: int| 0 <= i < headers.len() && !is_safelisted(#[trigger] headers[i].0, headers[i].1)
}

/// The preflight asks for exactly this request: the header names are the ones
/// that must be declared, each once, in order.
pub open spec fn asks_for(
    p: PreflightView,
    origin: Seq<char>,
    method: Seq<char>,
    headers: Seq<(Seq<char>, Seq<char>)>,
    credentials: bool,
) -> bool {
    &&& p.origin == origin
    &&& p.method == uppered(method)
    &&& ascending(p.headers)
    &&& forall|name: Seq<char>| #[trigger]
        p.headers.contains(name) <==> must_declare(headers, name)
    &&& p.credentials == credentials
}

pub open spec fn same_origin_refusal(target: UrlView, who: RequesterView) -> Seq<char> {
    target.href + " is a different origin from "@ + requester_name(who)
        + ", and this request asked for `mode: \"same-origin\"`. Use `mode: \"cors\"` if the server allows it."@
}

pub open spec fn no_cors_refusal() -> Seq<char> {
    "`mode: \"no-cors\"` with `credentials: \"include\"` would send a credential to another origin and never be able to check that the server agreed, because an opaque response cannot be read. A browser does send it, and that is the classic POST-CSRF vector: to test one, open the session with `--permissive-cors`, which makes it behave like a browser here and says so in `h5i browser status`."@
}

/// What is done about one request.
pub open spec fn planned(
    who: RequesterView,
    target: UrlView,
    method: Seq<char>,
    headers: Seq<(Seq<char>, Seq<char>)>,
    mode: Mode,
    credentials: Credentials,
    stance: Stance,
    r: Plan,
) -> bool {
    if who is Agent {
        is_plain_send(r, true)
    } else if is_same_origin(who, target) {
        is_plain_send(r, credentials != Credentials::Omit)
    } else if mode == Mode::SameOrigin {
        r matches Plan::Blocked(why) && why@ == same_origin_refusal(target, who)
    } else if mode == Mode::NoCors {
        if credentials == Credentials::Include && stance == Stance::Contained {
            r matches Plan::Blocked(why) && why@ == no_cors_refusal()
        } else {
            r matches Plan::Send {
                origin_header,
                send_cookies,
                preflight,
                check_response,
                exposure,
            } && string_view(origin_header) == Some(requester_name(who)) && send_cookies == (
            credentials == Credentials::Include) && preflight is None && !check_response
                && exposure@ == ExposureView::Opaque
        }
    } else {
        r matches Plan::Send { origin_header, send_cookies, preflight, check_response, exposure }
            && string_view(origin_header) == Some(requester_name(who)) && send_cookies == (
        credentials == Credentials::Include) && (preflight is Some <==> !is_simple_method(
            uppered(method),
        ) || must_declare_some(headers)) && (preflight matches Some(p) ==> asks_for(
            p@,
            requester_name(who),
            method,
            headers,
            credentials == Credentials::Include,
        )) && check_response && exposure@ == (ExposureView::Filtered {
            expose: Seq::empty(),
            all: false,
        })
    }
}

/// The names of the headers that must be declared, each once, in order.
fn declared_names(headers: &[(String, String)]) -> (r: Vec<String>)
    ensures
        ascending(texts(r@)),
        forall|name: Seq<char>| #[trigger]
            texts(r@).contains(name) <==> must_declare(pairs(headers@), name),
        r@.len() > 0 <==> must_declare_some(pairs(headers@)),
{
    let mut out: Vec<String> = Vec::new();
    let mut i: usize = 0;
    let ghost all = pairs(headers@);
    while i < headers.len()
        invariant
            i <= headers.len(),
            all == pairs(headers@),
            ascending(texts(out@)),
            forall|name: Seq<char>| #[trigger]
                texts(out@).contains(name) <==> must_declare(all.take(i as int), name),
        decreases headers.len() - i,
    {
        let ghost seen = all.take(i as int);
        let ghost before = texts(out@);
        assert(all[i as int] == (headers@[i as int].0@, headers@[i as int].1@));
        let safe = header_is_safelisted(&headers[i].0, &headers[i].1);
        if !safe {
            insert_ascending(&mut out, lower(&trim(&headers[i].0)));
        }
        i += 1;
        proof {
            let now = all.take(i as int);
            assert(now.drop_last() =~= seen);
            assert(now.last() == all[i - 1]);
            assert forall|name: Seq<char>| #[trigger]
                texts(out@).contains(name) <==> must_declare(now, name) by {
                if must_declare(seen, name) {
                    let k = choose|k: int|
                        0 <= k < seen.len() && !is_safelisted(#[trigger] seen[k].0, seen[k].1)
                            && name == lowered(trimmed(seen[k].0));
                    assert(now[k] == seen[k]);
                    assert(!is_safelisted(now[k].0, now[k].1));
                }
                if must_declare(now, name) {
                    let k = choose|k: int|
                        0 <= k < now.len() && !is_safelisted(#[trigger] now[k].0, now[k].1) && name
                            == lowered(trimmed(now[k].0));
                    if k < i - 1 {
                        assert(seen[k] == now[k]);
                        assert(!is_safelisted(seen[k].0, seen[k].1));
                    }
                }
                if !safe && name == lowered(trimmed(all[i - 1].0)) {
                    assert(!is_safelisted(now[i - 1].0, now[i - 1].1));
                }
                assert(before.contains(name) <==> must_declare(seen, name));
            }
        }
    }
    proof {
        assert(all.take(i as int) =~= all);
        if out@.len() > 0 {
            assert(texts(out@)[0] == out@[0]@);
            assert(texts(out@).contains(out@[0]@));
            let name = out@[0]@;
            let k = choose|k: int|
                0 <= k < all.len() && !is_safelisted(#[trigger] all[k].0, all[k].1) && name
                    == lowered(trimmed(all[k].0));
            assert(!is_safelisted(all[k].0, all[k].1));
        }
        if must_declare_some(all) {
            let k = choose|k: int|
                0 <= k < all.len() && !is_safelisted(#[trigger] all[k].0, all[k].1);
            assert(must_declare(all, lowered(trimmed(all[k].0))));
            assert(texts(out@).contains(lowered(trimmed(all[k].0))));
        }
    }
    out
}

/// Decide what to do about one request.
pub fn plan(
    requester: Requester<'_>,
    target: &Url,
    method: &str,
    headers: &[(String, String)],
    mode: Mode,
    credentials: Credentials,
    stance: Stance,
) -> (r: Plan)
    ensures
        planned(
            requester@,
            target@,
            method@,
            pairs(headers@),
            mode,
            credentials,
            stance,
            r,
        ),
{
    let from: Option<&Origin> = match requester {
        Requester::Agent => {
            return Plan::Send {
                origin_header: None,
                send_cookies: true,
                preflight: None,
                check_response: false,
                exposure: Exposure::Full,
            };
        },
        Requester::Document(origin) => Some(origin),
        Requester::Opaque => None,
    };
    let to = Origin::of(target);
    // An opaque requester is same-origin with nothing, including itself.
    let same_origin = match (from, &to) {
        (Some(a), Some(b)) => a.is(b),
        _ => false,
    };
    if same_origin {
        return Plan::Send {
            origin_header: None,
            send_cookies: credentials != Credentials::Omit,
            preflight: None,
            check_response: false,
            exposure: Exposure::Full,
        };
    }
    // From here down the request crosses an origin boundary.

    let name = serialize(from);
    match mode {
        Mode::SameOrigin => {
            let mut why = target.href.clone();
            why.append(" is a different origin from ");
            why.append(&name);
            why.append(
                ", and this request asked for `mode: \"same-origin\"`. Use `mode: \"cors\"` if the server allows it.",
            );
            Plan::Blocked(why)
        },
        Mode::NoCors => {
            // Credentialed `no-cors` is the one case the stance decides.
            let send_cookies = credentials == Credentials::Include && stance == Stance::Browser;
            if credentials != Credentials::Include || send_cookies {
                Plan::Send {
                    origin_header: Some(name),
                    send_cookies,
                    preflight: None,
                    check_response: false,
                    exposure: Exposure::Opaque,
                }
            } else {
                Plan::Blocked(
                    "`mode: \"no-cors\"` with `credentials: \"include\"` would send a credential to another origin and never be able to check that the server agreed, because an opaque response cannot be read. A browser does send it, and that is the classic POST-CSRF vector: to test one, open the session with `--permissive-cors`, which makes it behave like a browser here and says so in `h5i browser status`.".to_owned(),
                )
            }
        },
        Mode::Cors => {
            let shout = upper(method);
            let simple = simple_method(&shout);
            let names = declared_names(headers);
            let send_cookies = credentials == Credentials::Include;
            let preflight = if !simple || names.len() > 0 {
                Some(
                    Preflight {
                        origin: name.clone(),
                        method: shout,
                        headers: names,
                        credentials: send_cookies,
                    },
                )
            } else {
                None
            };
            let expose: Vec<String> = Vec::new();
            assert(texts(expose@) =~= Seq::empty());
            Plan::Send {
                origin_header: Some(name),
                send_cookies,
                preflight,
                check_response: true,
                exposure: Exposure::Filtered { expose, all: false },
            }
        },
    }
}

pub open spec fn outcome(r: Result<(), String>) -> Result<(), Seq<char>> {
    match r {
        Ok(()) => Ok(()),
        Err(why) => Err(why@),
    }
}

/// Whether a response permits this origin to read it, and what a page is told
/// where it does not.
pub open spec fn response_permits(
    acao: Option<Seq<char>>,
    acac: Option<Seq<char>>,
    origin: Seq<char>,
    credentialed: bool,
) -> Result<(), Seq<char>> {
    match acao {
        None => Err(
            "the response has no `Access-Control-Allow-Origin` header, so "@ + origin
                + " may not read it. The server would have to send `Access-Control-Allow-Origin: "@
                + origin + "`."@,
        ),
        Some(raw) => {
            let named = trimmed(raw);
            if credentialed && named == "*"@ {
                Err(
                    "the response allows any origin (`Access-Control-Allow-Origin: *`), which is not enough for a credentialed request: the server must name "@
                        + origin
                        + " explicitly and send `Access-Control-Allow-Credentials: true`."@,
                )
            } else if credentialed && !(acac is Some && lowered(trimmed(acac->Some_0)) == lowered(
                "true"@,
            )) {
                Err(
                    "the response does not send `Access-Control-Allow-Credentials: true`, so a request from "@
                        + origin + " that carries cookies may not read it."@,
                )
            } else if named == "*"@ || lowered(named) == lowered(origin) {
                Ok(())
            } else {
                Err("the response allows `"@ + named + "`, which is not "@ + origin + "."@)
            }
        },
    }
}

/// Whether a response permits this origin to read it.
///
/// `Err` carries the sentence a page should be told, which names what the
/// server would have to send.
pub fn check_response(
    acao: Option<&str>,
    acac: Option<&str>,
    origin: &str,
    credentialed: bool,
) -> (r: Result<(), String>)
    ensures
        outcome(r) == response_permits(view_of(acao), view_of(acac), origin@, credentialed),
{
    let named = match acao {
        Some(raw) => trim(raw),
        None => {
            let mut why =
                "the response has no `Access-Control-Allow-Origin` header, so ".to_owned();
            why.append(origin);
            why.append(
                " may not read it. The server would have to send `Access-Control-Allow-Origin: ",
            );
            why.append(origin);
            why.append("`.");
            return Err(why);
        },
    };
    let any = same(&named, "*");
    if credentialed {
        // Two opt-ins, and the wildcard is refused rather than treated as one.
        if any {
            let mut why =
                "the response allows any origin (`Access-Control-Allow-Origin: *`), which is not enough for a credentialed request: the server must name ".to_owned();
            why.append(origin);
            why.append(" explicitly and send `Access-Control-Allow-Credentials: true`.");
            return Err(why);
        }
        let agreed = match acac {
            Some(raw) => same_but_case(&trim(raw), "true"),
            None => false,
        };
        if !agreed {
            let mut why =
                "the response does not send `Access-Control-Allow-Credentials: true`, so a request from ".to_owned();
            why.append(origin);
            why.append(" that carries cookies may not read it.");
            return Err(why);
        }
    }
    if any || same_but_case(&named, origin) {
        Ok(())
    } else {
        let mut why = "the response allows `".to_owned();
        why.append(&named);
        why.append("`, which is not ");
        why.append(origin);
        why.append(".");
        Err(why)
    }
}

/// The items of a comma-separated header, trimmed and in small letters.
pub open spec fn items(raw: Option<Seq<char>>) -> Seq<Seq<char>> {
    match raw {
        Some(t) => split_on(t, ',').map_values(|p: Seq<char>| lowered(trimmed(p))),
        None => Seq::empty(),
    }
}

fn list_items(raw: Option<&str>) -> (r: Vec<String>)
    ensures
        texts(r@) == items(view_of(raw)),
{
    let mut out: Vec<String> = Vec::new();
    if let Some(t) = raw {
        let pieces = split(t, ',');
        let ghost all = split_on(t@, ',');
        let mut i: usize = 0;
        while i < pieces.len()
            invariant
                i <= pieces.len(),
                texts(pieces@) == all,
                texts(out@) == all.take(i as int).map_values(
                    |p: Seq<char>| lowered(trimmed(p)),
                ),
            decreases pieces.len() - i,
        {
            assert(all[i as int] == pieces@[i as int]@);
            let item = lower(&trim(&pieces[i]));
            let ghost before = out@;
            out.push(item);
            i += 1;
            assert(texts(out@) =~= texts(before).push(item@));
            assert(all.take(i as int) =~= all.take(i - 1).push(all[i - 1]));
        }
        assert(all.take(i as int) =~= all);
    }
    assert(raw is None ==> texts(out@) =~= Seq::empty());
    out
}

/// A header that a preflight asked about is agreed to: by name, or by a
/// wildcard that covers it. A wildcard covers nothing on a credentialed
/// request, and `authorization` never.
pub open spec fn is_agreed(wanted: Seq<char>, allowed: Seq<Seq<char>>, credentials: bool) -> bool {
    (allowed.contains("*"@) && !credentials && wanted != "authorization"@) || allowed.contains(
        wanted,
    )
}

/// The first header that was not agreed to.
pub open spec fn first_refused(
    wanted: Seq<Seq<char>>,
    allowed: Seq<Seq<char>>,
    credentials: bool,
) -> Option<Seq<char>>
    decreases wanted.len(),
{
    if wanted.len() == 0 {
        None
    } else if !is_agreed(wanted[0], allowed, credentials) {
        Some(wanted[0])
    } else {
        first_refused(wanted.drop_first(), allowed, credentials)
    }
}

/// The method is agreed to: by name, by a wildcard that covers it, or because
/// it never needs to be.
pub open spec fn method_agreed(ask: PreflightView, allowed: Seq<Seq<char>>) -> bool {
    ||| allowed.contains("*"@) && !ask.credentials
    ||| allowed.contains(lowered(ask.method))
    ||| is_simple_method(ask.method)
}

/// Whether a preflight's answer permits the request it was asked about, and
/// what a page is told where it does not.
pub open spec fn preflight_permits(
    ask: PreflightView,
    acao: Option<Seq<char>>,
    acac: Option<Seq<char>>,
    allow_methods: Option<Seq<char>>,
    allow_headers: Option<Seq<char>>,
) -> Result<(), Seq<char>> {
    let allowed = items(allow_headers);
    match response_permits(acao, acac, ask.origin, ask.credentials) {
        Err(why) => Err(why),
        Ok(()) => if !method_agreed(ask, items(allow_methods)) {
            Err(
                "the preflight does not allow `"@ + ask.method
                    + "`. The server would have to send `Access-Control-Allow-Methods: "@
                    + ask.method + "`."@,
            )
        } else {
            match first_refused(ask.headers, allowed, ask.credentials) {
                None => Ok(()),
                Some(wanted) => if wanted == "authorization"@ && allowed.contains("*"@) {
                    Err(
                        "the preflight allows `*`, and `*` does not cover `Authorization`: a server must name that header in `Access-Control-Allow-Headers` before a page may send it to another origin."@,
                    )
                } else {
                    Err(
                        "the preflight does not allow the `"@ + wanted
                            + "` header. The server would have to list it in `Access-Control-Allow-Headers`."@,
                    )
                },
            }
        },
    }
}

/// Whether a preflight's answer permits the request it was asked about.
pub fn check_preflight(
    ask: &Preflight,
    acao: Option<&str>,
    acac: Option<&str>,
    allow_methods: Option<&str>,
    allow_headers: Option<&str>,
) -> (r: Result<(), String>)
    ensures
        outcome(r) == preflight_permits(
            ask@,
            view_of(acao),
            view_of(acac),
            view_of(allow_methods),
            view_of(allow_headers),
        ),
{
    match check_response(acao, acac, &ask.origin, ask.credentials) {
        Ok(()) => {},
        Err(why) => {
            return Err(why);
        },
    }
    let methods = list_items(allow_methods);
    let method_ok = (listed_in(&methods, "*") && !ask.credentials) || listed_in(
        &methods,
        &lower(&ask.method),
    ) || simple_method(&ask.method);
    if !method_ok {
        let mut why = "the preflight does not allow `".to_owned();
        why.append(&ask.method);
        why.append("`. The server would have to send `Access-Control-Allow-Methods: ");
        why.append(&ask.method);
        why.append("`.");
        return Err(why);
    }
    let allowed = list_items(allow_headers);
    let any = listed_in(&allowed, "*");
    let ghost wanted_all = texts(ask.headers@);
    let ghost agreed_all = items(view_of(allow_headers));
    let mut i: usize = 0;
    assert(wanted_all.skip(0) =~= wanted_all);
    while i < ask.headers.len()
        invariant
            i <= ask.headers.len(),
            wanted_all == texts(ask.headers@),
            ask@.headers == wanted_all,
            texts(allowed@) == agreed_all,
            agreed_all == items(view_of(allow_headers)),
            any == agreed_all.contains("*"@),
            response_permits(view_of(acao), view_of(acac), ask.origin@, ask.credentials) == Ok::<
                (),
                Seq<char>,
            >(()),
            method_agreed(ask@, items(view_of(allow_methods))),
            first_refused(wanted_all, agreed_all, ask.credentials) == first_refused(
                wanted_all.skip(i as int),
                agreed_all,
                ask.credentials,
            ),
        decreases ask.headers.len() - i,
    {
        let wanted = &ask.headers[i];
        assert(wanted_all.skip(i as int)[0] == wanted@);
        assert(wanted_all.skip(i as int).drop_first() =~= wanted_all.skip(i + 1));
        let carved_out = same(wanted, "authorization");
        let covered = any && !ask.credentials && !carved_out;
        if covered || listed_in(&allowed, wanted) {
            i += 1;
            continue ;
        }
        if carved_out && any {
            return Err(
                "the preflight allows `*`, and `*` does not cover `Authorization`: a server must name that header in `Access-Control-Allow-Headers` before a page may send it to another origin.".to_owned(),
            );
        }
        let mut why = "the preflight does not allow the `".to_owned();
        why.append(wanted);
        why.append(
            "` header. The server would have to list it in `Access-Control-Allow-Headers`.",
        );
        return Err(why);
    }
    Ok(())
}

/// What `Access-Control-Expose-Headers` exposes. A wildcard exposes nothing of
/// a credentialed response.
pub open spec fn exposed(raw: Option<Seq<char>>, credentialed: bool) -> ExposureView {
    ExposureView::Filtered {
        expose: items(raw).filter(|t: Seq<char>| t != "*"@ && t.len() > 0),
        all: items(raw).contains("*"@) && !credentialed,
    }
}

/// Read `Access-Control-Expose-Headers` into an exposure.
pub fn exposure_from(raw: Option<&str>, credentialed: bool) -> (r: Exposure)
    ensures
        r@ == exposed(view_of(raw), credentialed),
{
    let all = list_items(raw);
    let any = listed_in(&all, "*");
    let ghost every = texts(all@);
    let ghost keep = |t: Seq<char>| t != "*"@ && t.len() > 0;
    let mut expose: Vec<String> = Vec::new();
    let mut i: usize = 0;
    proof {
        reveal(Seq::filter);
        assert(texts(expose@) =~= every.take(0).filter(keep));
    }
    while i < all.len()
        invariant
            i <= all.len(),
            every == texts(all@),
            keep == (|t: Seq<char>| t != "*"@ && t.len() > 0),
            texts(expose@) == every.take(i as int).filter(keep),
        decreases all.len() - i,
    {
        let ghost before = expose@;
        assert(every[i as int] == all@[i as int]@);
        if !same(&all[i], "*") && !all[i].as_str().is_empty() {
            expose.push(all[i].clone());
            assert(texts(expose@) =~= texts(before).push(every[i as int]));
        }
        i += 1;
        proof {
            reveal(Seq::filter);
            assert(every.take(i as int).drop_last() =~= every.take(i - 1));
            assert(every.take(i as int).last() == every[i - 1]);
        }
    }
    assert(every.take(i as int) =~= every);
    Exposure::Filtered { expose, all: any && !credentialed }
}

/// Response headers no caller ever sees, however the exposure was decided.
///
/// `Set-Cookie` is the reason the list exists: `document.cookie` withholds
/// `HttpOnly` cookies, and a response header handed to script gives back
/// exactly what that withholding took away.
pub open spec fn is_forbidden(name: Seq<char>) -> bool {
    lowered(name) == "set-cookie"@ || lowered(name) == "set-cookie2"@
}

/// Response headers a cross-origin caller sees without the server exposing
/// them.
pub open spec fn is_always_exposed(name: Seq<char>) -> bool {
    let lower = lowered(name);
    lower == "cache-control"@ || lower == "content-language"@ || lower == "content-length"@ || lower
        == "content-type"@ || lower == "expires"@ || lower == "last-modified"@ || lower
        == "pragma"@
}

/// A header of that name reaches a caller with that exposure.
pub open spec fn is_visible(name: Seq<char>, exposure: ExposureView) -> bool {
    !is_forbidden(name) && match exposure {
        ExposureView::Full => true,
        ExposureView::Opaque => false,
        ExposureView::Filtered { expose, all } => is_always_exposed(name) || all
            || expose.contains(lowered(name)),
    }
}

/// The response headers that a caller with that exposure sees.
pub open spec fn visible_headers(
    headers: Seq<(Seq<char>, Seq<char>)>,
    exposure: ExposureView,
) -> Seq<(Seq<char>, Seq<char>)> {
    headers.filter(|h: (Seq<char>, Seq<char>)| is_visible(h.0, exposure))
}

fn visible(name: &str, exposure: &Exposure) -> (r: bool)
    ensures
        r == is_visible(name@, exposure@),
{
    let low = lower(name);
    if same(&low, "set-cookie") || same(&low, "set-cookie2") {
        return false;
    }
    match exposure {
        Exposure::Full => true,
        Exposure::Opaque => false,
        Exposure::Filtered { expose, all } => {
            same(&low, "cache-control") || same(&low, "content-language") || same(
                &low,
                "content-length",
            ) || same(&low, "content-type") || same(&low, "expires") || same(&low, "last-modified")
                || same(&low, "pragma") || *all || listed_in(expose, &low)
        },
    }
}

/// Drop the response headers this caller may not see.
pub fn filter_headers(headers: &[(String, String)], exposure: &Exposure) -> (r: Vec<
    (String, String),
>)
    ensures
        pairs(r@) == visible_headers(pairs(headers@), exposure@),
{
    let mut out: Vec<(String, String)> = Vec::new();
    let ghost every = pairs(headers@);
    let ghost keep = |h: (Seq<char>, Seq<char>)| is_visible(h.0, exposure@);
    let mut i: usize = 0;
    proof {
        reveal(Seq::filter);
        assert(pairs(out@) =~= every.take(0).filter(keep));
    }
    while i < headers.len()
        invariant
            i <= headers.len(),
            every == pairs(headers@),
            keep == (|h: (Seq<char>, Seq<char>)| is_visible(h.0, exposure@)),
            pairs(out@) == every.take(i as int).filter(keep),
        decreases headers.len() - i,
    {
        let ghost before = out@;
        assert(every[i as int] == (headers@[i as int].0@, headers@[i as int].1@));
        if visible(&headers[i].0, exposure) {
            out.push((headers[i].0.clone(), headers[i].1.clone()));
            assert(pairs(out@) =~= pairs(before).push(every[i as int]));
        }
        i += 1;
        proof {
            reveal(Seq::filter);
            assert(every.take(i as int).drop_last() =~= every.take(i - 1));
            assert(every.take(i as int).last() == every[i - 1]);
        }
    }
    assert(every.take(i as int) =~= every);
    out
}

/// A credential header is never among what a caller sees, whatever the
/// exposure and whatever the server listed in it.
pub proof fn law_forbidden_headers_are_never_visible(
    headers: Seq<(Seq<char>, Seq<char>)>,
    exposure: ExposureView,
    seen: (Seq<char>, Seq<char>),
)
    requires
        visible_headers(headers, exposure).contains(seen),
    ensures
        !is_forbidden(seen.0),
        headers.contains(seen),
    decreases headers.len(),
{
    reveal(Seq::filter);
    let keep = |h: (Seq<char>, Seq<char>)| is_visible(h.0, exposure);
    if headers.len() > 0 {
        let rest = headers.drop_last();
        if visible_headers(rest, exposure).contains(seen) {
            law_forbidden_headers_are_never_visible(rest, exposure, seen);
            let k = choose|k: int| 0 <= k < rest.len() && rest[k] == seen;
            assert(headers[k] == seen);
        } else {
            let all = headers.filter(keep);
            let k = choose|k: int| 0 <= k < all.len() && all[k] == seen;
            if k < rest.filter(keep).len() {
                assert(rest.filter(keep)[k] == seen);
            }
            assert(headers.last() == seen);
            assert(headers[headers.len() - 1] == seen);
        }
    }
}

/// An opaque response shows no header at all.
pub proof fn law_opaque_shows_nothing(headers: Seq<(Seq<char>, Seq<char>)>)
    ensures
        visible_headers(headers, ExposureView::Opaque) == Seq::<(Seq<char>, Seq<char>)>::empty(),
    decreases headers.len(),
{
    reveal(Seq::filter);
    if headers.len() > 0 {
        law_opaque_shows_nothing(headers.drop_last());
    }
}

/// A wildcard never exposes the headers of a credentialed response.
pub proof fn law_wildcard_exposes_nothing_credentialed(raw: Option<Seq<char>>)
    ensures
        exposed(raw, true) matches ExposureView::Filtered { all, .. } && !all,
{
}

/// A credentialed read is permitted only by a server that named this origin
/// and said that credentials are allowed. A wildcard is neither.
pub proof fn law_credentialed_read_needs_both_opt_ins(
    acao: Option<Seq<char>>,
    acac: Option<Seq<char>>,
    origin: Seq<char>,
)
    requires
        response_permits(acao, acac, origin, true) is Ok,
    ensures
        acao is Some,
        trimmed(acao->Some_0) != "*"@,
        lowered(trimmed(acao->Some_0)) == lowered(origin),
        acac is Some,
        lowered(trimmed(acac->Some_0)) == lowered("true"@),
{
}

/// A permitted preflight permits every header it asked about.
proof fn lemma_none_refused(
    wanted: Seq<Seq<char>>,
    allowed: Seq<Seq<char>>,
    credentials: bool,
    header: Seq<char>,
)
    requires
        first_refused(wanted, allowed, credentials) is None,
        wanted.contains(header),
    ensures
        is_agreed(header, allowed, credentials),
    decreases wanted.len(),
{
    if wanted.len() > 0 && wanted[0] != header {
        let k = choose|k: int| 0 <= k < wanted.len() && wanted[k] == header;
        assert(wanted.drop_first()[k - 1] == header);
        lemma_none_refused(wanted.drop_first(), allowed, credentials, header);
    }
}

/// A credentialed request passes its preflight only where every header was
/// agreed to by name, and the method by name unless it is a simple one.
pub proof fn law_wildcard_preflight_does_not_cover_credentials(
    ask: PreflightView,
    acao: Option<Seq<char>>,
    acac: Option<Seq<char>>,
    allow_methods: Option<Seq<char>>,
    allow_headers: Option<Seq<char>>,
    header: Seq<char>,
)
    requires
        preflight_permits(ask, acao, acac, allow_methods, allow_headers) is Ok,
        ask.credentials,
        ask.headers.contains(header),
    ensures
        items(allow_headers).contains(header),
        is_simple_method(ask.method) || items(allow_methods).contains(lowered(ask.method)),
{
    lemma_none_refused(ask.headers, items(allow_headers), ask.credentials, header);
}

/// `Authorization` crosses only to a server that named it: no wildcard covers
/// it, with credentials or without.
pub proof fn law_wildcard_preflight_does_not_cover_authorization(
    ask: PreflightView,
    acao: Option<Seq<char>>,
    acac: Option<Seq<char>>,
    allow_methods: Option<Seq<char>>,
    allow_headers: Option<Seq<char>>,
)
    requires
        preflight_permits(ask, acao, acac, allow_methods, allow_headers) is Ok,
        ask.headers.contains("authorization"@),
    ensures
        items(allow_headers).contains("authorization"@),
{
    lemma_none_refused(ask.headers, items(allow_headers), ask.credentials, "authorization"@);
}

/// An opaque document is same-origin with nothing, itself included: what it
/// sends names it `null`, and it never sees a whole response.
pub proof fn law_opaque_is_same_origin_with_nothing(
    target: UrlView,
    method: Seq<char>,
    headers: Seq<(Seq<char>, Seq<char>)>,
    mode: Mode,
    credentials: Credentials,
    stance: Stance,
    r: Plan,
)
    requires
        planned(RequesterView::Opaque, target, method, headers, mode, credentials, stance, r),
    ensures
        r matches Plan::Send { origin_header, exposure, .. } ==> string_view(origin_header) == Some(
            "null"@,
        ) && exposure@ != ExposureView::Full,
{
}

/// The stance decides about a credentialed `no-cors` request to another origin
/// and about nothing else.
pub proof fn law_stance_widens_nothing_else(
    who: RequesterView,
    target: UrlView,
    method: Seq<char>,
    headers: Seq<(Seq<char>, Seq<char>)>,
    mode: Mode,
    credentials: Credentials,
    r: Plan,
)
    requires
        who is Agent || is_same_origin(who, target) || mode != Mode::NoCors || credentials
            != Credentials::Include,
    ensures
        planned(who, target, method, headers, mode, credentials, Stance::Contained, r) == planned(
            who,
            target,
            method,
            headers,
            mode,
            credentials,
            Stance::Browser,
            r,
        ),
{
}

/// A document's request that crosses an origin carries cookies only where it
/// asked to, and under the default stance only where the answer is checked.
pub proof fn law_cookies_cross_only_on_request(
    who: RequesterView,
    target: UrlView,
    method: Seq<char>,
    headers: Seq<(Seq<char>, Seq<char>)>,
    mode: Mode,
    credentials: Credentials,
    stance: Stance,
    r: Plan,
)
    requires
        !(who is Agent),
        !is_same_origin(who, target),
        planned(who, target, method, headers, mode, credentials, stance, r),
    ensures
        r matches Plan::Send { send_cookies, check_response, .. } ==> send_cookies ==> credentials
            == Credentials::Include && (stance == Stance::Contained ==> check_response),
{
}

/// What a document reads of another origin was checked against the response:
/// anything that is not checked is opaque.
pub proof fn law_cross_origin_read_is_checked(
    who: RequesterView,
    target: UrlView,
    method: Seq<char>,
    headers: Seq<(Seq<char>, Seq<char>)>,
    mode: Mode,
    credentials: Credentials,
    stance: Stance,
    r: Plan,
)
    requires
        !(who is Agent),
        !is_same_origin(who, target),
        planned(who, target, method, headers, mode, credentials, stance, r),
    ensures
        r matches Plan::Send { check_response, exposure, .. } ==> check_response || exposure@
            == ExposureView::Opaque,
        mode == Mode::SameOrigin ==> r is Blocked,
{
}

/// An origin is read back from its header: parsing what [`Origin::header`]
/// gives of a URL that was read gives a URL of that same origin. The header
/// carries a port exactly where it is not the scheme's own. The one host that
/// does not come back has a label in another script whose ASCII form is longer
/// than the parser decodes.
pub proof fn law_an_origin_is_read_back_from_its_header(u: UrlView, o: OriginView)
    requires
        reads_back(u),
        origin_of(u) == Some(o),
        is_decodable(u.host->Some_0),
    ensures
        url_parsed(origin_header(o)) matches Ok(w) && origin_of(w) == Some(o),
        origin_header(o) == o.scheme + "://"@ + authority(
            o.host,
            if implied_port(o.scheme) == Some(o.port) {
                None
            } else {
                Some(o.port)
            },
        ),
{
    reveal_strlit("http");
    reveal_strlit("https");
    reveal_strlit("ws");
    reveal_strlit("wss");
    assert("http"@.len() == 4 && "https"@.len() == 5);
    assert(implied_port(twin_scheme(u.scheme)) == implied_port(u.scheme));
    assert(origin_header(o) =~= o.scheme + "://"@ + authority(o.host, u.port));
}

// --------------------------------------------------- the rules, name by name

/// Across an origin, under `cors`, a request goes out unasked only if its
/// method in capitals is `GET`, `HEAD` or `POST`, and any other is asked
/// about by that name. `DELETE`, `PUT` and `PATCH` are among the others.
pub proof fn law_any_other_method_is_asked_about(
    who: RequesterView,
    target: UrlView,
    method: Seq<char>,
    headers: Seq<(Seq<char>, Seq<char>)>,
    credentials: Credentials,
    stance: Stance,
    r: Plan,
)
    requires
        planned(who, target, method, headers, Mode::Cors, credentials, stance, r),
        !(who is Agent),
        who is Document ==> origin_of(target) != Some(who->Document_0),
        uppered(method) != "GET"@,
        uppered(method) != "HEAD"@,
        uppered(method) != "POST"@,
    ensures
        r is Send,
        r->preflight is Some,
        r->preflight->Some_0@.method == uppered(method),
{
}

/// Across an origin, under `cors`, a request is asked about exactly where its
/// method in capitals is none of `GET`, `HEAD` and `POST`, or where one of
/// its headers, trimmed and in any case, is neither `accept`,
/// `accept-language`, `content-language` nor `range`, nor a `content-type` of
/// one of the three kinds a form can send.
pub proof fn law_what_goes_out_unasked(
    who: RequesterView,
    target: UrlView,
    method: Seq<char>,
    headers: Seq<(Seq<char>, Seq<char>)>,
    credentials: Credentials,
    stance: Stance,
    r: Plan,
)
    requires
        planned(who, target, method, headers, Mode::Cors, credentials, stance, r),
        !(who is Agent),
        who is Document ==> origin_of(target) != Some(who->Document_0),
    ensures
        r is Send,
        r->preflight is None <==> {
            &&& uppered(method) == "GET"@ || uppered(method) == "HEAD"@ || uppered(method)
                == "POST"@
            &&& forall|i: int|
                0 <= i < headers.len() ==> {
                    let n = lowered(trimmed(#[trigger] headers[i].0));
                    let kind = lowered(trimmed(split_on(headers[i].1, ';')[0]));
                    ||| n == "accept"@
                    ||| n == "accept-language"@
                    ||| n == "content-language"@
                    ||| n == "range"@
                    ||| n == "content-type"@ && kind == "application/x-www-form-urlencoded"@
                    ||| n == "content-type"@ && kind == "multipart/form-data"@
                    ||| n == "content-type"@ && kind == "text/plain"@
                }
        },
{
    reveal_strlit("content-type");
    reveal_strlit("accept");
    reveal_strlit("accept-language");
    reveal_strlit("content-language");
    reveal_strlit("range");
    assert("content-type"@.len() == 12 && "accept"@.len() == 6 && "accept-language"@.len() == 15
        && "content-language"@.len() == 16 && "range"@.len() == 5);
    assert forall|i: int| 0 <= i < headers.len() implies (is_safelisted(
        #[trigger] headers[i].0,
        headers[i].1,
    ) <==> {
        let n = lowered(trimmed(headers[i].0));
        let kind = lowered(trimmed(split_on(headers[i].1, ';')[0]));
        ||| n == "accept"@
        ||| n == "accept-language"@
        ||| n == "content-language"@
        ||| n == "range"@
        ||| n == "content-type"@ && kind == "application/x-www-form-urlencoded"@
        ||| n == "content-type"@ && kind == "multipart/form-data"@
        ||| n == "content-type"@ && kind == "text/plain"@
    }) by {}
}

/// What is asked about beforehand: the origin that asks, the method in
/// capitals, whether cookies would go, and by name, lowered, once and in
/// order, just the headers that do not go out unasked.
pub proof fn law_what_a_preflight_asks(
    who: RequesterView,
    target: UrlView,
    method: Seq<char>,
    headers: Seq<(Seq<char>, Seq<char>)>,
    credentials: Credentials,
    stance: Stance,
    r: Plan,
    name: Seq<char>,
)
    requires
        planned(who, target, method, headers, Mode::Cors, credentials, stance, r),
        !(who is Agent),
        who is Document ==> origin_of(target) != Some(who->Document_0),
        r->preflight is Some,
    ensures
        ({
            let ask = r->preflight->Some_0@;
            &&& string_view(r->origin_header) == Some(ask.origin)
            &&& ask.method == uppered(method)
            &&& ask.credentials <==> credentials is Include
            &&& ask.headers.no_duplicates()
            &&& forall|i: int, j: int|
                0 <= i < j < ask.headers.len() ==> crate::text::text_less(
                    #[trigger] ask.headers[i],
                    #[trigger] ask.headers[j],
                )
            &&& name != "content-type"@ ==> (ask.headers.contains(name) <==> name != "accept"@
                && name != "accept-language"@ && name != "content-language"@ && name != "range"@
                && exists|i: int|
                0 <= i < headers.len() && lowered(trimmed(#[trigger] headers[i].0)) == name)
            &&& ask.headers.contains("content-type"@) <==> exists|i: int|
                {
                    let kind = lowered(trimmed(split_on(headers[i].1, ';')[0]));
                    0 <= i < headers.len() && lowered(trimmed(#[trigger] headers[i].0))
                        == "content-type"@ && kind != "application/x-www-form-urlencoded"@ && kind
                        != "multipart/form-data"@ && kind != "text/plain"@
                }
        }),
{
    let ask = r->preflight->Some_0@;
    reveal_strlit("content-type");
    reveal_strlit("accept");
    reveal_strlit("accept-language");
    reveal_strlit("content-language");
    reveal_strlit("range");
    assert forall|i: int, j: int| 0 <= i < j < ask.headers.len() implies ask.headers[i]
        != ask.headers[j] by {
        assert(crate::text::text_less(ask.headers[i], ask.headers[j]));
        lemma_not_less_than_itself(ask.headers[i]);
    }
    assert(ask.headers.contains(name) <==> must_declare(headers, name));
    assert(ask.headers.contains("content-type"@) <==> must_declare(headers, "content-type"@));
}

proof fn lemma_not_less_than_itself(a: Seq<char>)
    ensures
        !crate::text::text_less(a, a),
    decreases a.len(),
{
    if a.len() > 0 {
        lemma_not_less_than_itself(a.drop_first());
    }
}

/// The agent's own request, and a page's to its own origin, go out with
/// nothing announced, nothing asked, nothing checked and nothing hidden. The
/// agent's always carries cookies, a page's unless it said to omit them.
pub proof fn law_what_is_not_cross_origin_is_free(
    who: RequesterView,
    target: UrlView,
    method: Seq<char>,
    headers: Seq<(Seq<char>, Seq<char>)>,
    mode: Mode,
    credentials: Credentials,
    stance: Stance,
    r: Plan,
)
    requires
        planned(who, target, method, headers, mode, credentials, stance, r),
        who is Agent || (who is Document && origin_of(target) == Some(who->Document_0)),
    ensures
        r is Send,
        r->origin_header is None,
        r->preflight is None,
        !r->check_response,
        r->exposure@ is Full,
        r->send_cookies <==> who is Agent || !(credentials is Omit),
{
}

/// Across an origin `same-origin` is refused. `no-cors` goes out unchecked and
/// comes back hidden, but for a contained engine asked to carry cookies, which
/// refuses. `cors` always goes out, is checked, and shows what is listed.
/// Cookies cross only where they are to be included, and the origin is
/// announced whenever the request goes.
pub proof fn law_what_each_mode_does_across_an_origin(
    who: RequesterView,
    target: UrlView,
    method: Seq<char>,
    headers: Seq<(Seq<char>, Seq<char>)>,
    mode: Mode,
    credentials: Credentials,
    stance: Stance,
    r: Plan,
)
    requires
        planned(who, target, method, headers, mode, credentials, stance, r),
        !(who is Agent),
        who is Document ==> origin_of(target) != Some(who->Document_0),
    ensures
        r is Blocked <==> mode is SameOrigin || (mode is NoCors && credentials is Include && stance
            is Contained),
        r is Send ==> {
            &&& r->check_response <==> mode is Cors
            &&& r->exposure@ is Opaque <==> mode is NoCors
            &&& r->exposure@ is Filtered <==> mode is Cors
            &&& mode is Cors ==> r->exposure@->expose.len() == 0 && !r->exposure@->all
            &&& r->send_cookies <==> credentials is Include
            &&& r->origin_header is Some
            &&& who is Opaque ==> string_view(r->origin_header) == Some("null"@)
            &&& mode is NoCors ==> r->preflight is None
        },
{
}

/// An origin is announced by its scheme and host, and by its port unless that
/// is 443 for `https` or 80 for anything else.
pub proof fn law_how_an_origin_is_announced(
    who: OriginView,
    target: UrlView,
    method: Seq<char>,
    headers: Seq<(Seq<char>, Seq<char>)>,
    mode: Mode,
    credentials: Credentials,
    stance: Stance,
    r: Plan,
)
    requires
        planned(
            RequesterView::Document(who),
            target,
            method,
            headers,
            mode,
            credentials,
            stance,
            r,
        ),
        origin_of(target) != Some(who),
        r is Send,
    ensures
        ({
            let named = string_view(r->origin_header)->Some_0;
            let short = who.scheme + "://"@ + who.host;
            let usual = (who.scheme == "https"@ && who.port == 443) || (who.scheme != "https"@
                && who.port == 80);
            &&& r->origin_header is Some
            &&& usual ==> named == short
            &&& !usual ==> named == short + ":"@ + decimal(who.port as nat)
        }),
{
}

/// Only `http`, `https`, `ws` and `wss` have origins. A socket has that of
/// the scheme it is dressed in. The host is in lower case, and the port is the
/// one written, or 80 for `http` and `ws` and 443 for `https` and `wss`.
pub proof fn law_what_origin_an_address_has(url: UrlView)
    ensures
        origin_of(url) is Some <==> url.host is Some && (url.scheme == "http"@ || url.scheme
            == "https"@ || url.scheme == "ws"@ || url.scheme == "wss"@),
        origin_of(url) matches Some(o) ==> {
            &&& o.host == lowered(url.host->Some_0)
            &&& o.scheme == (if url.scheme == "http"@ || url.scheme == "ws"@ {
                "http"@
            } else {
                "https"@
            })
            &&& url.port is Some ==> o.port == url.port->Some_0
            &&& url.port is None ==> o.port == (if url.scheme == "http"@ || url.scheme == "ws"@ {
                80
            } else {
                443u16
            })
        },
{
    reveal_strlit("http");
    reveal_strlit("https");
    reveal_strlit("ws");
    reveal_strlit("wss");
    reveal_strlit("ftp");
}

/// A preflight lets the request through exactly where it names the origin as
/// a response must, where the method is `GET`, `HEAD`, `POST`, listed in any
/// case, or covered by `*`, and where each header that was asked about is
/// listed or covered by `*`. `*` covers nothing where cookies would go, and
/// never `authorization`.
pub proof fn law_what_a_preflight_lets_through(
    ask: PreflightView,
    acao: Option<Seq<char>>,
    acac: Option<Seq<char>>,
    allow_methods: Option<Seq<char>>,
    allow_headers: Option<Seq<char>>,
)
    ensures
        preflight_permits(ask, acao, acac, allow_methods, allow_headers) is Ok <==> {
            &&& response_permits(acao, acac, ask.origin, ask.credentials) is Ok
            &&& {
                ||| ask.method == "GET"@
                ||| ask.method == "HEAD"@
                ||| ask.method == "POST"@
                ||| lists(allow_methods, lowered(ask.method))
                ||| lists(allow_methods, "*"@) && !ask.credentials
            }
            &&& forall|i: int|
                0 <= i < ask.headers.len() ==> {
                    ||| lists(allow_headers, #[trigger] ask.headers[i])
                    ||| lists(allow_headers, "*"@) && !ask.credentials && ask.headers[i]
                        != "authorization"@
                }
        },
{
    assert forall|w: Seq<char>| lists(allow_headers, w) <==> #[trigger] items(
        allow_headers,
    ).contains(w) by {
        lemma_lists_items(allow_headers, w);
    }
    assert forall|w: Seq<char>| lists(allow_methods, w) <==> #[trigger] items(
        allow_methods,
    ).contains(w) by {
        lemma_lists_items(allow_methods, w);
    }
    lemma_first_refused_all(ask.headers, items(allow_headers), ask.credentials);
}

/// One of the pieces between the commas, trimmed and lowered, is the word.
pub open spec fn lists(raw: Option<Seq<char>>, word: Seq<char>) -> bool {
    raw is Some && exists|i: int|
        0 <= i < split_on(raw->Some_0, ',').len() && lowered(
            trimmed(#[trigger] split_on(raw->Some_0, ',')[i]),
        ) == word
}

proof fn lemma_lists_items(raw: Option<Seq<char>>, word: Seq<char>)
    ensures
        lists(raw, word) <==> items(raw).contains(word),
{
    if let Some(t) = raw {
        let pieces = split_on(t, ',');
        assert(items(raw).len() == pieces.len());
        assert forall|i: int| 0 <= i < pieces.len() implies items(raw)[i] == lowered(
            trimmed(#[trigger] pieces[i]),
        ) by {}
        if items(raw).contains(word) {
            let i = choose|i: int| 0 <= i < items(raw).len() && items(raw)[i] == word;
            assert(lowered(trimmed(pieces[i])) == word);
        }
        if lists(raw, word) {
            let i = choose|i: int|
                0 <= i < pieces.len() && lowered(trimmed(#[trigger] pieces[i])) == word;
            assert(items(raw)[i] == word);
        }
    }
}

proof fn lemma_first_refused_all(
    wanted: Seq<Seq<char>>,
    allowed: Seq<Seq<char>>,
    credentials: bool,
)
    ensures
        first_refused(wanted, allowed, credentials) is None <==> forall|i: int|
            0 <= i < wanted.len() ==> is_agreed(#[trigger] wanted[i], allowed, credentials),
    decreases wanted.len(),
{
    if wanted.len() > 0 {
        let rest = wanted.drop_first();
        lemma_first_refused_all(rest, allowed, credentials);
        assert(wanted[0] == wanted[0]);
        assert forall|i: int| 0 <= i < rest.len() implies #[trigger] rest[i] == wanted[i + 1] by {}
        if forall|i: int| 0 <= i < rest.len() ==> is_agreed(#[trigger] rest[i], allowed, credentials) {
            assert forall|i: int| 1 <= i < wanted.len() implies is_agreed(
                #[trigger] wanted[i],
                allowed,
                credentials,
            ) by {
                assert(rest[i - 1] == wanted[i]);
            }
        }
    }
}

/// A response may be read exactly where `Access-Control-Allow-Origin`,
/// trimmed, is the origin in any case, or is `*` for a request without
/// cookies; one with cookies also needs `Access-Control-Allow-Credentials` to
/// say `true`, trimmed and in any case.
pub proof fn law_who_is_let_read(
    acao: Option<Seq<char>>,
    acac: Option<Seq<char>>,
    origin: Seq<char>,
    credentialed: bool,
)
    ensures
        response_permits(acao, acac, origin, credentialed) is Ok <==> {
            &&& acao is Some
            &&& trimmed(acao->Some_0) == "*"@ || lowered(trimmed(acao->Some_0)) == lowered(origin)
            &&& credentialed ==> trimmed(acao->Some_0) != "*"@ && acac is Some && lowered(
                trimmed(acac->Some_0),
            ) == lowered("true"@)
        },
{
}

/// A page never sees `set-cookie` or `set-cookie2`, and nothing at all of an
/// opaque response. Of a filtered one it sees `cache-control`,
/// `content-language`, `content-length`, `content-type`, `expires`,
/// `last-modified` and `pragma`, and whatever the server exposed. What it sees
/// it sees whole and in order.
pub proof fn law_what_headers_a_page_sees(
    headers: Seq<(Seq<char>, Seq<char>)>,
    exposure: ExposureView,
    name: Seq<char>,
)
    ensures
        ({
            let n = lowered(name);
            let own = |h: (Seq<char>, Seq<char>)| h.0 == name;
            let seen = n != "set-cookie"@ && n != "set-cookie2"@ && (exposure is Full || (exposure
                is Filtered && (n == "cache-control"@ || n == "content-language"@ || n
                == "content-length"@ || n == "content-type"@ || n == "expires"@ || n
                == "last-modified"@ || n == "pragma"@ || exposure->all || exposure->expose.contains(
                n,
            ))));
            visible_headers(headers, exposure).filter(own) == if seen {
                headers.filter(own)
            } else {
                Seq::empty()
            }
        }),
    decreases headers.len(),
{
    reveal(Seq::filter);
    let own = |h: (Seq<char>, Seq<char>)| h.0 == name;
    if headers.len() == 0 {
        assert(visible_headers(headers, exposure) =~= Seq::empty());
        assert(visible_headers(headers, exposure).filter(own) =~= Seq::empty());
        assert(headers.filter(own) =~= Seq::empty());
    } else {
        let front = headers.drop_last();
        let h = headers.last();
        law_what_headers_a_page_sees(front, exposure, name);
        if is_visible(h.0, exposure) {
            let all = visible_headers(headers, exposure);
            assert(all.drop_last() =~= visible_headers(front, exposure));
            assert(all.last() == h);
        } else {
            assert(visible_headers(headers, exposure) =~= visible_headers(front, exposure));
        }
    }
}

/// What a server exposes: the words between the commas, but for `*`, which
/// stands for every header where no cookies went, and for nothing where they
/// did.
pub proof fn law_what_a_server_exposes(raw: Option<Seq<char>>, credentialed: bool)
    ensures
        exposed(raw, credentialed) is Filtered,
        exposed(raw, credentialed)->all <==> lists(raw, "*"@) && !credentialed,
        forall|w: Seq<char>| #[trigger]
            exposed(raw, credentialed)->expose.contains(w) <==> lists(raw, w) && w != "*"@ && w.len()
                > 0,
{
    lemma_lists_items(raw, "*"@);
    let keep = |t: Seq<char>| t != "*"@ && t.len() > 0;
    assert forall|w: Seq<char>| #[trigger]
        exposed(raw, credentialed)->expose.contains(w) <==> lists(raw, w) && w != "*"@ && w.len()
            > 0 by {
        lemma_lists_items(raw, w);
        let all = items(raw);
        let kept = all.filter(keep);
        if kept.contains(w) {
            let i = choose|i: int| 0 <= i < kept.len() && kept[i] == w;
            all.lemma_filter_pred(keep, i);
            lemma_filter_from(all, keep, w);
        }
        if all.contains(w) && w != "*"@ && w.len() > 0 {
            let i = choose|i: int| 0 <= i < all.len() && all[i] == w;
            all.lemma_filter_contains(keep, i);
        }
    }
}

proof fn lemma_filter_from(all: Seq<Seq<char>>, keep: spec_fn(Seq<char>) -> bool, w: Seq<char>)
    requires
        all.filter(keep).contains(w),
    ensures
        all.contains(w),
    decreases all.len(),
{
    reveal(Seq::filter);
    if all.len() > 0 {
        let front = all.drop_last();
        let i = choose|i: int| 0 <= i < all.filter(keep).len() && all.filter(keep)[i] == w;
        if keep(all.last()) && i == all.filter(keep).len() - 1 {
            assert(all[all.len() - 1] == w);
        } else {
            assert(front.filter(keep)[i] == w);
            lemma_filter_from(front, keep, w);
            let k = choose|k: int| 0 <= k < front.len() && front[k] == w;
            assert(all[k] == w);
        }
    }
}

/// The words a page may use for a mode and for credentials, trimmed and in
/// any case. Anything else is the default.
pub proof fn law_what_the_words_mean(value: Seq<char>)
    ensures
        ({
            let word = lowered(trimmed(value));
            &&& mode_named(value) is SameOrigin <==> word == "same-origin"@
            &&& mode_named(value) is NoCors <==> word == "no-cors"@
            &&& mode_named(value) is Cors <==> word != "same-origin"@ && word != "no-cors"@
            &&& credentials_named(value) is Omit <==> word == "omit"@
            &&& credentials_named(value) is Include <==> word == "include"@
            &&& credentials_named(value) is SameOrigin <==> word != "omit"@ && word != "include"@
        }),
{
    reveal_strlit("same-origin");
    reveal_strlit("no-cors");
    reveal_strlit("omit");
    reveal_strlit("include");
    assert("same-origin"@.len() == 11 && "no-cors"@.len() == 7);
    assert("omit"@.len() == 4 && "include"@.len() == 7);
}

/// A page's request across an origin, under `cors`, with a method that is none
/// of `GET`, `HEAD` and `POST` in any case is never sent unasked.
pub proof fn law_no_other_method_is_sent_unasked(
    requester: Requester<'_>,
    target: &Url,
    method: &str,
    headers: &[(String, String)],
    credentials: Credentials,
    stance: Stance,
    r: Plan,
)
    requires
        call_ensures(
            plan,
            (requester, target, method, headers, Mode::Cors, credentials, stance),
            r,
        ),
        !(requester is Agent),
        requester@ is Document ==> origin_of(target@) != Some(requester@->Document_0),
        uppered(method@) != "GET"@,
        uppered(method@) != "HEAD"@,
        uppered(method@) != "POST"@,
    ensures
        r matches Plan::Send { preflight: Some(ask), .. } && ask@.method == uppered(method@),
{
}

/// The words a header or a method is known by, asked about one at a time.
pub proof fn law_which_headers_go_out_unasked(name: &str, value: &str, r: bool)
    requires
        call_ensures(header_is_safelisted, (name, value), r),
    ensures
        r <==> {
            let n = lowered(trimmed(name@));
            let kind = lowered(trimmed(split_on(value@, ';')[0]));
            ||| n == "accept"@
            ||| n == "accept-language"@
            ||| n == "content-language"@
            ||| n == "range"@
            ||| n == "content-type"@ && kind == "application/x-www-form-urlencoded"@
            ||| n == "content-type"@ && kind == "multipart/form-data"@
            ||| n == "content-type"@ && kind == "text/plain"@
        },
{
    reveal_strlit("content-type");
    reveal_strlit("accept");
    reveal_strlit("accept-language");
    reveal_strlit("content-language");
    reveal_strlit("range");
    assert("content-type"@.len() == 12 && "accept"@.len() == 6 && "accept-language"@.len() == 15
        && "content-language"@.len() == 16 && "range"@.len() == 5);
}

/// What a page is told of a response that it may not read: that no origin was
/// allowed, that any is not enough where cookies went, that cookies were not
/// agreed to, or that another origin was allowed, in that order.
pub proof fn law_why_a_response_may_not_be_read(
    acao: Option<Seq<char>>,
    acac: Option<Seq<char>>,
    origin: Seq<char>,
    credentialed: bool,
)
    requires
        response_permits(acao, acac, origin, credentialed) is Err,
    ensures
        ({
            let why = response_permits(acao, acac, origin, credentialed)->Err_0;
            let named = trimmed(acao->Some_0);
            &&& acao is None ==> why
                == "the response has no `Access-Control-Allow-Origin` header, so "@ + origin
                + " may not read it. The server would have to send `Access-Control-Allow-Origin: "@
                + origin + "`."@
            &&& acao is Some && credentialed && named == "*"@ ==> why
                == "the response allows any origin (`Access-Control-Allow-Origin: *`), which is not enough for a credentialed request: the server must name "@
                + origin + " explicitly and send `Access-Control-Allow-Credentials: true`."@
            &&& acao is Some && !credentialed ==> why == "the response allows `"@ + named
                + "`, which is not "@ + origin + "."@
        }),
{
}

/// What a page is told of a preflight that did not let its request through, once
/// the origin was allowed: first of the method, and then of the first header
/// that was not agreed to.
pub proof fn law_why_a_preflight_did_not_let_through(
    ask: PreflightView,
    acao: Option<Seq<char>>,
    acac: Option<Seq<char>>,
    allow_methods: Option<Seq<char>>,
    allow_headers: Option<Seq<char>>,
)
    requires
        preflight_permits(ask, acao, acac, allow_methods, allow_headers) is Err,
    ensures
        ({
            let why = preflight_permits(ask, acao, acac, allow_methods, allow_headers)->Err_0;
            let read = response_permits(acao, acac, ask.origin, ask.credentials);
            let method = ask.method == "GET"@ || ask.method == "HEAD"@ || ask.method == "POST"@
                || lists(allow_methods, lowered(ask.method)) || (lists(allow_methods, "*"@)
                && !ask.credentials);
            &&& read is Err ==> why == read->Err_0
            &&& read is Ok && !method ==> why == "the preflight does not allow `"@ + ask.method
                + "`. The server would have to send `Access-Control-Allow-Methods: "@ + ask.method
                + "`."@
        }),
{
    lemma_lists_items(allow_methods, lowered(ask.method));
    lemma_lists_items(allow_methods, "*"@);
}

} // verus!
