//! What the page is allowed to reach.
use vstd::prelude::*;

use crate::address::{ip_text, is_internal, is_internal_address, is_loopback_v6, read_ip, IpAddr, IpView};
use crate::cors::Stance;
use crate::text::{
    ascending, chars_of, copy_texts, ends_with, find_at, find_from, finishes, insert_ascending, listed_in,
    lower, lowered, same, slice_text, starts_with, string_view, texts, trim, trimmed,
};
use crate::url::{
    authority, authority_text, is_web_scheme, twin, twin_scheme, url_parsed, url_ref, Url, UrlView,
};

verus! {

/// The answer to "may this request happen", carrying the reason when it is no.
///
/// The reason is not decoration: it is what the receipt records and what the
/// caller shows a human, so it has to name the origin that was refused.
#[derive(Debug, Clone, PartialEq, Eq)]
pub enum Verdict {
    Allow,
    Deny(String),
}

/// What a [`Verdict`] says.
pub enum VerdictView {
    Allow,
    Deny(Seq<char>),
}

impl View for Verdict {
    type V = VerdictView;

    open spec fn view(&self) -> VerdictView {
        match self {
            Verdict::Allow => VerdictView::Allow,
            Verdict::Deny(why) => VerdictView::Deny(why@),
        }
    }
}

impl Verdict {
    pub fn is_allowed(&self) -> (r: bool)
        ensures
            r == (self@ == VerdictView::Allow),
    {
        match self {
            Verdict::Allow => true,
            Verdict::Deny(_) => false,
        }
    }

    /// The reason text for a denial, or `None` when allowed.
    pub fn reason(&self) -> (r: Option<&str>)
        ensures
            match r {
                None => self@ == VerdictView::Allow,
                Some(why) => self@ == VerdictView::Deny(why@),
            },
    {
        match self {
            Verdict::Allow => None,
            Verdict::Deny(why) => Some(why.as_str()),
        }
    }
}

/// A host and everything under it, on one scheme and one port.
#[derive(Debug, Clone, PartialEq, Eq)]
struct Wildcard {
    scheme: String,
    host: String,
    port: Option<u16>,
}

/// What a wildcard grants.
pub struct WildcardView {
    pub scheme: Seq<char>,
    pub host: Seq<char>,
    pub port: Option<u16>,
}

impl Wildcard {
    spec fn view(&self) -> WildcardView {
        WildcardView { scheme: self.scheme@, host: self.host@, port: self.port }
    }
}

/// An origin allowlist plus the limits that keep one page from becoming an
/// unbounded amount of work.
#[derive(Debug)]
pub struct Policy {
    origins: Vec<String>,
    wildcards: Vec<Wildcard>,
    allow_loopback: bool,
    any_remote: bool,
    max_redirects: usize,
    max_response_bytes: u64,
    cross_site_credentials: bool,
}

/// What a [`Policy`] grants.
#[verifier::ext_equal]
pub struct PolicyView {
    /// The granted origins, as `scheme://host[:port]`.
    pub origins: Set<Seq<char>>,
    /// The granted hosts with everything under them. They carry the same
    /// scheme and port constraints as an exact origin.
    pub wildcards: Set<WildcardView>,
    /// Loopback is the agent's own dev server, so it is opt-out.
    pub allow_loopback: bool,
    /// Every remote origin is granted.
    pub any_remote: bool,
    pub max_redirects: usize,
    pub max_response_bytes: u64,
    /// A page may send the session's credentials to another origin, the way a
    /// browser does.
    pub cross_site_credentials: bool,
}

impl View for Policy {
    type V = PolicyView;

    closed spec fn view(&self) -> PolicyView {
        PolicyView {
            origins: texts(self.origins@).to_set(),
            wildcards: self.wildcards@.map_values(|w: Wildcard| w.view()).to_set(),
            allow_loopback: self.allow_loopback,
            any_remote: self.any_remote,
            max_redirects: self.max_redirects,
            max_response_bytes: self.max_response_bytes,
            cross_site_credentials: self.cross_site_credentials,
        }
    }
}

/// A policy that permits nothing but loopback.
pub open spec fn default_policy() -> PolicyView {
    PolicyView {
        origins: Set::empty(),
        wildcards: Set::empty(),
        allow_loopback: true,
        any_remote: false,
        max_redirects: 5,
        max_response_bytes: 0x80_0000,
        cross_site_credentials: false,
    }
}

/// The literal inside the brackets around it, where there are any.
pub open spec fn unbracketed(host: Seq<char>) -> Seq<char> {
    if host.len() >= 2 && host[0] == '[' && host.last() == ']' {
        host.subrange(1, host.len() - 1)
    } else {
        host
    }
}

/// The host is this machine: `localhost` or a name under it, an address in
/// 127.0.0.0/8, or `::1`. An address counts only where the whole host is one.
pub open spec fn is_loopback_host(host: Seq<char>) -> bool {
    ||| host == "localhost"@
    ||| ends_with(host, ".localhost"@)
    ||| match read_ip(unbracketed(host)) {
        Some(IpView::V4(b)) => b[0] == 127,
        Some(IpView::V6(b)) => is_loopback_v6(b),
        None => false,
    }
}

pub open spec fn has_loopback_host(url: UrlView) -> bool {
    url.host is Some && is_loopback_host(url.host->Some_0)
}

/// `scheme://host[:port]` of a parsed URL, a socket's as its HTTP twin's.
pub open spec fn origin_text_of(url: UrlView) -> Option<Seq<char>> {
    let scheme = twin_scheme(url.scheme);
    if scheme != "http"@ && scheme != "https"@ {
        None
    } else {
        match url.host {
            Some(host) => Some(scheme + "://"@ + authority(host, url.port)),
            None => None,
        }
    }
}

/// The text begins with a scheme and the mark of an authority: its first colon
/// is followed by two slashes. A `host:port` does not.
pub open spec fn names_a_scheme(t: Seq<char>) -> bool {
    find_from(t, ":"@, 0) is Some && find_from(t, "://"@, 0) == find_from(t, ":"@, 0)
}

/// The URL that an origin-shaped text means: what it parses as, where that is
/// a web address, and otherwise an authority to be reached over https. A text
/// that names a scheme this engine cannot fetch means none.
pub open spec fn origin_url(input: Seq<char>) -> Option<UrlView> {
    let t = trimmed(input);
    let plain = url_parsed(t);
    if t.len() == 0 {
        None
    } else if plain is Ok && is_web_scheme(plain->Ok_0.scheme) {
        Some(plain->Ok_0)
    } else if plain is Ok && names_a_scheme(t) {
        None
    } else {
        match url_parsed("https://"@ + t) {
            Ok(u) => Some(u),
            Err(_) => None,
        }
    }
}

/// Anything origin-shaped reduced to `scheme://host[:port]`.
pub open spec fn normal_origin(input: Seq<char>) -> Option<Seq<char>> {
    match origin_url(input) {
        Some(u) => origin_text_of(u),
        None => None,
    }
}

/// The wildcard that a URL's own host would be.
pub open spec fn wildcard_of(url: UrlView) -> Option<WildcardView> {
    let scheme = twin_scheme(url.scheme);
    if scheme != "http"@ && scheme != "https"@ {
        None
    } else {
        match url.host {
            Some(host) => Some(WildcardView { scheme, host, port: url.port }),
            None => None,
        }
    }
}

/// The wildcard covers the URL: its host or a name under it, on its scheme
/// and port.
pub open spec fn covers(w: WildcardView, url: UrlView) -> bool {
    &&& url.host is Some
    &&& lowered(url.host->Some_0) == w.host || ends_with(lowered(url.host->Some_0), "."@ + w.host)
    &&& twin_scheme(url.scheme) == w.scheme
    &&& url.port == w.port
}

/// A grant, as written, without its wildcard marker; `None` where it has none.
/// The marker stands on the host, which may follow a scheme.
pub open spec fn unmarked(grant: Seq<char>) -> Option<Seq<char>> {
    let t = trimmed(grant);
    let at = find_from(t, "://"@, 0);
    let start = match at {
        Some(k) => k + 3,
        None => 0,
    };
    let host = t.subrange(start, t.len() as int);
    if starts_with(host, "*."@) {
        Some(t.subrange(0, start) + host.subrange(2, host.len() as int))
    } else if starts_with(host, "."@) {
        Some(t.subrange(0, start) + host.subrange(1, host.len() as int))
    } else {
        None
    }
}

/// The policy with one more grant.
pub open spec fn granting(p: PolicyView, grant: Seq<char>) -> PolicyView {
    match unmarked(grant) {
        Some(rest) => match origin_url(rest) {
            Some(u) => match wildcard_of(u) {
                Some(w) => PolicyView { wildcards: p.wildcards.insert(w), ..p },
                None => p,
            },
            None => p,
        },
        None => match normal_origin(trimmed(grant)) {
            Some(origin) => PolicyView { origins: p.origins.insert(origin), ..p },
            None => p,
        },
    }
}

/// The policy with the grants of a list, in order.
pub open spec fn granting_all(p: PolicyView, grants: Seq<Seq<char>>) -> PolicyView
    decreases grants.len(),
{
    if grants.len() == 0 {
        p
    } else {
        granting(granting_all(p, grants.drop_last()), grants.last())
    }
}

/// The allowlist proper: exact origins and wildcards, and nothing else.
pub open spec fn listed(p: PolicyView, url: UrlView) -> VerdictView {
    if url.host is None {
        VerdictView::Deny("request has no host"@)
    } else {
        match origin_text_of(url) {
            None => VerdictView::Deny("could not derive an origin from `"@ + url.href + "`"@),
            Some(o) => if p.origins.contains(o) || exists|w: WildcardView|
                p.wildcards.contains(w) && covers(w, url) {
                VerdictView::Allow
            } else {
                VerdictView::Deny("origin `"@ + o + "` is not in the allowlist"@)
            },
        }
    }
}

/// Whether this run may reach the URL.
pub open spec fn checked(p: PolicyView, url: UrlView) -> VerdictView {
    if url.scheme == "data"@ {
        VerdictView::Allow
    } else if !is_web_scheme(url.scheme) {
        VerdictView::Deny(
            "scheme `"@ + url.scheme
                + "` is not fetchable by this engine (only http, https, ws, wss, data)"@,
        )
    } else if url.host is None {
        VerdictView::Deny("request has no host"@)
    } else if p.allow_loopback && has_loopback_host(url) {
        VerdictView::Allow
    } else if p.any_remote && !has_loopback_host(url) {
        VerdictView::Allow
    } else {
        listed(p, url)
    }
}

/// A document that may reach the dev server: none at all, one the dev server
/// served, or a local file.
pub open spec fn is_local_document(document: Option<UrlView>) -> bool {
    match document {
        None => true,
        Some(d) => has_loopback_host(d) || d.scheme == "file"@,
    }
}

/// Whether a document may reach the URL.
pub open spec fn checked_from(
    p: PolicyView,
    url: UrlView,
    document: Option<UrlView>,
) -> VerdictView {
    if has_loopback_host(url) && !is_local_document(document) {
        VerdictView::Deny(
            "a page served from "@ + document->Some_0.origin + " may not reach loopback ("@
                + url.host->Some_0
                + "): only a page the dev server itself served may talk to it"@,
        )
    } else {
        checked(p, url)
    }
}

/// Whether the address a URL's host resolved to may be connected to.
pub open spec fn address_checked(p: PolicyView, url: UrlView, addr: IpView) -> VerdictView {
    let host = match url.host {
        Some(h) => h,
        None => Seq::empty(),
    };
    if !is_internal(addr) {
        VerdictView::Allow
    } else if p.allow_loopback && is_loopback_host(host) {
        VerdictView::Allow
    } else if read_ip(unbracketed(host)) is Some {
        listed(p, url)
    } else {
        VerdictView::Deny(
            "`"@ + host + "` resolved to "@ + ip_text(addr)
                + ", which is an internal address. A public name pointing into private space is how an allowlist is walked around, so the request is refused rather than made to somewhere the receipt would not describe."@,
        )
    }
}

pub fn unbracket(host: &str) -> (r: String)
    ensures
        r@ == unbracketed(host@),
{
    let v = chars_of(host);
    if v.len() >= 2 && v[0] == '[' && v[v.len() - 1] == ']' {
        slice_text(&v, 1, v.len() - 1)
    } else {
        host.to_owned()
    }
}

/// Whether the host is this machine.
pub fn is_loopback(host: &str) -> (r: bool)
    ensures
        r == is_loopback_host(host@),
{
    // `localhost` and its subdomains resolve to loopback by convention.
    if same(host, "localhost") || finishes(host, ".localhost") {
        return true;
    }
    // Everything else must be an *address*, parsed, not string-matched: a
    // literal `127.` prefix also matches the public DNS name `127.evil.com`.

    match IpAddr::parse(&unbracket(host)) {
        Some(IpAddr::V4(b)) => b[0] == 127,
        Some(IpAddr::V6(b)) => {
            let mut i: usize = 0;
            while i < 15
                invariant
                    i <= 15,
                    forall|k: int| 0 <= k < i ==> #[trigger] b@[k] == 0,
                    read_ip(unbracketed(host@)) == Some(IpView::V6(b@)),
                    !(host@ == "localhost"@),
                    !ends_with(host@, ".localhost"@),
                decreases 15 - i,
            {
                if b[i] != 0 {
                    return false;
                }
                i += 1;
            }
            b[15] == 1
        },
        None => false,
    }
}

fn has_loopback(url: &Url) -> (r: bool)
    ensures
        r == has_loopback_host(url@),
{
    match &url.host {
        Some(h) => is_loopback(h),
        None => false,
    }
}

/// `scheme://host[:port]` of a parsed URL.
pub fn origin_text(url: &Url) -> (r: Option<String>)
    ensures
        string_view(r) == origin_text_of(url@),
{
    let scheme = twin(&url.scheme);
    if !same(&scheme, "http") && !same(&scheme, "https") {
        return None;
    }
    match &url.host {
        Some(host) => {
            let mut out = scheme;
            out.append("://");
            out.append(&authority_text(host, url.port));
            Some(out)
        },
        None => None,
    }
}

/// Whether the text begins with a scheme and the mark of an authority.
fn has_scheme(t: &str) -> (r: bool)
    ensures
        r == names_a_scheme(t@),
{
    proof {
        reveal_strlit(":");
        reveal_strlit("://");
    }
    let v = chars_of(t);
    match (find_at(&v, &chars_of(":"), 0), find_at(&v, &chars_of("://"), 0)) {
        (Some(a), Some(b)) => a == b,
        _ => false,
    }
}

/// The URL that an origin-shaped text means.
///
/// `example.com:8080` *parses*, as a URL whose scheme is `example.com`. So a
/// parse that did not land on a web scheme is re-read as a bare authority, and
/// a bare host is read as https, because that is what someone granting
/// `example.com` means. `file://etc` is no authority: it names a scheme.
fn parse_origin(input: &str) -> (r: Option<Url>)
    ensures
        crate::url::url_option(r) == origin_url(input@),
{
    let t = trim(input);
    if t.as_str().is_empty() {
        return None;
    }
    match Url::parse(&t) {
        Ok(u) => {
            if u.has_web_scheme() {
                return Some(u);
            }
            if has_scheme(&t) {
                return None;
            }
        },
        Err(_) => {},
    }
    let mut rebuilt = "https://".to_owned();
    rebuilt.append(&t);
    match Url::parse(&rebuilt) {
        Ok(u) => Some(u),
        Err(_) => None,
    }
}

/// Reduce anything origin-shaped to `scheme://host[:port]`.
pub fn normalize_origin(input: &str) -> (r: Option<String>)
    ensures
        string_view(r) == normal_origin(input@),
{
    match parse_origin(input) {
        Some(u) => origin_text(&u),
        None => None,
    }
}

/// A grant without its wildcard marker, where it has one.
pub fn strip_wildcard(grant: &str) -> (r: Option<String>)
    ensures
        string_view(r) == unmarked(grant@),
{
    let text = trim(grant);
    let t = chars_of(&text);
    let sep = chars_of("://");
    proof {
        reveal_strlit("://");
        reveal_strlit("*.");
        reveal_strlit(".");
    }
    let start: usize = match find_at(&t, &sep, 0) {
        Some(k) => k + 3,
        None => 0,
    };
    let ghost host = t@.subrange(start as int, t@.len() as int);
    let skip: usize = if t.len() - start >= 2 && t[start] == '*' && t[start + 1] == '.' {
        assert(host.subrange(0, 2) =~= "*."@);
        2
    } else {
        proof {
            if starts_with(host, "*."@) {
                assert(host.subrange(0, 2)[0] == host[0]);
                assert(host.subrange(0, 2)[1] == host[1]);
            }
        }
        if t.len() - start >= 1 && t[start] == '.' {
            assert(host.subrange(0, 1) =~= "."@);
            1
        } else {
            proof {
                if starts_with(host, "."@) {
                    assert(host.subrange(0, 1)[0] == host[0]);
                }
            }
            return None;
        }
    };
    let mut out = slice_text(&t, 0, start);
    out.append(&slice_text(&t, start + skip, t.len()));
    assert(t@.subrange(start + skip, t@.len() as int) =~= host.subrange(
        skip as int,
        host.len() as int,
    ));
    Some(out)
}

impl Wildcard {
    fn of(url: &Url) -> (r: Option<Wildcard>)
        ensures
            r is Some <==> wildcard_of(url@) is Some,
            r is Some ==> r->Some_0.view() == wildcard_of(url@)->Some_0,
    {
        let scheme = twin(&url.scheme);
        if !same(&scheme, "http") && !same(&scheme, "https") {
            return None;
        }
        match &url.host {
            Some(host) => Some(Wildcard { scheme, host: host.clone(), port: url.port }),
            None => None,
        }
    }

    fn grants(&self, url: &Url) -> (r: bool)
        ensures
            r == covers(self.view(), url@),
    {
        match &url.host {
            None => false,
            Some(h) => {
                let low = lower(h);
                let mut suffix = ".".to_owned();
                suffix.append(&self.host);
                let port_matches = match (url.port, self.port) {
                    (Some(a), Some(b)) => a == b,
                    (None, None) => true,
                    _ => false,
                };
                (same(&low, &self.host) || finishes(&low, &suffix)) && same(
                    &twin(&url.scheme),
                    &self.scheme,
                ) && port_matches
            },
        }
    }
}

impl Default for Policy {
    fn default() -> (r: Policy)
        ensures
            r@ == default_policy(),
    {
        let r = Policy {
            origins: Vec::new(),
            wildcards: Vec::new(),
            allow_loopback: true,
            any_remote: false,
            max_redirects: 5,
            max_response_bytes: 8 * 1024 * 1024,
            cross_site_credentials: false,
        };
        assert(r@ =~= default_policy());
        r
    }
}

impl Clone for Policy {
    fn clone(&self) -> (r: Policy)
        ensures
            r@ == self@,
    {
        proof {
            use_type_invariant(self);
        }
        let mut wildcards: Vec<Wildcard> = Vec::new();
        let ghost f = |w: Wildcard| w.view();
        let ghost all = self.wildcards@.map_values(f);
        let mut i: usize = 0;
        while i < self.wildcards.len()
            invariant
                i <= self.wildcards.len(),
                f == (|w: Wildcard| w.view()),
                all == self.wildcards@.map_values(f),
                wildcards@.map_values(f) == all.take(i as int),
            decreases self.wildcards.len() - i,
        {
            let w = &self.wildcards[i];
            let ghost before = wildcards@.map_values(f);
            let twin = Wildcard { scheme: w.scheme.clone(), host: w.host.clone(), port: w.port };
            wildcards.push(twin);
            assert(all[i as int] == w.view());
            assert(wildcards@.map_values(f) =~= before.push(w.view()));
            i += 1;
            assert(all.take(i as int) =~= all.take(i - 1).push(all[i - 1]));
        }
        assert(all.take(i as int) =~= all);
        Policy {
            origins: copy_texts(&self.origins),
            wildcards,
            allow_loopback: self.allow_loopback,
            any_remote: self.any_remote,
            max_redirects: self.max_redirects,
            max_response_bytes: self.max_response_bytes,
            cross_site_credentials: self.cross_site_credentials,
        }
    }
}

impl Policy {
    /// The origins are kept in order, each once.
    #[verifier::type_invariant]
    spec fn inv(self) -> bool {
        ascending(texts(self.origins@))
    }

    /// A policy that permits nothing but loopback.
    pub fn new() -> (r: Policy)
        ensures
            r@ == default_policy(),
    {
        Policy::default()
    }

    /// Grant an origin. Accepts a bare host (`example.com`), a scheme-qualified
    /// origin (`https://example.com`), or a full URL, because every one of
    /// those is a thing a person types. `*.host` and `.host` mean the host and
    /// everything under it.
    pub fn allow(self, origin: &str) -> (r: Policy)
        ensures
            r@ == granting(self@, origin@),
    {
        proof {
            use_type_invariant(&self);
        }
        if let Some(rest) = strip_wildcard(origin) {
            if let Some(u) = parse_origin(&rest) {
                if let Some(w) = Wildcard::of(&u) {
                    let ghost before = self.wildcards@;
                    let mut wildcards = self.wildcards;
                    wildcards.push(w);
                    let r = Policy { wildcards, ..self };
                    proof {
                        let f = |w: Wildcard| w.view();
                        let old_views = before.map_values(f);
                        let now = wildcards@.map_values(f);
                        assert(now =~= old_views.push(w.view()));
                        assert(now.to_set() =~= old_views.to_set().insert(w.view())) by {
                            vstd::seq_lib::seq_to_set_distributes_over_add(
                                old_views,
                                seq![w.view()],
                            );
                            lemma_to_set_push(old_views, w.view());
                        }
                        assert(r@ =~= granting(self@, origin@));
                    }
                    return r;
                }
            }
            return self;
        }
        if let Some(normalized) = normalize_origin(&trim(origin)) {
            let ghost before = self.origins@;
            let ghost word = normalized@;
            let mut origins = self.origins;
            insert_ascending(&mut origins, normalized);
            let r = Policy { origins, ..self };
            proof {
                assert(texts(origins@).to_set() =~= texts(before).to_set().insert(word));
                assert(r@ =~= granting(self@, origin@));
            }
            return r;
        }
        self
    }

    /// Grant each origin of a list.
    pub fn allow_all_of(self, origins: &Vec<String>) -> (r: Policy)
        ensures
            r@ == granting_all(self@, texts(origins@)),
    {
        let ghost all = texts(origins@);
        let ghost start = self@;
        let mut out = self;
        let mut i: usize = 0;
        while i < origins.len()
            invariant
                i <= origins.len(),
                all == texts(origins@),
                out@ == granting_all(start, all.take(i as int)),
            decreases origins.len() - i,
        {
            out = out.allow(&origins[i]);
            i += 1;
            assert(all.take(i as int).drop_last() =~= all.take(i - 1));
            assert(all.take(i as int).last() == origins@[i - 1]@);
        }
        assert(all.take(i as int) =~= all);
        out
    }

    pub fn set_allow_loopback(self, allow: bool) -> (r: Policy)
        ensures
            r@ == (PolicyView { allow_loopback: allow, ..self@ }),
    {
        proof {
            use_type_invariant(&self);
        }
        Policy { allow_loopback: allow, ..self }
    }

    /// Grant every remote origin. It grants no scheme and no internal address.
    pub fn set_any_remote(self, allow: bool) -> (r: Policy)
        ensures
            r@ == (PolicyView { any_remote: allow, ..self@ }),
    {
        proof {
            use_type_invariant(&self);
        }
        Policy { any_remote: allow, ..self }
    }

    /// Whether this policy is in the instrument mode, so a caller can say so.
    pub fn allows_any_remote(&self) -> (r: bool)
        ensures
            r == self@.any_remote,
    {
        self.any_remote
    }

    /// Let this session's pages behave like a browser about cross-site
    /// credentials.
    pub fn set_cross_site_credentials(self, allow: bool) -> (r: Policy)
        ensures
            r@ == (PolicyView { cross_site_credentials: allow, ..self@ }),
    {
        proof {
            use_type_invariant(&self);
        }
        Policy { cross_site_credentials: allow, ..self }
    }

    /// Whether this policy is the permissive one, so a caller can say so.
    pub fn allows_cross_site_credentials(&self) -> (r: bool)
        ensures
            r == self@.cross_site_credentials,
    {
        self.cross_site_credentials
    }

    /// The same fact, in the shape the same-origin policy asks for it.
    pub fn cors_stance(&self) -> (r: Stance)
        ensures
            r == (if self@.cross_site_credentials {
                Stance::Browser
            } else {
                Stance::Contained
            }),
    {
        if self.cross_site_credentials {
            Stance::Browser
        } else {
            Stance::Contained
        }
    }

    pub fn set_max_redirects(self, max: usize) -> (r: Policy)
        ensures
            r@ == (PolicyView { max_redirects: max, ..self@ }),
    {
        proof {
            use_type_invariant(&self);
        }
        Policy { max_redirects: max, ..self }
    }

    pub fn set_max_response_bytes(self, max: u64) -> (r: Policy)
        ensures
            r@ == (PolicyView { max_response_bytes: max, ..self@ }),
    {
        proof {
            use_type_invariant(&self);
        }
        Policy { max_response_bytes: max, ..self }
    }

    pub fn max_redirects(&self) -> (r: usize)
        ensures
            r == self@.max_redirects,
    {
        self.max_redirects
    }

    pub fn max_response_bytes(&self) -> (r: u64)
        ensures
            r == self@.max_response_bytes,
    {
        self.max_response_bytes
    }

    /// The granted origins, in order, for the doctor output and for a receipt
    /// header that says what this run was permitted to reach.
    pub fn origins(&self) -> (r: Vec<&str>)
        ensures
            ascending(r@.map_values(|s: &str| s@)),
            r@.map_values(|s: &str| s@).to_set() == self@.origins,
    {
        proof {
            use_type_invariant(self);
        }
        let mut out: Vec<&str> = Vec::new();
        let ghost all = texts(self.origins@);
        let mut i: usize = 0;
        while i < self.origins.len()
            invariant
                i <= self.origins.len(),
                all == texts(self.origins@),
                out@.map_values(|s: &str| s@) == all.take(i as int),
            decreases self.origins.len() - i,
        {
            let ghost before = out@.map_values(|s: &str| s@);
            out.push(self.origins[i].as_str());
            assert(out@.map_values(|s: &str| s@) =~= before.push(all[i as int]));
            i += 1;
            assert(all.take(i as int) =~= all.take(i - 1).push(all[i - 1]));
        }
        assert(all.take(i as int) =~= all);
        out
    }

    /// The one decision point: every request and every redirect hop comes
    /// through here.
    pub fn check_from(&self, url: &Url, document: Option<&Url>) -> (r: Verdict)
        ensures
            r@ == checked_from(self@, url@, url_ref(document)),
    {
        if let Some(host) = &url.host {
            if is_loopback(host) {
                if let Some(d) = document {
                    if !(has_loopback(d) || same(&d.scheme, "file")) {
                        let mut why = "a page served from ".to_owned();
                        why.append(&d.origin);
                        why.append(" may not reach loopback (");
                        why.append(host);
                        why.append("): only a page the dev server itself served may talk to it");
                        return Verdict::Deny(why);
                    }
                }
            }
        }
        self.check(url)
    }

    /// Check the *address* a host actually resolved to.
    pub fn check_address(&self, url: &Url, addr: IpAddr) -> (r: Verdict)
        ensures
            r@ == address_checked(self@, url@, addr@),
    {
        if !is_internal_address(addr) {
            return Verdict::Allow;
        }
        let host = match &url.host {
            Some(h) => h.clone(),
            None => String::new(),
        };
        if self.allow_loopback && is_loopback(&host) {
            return Verdict::Allow;
        }
        // An address written directly into the URL was itself what the
        // allowlist decided about, so it is not a rebinding. `any_remote`
        // deliberately does not answer here: an RFC 1918 literal is not the
        // open web.

        if IpAddr::parse(&unbracket(&host)).is_some() {
            return self.listed(url);
        }
        let mut why = "`".to_owned();
        why.append(&host);
        why.append("` resolved to ");
        why.append(&addr.text());
        why.append(
            ", which is an internal address. A public name pointing into private space is how an allowlist is walked around, so the request is refused rather than made to somewhere the receipt would not describe.",
        );
        Verdict::Deny(why)
    }

    /// Whether this run may reach the URL.
    pub fn check(&self, url: &Url) -> (r: Verdict)
        ensures
            r@ == checked(self@, url@),
    {
        // `data:` is inline in the document that already passed policy; it
        // reaches no network.
        if same(&url.scheme, "data") {
            return Verdict::Allow;
        }
        // A socket is checked by exactly the same rules as its http twin.

        if !url.has_web_scheme() {
            let mut why = "scheme `".to_owned();
            why.append(&url.scheme);
            why.append("` is not fetchable by this engine (only http, https, ws, wss, data)");
            return Verdict::Deny(why);
        }
        if url.host.is_none() {
            return Verdict::Deny("request has no host".to_owned());
        }
        let local = has_loopback(url);
        if self.allow_loopback && local {
            return Verdict::Allow;
        }
        // Deliberately *after* the scheme check, so it grants origins and not
        // schemes. Loopback is no remote origin.

        if self.any_remote && !local {
            return Verdict::Allow;
        }
        self.listed(url)
    }

    /// The allowlist proper: exact origins and wildcards, and nothing else.
    fn listed(&self, url: &Url) -> (r: Verdict)
        ensures
            r@ == listed(self@, url@),
    {
        if url.host.is_none() {
            return Verdict::Deny("request has no host".to_owned());
        }
        let name = match origin_text(url) {
            Some(o) => o,
            None => {
                let mut why = "could not derive an origin from `".to_owned();
                why.append(&url.href);
                why.append("`");
                return Verdict::Deny(why);
            },
        };
        if listed_in(&self.origins, &name) {
            return Verdict::Allow;
        }
        // A wildcard grants the host and anything under it, but only on the
        // scheme and port it was granted for.

        let ghost f = |w: Wildcard| w.view();
        let ghost views = self.wildcards@.map_values(f);
        let mut i: usize = 0;
        while i < self.wildcards.len()
            invariant
                i <= self.wildcards.len(),
                f == (|w: Wildcard| w.view()),
                views == self.wildcards@.map_values(f),
                self@.wildcards == views.to_set(),
                url@.host is Some,
                origin_text_of(url@) == Some(name@),
                forall|k: int| 0 <= k < i ==> !covers(#[trigger] views[k], url@),
            decreases self.wildcards.len() - i,
        {
            assert(views[i as int] == self.wildcards@[i as int].view());
            if self.wildcards[i].grants(url) {
                assert(self@.wildcards.contains(views[i as int]));
                return Verdict::Allow;
            }
            i += 1;
        }
        assert(forall|w: WildcardView| self@.wildcards.contains(w) ==> !covers(w, url@));
        let mut why = "origin `".to_owned();
        why.append(&name);
        why.append("` is not in the allowlist");
        Verdict::Deny(why)
    }
}

proof fn lemma_to_set_push(s: Seq<WildcardView>, w: WildcardView)
    ensures
        s.push(w).to_set() == s.to_set().insert(w),
{
    assert forall|x: WildcardView|
        s.push(w).to_set().contains(x) <==> s.to_set().insert(w).contains(x) by {
        if s.contains(x) {
            let k = choose|k: int| 0 <= k < s.len() && s[k] == x;
            assert(s.push(w)[k] == x);
        }
        if x == w {
            assert(s.push(w)[s.len() as int] == x);
        }
        if s.push(w).contains(x) {
            let k = choose|k: int| 0 <= k < s.push(w).len() && s.push(w)[k] == x;
            if k < s.len() {
                assert(s[k] == x);
            }
        }
    }
    assert(s.push(w).to_set() =~= s.to_set().insert(w));
}

/// A grant takes nothing away: what was allowed stays allowed, by name, from
/// a document, and at an address.
pub proof fn law_a_grant_takes_nothing_away(
    p: PolicyView,
    grant: Seq<char>,
    url: UrlView,
    document: Option<UrlView>,
    addr: IpView,
)
    ensures
        listed(p, url) == VerdictView::Allow ==> listed(granting(p, grant), url)
            == VerdictView::Allow,
        checked(p, url) == VerdictView::Allow ==> checked(granting(p, grant), url)
            == VerdictView::Allow,
        checked_from(p, url, document) == VerdictView::Allow ==> checked_from(
            granting(p, grant),
            url,
            document,
        ) == VerdictView::Allow,
        address_checked(p, url, addr) == VerdictView::Allow ==> address_checked(
            granting(p, grant),
            url,
            addr,
        ) == VerdictView::Allow,
{
    let q = granting(p, grant);
    assert(forall|w: WildcardView| p.wildcards.contains(w) ==> q.wildcards.contains(w));
    assert(forall|o: Seq<char>| p.origins.contains(o) ==> q.origins.contains(o));
}

/// What a person granted by its origin is reachable, whatever else the policy
/// says.
pub proof fn law_a_granted_origin_is_reachable(p: PolicyView, grant: Seq<char>, url: UrlView)
    requires
        unmarked(grant) is None,
        normal_origin(trimmed(grant)) is Some,
        normal_origin(trimmed(grant)) == origin_text_of(url),
    ensures
        checked(granting(p, grant), url) == VerdictView::Allow,
{
    lemma_twins(url.scheme);
}

/// A wildcard grant reaches the host it names and every name under it, on its
/// scheme and port.
pub proof fn law_a_granted_wildcard_is_reachable(
    p: PolicyView,
    grant: Seq<char>,
    granted: UrlView,
    w: WildcardView,
    url: UrlView,
)
    requires
        unmarked(grant) is Some,
        origin_url(unmarked(grant)->Some_0) == Some(granted),
        wildcard_of(granted) == Some(w),
        covers(w, url),
    ensures
        checked(granting(p, grant), url) == VerdictView::Allow,
{
    lemma_twins(url.scheme);
    assert(granting(p, grant).wildcards.contains(w));
}

/// What is judged as http or https is a web scheme.
proof fn lemma_twins(scheme: Seq<char>)
    ensures
        is_web_scheme(scheme) <==> (twin_scheme(scheme) == "http"@ || twin_scheme(scheme)
            == "https"@),
{
}

/// No policy fetches over a scheme that is neither a web scheme nor `data:`.
/// `file:` is the one that matters.
pub proof fn law_no_policy_grants_a_scheme(
    p: PolicyView,
    url: UrlView,
    document: Option<UrlView>,
)
    requires
        !is_web_scheme(url.scheme),
        url.scheme != "data"@,
    ensures
        checked(p, url) is Deny,
        checked_from(p, url, document) is Deny,
{
}

/// The blanket grant of the open web grants no loopback: taken away, the dev
/// server is reachable only where its own origin was granted.
pub proof fn law_any_remote_is_not_loopback(p: PolicyView, url: UrlView)
    requires
        !p.allow_loopback,
        has_loopback_host(url),
        is_web_scheme(url.scheme),
    ensures
        checked(p, url) == listed(p, url),
{
    lemma_web_is_not_data(url.scheme);
}

/// The text a grant names an origin by: without its wildcard marker, where it
/// has one, and without white space around it.
pub open spec fn granted_text(grant: Seq<char>) -> Seq<char> {
    match unmarked(grant) {
        Some(rest) => trimmed(rest),
        None => trimmed(trimmed(grant)),
    }
}

/// A scheme that cannot be fetched is not a grant of anything.
pub proof fn law_an_unfetchable_scheme_grants_nothing(p: PolicyView, grant: Seq<char>)
    requires
        names_a_scheme(granted_text(grant)),
        url_parsed(granted_text(grant)) matches Ok(u) && !is_web_scheme(u.scheme),
    ensures
        granting(p, grant) == p,
{
}

/// Two grants give one policy, whichever comes first.
proof fn lemma_grants_commute(p: PolicyView, a: Seq<char>, b: Seq<char>)
    ensures
        granting(granting(p, a), b) == granting(granting(p, b), a),
{
    assert(granting(granting(p, a), b) =~= granting(granting(p, b), a));
}

/// The last of the grants may as well have come at any place before.
proof fn lemma_a_grant_moves(p: PolicyView, grants: Seq<Seq<char>>, i: int)
    requires
        0 <= i < grants.len(),
    ensures
        granting_all(p, grants) == granting(granting_all(p, grants.remove(i)), grants[i]),
    decreases grants.len(),
{
    if i == grants.len() - 1 {
        assert(grants.remove(i) =~= grants.drop_last());
    } else {
        let rest = grants.drop_last();
        lemma_a_grant_moves(p, rest, i);
        let without = grants.remove(i);
        assert(without.drop_last() =~= rest.remove(i));
        assert(without.last() == grants.last());
        assert(rest[i] == grants[i]);
        lemma_grants_commute(granting_all(p, rest.remove(i)), grants[i], grants.last());
    }
}

/// The order of the grants does not matter: a list and any rearrangement of it
/// give one policy. No grants at all give the policy back.
pub proof fn law_the_order_of_grants_does_not_matter(
    p: PolicyView,
    xs: Seq<Seq<char>>,
    ys: Seq<Seq<char>>,
)
    requires
        xs.to_multiset() == ys.to_multiset(),
    ensures
        granting_all(p, xs) == granting_all(p, ys),
        granting_all(p, Seq::empty()) == p,
    decreases xs.len(),
{
    xs.to_multiset_ensures();
    ys.to_multiset_ensures();
    assert(xs.len() == ys.len());
    if xs.len() > 0 {
        let last = xs.last();
        assert(xs.contains(last));
        assert(xs.to_multiset().count(last) > 0);
        assert(ys.contains(last));
        let i = choose|i: int| 0 <= i < ys.len() && ys[i] == last;
        lemma_a_grant_moves(p, ys, i);
        let front = xs.drop_last();
        assert(front =~= xs.remove(xs.len() - 1));
        assert(front.to_multiset() =~= ys.remove(i).to_multiset());
        law_the_order_of_grants_does_not_matter(p, front, ys.remove(i));
    }
}

/// A list of grants is each of them granted in turn.
pub proof fn law_a_list_grants_each(p: PolicyView, xs: Seq<Seq<char>>, x: Seq<char>)
    ensures
        granting_all(p, xs.push(x)) == granting(granting_all(p, xs), x),
{
    assert(xs.push(x).drop_last() =~= xs);
}

/// The blanket grant of the open web does not touch what is decided about an
/// address.
pub proof fn law_any_remote_does_not_touch_the_address_check(
    p: PolicyView,
    url: UrlView,
    addr: IpView,
    on: bool,
)
    ensures
        address_checked(PolicyView { any_remote: on, ..p }, url, addr) == address_checked(
            p,
            url,
            addr,
        ),
{
    let q = PolicyView { any_remote: on, ..p };
    assert(q.origins == p.origins && q.wildcards == p.wildcards);
}

/// A public name that resolves to an internal address is refused by every
/// policy.
pub proof fn law_a_public_name_does_not_lead_inward(p: PolicyView, url: UrlView, addr: IpView)
    requires
        is_internal(addr),
        url.host is Some,
        !is_loopback_host(url.host->Some_0),
        read_ip(unbracketed(url.host->Some_0)) is None,
    ensures
        address_checked(p, url, addr) is Deny,
{
}

/// A page that the web served does not reach the dev server, however wide the
/// policy is.
pub proof fn law_a_web_page_does_not_reach_loopback(
    p: PolicyView,
    url: UrlView,
    document: UrlView,
)
    requires
        has_loopback_host(url),
        !has_loopback_host(document),
        document.scheme != "file"@,
    ensures
        checked_from(p, url, Some(document)) is Deny,
{
}

/// A policy nobody granted anything to reaches loopback and `data:` alone.
pub proof fn law_nothing_remote_is_reachable_by_default(url: UrlView)
    ensures
        checked(default_policy(), url) == VerdictView::Allow <==> url.scheme == "data"@ || (
        is_web_scheme(url.scheme) && has_loopback_host(url)),
{
}

proof fn lemma_web_is_not_data(scheme: Seq<char>)
    requires
        is_web_scheme(scheme),
    ensures
        scheme != "data"@,
{
    reveal_strlit("http");
    reveal_strlit("https");
    reveal_strlit("ws");
    reveal_strlit("wss");
    reveal_strlit("data");
    assert("http"@[0] != "data"@[0]);
}

/// A socket is judged as its HTTP twin: two URLs of one host and port, whose
/// schemes are twins, get one verdict.
pub proof fn law_a_socket_is_judged_as_its_http_twin(p: PolicyView, a: UrlView, b: UrlView)
    requires
        is_web_scheme(a.scheme),
        is_web_scheme(b.scheme),
        twin_scheme(a.scheme) == twin_scheme(b.scheme),
        a.host == b.host,
        a.port == b.port,
    ensures
        checked(p, a) == checked(p, b),
{
    lemma_web_is_not_data(a.scheme);
    lemma_web_is_not_data(b.scheme);
    if exists|w: WildcardView| p.wildcards.contains(w) && covers(w, a) {
        let w = choose|w: WildcardView| p.wildcards.contains(w) && covers(w, a);
        assert(p.wildcards.contains(w) && covers(w, b));
    }
    if exists|w: WildcardView| p.wildcards.contains(w) && covers(w, b) {
        let w = choose|w: WildcardView| p.wildcards.contains(w) && covers(w, b);
        assert(p.wildcards.contains(w) && covers(w, a));
    }
}

/// An IPv4 address whose 32-bit number lies outside 127.0.0.0/8, 10.0.0.0/8,
/// 172.16.0.0/12, 192.168.0.0/16, 169.254.0.0/16 and 100.64.0.0/10, and is
/// neither 0.0.0.0 nor 255.255.255.255, may be connected to under every
/// policy and whatever name led there.
pub proof fn law_a_public_address_is_never_refused(p: PolicyView, url: UrlView, b: Seq<u8>)
    requires
        b.len() == 4,
        ({
            let n = b[0] * 0x100_0000 + b[1] * 0x1_0000 + b[2] * 0x100 + b[3];
            &&& !(0x7f00_0000 <= n <= 0x7fff_ffff)
            &&& !(0x0a00_0000 <= n <= 0x0aff_ffff)
            &&& !(0xac10_0000 <= n <= 0xac1f_ffff)
            &&& !(0xc0a8_0000 <= n <= 0xc0a8_ffff)
            &&& !(0xa9fe_0000 <= n <= 0xa9fe_ffff)
            &&& !(0x6440_0000 <= n <= 0x647f_ffff)
            &&& n != 0
            &&& n != 0xffff_ffff
        }),
    ensures
        address_checked(p, url, IpView::V4(b)) == VerdictView::Allow,
{
    crate::address::law_internal_v4_is_these_ranges(b);
}

// ------------------------------------------------------ the rules in full

/// The host is this machine exactly where it is `localhost`, a name under
/// `.localhost`, or, out of its brackets, a literal in 127.0.0.0/8 or `::1`.
pub proof fn law_which_hosts_are_this_machine(host: Seq<char>)
    ensures
        is_loopback_host(host) <==> {
            ||| host == "localhost"@
            ||| exists|name: Seq<char>| host == #[trigger] (name + ".localhost"@)
            ||| match read_ip(unbracketed(host)) {
                Some(IpView::V4(b)) => b[0] == 127,
                Some(IpView::V6(b)) => (forall|i: int| 0 <= i < 15 ==> #[trigger] b[i] == 0)
                    && b[15] == 1,
                None => false,
            }
        },
{
    if ends_with(host, ".localhost"@) {
        crate::text::law_what_is_held_stands_there(host, ".localhost"@);
    }
    if exists|name: Seq<char>| host == #[trigger] (name + ".localhost"@) {
        let name = choose|name: Seq<char>| host == #[trigger] (name + ".localhost"@);
        crate::text::law_what_holding_a_text_means(name, ".localhost"@, Seq::empty());
    }
}

/// Brackets come off exactly where they stand at both ends.
pub proof fn law_brackets_come_off(inner: Seq<char>, host: Seq<char>)
    ensures
        unbracketed(seq!['['] + inner + seq![']']) == inner,
        host.len() == 0 || host[0] != '[' || host.last() != ']' ==> unbracketed(host) == host,
{
    let all = seq!['['] + inner + seq![']'];
    assert(all.subrange(1, all.len() - 1) =~= inner);
}

/// A request is on the list exactly where its origin, a socket's being that
/// of the page scheme it is dressed in, was granted as it is written, or
/// where a granted suffix of the same scheme and port is its host or stands
/// behind a dot at the end of it.
pub proof fn law_what_is_on_the_list(p: PolicyView, url: UrlView)
    ensures
        listed(p, url) == VerdictView::Allow <==> {
            let scheme = if url.scheme == "ws"@ {
                "http"@
            } else if url.scheme == "wss"@ {
                "https"@
            } else {
                url.scheme
            };
            let host = url.host->Some_0;
            &&& url.host is Some
            &&& scheme == "http"@ || scheme == "https"@
            &&& {
                ||| url.port is None && p.origins.contains(scheme + "://"@ + host)
                ||| url.port is Some && p.origins.contains(
                    scheme + "://"@ + (host + ":"@ + crate::text::decimal(url.port->Some_0 as nat)),
                )
                ||| exists|w: WildcardView| #[trigger]
                    p.wildcards.contains(w) && w.scheme == scheme && w.port == url.port && (w.host
                        == lowered(host) || exists|label: Seq<char>|
                        lowered(host) == #[trigger] (label + ("."@ + w.host)))
            }
        },
{
    let host = url.host->Some_0;
    assert forall|w: WildcardView| #[trigger] p.wildcards.contains(w) && url.host is Some implies (
    ends_with(lowered(host), "."@ + w.host) <==> exists|label: Seq<char>|
        lowered(host) == #[trigger] (label + ("."@ + w.host))) by {
        let tail = "."@ + w.host;
        if ends_with(lowered(host), tail) {
            crate::text::law_what_is_held_stands_there(lowered(host), tail);
        }
        if exists|label: Seq<char>| lowered(host) == #[trigger] (label + tail) {
            let label = choose|label: Seq<char>| lowered(host) == #[trigger] (label + tail);
            crate::text::law_what_holding_a_text_means(label, tail, Seq::empty());
        }
    }
    let scheme = twin_scheme(url.scheme);
    if url.host is Some {
        assert forall|w: WildcardView| #[trigger] p.wildcards.contains(w) implies (covers(w, url)
            <==> w.scheme == scheme && w.port == url.port && (w.host == lowered(host) || exists|
            label: Seq<char>,
        |
            lowered(host) == #[trigger] (label + ("."@ + w.host)))) by {}
        if exists|w: WildcardView| p.wildcards.contains(w) && covers(w, url) {
            let w = choose|w: WildcardView| p.wildcards.contains(w) && covers(w, url);
            assert(p.wildcards.contains(w));
        }
        if exists|w: WildcardView| #[trigger]
            p.wildcards.contains(w) && w.scheme == scheme && w.port == url.port && (w.host
                == lowered(host) || exists|label: Seq<char>|
                lowered(host) == #[trigger] (label + ("."@ + w.host))) {
            let w = choose|w: WildcardView| #[trigger]
                p.wildcards.contains(w) && w.scheme == scheme && w.port == url.port && (w.host
                    == lowered(host) || exists|label: Seq<char>|
                    lowered(host) == #[trigger] (label + ("."@ + w.host)));
            assert(p.wildcards.contains(w) && covers(w, url));
        }
    }
}

/// A request is allowed exactly where it is a `data` address, or where it is
/// `http`, `https`, `ws` or `wss` to some host, and that host is this machine
/// and it may be reached, or is another and any may be reached, or the
/// request is on the list.
pub proof fn law_what_may_be_requested(p: PolicyView, url: UrlView)
    ensures
        checked(p, url) == VerdictView::Allow <==> {
            ||| url.scheme == "data"@
            ||| {
                &&& url.scheme == "http"@ || url.scheme == "https"@ || url.scheme == "ws"@
                    || url.scheme == "wss"@
                &&& url.host is Some
                &&& {
                    ||| p.allow_loopback && is_loopback_host(url.host->Some_0)
                    ||| p.any_remote && !is_loopback_host(url.host->Some_0)
                    ||| listed(p, url) == VerdictView::Allow
                }
            }
        },
{
}

/// What a document asks for is judged as anything else, except that a
/// document from elsewhere, neither this machine's nor a file, may not reach
/// this machine at all.
pub proof fn law_what_a_document_may_request(
    p: PolicyView,
    url: UrlView,
    document: Option<UrlView>,
)
    ensures
        ({
            let inward = url.host is Some && is_loopback_host(url.host->Some_0);
            let local = document is None || document->Some_0.scheme == "file"@ || (
            document->Some_0.host is Some && is_loopback_host(document->Some_0.host->Some_0));
            &&& inward && !local ==> checked_from(p, url, document) is Deny
            &&& !inward || local ==> checked_from(p, url, document) == checked(p, url)
        }),
{
}

/// An internal address may be connected to exactly where the host is this
/// machine and it may be reached, or where the host is itself an address,
/// written out, and the request is on the list.
pub proof fn law_when_an_internal_address_is_reached(p: PolicyView, url: UrlView, addr: IpView)
    requires
        is_internal(addr),
    ensures
        address_checked(p, url, addr) == VerdictView::Allow <==> {
            let host = if url.host is Some {
                url.host->Some_0
            } else {
                Seq::empty()
            };
            ||| p.allow_loopback && is_loopback_host(host)
            ||| read_ip(unbracketed(host)) is Some && listed(p, url) == VerdictView::Allow
        },
{
}

/// By default this machine and `data` addresses may be requested and nothing
/// else, five redirects are followed, eight mebibytes are read, and no
/// credential crosses sites.
pub proof fn law_what_the_default_allows(url: UrlView)
    ensures
        checked(default_policy(), url) == VerdictView::Allow <==> url.scheme == "data"@ || ((
        url.scheme == "http"@ || url.scheme == "https"@ || url.scheme == "ws"@ || url.scheme
            == "wss"@) && url.host is Some && is_loopback_host(url.host->Some_0)),
        default_policy().max_redirects == 5,
        default_policy().max_response_bytes == 8 * 1024 * 1024,
        !default_policy().cross_site_credentials,
        default_policy().origins.len() == 0,
        default_policy().wildcards.len() == 0,
{
    law_what_may_be_requested(default_policy(), url);
    law_what_is_on_the_list(default_policy(), url);
}

/// A grant of a suffix is marked by `*.` or by `.` in front of the host, behind
/// the scheme where there is one, and the mark comes off. Nothing else marks
/// one.
pub proof fn law_how_a_suffix_is_marked(grant: Seq<char>, head: Seq<char>, host: Seq<char>)
    requires
        trimmed(grant) == head + host,
        match crate::text::cut(trimmed(grant), "://"@) {
            Some((_, behind)) => host == behind,
            None => head.len() == 0,
        },
    ensures
        host.len() >= 2 && host[0] == '*' && host[1] == '.' ==> unmarked(grant) == Some(
            head + host.skip(2),
        ),
        host.len() >= 1 && host[0] == '.' ==> unmarked(grant) == Some(head + host.skip(1)),
        unmarked(grant) is Some ==> (host.len() >= 1 && host[0] == '.') || (host.len() >= 2
            && host[0] == '*' && host[1] == '.'),
{
    reveal_strlit("*.");
    reveal_strlit(".");
    reveal_strlit("://");
    let t = trimmed(grant);
    crate::text::lemma_find_from(t, "://"@, 0);
    let at = find_from(t, "://"@, 0);
    let start = match at {
        Some(k) => k + 3,
        None => 0,
    };
    let tail = t.subrange(start, t.len() as int);
    assert(tail =~= host);
    assert(t.subrange(0, start) =~= head);
    assert(tail.subrange(1, tail.len() as int) =~= host.skip(1));
    if host.len() >= 2 {
        assert(tail.subrange(2, tail.len() as int) =~= host.skip(2));
        if host[0] == '*' && host[1] == '.' {
            assert(host.subrange(0, 2) =~= "*."@);
        }
        if host.subrange(0, 2) == "*."@ {
            assert(host.subrange(0, 2)[0] == host[0] && host.subrange(0, 2)[1] == host[1]);
        }
    }
    if host.len() >= 1 {
        if host[0] == '.' {
            assert(host.subrange(0, 1) =~= "."@);
            if starts_with(host, "*."@) {
                assert(host.subrange(0, 2)[0] == '*');
            }
        }
        if host.subrange(0, 1) == "."@ {
            assert(host.subrange(0, 1)[0] == host[0]);
        }
    }
}

/// A grant that marks no suffix and reads as an `http`, `https`, `ws` or `wss`
/// address with a host adds that origin, a socket's as that of the page
/// scheme, and touches nothing else. One that does not read as an address at
/// all is the same grant with `https://` in front.
pub proof fn law_what_a_grant_of_an_origin_adds(p: PolicyView, grant: Seq<char>)
    requires
        trimmed(grant) == grant,
        unmarked(grant) is None,
        grant.len() > 0,
    ensures
        url_parsed(grant) matches Ok(u) ==> u.host is Some && (u.scheme == "http"@ || u.scheme
            == "https"@ || u.scheme == "ws"@ || u.scheme == "wss"@) ==> {
            let scheme = if u.scheme == "http"@ || u.scheme == "ws"@ {
                "http"@
            } else {
                "https"@
            };
            let host = u.host->Some_0;
            granting(p, grant) == (PolicyView {
                origins: p.origins.insert(
                    if u.port is Some {
                        scheme + "://"@ + (host + ":"@ + crate::text::decimal(u.port->Some_0 as nat))
                    } else {
                        scheme + "://"@ + host
                    },
                ),
                ..p
            })
        },
        ({
            let spelled_out = "https://"@ + grant;
            url_parsed(grant) is Err && trimmed(spelled_out) == spelled_out && unmarked(spelled_out)
                is None ==> {
                &&& url_parsed(spelled_out) is Err ==> granting(p, grant) == p
                &&& url_parsed(spelled_out) matches Ok(u) ==> crate::url::is_web_scheme(u.scheme)
                    ==> granting(p, grant) == granting(p, spelled_out)
            }
        }),
{
    reveal_strlit("http");
    reveal_strlit("https");
    reveal_strlit("ws");
    reveal_strlit("wss");
    reveal_strlit("https://");
    assert("http"@.len() == 4 && "https"@.len() == 5 && "ws"@.len() == 2 && "wss"@.len() == 3);
    assert(("https://"@ + grant).len() > 0);
}

/// Whatever a grant adds, it leaves the rest of the policy as it is, and it
/// adds one origin or one suffix at most.
pub proof fn law_a_grant_touches_only_the_list(p: PolicyView, grant: Seq<char>)
    ensures
        ({
            let q = granting(p, grant);
            &&& q.allow_loopback == p.allow_loopback
            &&& q.any_remote == p.any_remote
            &&& q.max_redirects == p.max_redirects
            &&& q.max_response_bytes == p.max_response_bytes
            &&& q.cross_site_credentials == p.cross_site_credentials
            &&& unmarked(grant) is Some ==> q.origins == p.origins
            &&& unmarked(grant) is None ==> q.wildcards == p.wildcards
        }),
{
}

/// A grant that marks a suffix adds the host that stands behind the mark, with
/// the scheme and the port it reads with.
pub proof fn law_what_a_grant_of_a_suffix_adds(p: PolicyView, grant: Seq<char>)
    requires
        unmarked(grant) is Some,
        trimmed(unmarked(grant)->Some_0) == unmarked(grant)->Some_0,
    ensures
        ({
            let rest = unmarked(grant)->Some_0;
            url_parsed(rest) matches Ok(u) ==> rest.len() > 0 && u.host is Some && (u.scheme
                == "http"@ || u.scheme == "https"@) ==> granting(p, grant) == (PolicyView {
                wildcards: p.wildcards.insert(
                    WildcardView { scheme: u.scheme, host: u.host->Some_0, port: u.port },
                ),
                ..p
            })
        }),
        ({
            let rest = unmarked(grant)->Some_0;
            url_parsed("https://"@ + rest) matches Ok(u) ==> url_parsed(rest) is Err && rest.len()
                > 0 && u.host is Some && u.scheme == "https"@ ==> granting(p, grant) == (
            PolicyView {
                wildcards: p.wildcards.insert(
                    WildcardView { scheme: "https"@, host: u.host->Some_0, port: u.port },
                ),
                ..p
            })
        }),
{
    reveal_strlit("http");
    reveal_strlit("https");
    reveal_strlit("ws");
    reveal_strlit("wss");
    assert("http"@.len() == 4 && "https"@.len() == 5 && "ws"@.len() == 2 && "wss"@.len() == 3);
}

/// Each setting sets what it is named for and nothing else.
pub proof fn law_a_setting_sets_one_thing(
    p: Policy,
    on: bool,
    n: usize,
    m: u64,
    a: Policy,
    b: Policy,
    c: Policy,
    d: Policy,
    e: Policy,
)
    requires
        call_ensures(Policy::set_allow_loopback, (p, on), a),
        call_ensures(Policy::set_any_remote, (p, on), b),
        call_ensures(Policy::set_cross_site_credentials, (p, on), c),
        call_ensures(Policy::set_max_redirects, (p, n), d),
        call_ensures(Policy::set_max_response_bytes, (p, m), e),
    ensures
        a@.allow_loopback == on && b@.any_remote == on && c@.cross_site_credentials == on
            && d@.max_redirects == n && e@.max_response_bytes == m,
        a@ == (PolicyView { allow_loopback: a@.allow_loopback, ..p@ }),
        b@ == (PolicyView { any_remote: b@.any_remote, ..p@ }),
        c@ == (PolicyView { cross_site_credentials: c@.cross_site_credentials, ..p@ }),
        d@ == (PolicyView { max_redirects: d@.max_redirects, ..p@ }),
        e@ == (PolicyView { max_response_bytes: e@.max_response_bytes, ..p@ }),
{
}

/// An engine that lets credentials cross sites behaves as a browser, and any
/// other is contained.
pub proof fn law_which_stance_a_policy_takes(p: &Policy, r: Stance)
    requires
        call_ensures(Policy::cors_stance, (p,), r),
    ensures
        r is Browser <==> p@.cross_site_credentials,
        r is Contained <==> !p@.cross_site_credentials,
{
}

/// The address that a host resolved to is refused, or let through, by what it
/// is: outside the internal ranges it is always let through.
pub proof fn law_a_public_address_may_be_connected_to(
    p: &Policy,
    url: &Url,
    addr: IpAddr,
    b: Seq<u8>,
    r: Verdict,
)
    requires
        call_ensures(Policy::check_address, (p, url, addr), r),
        addr@ == IpView::V4(b),
        b.len() == 4,
        ({
            let n = b[0] * 0x100_0000 + b[1] * 0x1_0000 + b[2] * 0x100 + b[3];
            &&& !(0x7f00_0000 <= n <= 0x7fff_ffff)
            &&& !(0x0a00_0000 <= n <= 0x0aff_ffff)
            &&& !(0xac10_0000 <= n <= 0xac1f_ffff)
            &&& !(0xc0a8_0000 <= n <= 0xc0a8_ffff)
            &&& !(0xa9fe_0000 <= n <= 0xa9fe_ffff)
            &&& !(0x6440_0000 <= n <= 0x647f_ffff)
            &&& n != 0
            &&& n != 0xffff_ffff
        }),
    ensures
        r is Allow,
{
    law_a_public_address_is_never_refused(p@, url@, b);
}

/// A text names a scheme exactly where its first colon is followed by two
/// slashes.
pub proof fn law_what_names_a_scheme(name: Seq<char>, rest: Seq<char>, bare: Seq<char>)
    requires
        !name.contains(':'),
        !bare.contains(':'),
    ensures
        names_a_scheme(name + seq![':'] + rest) <==> rest.len() >= 2 && rest[0] == '/' && rest[1]
            == '/',
        !names_a_scheme(bare),
{
    reveal_strlit(":");
    reveal_strlit("://");
    let t = name + seq![':'] + rest;
    let k = name.len() as int;
    crate::text::lemma_find_from(t, ":"@, 0);
    crate::text::lemma_find_from(t, "://"@, 0);
    assert(crate::text::occurs_at(t, ":"@, k)) by {
        assert(t.subrange(k, k + 1) =~= ":"@);
    }
    assert forall|j: int| 0 <= j < k implies !crate::text::occurs_at(t, ":"@, j)
        && !crate::text::occurs_at(t, "://"@, j) by {
        if crate::text::occurs_at(t, ":"@, j) {
            assert(t.subrange(j, j + 1)[0] == ':');
            assert(t[j] == name[j]);
            assert(name.contains(name[j]));
        }
        if crate::text::occurs_at(t, "://"@, j) {
            assert(t.subrange(j, j + 3)[0] == ':');
            assert(t[j] == name[j]);
            assert(name.contains(name[j]));
        }
    }
    assert(find_from(t, ":"@, 0) == Some(k));
    if rest.len() >= 2 && rest[0] == '/' && rest[1] == '/' {
        assert(t.subrange(k, k + 3) =~= "://"@);
        assert(crate::text::occurs_at(t, "://"@, k));
    }
    if crate::text::occurs_at(t, "://"@, k) {
        let u = t.subrange(k, k + 3);
        assert(u[1] == '/' && u[2] == '/');
        assert(u[1] == rest[0] && u[2] == rest[1]);
    }
    crate::text::lemma_find_from(bare, ":"@, 0);
    if let Some(j) = find_from(bare, ":"@, 0) {
        assert(bare.subrange(j, j + 1)[0] == ':');
        assert(bare.contains(bare[j]));
    }
}

/// A grant that reads as an address of some scheme that is not the web's is the
/// same grant with `https://` in front where it does not name that scheme, as a
/// host and a port do not, and grants nothing where it does.
pub proof fn law_what_a_grant_of_a_host_adds(p: PolicyView, grant: Seq<char>)
    requires
        trimmed(grant) == grant,
        unmarked(grant) is None,
        grant.len() > 0,
        url_parsed(grant) matches Ok(u) && u.scheme != "http"@ && u.scheme != "https"@ && u.scheme
            != "ws"@ && u.scheme != "wss"@,
    ensures
        names_a_scheme(grant) ==> granting(p, grant) == p,
        ({
            let spelled_out = "https://"@ + grant;
            !names_a_scheme(grant) && trimmed(spelled_out) == spelled_out && unmarked(spelled_out)
                is None ==> {
                &&& url_parsed(spelled_out) is Err ==> granting(p, grant) == p
                &&& url_parsed(spelled_out) matches Ok(u) ==> u.scheme == "https"@ ==> granting(
                    p,
                    grant,
                ) == granting(p, spelled_out)
            }
        }),
{
    reveal_strlit("https://");
    assert(("https://"@ + grant).len() > 0);
}

} // verus!
