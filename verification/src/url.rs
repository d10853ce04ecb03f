//! Addresses: a URL as the plain parts that decisions are made from.
//!
//! The grammar is the `url` crate's. What it makes of a text is taken as it
//! comes; everything decided from the parts is decided, and proved, here.
use vstd::prelude::*;

use crate::text::{decimal, decimal_text, lowered, same, split_on, starts_with, string_view};

verus! {

/// A parsed URL.
#[derive(Debug, Clone, PartialEq, Eq)]
pub struct Url {
    /// The whole, serialised.
    pub href: String,
    pub scheme: String,
    /// The host as it stands in the URL, an IPv6 address in its brackets.
    pub host: Option<String>,
    /// The port, where it is not the one the scheme implies.
    pub port: Option<u16>,
    pub path: String,
    pub query: Option<String>,
    /// The origin, serialised; `null` where there is none.
    pub origin: String,
}

/// What a [`Url`] holds.
pub struct UrlView {
    pub href: Seq<char>,
    pub scheme: Seq<char>,
    pub host: Option<Seq<char>>,
    pub port: Option<u16>,
    pub path: Seq<char>,
    pub query: Option<Seq<char>>,
    pub origin: Seq<char>,
}

impl View for Url {
    type V = UrlView;

    open spec fn view(&self) -> UrlView {
        UrlView {
            href: self.href@,
            scheme: self.scheme@,
            host: string_view(self.host),
            port: self.port,
            path: self.path@,
            query: string_view(self.query),
            origin: self.origin@,
        }
    }
}

/// What `url::Url::parse` makes of a text: the parts, or its complaint.
pub uninterp spec fn url_parsed(input: Seq<char>) -> Result<UrlView, Seq<char>>;

/// What `url::Url::join` makes of a reference read against a base.
pub uninterp spec fn url_joined(base: Seq<char>, reference: Seq<char>) -> Result<UrlView, Seq<char>>;

pub open spec fn url_result(r: Result<Url, String>) -> Result<UrlView, Seq<char>> {
    match r {
        Ok(url) => Ok(url@),
        Err(e) => Err(e@),
    }
}

pub open spec fn url_option(u: Option<Url>) -> Option<UrlView> {
    match u {
        Some(url) => Some(url@),
        None => None,
    }
}

pub open spec fn url_ref(u: Option<&Url>) -> Option<UrlView> {
    match u {
        Some(url) => Some(url@),
        None => None,
    }
}

/// The port a scheme implies.
pub open spec fn implied_port(scheme: Seq<char>) -> Option<u16> {
    if scheme == "http"@ || scheme == "ws"@ {
        Some(80u16)
    } else if scheme == "https"@ || scheme == "wss"@ {
        Some(443u16)
    } else if scheme == "ftp"@ {
        Some(21u16)
    } else {
        None
    }
}

/// The port a request to the URL goes to.
pub open spec fn effective_port(url: UrlView) -> Option<u16> {
    match url.port {
        Some(p) => Some(p),
        None => implied_port(url.scheme),
    }
}

/// The schemes a page can be fetched over, sockets among them.
pub open spec fn is_web_scheme(scheme: Seq<char>) -> bool {
    scheme == "http"@ || scheme == "https"@ || scheme == "ws"@ || scheme == "wss"@
}

/// A socket's scheme is judged as the HTTP scheme it upgrades from.
pub open spec fn twin_scheme(scheme: Seq<char>) -> Seq<char> {
    if scheme == "ws"@ {
        "http"@
    } else if scheme == "wss"@ {
        "https"@
    } else {
        scheme
    }
}

/// `host` or `host:port`.
pub open spec fn authority(host: Seq<char>, port: Option<u16>) -> Seq<char> {
    match port {
        Some(p) => host + ":"@ + decimal(p as nat),
        None => host,
    }
}

/// How long a label in the ASCII form of another script may be, its mark
/// included, for the parser to decode it. It writes longer ones.
pub const LONGEST_DECODED: usize = 2004;

/// Every label of the host that stands in the ASCII form of another script is
/// one that the parser decodes.
pub open spec fn is_decodable(host: Seq<char>) -> bool {
    let labels = split_on(host, '.');
    forall|i: int|
        0 <= i < labels.len() ==> starts_with(#[trigger] labels[i], "xn--"@) ==> labels[i].len()
            <= LONGEST_DECODED
}

/// A web address that was read is read back from its own origin: the host
/// stands in small letters, the port is not the one the scheme implies, and
/// `scheme://host[:port]`, a socket's with its twin's scheme, has the same
/// scheme, host and port.
pub open spec fn reads_back(u: UrlView) -> bool {
    is_web_scheme(u.scheme) && u.host is Some && is_decodable(u.host->Some_0) ==> {
        &&& lowered(u.host->Some_0) == u.host->Some_0
        &&& u.port != implied_port(u.scheme)
        &&& url_parsed(
            twin_scheme(u.scheme) + "://"@ + authority(u.host->Some_0, u.port),
        ) matches Ok(w) && w.scheme == twin_scheme(u.scheme) && w.host == u.host && w.port
            == u.port
    }
}

/// Reads a URL with `url::Url::parse` and takes its parts: `as_str`, `scheme`,
/// `host_str`, `port`, `path`, `query` and the serialised `origin`. The parts,
/// or the error as text, are those that [`url_parsed`] names. The parser
/// lowers a web host, drops the scheme's own port, and takes a host it has
/// written itself for that same host, as [`reads_back`] says. The one host it
/// writes and does not read is one with a label in another script whose ASCII
/// form is longer than what `idna` decodes.
#[verifier::external_body]
fn read(input: &str) -> (r: Result<Url, String>)
    ensures
        url_result(r) == url_parsed(input@),
        r matches Ok(u) ==> reads_back(u@),
{
    let u = url::Url::parse(input).map_err(|e| e.to_string())?;
    Ok(Url {
        href: u.as_str().to_owned(),
        scheme: u.scheme().to_owned(),
        host: u.host_str().map(str::to_owned),
        port: u.port(),
        path: u.path().to_owned(),
        query: u.query().map(str::to_owned),
        origin: u.origin().ascii_serialization(),
    })
}

/// Reads a reference against a base with `url::Url::join`. The parts, or the
/// error as text, are those that [`url_joined`] names. They come out of the
/// same parser, so what [`reads_back`] says holds of them too.
#[verifier::external_body]
fn read_against(base: &str, reference: &str) -> (r: Result<Url, String>)
    ensures
        url_result(r) == url_joined(base@, reference@),
        r matches Ok(u) ==> reads_back(u@),
{
    let base = url::Url::parse(base).map_err(|e| e.to_string())?;
    let u = base.join(reference).map_err(|e| e.to_string())?;
    Ok(Url {
        href: u.as_str().to_owned(),
        scheme: u.scheme().to_owned(),
        host: u.host_str().map(str::to_owned),
        port: u.port(),
        path: u.path().to_owned(),
        query: u.query().map(str::to_owned),
        origin: u.origin().ascii_serialization(),
    })
}

impl Url {
    /// Reads a URL.
    pub fn parse(input: &str) -> (r: Result<Url, String>)
        ensures
            url_result(r) == url_parsed(input@),
            r matches Ok(u) ==> reads_back(u@),
    {
        read(input)
    }

    /// Reads a reference against this URL.
    pub fn join(&self, reference: &str) -> (r: Result<Url, String>)
        ensures
            url_result(r) == url_joined(self.href@, reference@),
            r matches Ok(u) ==> reads_back(u@),
    {
        read_against(&self.href, reference)
    }

    pub fn copy(&self) -> (r: Url)
        ensures
            r@ == self@,
    {
        Url {
            href: self.href.clone(),
            scheme: self.scheme.clone(),
            host: copy_option(&self.host),
            port: self.port,
            path: self.path.clone(),
            query: copy_option(&self.query),
            origin: self.origin.clone(),
        }
    }

    pub fn effective_port(&self) -> (r: Option<u16>)
        ensures
            r == effective_port(self@),
    {
        match self.port {
            Some(p) => Some(p),
            None => scheme_port(&self.scheme),
        }
    }

    pub fn has_web_scheme(&self) -> (r: bool)
        ensures
            r == is_web_scheme(self.scheme@),
    {
        same(&self.scheme, "http") || same(&self.scheme, "https") || same(&self.scheme, "ws")
            || same(&self.scheme, "wss")
    }
}

pub fn copy_option(s: &Option<String>) -> (r: Option<String>)
    ensures
        r == *s,
        string_view(r) == string_view(*s),
{
    match s {
        Some(t) => Some(t.clone()),
        None => None,
    }
}

fn scheme_port(scheme: &str) -> (r: Option<u16>)
    ensures
        r == implied_port(scheme@),
{
    if same(scheme, "http") || same(scheme, "ws") {
        Some(80)
    } else if same(scheme, "https") || same(scheme, "wss") {
        Some(443)
    } else if same(scheme, "ftp") {
        Some(21)
    } else {
        None
    }
}

/// The scheme, with a socket's read as its HTTP twin.
pub fn twin(scheme: &str) -> (r: String)
    ensures
        r@ == twin_scheme(scheme@),
{
    if same(scheme, "ws") {
        "http".to_owned()
    } else if same(scheme, "wss") {
        "https".to_owned()
    } else {
        scheme.to_owned()
    }
}

pub fn authority_text(host: &str, port: Option<u16>) -> (r: String)
    ensures
        r@ == authority(host@, port),
{
    let mut out = host.to_owned();
    if let Some(p) = port {
        out.append(":");
        out.append(&decimal_text(p as u64));
    }
    out
}

/// The port in force is the one written, or else 80 for `http` and `ws`, 443
/// for `https` and `wss`, and 21 for `ftp`. No other scheme has one.
pub proof fn law_which_port_is_in_force(url: UrlView)
    ensures
        url.port is Some ==> effective_port(url) == url.port,
        url.port is None ==> {
            &&& effective_port(url) == Some(80u16) <==> url.scheme == "http"@ || url.scheme == "ws"@
            &&& effective_port(url) == Some(443u16) <==> url.scheme == "https"@ || url.scheme
                == "wss"@
            &&& effective_port(url) == Some(21u16) <==> url.scheme == "ftp"@
            &&& effective_port(url) is None <==> url.scheme != "http"@ && url.scheme != "ws"@
                && url.scheme != "https"@ && url.scheme != "wss"@ && url.scheme != "ftp"@
        },
{
    reveal_strlit("http");
    reveal_strlit("https");
    reveal_strlit("ws");
    reveal_strlit("wss");
    reveal_strlit("ftp");
    assert("http"@.len() == 4 && "https"@.len() == 5 && "ws"@.len() == 2 && "wss"@.len() == 3
        && "ftp"@.len() == 3);
    assert("wss"@[0] == 'w' && "ftp"@[0] == 'f');
}

/// The schemes of the web are `http`, `https`, `ws` and `wss`. A socket's
/// scheme has the page scheme of the same safety for its twin, and every other
/// is its own.
pub proof fn law_which_schemes_are_twins(scheme: Seq<char>)
    ensures
        is_web_scheme(scheme) <==> scheme == "http"@ || scheme == "https"@ || scheme == "ws"@
            || scheme == "wss"@,
        scheme == "ws"@ ==> twin_scheme(scheme) == "http"@,
        scheme == "wss"@ ==> twin_scheme(scheme) == "https"@,
        scheme != "ws"@ && scheme != "wss"@ ==> twin_scheme(scheme) == scheme,
        implied_port(twin_scheme(scheme)) == implied_port(scheme),
        twin_scheme(twin_scheme(scheme)) == twin_scheme(scheme),
{
    reveal_strlit("http");
    reveal_strlit("https");
    reveal_strlit("ws");
    reveal_strlit("wss");
    assert("http"@.len() == 4 && "https"@.len() == 5 && "ws"@.len() == 2 && "wss"@.len() == 3);
}

} // verus!
