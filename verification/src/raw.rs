//! Requests written byte for byte, and requests sent again.
use vstd::prelude::*;
use vstd::utf8::{decode_utf8, encode_utf8, valid_utf8};

use crate::cors::pairs;
use crate::fetch::{
    copy_bytes, failed_outcome, find_header, header_if, header_value, lemma_values_add,
    lemma_values_filtered, lemma_values_if, values_of, Fetch, FetchOutcome, OutcomeView,
};
use crate::passage::{Errand, Passage, Stage};
use crate::receipt::{response_record, Initiator, RecordView, RequestRecord};
use crate::text::{
    after_word, begins, contains, cut, cut_at, decimal, decimal_text, first_word, holds, lower,
    lowered, same, same_but_case, split_at_text, split_text, starts_with, string_view, take_word,
    texts, trim, trimmed, upper, uppered,
};
use crate::url::{authority, authority_text, Url, UrlView};

verus! {

/// A request that can still be edited.
#[derive(Debug, Clone, PartialEq, Eq)]
pub struct Editable {
    pub method: String,
    pub url: Url,
    pub headers: Vec<(String, String)>,
    pub body: Vec<u8>,
}

/// How a request is sent again.
#[derive(Debug, Clone, PartialEq, Eq)]
pub struct Sends {
    /// How many times.
    pub count: u32,
    /// All at once rather than one after the other.
    pub together: bool,
    /// Stop at a redirect and report it.
    pub no_follow: bool,
    /// The request's bytes, all of them.
    pub raw_request: Option<Vec<u8>>,
    /// The request-target as it goes on the wire.
    pub raw_target: Option<String>,
}

impl Default for Sends {
    fn default() -> (r: Sends)
        ensures
            r.count == 0,
            !r.together,
            !r.no_follow,
            r.raw_request is None,
            r.raw_target is None,
    {
        Sends { count: 0, together: false, no_follow: false, raw_request: None, raw_target: None }
    }
}

impl Sends {
    /// One send, followed as a browser follows it.
    pub fn once() -> (r: Sends)
        ensures
            r.count == 1,
            !r.together,
            !r.no_follow,
            r.raw_request is None,
            r.raw_target is None,
    {
        Sends { count: 1, together: false, no_follow: false, raw_request: None, raw_target: None }
    }
}

/// A request as its bytes, with what the log says of it.
#[derive(Debug, Clone, PartialEq, Eq)]
pub struct RawRequest {
    pub url: Url,
    pub method: String,
    pub target: String,
    pub wire: Vec<u8>,
    /// Where the body begins in `wire`.
    pub body_at: usize,
    pub headers: Vec<(String, String)>,
    /// The framing headers that the caller wrote itself.
    pub broke: Vec<String>,
}

/// `host[:port]`, without the port the scheme implies.
pub open spec fn authority_of(url: UrlView) -> Seq<char> {
    match url.host {
        Some(host) => authority(host, url.port),
        None => Seq::empty(),
    }
}

/// `scheme://host[:port]`.
pub open spec fn scheme_authority_of(url: UrlView) -> Seq<char> {
    url.scheme + "://"@ + authority_of(url)
}

/// Return `host[:port]`, omitting the default port.
pub fn authority_host(url: &Url) -> (r: String)
    ensures
        r@ == authority_of(url@),
{
    match &url.host {
        Some(host) => authority_text(host, url.port),
        None => String::new(),
    }
}

/// Return `scheme://host[:port]` for display and `Host` construction.
pub fn scheme_authority(url: &Url) -> (r: String)
    ensures
        r@ == scheme_authority_of(url@),
{
    let mut out = url.scheme.clone();
    out.append("://");
    out.append(&authority_host(url));
    out
}

// ------------------------------------------------------------ whole requests

/// An empty line stands at `i`: where a head ends.
pub open spec fn head_ends_at(b: Seq<u8>, i: int) -> bool {
    0 <= i && i + 4 <= b.len() && b[i] == 13 && b[i + 1] == 10 && b[i + 2] == 13 && b[i + 3] == 10
}

/// Where the first empty line stands.
pub fn find_crlf_crlf(bytes: &[u8]) -> (r: Option<usize>)
    ensures
        match r {
            Some(at) => head_ends_at(bytes@, at as int) && forall|i: int|
                0 <= i < at ==> !head_ends_at(bytes@, i),
            None => forall|i: int| !head_ends_at(bytes@, i),
        },
{
    if bytes.len() < 4 {
        return None;
    }
    let mut i: usize = 0;
    while i <= bytes.len() - 4
        invariant
            4 <= bytes.len(),
            i <= bytes.len() - 3,
            forall|k: int| 0 <= k < i ==> !head_ends_at(bytes@, k),
        decreases bytes.len() - i,
    {
        if bytes[i] == 13 && bytes[i + 1] == 10 && bytes[i + 2] == 13 && bytes[i + 3] == 10 {
            return Some(i);
        }
        i += 1;
    }
    None
}

/// Where the body of a raw request begins.
pub open spec fn is_body_start(b: Seq<u8>, at: int) -> bool {
    ||| 4 <= at && head_ends_at(b, at - 4) && forall|i: int| 0 <= i < at - 4 ==> !head_ends_at(b, i)
    ||| at == b.len() && forall|i: int| !head_ends_at(b, i)
}

/// What `String::from_utf8_lossy` makes of bytes.
pub uninterp spec fn lossy_text(bytes: Seq<u8>) -> Seq<char>;

/// Reads bytes as text with `String::from_utf8_lossy`, which takes valid UTF-8
/// as it is and puts replacement characters where it is not.
#[verifier::external_body]
pub(crate) fn lossy(bytes: &[u8]) -> (r: String)
    ensures
        r@ == lossy_text(bytes@),
        valid_utf8(bytes@) ==> r@ == decode_utf8(bytes@),
{
    String::from_utf8_lossy(bytes).into_owned()
}

/// What a string looks like in quotation marks, with its escapes, as its
/// `Debug` form has it.
pub uninterp spec fn quoted_text(s: Seq<char>) -> Seq<char>;

/// Writes a string with `{:?}`, the `Debug` form of `str`.
#[verifier::external_body]
pub(crate) fn quoted(s: &str) -> (r: String)
    ensures
        r@ == quoted_text(s@),
{
    format!("{s:?}")
}

/// The name and the value of a header line.
pub open spec fn header_line(line: Seq<char>) -> Option<(Seq<char>, Seq<char>)> {
    match cut(line, ":"@) {
        Some((name, value)) => Some((trimmed(name), trimmed(value))),
        None => None,
    }
}

/// The headers that lines hold. A line without a colon is none.
pub open spec fn header_lines(lines: Seq<Seq<char>>) -> Seq<(Seq<char>, Seq<char>)>
    decreases lines.len(),
{
    if lines.len() == 0 {
        Seq::empty()
    } else {
        let before = header_lines(lines.drop_last());
        match header_line(lines.last()) {
            Some(h) => before.push(h),
            None => before,
        }
    }
}

/// A header that frames the message.
pub open spec fn is_framing(name: Seq<char>) -> bool {
    lowered(name) == "content-length"@ || lowered(name) == "transfer-encoding"@ || lowered(name)
        == "connection"@
}

/// The framing headers among them, in small letters.
pub open spec fn framing_names(headers: Seq<(Seq<char>, Seq<char>)>) -> Seq<Seq<char>> {
    headers.filter(|h: (Seq<char>, Seq<char>)| is_framing(h.0)).map_values(
        |h: (Seq<char>, Seq<char>)| lowered(h.0),
    )
}

/// What is read from the head of a raw request, for the log.
pub open spec fn reads_as(
    r: Result<RawRequest, String>,
    url: UrlView,
    bytes: Seq<u8>,
    head_end: int,
    head: Seq<char>,
) -> bool {
    let lines = split_text(head, "\r\n"@);
    let method = first_word(lines[0]);
    let target = first_word(after_word(lines[0]));
    if method.len() == 0 || target.len() == 0 {
        r matches Err(why) && why@ == "the raw request's first line is "@ + quoted_text(lines[0])
            + ", not a `METHOD target HTTP/1.1` line"@
    } else {
        r matches Ok(raw) && raw.url@ == url && raw.method@ == method && raw.target@ == target
            && raw.wire@ == bytes && raw.body_at == head_end && pairs(raw.headers@) == header_lines(
            lines.skip(1),
        ) && texts(raw.broke@) == framing_names(header_lines(lines.skip(1)))
    }
}

proof fn lemma_split_text_some(s: Seq<char>, sep: Seq<char>)
    ensures
        split_text(s, sep).len() > 0,
    decreases s.len(),
{
    match crate::text::find_from(s, sep, 0) {
        Some(k) => {
            if 0 <= k && 0 < sep.len() && k + sep.len() <= s.len() {
                lemma_split_text_some(s.subrange(k + sep.len(), s.len() as int), sep);
            }
        },
        None => {},
    }
}

fn parse_header_lines(lines: &Vec<String>) -> (r: Vec<(String, String)>)
    requires
        lines@.len() > 0,
    ensures
        pairs(r@) == header_lines(texts(lines@).skip(1)),
{
    let ghost all = texts(lines@).skip(1);
    let mut out: Vec<(String, String)> = Vec::new();
    let mut i: usize = 1;
    assert(pairs(out@) =~= header_lines(all.take(0)));
    while i < lines.len()
        invariant
            1 <= i <= lines.len(),
            all == texts(lines@).skip(1),
            pairs(out@) == header_lines(all.take(i - 1)),
        decreases lines.len() - i,
    {
        let ghost now = all.take(i as int);
        assert(now.drop_last() =~= all.take(i - 1));
        assert(now.last() == lines@[i as int]@);
        let ghost before = out@;
        if let Some((name, value)) = cut_at(&lines[i], ":") {
            let n = trim(&name);
            let v = trim(&value);
            let ghost h = (n@, v@);
            out.push((n, v));
            assert(pairs(out@) =~= pairs(before).push(h));
        }
        i += 1;
    }
    assert(all.take(i - 1) =~= all);
    out
}

fn list_framing(headers: &Vec<(String, String)>) -> (r: Vec<String>)
    ensures
        texts(r@) == framing_names(pairs(headers@)),
{
    let mut out: Vec<String> = Vec::new();
    let ghost all = pairs(headers@);
    let ghost keep = |h: (Seq<char>, Seq<char>)| is_framing(h.0);
    let ghost name = |h: (Seq<char>, Seq<char>)| lowered(h.0);
    let mut i: usize = 0;
    proof {
        reveal(Seq::filter);
        assert(texts(out@) =~= all.take(0).filter(keep).map_values(name));
    }
    while i < headers.len()
        invariant
            i <= headers.len(),
            all == pairs(headers@),
            keep == (|h: (Seq<char>, Seq<char>)| is_framing(h.0)),
            name == (|h: (Seq<char>, Seq<char>)| lowered(h.0)),
            texts(out@) == all.take(i as int).filter(keep).map_values(name),
        decreases headers.len() - i,
    {
        assert(all[i as int] == (headers@[i as int].0@, headers@[i as int].1@));
        let ghost before = out@;
        let low = lower(&headers[i].0);
        if same(&low, "content-length") || same(&low, "transfer-encoding") || same(
            &low,
            "connection",
        ) {
            out.push(low);
            assert(texts(out@) =~= texts(before).push(name(all[i as int])));
        }
        i += 1;
        proof {
            reveal(Seq::filter);
            assert(all.take(i as int).drop_last() =~= all.take(i - 1));
            assert(all.take(i as int).last() == all[i - 1]);
            let kept = all.take(i - 1).filter(keep);
            assert(kept.push(all[i - 1]).map_values(name) =~= kept.map_values(name).push(
                name(all[i - 1]),
            ));
        }
    }
    assert(all.take(i as int) =~= all);
    out
}

/// Reads the audit fields of a raw request from the text of its head.
pub fn raw_from_head(url: Url, bytes: Vec<u8>, head_end: usize, head: &str) -> (r: Result<
    RawRequest,
    String,
>)
    ensures
        reads_as(r, url@, bytes@, head_end as int, head@),
{
    proof {
        reveal_strlit("\r\n");
        lemma_split_text_some(head@, "\r\n"@);
    }
    let lines = split_at_text(head, "\r\n");
    assert(texts(lines@)[0] == lines@[0]@);
    let (method, rest) = take_word(&lines[0]);
    let (target, _tail) = take_word(&rest);
    if method.as_str().is_empty() || target.as_str().is_empty() {
        let mut why = "the raw request's first line is ".to_owned();
        why.append(&quoted(&lines[0]));
        why.append(", not a `METHOD target HTTP/1.1` line");
        return Err(why);
    }
    let headers = parse_header_lines(&lines);
    let broke = list_framing(&headers);
    Ok(RawRequest { url, method, target, wire: bytes, body_at: head_end, headers, broke })
}

/// Parse audit fields from a complete request without changing its bytes.
pub fn parse_raw_request(url: Url, bytes: Vec<u8>) -> (r: Result<RawRequest, String>)
    ensures
        exists|at: int| #[trigger] is_body_start(bytes@, at) && 0 <= at <= bytes@.len() && reads_as(
            r,
            url@,
            bytes@,
            at,
            lossy_text(bytes@.take(at)),
        ),
{
    let n = bytes.len();
    let head_end: usize = match find_crlf_crlf(bytes.as_slice()) {
        Some(at) => at + 4,
        None => n,
    };
    let mut head: Vec<u8> = Vec::new();
    let mut i: usize = 0;
    while i < head_end
        invariant
            i <= head_end <= bytes.len(),
            head@ == bytes@.take(i as int),
        decreases head_end - i,
    {
        head.push(bytes[i]);
        i += 1;
        assert(head@ =~= bytes@.take(i as int));
    }
    let text = lossy(head.as_slice());
    assert(is_body_start(bytes@, head_end as int));
    raw_from_head(url, bytes, head_end, &text)
}

// ---------------------------------------------------------- managed requests

/// A header line as it is written.
pub open spec fn written(h: (Seq<char>, Seq<char>)) -> Seq<char> {
    h.0 + ": "@ + h.1 + "\r\n"@
}

pub open spec fn written_all(headers: Seq<(Seq<char>, Seq<char>)>) -> Seq<char>
    decreases headers.len(),
{
    if headers.len() == 0 {
        Seq::empty()
    } else {
        written_all(headers.drop_last()) + written(headers.last())
    }
}

/// A header that a managed request computes for itself.
pub open spec fn is_managed(name: Seq<char>) -> bool {
    lowered(name) == "host"@ || is_framing(name)
}

/// The headers of a managed request: the caller's, with the host and the
/// framing its own.
pub open spec fn managed_headers(
    url: UrlView,
    headers: Seq<(Seq<char>, Seq<char>)>,
    body_len: nat,
) -> Seq<(Seq<char>, Seq<char>)> {
    let host = match header_value(headers, "host"@) {
        Some(h) => h,
        None => authority_of(url),
    };
    seq![("Host"@, host)] + headers.filter(|h: (Seq<char>, Seq<char>)| !is_managed(h.0)) + (
    if body_len > 0 {
        seq![("Content-Length"@, decimal(body_len))]
    } else {
        Seq::empty()
    }) + seq![("Connection"@, "close"@)]
}

/// The head of a managed request. The target stands in it as it was given.
pub open spec fn managed_head(
    method: Seq<char>,
    target: Seq<char>,
    headers: Seq<(Seq<char>, Seq<char>)>,
) -> Seq<char> {
    method + " "@ + target + " HTTP/1.1\r\n"@ + written_all(headers) + "\r\n"@
}

fn append_bytes(out: &mut Vec<u8>, more: &[u8])
    ensures
        final(out)@ == old(out)@ + more@,
{
    let ghost start = out@;
    let mut i: usize = 0;
    assert(start + more@.take(0) =~= start);
    while i < more.len()
        invariant
            i <= more.len(),
            out@ == start + more@.take(i as int),
        decreases more.len() - i,
    {
        out.push(more[i]);
        i += 1;
        assert(out@ =~= start + more@.take(i as int));
    }
    assert(more@.take(i as int) =~= more@);
}

/// Build a request with a verbatim target and computed framing headers.
pub fn build_managed_raw(editable: &Editable, target: &str) -> (r: RawRequest)
    ensures
        r.url@ == editable.url@,
        r.method@ == uppered(trimmed(editable.method@)),
        r.target@ == target@,
        pairs(r.headers@) == managed_headers(
            editable.url@,
            pairs(editable.headers@),
            editable.body@.len(),
        ),
        r.wire@ == encode_utf8(managed_head(r.method@, target@, pairs(r.headers@)))
            + editable.body@,
        r.body_at == encode_utf8(managed_head(r.method@, target@, pairs(r.headers@))).len(),
        r.broke@.len() == 0,
{
    let method = upper(&trim(&editable.method));
    let ghost all = pairs(editable.headers@);
    let mut headers: Vec<(String, String)> = Vec::new();
    let host = match find_header(&editable.headers, "host") {
        Some(h) => h.to_owned(),
        None => authority_host(&editable.url),
    };
    let ghost first = seq![("Host"@, host@)];
    headers.push(("Host".to_owned(), host));
    assert(pairs(headers@) =~= first);
    let ghost keep = |h: (Seq<char>, Seq<char>)| !is_managed(h.0);
    let mut i: usize = 0;
    proof {
        reveal(Seq::filter);
        assert(pairs(headers@) =~= first + all.take(0).filter(keep));
    }
    while i < editable.headers.len()
        invariant
            i <= editable.headers.len(),
            all == pairs(editable.headers@),
            keep == (|h: (Seq<char>, Seq<char>)| !is_managed(h.0)),
            pairs(headers@) == first + all.take(i as int).filter(keep),
        decreases editable.headers.len() - i,
    {
        let name = &editable.headers[i].0;
        assert(all[i as int] == (editable.headers@[i as int].0@, editable.headers@[i as int].1@));
        let ghost before = headers@;
        let low = lower(name);
        if !(same(&low, "host") || same(&low, "content-length") || same(&low, "transfer-encoding")
            || same(&low, "connection")) {
            headers.push((name.clone(), editable.headers[i].1.clone()));
            assert(pairs(headers@) =~= pairs(before).push(all[i as int]));
        }
        i += 1;
        proof {
            reveal(Seq::filter);
            assert(all.take(i as int).drop_last() =~= all.take(i - 1));
            assert(all.take(i as int).last() == all[i - 1]);
            let kept = all.take(i - 1).filter(keep);
            assert(first + kept.push(all[i - 1]) =~= (first + kept).push(all[i - 1]));
        }
    }
    assert(all.take(i as int) =~= all);
    let ghost second = first + all.filter(keep);
    let ghost length = if editable.body@.len() > 0 {
        seq![("Content-Length"@, decimal(editable.body@.len()))]
    } else {
        Seq::empty()
    };
    if editable.body.len() > 0 {
        headers.push(("Content-Length".to_owned(), decimal_text(editable.body.len() as u64)));
    }
    assert(pairs(headers@) =~= second + length);
    headers.push(("Connection".to_owned(), "close".to_owned()));
    assert(pairs(headers@) =~= second + length + seq![("Connection"@, "close"@)]);

    let mut head = method.clone();
    head.append(" ");
    head.append(target);
    head.append(" HTTP/1.1\r\n");
    let ghost line = head@;
    let ghost lines = pairs(headers@);
    let mut k: usize = 0;
    assert(line + written_all(lines.take(0)) =~= line);
    while k < headers.len()
        invariant
            k <= headers.len(),
            lines == pairs(headers@),
            head@ == line + written_all(lines.take(k as int)),
        decreases headers.len() - k,
    {
        let ghost before = head@;
        head.append(&headers[k].0);
        head.append(": ");
        head.append(&headers[k].1);
        head.append("\r\n");
        k += 1;
        proof {
            let now = lines.take(k as int);
            assert(now.drop_last() =~= lines.take(k - 1));
            assert(now.last() == (headers@[k - 1].0@, headers@[k - 1].1@));
            assert(head@ =~= before + written(now.last()));
            assert(head@ =~= line + written_all(now));
        }
    }
    assert(lines.take(k as int) =~= lines);
    head.append("\r\n");
    let mut wire: Vec<u8> = Vec::new();
    append_bytes(&mut wire, head.as_str().as_bytes());
    let body_at: usize = wire.len();
    append_bytes(&mut wire, editable.body.as_slice());
    proof {
        assert(head@ =~= managed_head(method@, target@, lines));
        assert(wire@ =~= encode_utf8(head@) + editable.body@);
    }
    RawRequest {
        url: editable.url.copy(),
        method,
        target: target.to_owned(),
        wire,
        body_at,
        headers,
        broke: Vec::new(),
    }
}

/// A text that can stand where a request-target stands: a path, or a URL.
pub open spec fn is_target(t: Seq<char>) -> bool {
    t.len() > 0 && (t[0] == '/' || contains(t, "://"@))
}

/// What a raw plan makes of an edited request: the bytes the caller wrote, read
/// for the log, or a request with the target the caller wrote and framing of
/// its own around what was edited. Otherwise, what is wrong with the plan.
pub open spec fn is_built(r: Result<RawRequest, String>, editable: Editable, plan: Sends) -> bool {
    match (plan.raw_request, plan.raw_target) {
        (Some(bytes), _) => exists|at: int| #[trigger]
            is_body_start(bytes@, at) && 0 <= at <= bytes@.len() && reads_as(
                r,
                editable.url@,
                bytes@,
                at,
                lossy_text(bytes@.take(at)),
            ),
        (None, None) => r matches Err(why) && why@
            == "a raw send needs a request-target or a whole request"@,
        (None, Some(target)) => if is_target(target@) {
            r matches Ok(raw) && raw.target@ == target@ && raw.url@ == editable.url@
                && raw.method@ == uppered(trimmed(editable.method@)) && pairs(raw.headers@)
                == managed_headers(
                editable.url@,
                pairs(editable.headers@),
                editable.body@.len(),
            ) && raw.wire@ == encode_utf8(
                managed_head(raw.method@, target@, pairs(raw.headers@)),
            ) + editable.body@ && raw.body_at == encode_utf8(
                managed_head(raw.method@, target@, pairs(raw.headers@)),
            ).len() && raw.broke@.len() == 0
        } else {
            r matches Err(why) && why@ == quoted_text(target@)
                + " is not a request-target: it should begin with `/` (an origin-form target like `/cgi-bin/.%2e/etc/passwd`) or be an absolute URL"@
        },
    }
}

/// Build either a complete raw request or a managed request with a raw target.
pub fn build_raw_request(editable: &Editable, plan: &Sends) -> (r: Result<RawRequest, String>)
    ensures
        is_built(r, *editable, *plan),
{
    if let Some(bytes) = &plan.raw_request {
        return parse_raw_request(editable.url.copy(), copy_bytes(bytes));
    }
    match &plan.raw_target {
        None => Err("a raw send needs a request-target or a whole request".to_owned()),
        Some(target) => {
            proof {
                reveal_strlit("/");
                if target@.len() > 0 {
                    assert(target@.subrange(0, 1) =~= seq![target@[0]]);
                    assert("/"@ =~= seq!['/']);
                    if starts_with(target@, "/"@) {
                        assert(target@.subrange(0, 1)[0] == "/"@[0]);
                    }
                }
            }
            if target.as_str().is_empty() || (!begins(target, "/") && !holds(target, "://")) {
                let mut why = quoted(target);
                why.append(
                    " is not a request-target: it should begin with `/` (an origin-form target like `/cgi-bin/.%2e/etc/passwd`) or be an absolute URL",
                );
                return Err(why);
            }
            Ok(build_managed_raw(editable, target))
        },
    }
}

/// A raw request's bytes are the caller's: reading it for the log changes none
/// of them, and every framing header the caller wrote is named.
pub proof fn law_a_raw_request_is_sent_verbatim(
    r: Result<RawRequest, String>,
    url: UrlView,
    bytes: Seq<u8>,
    head_end: int,
    head: Seq<char>,
)
    requires
        reads_as(r, url, bytes, head_end, head),
    ensures
        r matches Ok(raw) ==> raw.wire@ == bytes && texts(raw.broke@) == framing_names(
            pairs(raw.headers@),
        ),
{
}

/// What was edited goes out under a raw target too: the request is the edited
/// one but for its request-line and its framing, and its body is the edited
/// body to the byte.
pub proof fn law_edits_reach_a_raw_target(
    raw: RawRequest,
    editable: Editable,
    plan: Sends,
)
    requires
        is_built(Ok(raw), editable, plan),
        plan.raw_request is None,
    ensures
        plan.raw_target matches Some(t) && raw.target@ == t@,
        raw.url@ == editable.url@,
        raw.method@ == uppered(trimmed(editable.method@)),
        forall|h: (Seq<char>, Seq<char>)| #[trigger]
            pairs(editable.headers@).contains(h) && !is_managed(h.0) ==> pairs(
                raw.headers@,
            ).contains(h),
        raw_body(raw) == editable.body@,
{
    let all = pairs(editable.headers@);
    let keep = |h: (Seq<char>, Seq<char>)| !is_managed(h.0);
    let sent = pairs(raw.headers@);
    assert forall|h: (Seq<char>, Seq<char>)| #[trigger] all.contains(h) && !is_managed(
        h.0,
    ) implies sent.contains(h) by {
        let i = choose|i: int| 0 <= i < all.len() && all[i] == h;
        assert(keep(all[i]));
        all.filter_lemma(keep);
        assert(all.filter(keep).contains(h));
        let k = choose|k: int| 0 <= k < all.filter(keep).len() && all.filter(keep)[k] == h;
        assert(sent[k + 1] == h);
    }
    assert(raw_body(raw) =~= editable.body@);
}

// ---------------------------------------------------------------- the wire

/// Where the log says a raw request went: the authority, and the target that
/// was actually sent.
pub open spec fn shown_target(raw: RawRequest) -> Seq<char> {
    scheme_authority_of(raw.url@) + raw.target@
}

/// The passage of a raw request.
pub fn raw_passage(raw: &RawRequest, seq: u64) -> (r: Passage)
    ensures
        r.errand == Errand::Raw,
        r.seq == seq,
        r.initiator == Initiator::Replay,
        r.verb@ == raw.method@,
        r.shown@ == shown_target(*raw),
        r.method@ == raw.method@,
        r.url@ == raw.url@,
        r.overridden@ == raw.broke@,
        r.stage == Stage::Naming,
        r.plan is None,
{
    let mut shown = scheme_authority(&raw.url);
    shown.append(&raw.target);
    Passage::new(
        Errand::Raw,
        seq,
        Initiator::Replay,
        &raw.method,
        &shown,
        &raw.method,
        &raw.url,
        &raw.broke,
    )
}

/// The body of a raw request.
pub open spec fn raw_body(raw: RawRequest) -> Seq<u8> {
    if raw.body_at <= raw.wire@.len() {
        raw.wire@.skip(raw.body_at as int)
    } else {
        Seq::empty()
    }
}

/// The body of a raw request.
pub fn body_of(raw: &RawRequest) -> (r: Vec<u8>)
    ensures
        r@ == raw_body(*raw),
{
    let mut out: Vec<u8> = Vec::new();
    if raw.body_at > raw.wire.len() {
        return out;
    }
    let mut i: usize = raw.body_at;
    while i < raw.wire.len()
        invariant
            raw.body_at <= i <= raw.wire.len(),
            out@ == raw.wire@.subrange(raw.body_at as int, i as int),
        decreases raw.wire.len() - i,
    {
        out.push(raw.wire[i]);
        i += 1;
        assert(out@ =~= raw.wire@.subrange(raw.body_at as int, i as int));
    }
    assert(out@ =~= raw.wire@.skip(raw.body_at as int));
    out
}

/// A raw request that could not be sent, and the response half of its record.
pub fn raw_unsent(raw: &RawRequest, record: &RequestRecord, error: &str, elapsed_ms: u64) -> (r: (
    RequestRecord,
    FetchOutcome,
))
    ensures
        r.0@ == (RecordView {
            duration_ms: Some(elapsed_ms),
            error: Some(error@),
            ..response_record(record@)
        }),
        r.1@ == failed_outcome(raw.url@, error@, Some(record@.seq)),
{
    let mut out = record.response();
    out.duration_ms = Some(elapsed_ms);
    out.error = Some(error.to_owned());
    (out, FetchOutcome::failed_at(raw.url.copy(), error.to_owned(), Some(record.seq)))
}

/// What a caller is told of a raw request that could not be written.
pub fn raw_unwritten(error: &str) -> (r: String)
    ensures
        r@ == "writing the request failed: "@ + error@,
{
    let mut why = "writing the request failed: ".to_owned();
    why.append(error);
    why
}

/// A raw request that got no answer, and the response half of its record.
pub fn raw_unanswered(raw: &RawRequest, record: &RequestRecord, error: &str, ttfb_ms: u64) -> (r: (
    RequestRecord,
    FetchOutcome,
))
    ensures
        r.0@ == (RecordView {
            duration_ms: Some(ttfb_ms),
            ttfb_ms: Some(ttfb_ms),
            error: Some(error@),
            ..response_record(record@)
        }),
        r.1@ == failed_outcome(raw.url@, error@, Some(record@.seq)),
{
    let mut out = record.response();
    out.duration_ms = Some(ttfb_ms);
    out.ttfb_ms = Some(ttfb_ms);
    out.error = Some(error.to_owned());
    (out, FetchOutcome::failed_at(raw.url.copy(), error.to_owned(), Some(record.seq)))
}

/// What came back to a raw request.
#[derive(Debug, Clone, PartialEq, Eq)]
pub struct RawAnswer {
    pub status: Option<u16>,
    pub headers: Vec<(String, String)>,
    pub body: Vec<u8>,
    /// What followed the response: the answer to a second request, where the
    /// bytes were two as far as the server was concerned.
    pub trailing: Vec<u8>,
}

/// The values of the headers that set cookies.
pub open spec fn cookies_set(headers: Seq<(Seq<char>, Seq<char>)>) -> Seq<Seq<char>> {
    headers.filter(|h: (Seq<char>, Seq<char>)| lowered(h.0) == lowered("set-cookie"@)).map_values(
        |h: (Seq<char>, Seq<char>)| h.1,
    )
}

/// The values of the headers that set cookies.
pub fn set_cookies(headers: &Vec<(String, String)>) -> (r: Vec<String>)
    ensures
        texts(r@) == cookies_set(pairs(headers@)),
{
    let mut out: Vec<String> = Vec::new();
    let ghost all = pairs(headers@);
    let ghost keep = |h: (Seq<char>, Seq<char>)| lowered(h.0) == lowered("set-cookie"@);
    let ghost value = |h: (Seq<char>, Seq<char>)| h.1;
    let mut i: usize = 0;
    proof {
        reveal(Seq::filter);
        assert(texts(out@) =~= all.take(0).filter(keep).map_values(value));
    }
    while i < headers.len()
        invariant
            i <= headers.len(),
            all == pairs(headers@),
            keep == (|h: (Seq<char>, Seq<char>)| lowered(h.0) == lowered("set-cookie"@)),
            value == (|h: (Seq<char>, Seq<char>)| h.1),
            texts(out@) == all.take(i as int).filter(keep).map_values(value),
        decreases headers.len() - i,
    {
        assert(all[i as int] == (headers@[i as int].0@, headers@[i as int].1@));
        let ghost before = out@;
        if same_but_case(&headers[i].0, "set-cookie") {
            out.push(headers[i].1.clone());
            assert(texts(out@) =~= texts(before).push(all[i as int].1));
        }
        i += 1;
        proof {
            reveal(Seq::filter);
            assert(all.take(i as int).drop_last() =~= all.take(i - 1));
            assert(all.take(i as int).last() == all[i - 1]);
            let kept = all.take(i - 1).filter(keep);
            assert(kept.push(all[i - 1]).map_values(value) =~= kept.map_values(value).push(
                all[i - 1].1,
            ));
        }
    }
    assert(all.take(i as int) =~= all);
    out
}

/// What a raw request comes to, and the response half of its record. The
/// answer is shown whole: whoever writes a request byte for byte is no page.
pub fn raw_answered(
    raw: &RawRequest,
    record: &RequestRecord,
    answer: RawAnswer,
    cookies_stored: usize,
    ttfb_ms: u64,
) -> (r: (RequestRecord, FetchOutcome))
    ensures
        r.0@ == (RecordView {
            status: answer.status,
            duration_ms: Some(ttfb_ms),
            ttfb_ms: Some(ttfb_ms),
            bytes: Some(answer.body@.len() as u64),
            cookies_stored: Some(cookies_stored),
            trailing_bytes: if answer.trailing@.len() > 0 {
                Some(answer.trailing@.len() as u64)
            } else {
                record@.trailing_bytes
            },
            ..response_record(record@)
        }),
        r.1@ == (OutcomeView {
            seq: Some(record@.seq),
            headers: pairs(answer.headers@),
            final_url: raw.url@,
            body: answer.body@,
            status: answer.status,
            error: None,
            opaque: false,
        }),
{
    let mut out = record.response();
    out.status = answer.status;
    out.duration_ms = Some(ttfb_ms);
    out.ttfb_ms = Some(ttfb_ms);
    out.bytes = Some(answer.body.len() as u64);
    out.cookies_stored = Some(cookies_stored);
    if answer.trailing.len() > 0 {
        out.trailing_bytes = Some(answer.trailing.len() as u64);
    }
    let outcome = FetchOutcome {
        seq: Some(record.seq),
        headers: answer.headers,
        final_url: raw.url.copy(),
        body: answer.body,
        status: answer.status,
        error: None,
        opaque: false,
    };
    (out, outcome)
}

// ------------------------------------------------------------------ replays

/// Why a request cannot be sent again: a code, and a sentence.
#[derive(Debug, Clone, PartialEq, Eq)]
pub struct SendError {
    pub code: String,
    pub message: String,
}

impl SendError {
    pub fn new(code: &str, message: String) -> (r: SendError)
        ensures
            r.code@ == code@,
            r.message@ == message@,
    {
        SendError { code: code.to_owned(), message }
    }
}

/// A session that kept no request.
pub fn no_capture() -> (r: SendError)
    ensures
        r.code@ == "no-capture"@,
        r.message@
            == "this session was not opened with `--capture`, so it kept no request to send again"@,
{
    SendError::new(
        "no-capture",
        "this session was not opened with `--capture`, so it kept no request to send again".to_owned(),
    )
}

/// A request the session does not have.
pub fn no_such_request(from: u64) -> (r: SendError)
    ensures
        r.code@ == "no-such-request"@,
        r.message@ == "there is no stored request "@ + decimal(from as nat)
            + " in this session. `requests` lists the sequence numbers this session has"@,
{
    let mut message = "there is no stored request ".to_owned();
    message.append(&decimal_text(from));
    message.append(" in this session. `requests` lists the sequence numbers this session has");
    SendError::new("no-such-request", message)
}

/// How much of a stored request's body there is.
#[derive(Debug, Clone, PartialEq, Eq)]
pub enum StoredBody {
    Empty,
    Stored { truncated: bool },
    /// Not kept, and why.
    Skipped { reason: String },
}

/// What stands in the way of sending a stored request again. A body that was
/// not kept whole cannot be replayed faithfully.
pub open spec fn unreplayable(from: u64, body: StoredBody) -> Option<Seq<char>> {
    match body {
        StoredBody::Empty => None,
        StoredBody::Stored { truncated } => if truncated {
            Some(
                "stored request "@ + decimal(from as nat)
                    + " was too large to keep whole, so replaying it would send a request that is not the one recorded"@,
            )
        } else {
            None
        },
        StoredBody::Skipped { reason } => Some(
            "stored request "@ + decimal(from as nat) + "'s body was not kept ("@ + reason@
                + "), so there is nothing to replay"@,
        ),
    }
}

/// Whether the body of a stored request can be sent again.
pub fn check_replayable(from: u64, body: &StoredBody) -> (r: Result<(), SendError>)
    ensures
        match r {
            Ok(()) => unreplayable(from, *body) is None,
            Err(e) => e.code@ == "unreplayable-body"@ && unreplayable(from, *body) == Some(
                e.message@,
            ),
        },
{
    match body {
        StoredBody::Empty => Ok(()),
        StoredBody::Stored { truncated } => {
            if *truncated {
                let mut message = "stored request ".to_owned();
                message.append(&decimal_text(from));
                message.append(
                    " was too large to keep whole, so replaying it would send a request that is not the one recorded",
                );
                return Err(SendError::new("unreplayable-body", message));
            }
            Ok(())
        },
        StoredBody::Skipped { reason } => {
            let mut message = "stored request ".to_owned();
            message.append(&decimal_text(from));
            message.append("'s body was not kept (");
            message.append(reason);
            message.append("), so there is nothing to replay");
            Err(SendError::new("unreplayable-body", message))
        },
    }
}

/// The address of a stored request, read again.
pub fn stored_url(from: u64, text: &str) -> (r: Result<Url, SendError>)
    ensures
        match crate::url::url_parsed(text@) {
            Ok(u) => r matches Ok(url) && url@ == u,
            Err(e) => r matches Err(why) && why.code@ == "no-such-request"@ && why.message@
                == "stored request "@ + decimal(from as nat) + " has an unusable URL: "@ + e,
        },
{
    match Url::parse(text) {
        Ok(u) => Ok(u),
        Err(e) => {
            let mut message = "stored request ".to_owned();
            message.append(&decimal_text(from));
            message.append(" has an unusable URL: ");
            message.append(&e);
            Err(SendError::new("no-such-request", message))
        },
    }
}

/// A request as a session kept it.
#[derive(Debug, Clone, PartialEq, Eq)]
pub struct Stored {
    pub method: String,
    pub url: String,
    pub headers: Vec<(String, String)>,
    pub body: StoredBody,
}

/// Why a kept request is not sent again, where it is not: a code, and a
/// sentence. `bytes` is what the store reads for its body.
pub open spec fn recall_refusal(
    from: u64,
    capturing: bool,
    stored: Option<Stored>,
    bytes: Result<Vec<u8>, String>,
) -> Option<(Seq<char>, Seq<char>)> {
    match stored {
        _ if !capturing => Some(
            (
                "no-capture"@,
                "this session was not opened with `--capture`, so it kept no request to send again"@,
            ),
        ),
        None => Some(
            (
                "no-such-request"@,
                "there is no stored request "@ + decimal(from as nat)
                    + " in this session. `requests` lists the sequence numbers this session has"@,
            ),
        ),
        Some(s) => match crate::url::url_parsed(s.url@) {
            Err(e) => Some(
                (
                    "no-such-request"@,
                    "stored request "@ + decimal(from as nat) + " has an unusable URL: "@ + e,
                ),
            ),
            Ok(_) => match (unreplayable(from, s.body), bytes) {
                (Some(why), _) => Some(("unreplayable-body"@, why)),
                (None, Err(e)) if s.body is Stored => Some(
                    (
                        "unreplayable-body"@,
                        "stored request "@ + decimal(from as nat) + "'s body is not readable: "@
                            + e@,
                    ),
                ),
                _ => None,
            },
        },
    }
}

/// The request that a session kept, to be edited and sent again. `capturing`
/// says whether it keeps any, and `bytes` what the store reads for the body.
pub fn recall(
    from: u64,
    capturing: bool,
    stored: Option<Stored>,
    bytes: Result<Vec<u8>, String>,
) -> (r: Result<Editable, SendError>)
    ensures
        match recall_refusal(from, capturing, stored, bytes) {
            Some(why) => r matches Err(e) && e.code@ == why.0 && e.message@ == why.1,
            None => r matches Ok(e) && stored matches Some(s) && e.method@ == s.method@
                && crate::url::url_parsed(s.url@) == Ok::<UrlView, Seq<char>>(e.url@)
                && pairs(e.headers@) == pairs(s.headers@) && e.body@ == (if s.body is Stored {
                bytes->Ok_0@
            } else {
                Seq::empty()
            }),
        },
{
    if !capturing {
        return Err(no_capture());
    }
    let stored = match stored {
        Some(s) => s,
        None => {
            return Err(no_such_request(from));
        },
    };
    let url = match stored_url(from, &stored.url) {
        Ok(u) => u,
        Err(e) => {
            return Err(e);
        },
    };
    if let Err(e) = check_replayable(from, &stored.body) {
        return Err(e);
    }
    let body = match &stored.body {
        StoredBody::Stored { .. } => match bytes {
            Ok(b) => b,
            Err(e) => {
                let mut message = "stored request ".to_owned();
                message.append(&decimal_text(from));
                message.append("'s body is not readable: ");
                message.append(&e);
                return Err(SendError::new("unreplayable-body", message));
            },
        },
        _ => Vec::new(),
    };
    Ok(Editable { method: stored.method, url, headers: stored.headers, body })
}

/// A burst that was not the size it was asked for: one that silently sent fewer
/// requests would make a race that did not reproduce look like one that does
/// not exist.
pub fn broken_burst() -> (r: SendError)
    ensures
        r.code@ == "send-failed"@,
        r.message@
            == "one of the parallel sends panicked, so the burst was not the size it was asked for"@,
{
    SendError::new(
        "send-failed",
        "one of the parallel sends panicked, so the burst was not the size it was asked for".to_owned(),
    )
}

/// What was put on the wire, in a few words.
#[derive(Debug, Clone, PartialEq, Eq)]
pub struct Sent {
    pub method: String,
    pub url: String,
    pub header_names: Vec<String>,
    pub body_bytes: u64,
}

/// How an edited request goes out.
#[derive(Debug, Clone, PartialEq, Eq)]
pub enum Replay {
    Raw { raw: RawRequest, sent: Sent },
    Fetch { fetch: Fetch, sent: Sent, sends: u32, together: bool },
}

pub open spec fn names_of(headers: Seq<(Seq<char>, Seq<char>)>) -> Seq<Seq<char>> {
    headers.map_values(|h: (Seq<char>, Seq<char>)| h.0)
}

fn header_names(headers: &Vec<(String, String)>) -> (r: Vec<String>)
    ensures
        texts(r@) == names_of(pairs(headers@)),
{
    let mut out: Vec<String> = Vec::new();
    let ghost all = pairs(headers@);
    let mut i: usize = 0;
    while i < headers.len()
        invariant
            i <= headers.len(),
            all == pairs(headers@),
            texts(out@) == names_of(all.take(i as int)),
        decreases headers.len() - i,
    {
        let ghost before = out@;
        assert(all[i as int].0 == headers@[i as int].0@);
        out.push(headers[i].0.clone());
        assert(texts(out@) =~= texts(before).push(all[i as int].0));
        i += 1;
        assert(names_of(all.take(i as int)) =~= names_of(all.take(i - 1)).push(all[i - 1].0));
    }
    assert(all.take(i as int) =~= all);
    out
}

fn copy_pairs(headers: &Vec<(String, String)>) -> (r: Vec<(String, String)>)
    ensures
        pairs(r@) == pairs(headers@),
{
    let mut out: Vec<(String, String)> = Vec::new();
    let ghost all = pairs(headers@);
    let mut i: usize = 0;
    while i < headers.len()
        invariant
            i <= headers.len(),
            all == pairs(headers@),
            pairs(out@) == all.take(i as int),
        decreases headers.len() - i,
    {
        let ghost before = out@;
        assert(all[i as int] == (headers@[i as int].0@, headers@[i as int].1@));
        out.push((headers[i].0.clone(), headers[i].1.clone()));
        assert(pairs(out@) =~= pairs(before).push(all[i as int]));
        i += 1;
        assert(all.take(i as int) =~= all.take(i - 1).push(all[i - 1]));
    }
    assert(all.take(i as int) =~= all);
    out
}

/// How often a request is sent: the count is sends, not extra ones, and never
/// none.
pub open spec fn times_sent(count: u32) -> u32 {
    if count == 0 {
        1
    } else {
        count
    }
}

/// A fetch that sends an edited request again: whoever replays exercises its
/// own authority, like a navigation. There is no document here.
pub open spec fn is_replay_of(f: Fetch, editable: Editable, no_follow: bool) -> bool {
    &&& f.url@ == editable.url@
    &&& f.initiator == Initiator::Replay
    &&& f.method@ == editable.method@
    &&& f.body@ == editable.body@
    &&& string_view(f.content_type) == header_value(pairs(editable.headers@), "content-type"@)
    &&& pairs(f.headers@) == pairs(editable.headers@)
    &&& f.max_redirects == (if no_follow {
        Some(0usize)
    } else {
        None
    })
    &&& f.document is None
    &&& f.cors is None
}

/// How an edited request goes out: raw where the plan says so, and at least
/// once.
pub fn plan_replay(editable: &Editable, plan: &Sends) -> (r: Result<Replay, SendError>)
    ensures
        plan.raw_request is None && plan.raw_target is None ==> (r matches Ok(
            Replay::Fetch { fetch, sent, sends, together },
        ) && is_replay_of(fetch, *editable, plan.no_follow) && sent.method@ == editable.method@
            && sent.url@ == editable.url@.href && texts(sent.header_names@) == names_of(
            pairs(editable.headers@),
        ) && sent.body_bytes == editable.body@.len() as u64 && sends == times_sent(plan.count) && together == (plan.together && sends > 1)),
        plan.raw_request is Some || plan.raw_target is Some ==> match r {
            Ok(Replay::Raw { raw, sent }) => is_built(Ok(raw), *editable, *plan) && sent.method@
                == raw.method@ && sent.url@ == shown_target(raw) && texts(sent.header_names@)
                == names_of(pairs(raw.headers@)) && sent.body_bytes == raw_body(raw).len() as u64,
            Ok(Replay::Fetch { .. }) => false,
            Err(e) => e.code@ == "bad-raw"@ && exists|why: String|
                why@ == e.message@ && #[trigger] is_built(Err(why), *editable, *plan),
        },
{
    if plan.raw_request.is_some() || plan.raw_target.is_some() {
        return match build_raw_request(editable, plan) {
            Err(e) => {
                assert(is_built(Err(e), *editable, *plan));
                Err(SendError::new("bad-raw", e))
            },
            Ok(raw) => {
                let mut url = scheme_authority(&raw.url);
                url.append(&raw.target);
                let body_bytes: u64 = if raw.body_at <= raw.wire.len() {
                    (raw.wire.len() - raw.body_at) as u64
                } else {
                    0
                };
                let sent = Sent {
                    method: raw.method.clone(),
                    url,
                    header_names: header_names(&raw.headers),
                    body_bytes,
                };
                Ok(Replay::Raw { raw, sent })
            },
        };
    }
    let content_type = match find_header(&editable.headers, "content-type") {
        Some(v) => Some(v.to_owned()),
        None => None,
    };
    let fetch = Fetch {
        url: editable.url.copy(),
        initiator: Initiator::Replay,
        method: editable.method.clone(),
        body: copy_bytes(&editable.body),
        content_type,
        headers: copy_pairs(&editable.headers),
        max_redirects: if plan.no_follow {
            Some(0)
        } else {
            None
        },
        document: None,
        cors: None,
    };
    let sent = Sent {
        method: editable.method.clone(),
        url: editable.url.href.clone(),
        header_names: header_names(&editable.headers),
        body_bytes: editable.body.len() as u64,
    };
    let sends: u32 = if plan.count == 0 {
        1
    } else {
        plan.count
    };
    Ok(Replay::Fetch { fetch, sent, sends, together: plan.together && sends > 1 })
}

/// What one send cost.
#[derive(Debug, Clone, Copy, PartialEq, Eq)]
pub struct Timing {
    pub seq: Option<u64>,
    pub status: Option<u16>,
    pub ttfb_ms: u64,
    pub total_ms: u64,
    pub bytes: u64,
}

/// The reading of one send. The log knows where the headers stopped and the
/// body began; the wall clock stands in for a fetch that never got that far.
pub fn time_of(outcome: &FetchOutcome, logged: &Vec<RequestRecord>, total_ms: u64) -> (r: Timing)
    ensures
        r.seq == outcome@.seq,
        r.status == outcome@.status,
        r.total_ms == total_ms,
        r.bytes == outcome@.body.len() as u64,
        r.ttfb_ms == logged_ttfb(logged@, outcome@.seq, total_ms),
{
    let ttfb_ms: u64 = match outcome.seq {
        None => total_ms,
        Some(seq) => {
            let mut i: usize = 0;
            let mut found: Option<u64> = None;
            let ghost all = logged@;
            assert(all.skip(0) =~= all);
            while i < logged.len()
                invariant_except_break
                    i <= logged.len(),
                    all == logged@,
                    found is None,
                    first_response(all, seq) == first_response(all.skip(i as int), seq),
                ensures
                    found == (match first_response(all, seq) {
                        Some(r) => r.ttfb_ms,
                        None => None,
                    }),
                decreases logged.len() - i,
            {
                assert(all.skip(i as int)[0] == logged@[i as int]);
                assert(all.skip(i as int).drop_first() =~= all.skip(i + 1));
                if logged[i].seq == seq && logged[i].phase == crate::receipt::Phase::Response {
                    found = logged[i].ttfb_ms;
                    break;
                }
                i += 1;
            }
            match found {
                Some(t) => t,
                None => total_ms,
            }
        },
    };
    Timing {
        seq: outcome.seq,
        status: outcome.status,
        ttfb_ms,
        total_ms,
        bytes: outcome.body.len() as u64,
    }
}

/// The response record of a number.
pub open spec fn first_response(logged: Seq<RequestRecord>, seq: u64) -> Option<RequestRecord>
    decreases logged.len(),
{
    if logged.len() == 0 {
        None
    } else if logged[0].seq == seq && logged[0].phase == crate::receipt::Phase::Response {
        Some(logged[0])
    } else {
        first_response(logged.drop_first(), seq)
    }
}

pub open spec fn logged_ttfb(logged: Seq<RequestRecord>, seq: Option<u64>, total_ms: u64) -> u64 {
    match seq {
        None => total_ms,
        Some(n) => match first_response(logged, n) {
            Some(r) => match r.ttfb_ms {
                Some(t) => t,
                None => total_ms,
            },
            None => total_ms,
        },
    }
}

/// A sample that was never recorded comes before every one that was.
pub open spec fn sent_before(a: Timing, b: Timing) -> bool {
    match (a.seq, b.seq) {
        (None, _) => true,
        (Some(_), None) => false,
        (Some(x), Some(y)) => x <= y,
    }
}

fn is_sent_before(a: &Timing, b: &Timing) -> (r: bool)
    ensures
        r == sent_before(*a, *b),
{
    match (a.seq, b.seq) {
        (None, _) => true,
        (Some(_), None) => false,
        (Some(x), Some(y)) => x <= y,
    }
}

pub open spec fn in_order(v: Seq<Timing>) -> bool {
    forall|i: int, j: int| 0 <= i < j < v.len() ==> sent_before(#[trigger] v[i], #[trigger] v[j])
}

/// The samples of one number, as they come.
pub open spec fn numbered(v: Seq<Timing>, seq: Option<u64>) -> Seq<Timing> {
    v.filter(|t: Timing| t.seq == seq)
}

proof fn lemma_numbered_insert(before: Seq<Timing>, k: int, next: Timing, seq: Option<u64>)
    requires
        0 <= k <= before.len(),
        forall|j: int| k <= j < before.len() ==> !sent_before(#[trigger] before[j], next),
    ensures
        numbered(before.insert(k, next), seq) == numbered(before.push(next), seq),
{
    let keep = |t: Timing| t.seq == seq;
    let head = before.take(k);
    let tail = before.skip(k);
    let one = seq![next];
    assert(before.insert(k, next) =~= head + (one + tail));
    assert(before.push(next) =~= head + (tail + one));
    Seq::filter_distributes_over_add(head, one + tail, keep);
    Seq::filter_distributes_over_add(head, tail + one, keep);
    Seq::filter_distributes_over_add(one, tail, keep);
    Seq::filter_distributes_over_add(tail, one, keep);
    if keep(next) {
        assert forall|j: int| 0 <= j < tail.len() implies !keep(#[trigger] tail[j]) by {
            assert(!sent_before(before[k + j], next));
        }
        lemma_none_kept(tail, keep);
    } else {
        lemma_none_kept(one, keep);
    }
    assert(one.filter(keep) + tail.filter(keep) =~= tail.filter(keep) + one.filter(keep));
}

proof fn lemma_none_kept(v: Seq<Timing>, keep: spec_fn(Timing) -> bool)
    requires
        forall|j: int| 0 <= j < v.len() ==> !keep(#[trigger] v[j]),
    ensures
        v.filter(keep) == Seq::<Timing>::empty(),
    decreases v.len(),
{
    reveal(Seq::filter);
    if v.len() > 0 {
        assert(!keep(v[v.len() - 1]));
        assert forall|j: int| 0 <= j < v.drop_last().len() implies !keep(
            #[trigger] v.drop_last()[j],
        ) by {
            assert(!keep(v[j]));
        }
        lemma_none_kept(v.drop_last(), keep);
    }
}

/// The samples oldest first: threads finish out of order, and a race's whole
/// story is which one landed first.
pub fn sort_samples(samples: Vec<Timing>) -> (r: Vec<Timing>)
    ensures
        in_order(r@),
        r@.to_multiset() == samples@.to_multiset(),
        forall|seq: Option<u64>| #[trigger] numbered(r@, seq) == numbered(samples@, seq),
{
    let mut out: Vec<Timing> = Vec::new();
    let mut i: usize = 0;
    assert(samples@.take(0) =~= out@);
    while i < samples.len()
        invariant
            i <= samples.len(),
            in_order(out@),
            out@.to_multiset() == samples@.take(i as int).to_multiset(),
            forall|seq: Option<u64>| #[trigger]
                numbered(out@, seq) == numbered(samples@.take(i as int), seq),
        decreases samples.len() - i,
    {
        let next = samples[i];
        let mut k: usize = out.len();
        while k > 0 && !is_sent_before(&out[k - 1], &next)
            invariant
                k <= out.len(),
                forall|j: int| k <= j < out@.len() ==> !sent_before(#[trigger] out@[j], next),
            decreases k,
        {
            k -= 1;
        }
        let ghost before = out@;
        out.insert(k, next);
        proof {
            let now = out@;
            assert(now =~= before.insert(k as int, next));
            assert forall|a: int, b: int| 0 <= a < b < now.len() implies sent_before(
                #[trigger] now[a],
                #[trigger] now[b],
            ) by {
                if b < k {
                    assert(sent_before(before[a], before[b]));
                } else if b == k {
                    assert(now[a] == before[a]);
                    if a < k - 1 {
                        assert(sent_before(before[a], before[k - 1]));
                    }
                    assert(sent_before(before[k - 1], next));
                } else {
                    assert(now[b] == before[b - 1]);
                    if a == k {
                        assert(!sent_before(before[b - 1], next));
                    } else if a < k {
                        assert(sent_before(before[a], before[b - 1]));
                    } else {
                        assert(now[a] == before[a - 1]);
                        assert(sent_before(before[a - 1], before[b - 1]));
                    }
                }
            }
            vstd::seq_lib::to_multiset_insert(before, k as int, next);
            assert(samples@.take(i + 1) =~= samples@.take(i as int).push(next));
            vstd::seq_lib::to_multiset_build(samples@.take(i as int), next);
            assert forall|seq: Option<u64>| #[trigger]
                numbered(now, seq) == numbered(samples@.take(i + 1), seq) by {
                lemma_numbered_insert(before, k as int, next, seq);
                let keep = |t: Timing| t.seq == seq;
                Seq::filter_distributes_over_add(before, seq![next], keep);
                Seq::filter_distributes_over_add(samples@.take(i as int), seq![next], keep);
                assert(before.push(next) =~= before + seq![next]);
                assert(samples@.take(i + 1) =~= samples@.take(i as int) + seq![next]);
                assert(numbered(before, seq) == numbered(samples@.take(i as int), seq));
            }
        }
        i += 1;
    }
    assert(samples@.take(i as int) =~= samples@);
    out
}

/// The count is sends, not extra ones, and never none.
pub proof fn law_an_edited_request_is_sent_at_least_once(count: u32)
    ensures
        times_sent(count) >= 1,
        count >= 1 ==> times_sent(count) == count,
{
}

proof fn lemma_managed_names()
    ensures
        lowered("host"@) == "host"@,
        lowered("Host"@) == "host"@,
        lowered("Content-Length"@) == "content-length"@,
        lowered("Connection"@) == "connection"@,
        "host"@.len() == 4,
        "content-length"@.len() == 14,
        "transfer-encoding"@.len() == 17,
        "connection"@.len() == 10,
{
    reveal_strlit("host");
    reveal_strlit("Host");
    reveal_strlit("Content-Length");
    reveal_strlit("content-length");
    reveal_strlit("transfer-encoding");
    reveal_strlit("Connection");
    reveal_strlit("connection");
    assert(lowered("host"@) =~= "host"@);
    assert(lowered("Host"@) =~= "host"@);
    assert(lowered("Content-Length"@) =~= "content-length"@);
    assert(lowered("Connection"@) =~= "connection"@);
}

/// A raw request that is built around a target names one host, the caller's
/// first or else that of its address, frames its own body and no other, and
/// closes its connection. What the caller set of these, in any case, does not
/// go out; all else goes out as it was set.
pub proof fn law_how_a_built_request_is_framed(
    editable: &Editable,
    target: &str,
    r: RawRequest,
    name: Seq<char>,
)
    requires
        call_ensures(build_managed_raw, (editable, target), r),
    ensures
        ({
            let set = pairs(editable.headers@);
            let wire = pairs(r.headers@);
            let hosts = values_of(set, "host"@);
            &&& values_of(wire, "host"@) == seq![
                if hosts.len() > 0 {
                    hosts[0]
                } else {
                    authority_of(editable.url@)
                },
            ]
            &&& values_of(wire, "content-length"@) == if editable.body@.len() > 0 {
                seq![decimal(editable.body@.len())]
            } else {
                Seq::empty()
            }
            &&& values_of(wire, "transfer-encoding"@).len() == 0
            &&& values_of(wire, "connection"@) == seq!["close"@]
            &&& name != "host"@ && name != "content-length"@ && name != "transfer-encoding"@ && name
                != "connection"@ ==> values_of(wire, name) == values_of(set, name)
        }),
        r.method@ == uppered(trimmed(editable.method@)),
        r.target@ == target@,
        r.wire@.len() == r.body_at + editable.body@.len(),
        r.wire@.skip(r.body_at as int) == editable.body@,
{
    lemma_managed_names();
    let set = pairs(editable.headers@);
    let wire = pairs(r.headers@);
    let keep = |h: (Seq<char>, Seq<char>)| !is_managed(h.0);
    let hosts = values_of(set, "host"@);
    crate::fetch::law_a_header_is_the_first_of_its_name(set, "host"@);
    let host = match header_value(set, "host"@) {
        Some(h) => h,
        None => authority_of(editable.url@),
    };
    let n = editable.body@.len();
    let p1 = header_if(true, "Host"@, host);
    let p2 = set.filter(keep);
    let p3 = header_if(n > 0, "Content-Length"@, decimal(n));
    let p4 = header_if(true, "Connection"@, "close"@);
    assert(wire =~= p1 + p2 + p3 + p4);
    assert forall|k: Seq<char>| #[trigger] values_of(wire, k) == values_of(p1, k) + values_of(p2, k)
        + values_of(p3, k) + values_of(p4, k) by {
        lemma_values_add(p1, p2, k);
        lemma_values_add(p1 + p2, p3, k);
        lemma_values_add(p1 + p2 + p3, p4, k);
    }
    assert forall|k: Seq<char>|
        #![trigger values_of(p2, k)]
        {
            &&& (k == "host"@ || k == "content-length"@ || k == "transfer-encoding"@ || k
                == "connection"@ ==> values_of(p2, k) == Seq::<Seq<char>>::empty())
            &&& (k != "host"@ && k != "content-length"@ && k != "transfer-encoding"@ && k
                != "connection"@ ==> values_of(p2, k) == values_of(set, k))
        } by {
        lemma_values_filtered(set, keep, k);
    }
    assert forall|k: Seq<char>|
        #![trigger values_of(p1, k)]
        #![trigger values_of(p3, k)]
        #![trigger values_of(p4, k)]
        values_of(p1, k) == (if k == "host"@ {
            seq![host]
        } else {
            Seq::empty()
        }) && values_of(p3, k) == (if n > 0 && k == "content-length"@ {
            seq![decimal(n)]
        } else {
            Seq::empty()
        }) && values_of(p4, k) == (if k == "connection"@ {
            seq!["close"@]
        } else {
            Seq::empty()
        }) by {
        lemma_values_if(true, "Host"@, host, k);
        lemma_values_if(n > 0, "Content-Length"@, decimal(n), k);
        lemma_values_if(true, "Connection"@, "close"@, k);
    }
    assert(values_of(wire, "host"@) =~= seq![host]);
    assert(values_of(wire, "content-length"@) =~= (if n > 0 {
        seq![decimal(n)]
    } else {
        Seq::empty()
    }));
    assert(values_of(wire, "transfer-encoding"@) =~= Seq::empty());
    assert(values_of(wire, "connection"@) =~= seq!["close"@]);
    assert(values_of(wire, name) =~= values_of(p1, name) + values_of(p2, name) + values_of(p3, name)
        + values_of(p4, name));
    if name != "host"@ && name != "content-length"@ && name != "transfer-encoding"@ && name
        != "connection"@ {
        assert(values_of(wire, name) =~= values_of(set, name));
    }
    assert(r.wire@.skip(r.body_at as int) =~= editable.body@);
}

/// On the wire a built request is its line, its headers one to a line, a blank
/// line, and its body.
pub proof fn law_how_a_built_request_is_written(
    method: Seq<char>,
    target: Seq<char>,
    headers: Seq<(Seq<char>, Seq<char>)>,
    h: (Seq<char>, Seq<char>),
)
    ensures
        managed_head(method, target, Seq::empty()) == method + " "@ + target + " HTTP/1.1\r\n\r\n"@,
        ({
            let before = managed_head(method, target, headers);
            managed_head(method, target, headers.push(h)) == before.take(before.len() - 2) + h.0
                + ": "@ + h.1 + "\r\n\r\n"@
        }),
{
    reveal_strlit(" HTTP/1.1\r\n\r\n");
    reveal_strlit(" HTTP/1.1\r\n");
    reveal_strlit("\r\n");
    reveal_strlit("\r\n\r\n");
    let none = Seq::<(Seq<char>, Seq<char>)>::empty();
    assert(managed_head(method, target, none) =~= method + " "@ + target + " HTTP/1.1\r\n\r\n"@);
    assert(headers.push(h).drop_last() =~= headers);
    let before = managed_head(method, target, headers);
    let line = method + " "@ + target + " HTTP/1.1\r\n"@ + written_all(headers);
    assert(before.take(before.len() - 2) =~= line);
    assert(managed_head(method, target, headers.push(h)) =~= line + h.0 + ": "@ + h.1
        + "\r\n\r\n"@);
}

/// A request given whole goes out as it was given. What is broken about its
/// framing is named: each `content-length`, `transfer-encoding` and
/// `connection` it brings, in any case.
pub proof fn law_what_a_whole_request_breaks(
    url: Url,
    bytes: Vec<u8>,
    head_end: usize,
    head: &str,
    r: Result<RawRequest, String>,
    name: Seq<char>,
)
    requires
        call_ensures(raw_from_head, (url, bytes, head_end, head), r),
        r is Ok,
    ensures
        r->Ok_0.wire@ == bytes@,
        r->Ok_0.body_at == head_end,
        r->Ok_0.url@ == url@,
        r->Ok_0.method@.len() > 0 && r->Ok_0.target@.len() > 0,
        texts(r->Ok_0.broke@).contains(name) <==> (name == "content-length"@ || name
            == "transfer-encoding"@ || name == "connection"@) && values_of(
            pairs(r->Ok_0.headers@),
            name,
        ).len() > 0,
{
    let headers = pairs(r->Ok_0.headers@);
    let bad = |h: (Seq<char>, Seq<char>)| is_framing(h.0);
    let low = |h: (Seq<char>, Seq<char>)| lowered(h.0);
    let own = |h: (Seq<char>, Seq<char>)| lowered(h.0) == name;
    let kept = headers.filter(bad);
    let broke = texts(r->Ok_0.broke@);
    assert(broke == kept.map_values(low));
    assert(values_of(headers, name).len() == headers.filter(own).len());
    if broke.contains(name) {
        let i = choose|i: int| 0 <= i < broke.len() && broke[i] == name;
        headers.lemma_filter_pred(bad, i);
        assert(low(kept[i]) == name);
        lemma_kept_came_from(headers, bad, kept[i]);
        let k = choose|k: int| 0 <= k < headers.len() && headers[k] == kept[i];
        assert(own(headers[k]));
        headers.lemma_filter_contains(own, k);
    }
    if (name == "content-length"@ || name == "transfer-encoding"@ || name == "connection"@)
        && values_of(headers, name).len() > 0 {
        let h = headers.filter(own)[0];
        headers.lemma_filter_pred(own, 0);
        lemma_kept_came_from(headers, own, h);
        let k = choose|k: int| 0 <= k < headers.len() && headers[k] == h;
        headers.lemma_filter_contains(bad, k);
        let i = choose|i: int| 0 <= i < kept.len() && kept[i] == h;
        assert(broke[i] == name);
    }
}

proof fn lemma_kept_came_from(
    all: Seq<(Seq<char>, Seq<char>)>,
    keep: spec_fn((Seq<char>, Seq<char>)) -> bool,
    h: (Seq<char>, Seq<char>),
)
    requires
        all.filter(keep).contains(h),
    ensures
        all.contains(h),
    decreases all.len(),
{
    reveal(Seq::filter);
    if all.len() > 0 {
        let front = all.drop_last();
        let i = choose|i: int| 0 <= i < all.filter(keep).len() && all.filter(keep)[i] == h;
        if keep(all.last()) && i == all.filter(keep).len() - 1 {
            assert(all[all.len() - 1] == h);
        } else {
            assert(front.filter(keep)[i] == h);
            lemma_kept_came_from(front, keep, h);
            let k = choose|k: int| 0 <= k < front.len() && front[k] == h;
            assert(all[k] == h);
        }
    }
}

/// A line of a head is a header where it holds a colon: its name is what
/// stands before the first one and its value what stands behind, both
/// trimmed. Any other line is none.
pub proof fn law_what_a_header_line_is(name: Seq<char>, value: Seq<char>, line: Seq<char>)
    ensures
        !name.contains(':') ==> header_line(name + seq![':'] + value) == Some(
            (trimmed(name), trimmed(value)),
        ),
        !line.contains(':') ==> header_line(line) is None,
{
    reveal_strlit(":");
    assert(":"@ =~= seq![':']);
    if !name.contains(':') {
        let all = name + seq![':'] + value;
        crate::text::law_a_cut_is_made_at_the_first(all, ":"@);
        let k = name.len() as int;
        assert(all.subrange(k, k + 1) =~= ":"@);
        match cut(all, ":"@) {
            None => {
                assert(all.subrange(k, k + 1) != ":"@);
            },
            Some((a, b)) => {
                if a.len() < k {
                    assert((a + ":"@ + b)[a.len() as int] == ':');
                    assert(all[a.len() as int] == name[a.len() as int]);
                    assert(name.contains(name[a.len() as int]));
                }
                if a.len() > k {
                    assert(all.subrange(k, k + 1) != ":"@ || k + 1 > all.len());
                }
                assert(a =~= name) by {
                    assert forall|i: int| 0 <= i < a.len() implies a[i] == name[i] by {
                        assert((a + ":"@ + b)[i] == a[i]);
                        assert(all[i] == name[i]);
                    }
                }
                assert(b =~= value) by {
                    assert forall|i: int| 0 <= i < b.len() implies b[i] == value[i] by {
                        assert((a + ":"@ + b)[k + 1 + i] == b[i]);
                        assert(all[k + 1 + i] == value[i]);
                    }
                }
            },
        }
    }
    if !line.contains(':') {
        crate::text::law_a_cut_is_made_at_the_first(line, ":"@);
        if let Some((a, b)) = cut(line, ":"@) {
            assert((a + ":"@ + b)[a.len() as int] == ':');
            assert(line.contains(line[a.len() as int]));
        }
    }
}

/// A raw target begins with a slash or holds a scheme's mark.
pub proof fn law_what_a_raw_target_is(editable: &Editable, plan: &Sends, r: Result<RawRequest, String>)
    requires
        call_ensures(build_raw_request, (editable, plan), r),
        plan.raw_request is None,
    ensures
        r is Ok <==> plan.raw_target is Some && plan.raw_target->Some_0@.len() > 0 && (
        plan.raw_target->Some_0@[0] == '/' || contains(plan.raw_target->Some_0@, "://"@)),
        r is Ok ==> r->Ok_0.target@ == plan.raw_target->Some_0@ && r->Ok_0.broke@.len() == 0,
        plan.raw_target is None ==> r is Err && r->Err_0@
            == "a raw send needs a request-target or a whole request"@,
{
}

/// A stored request can be sent again exactly where the session kept requests,
/// it is one of them, its address reads, and its body was empty or was kept
/// whole and can be read. It is then what was stored, byte for byte. What
/// fails first says which of these it is.
pub proof fn law_which_requests_can_be_sent_again(
    from: u64,
    capturing: bool,
    stored: Option<Stored>,
    bytes: Result<Vec<u8>, String>,
    r: Result<Editable, SendError>,
)
    requires
        call_ensures(recall, (from, capturing, stored, bytes), r),
    ensures
        ({
            let s = stored->Some_0;
            let reads = crate::url::url_parsed(s.url@);
            let kept = s.body is Empty || (s.body is Stored && !s.body->truncated && bytes is Ok);
            &&& r is Ok <==> capturing && stored is Some && reads is Ok && kept
            &&& !capturing ==> r->Err_0.code@ == "no-capture"@
            &&& capturing && (stored is None || reads is Err) ==> r->Err_0.code@
                == "no-such-request"@
            &&& capturing && stored is Some && reads is Ok && !kept ==> r->Err_0.code@
                == "unreplayable-body"@
            &&& r is Ok ==> r->Ok_0.method@ == s.method@ && r->Ok_0.url@ == reads->Ok_0 && pairs(
                r->Ok_0.headers@,
            ) == pairs(s.headers@) && (s.body is Stored ==> r->Ok_0.body@ == bytes->Ok_0@) && (
            s.body is Empty ==> r->Ok_0.body@.len() == 0)
        }),
{
}

/// A request that is sent again goes out as often as it was asked, and once
/// where that is not said; together only where there are several; following
/// nothing where that was asked. It goes out as it stands, on behalf of no
/// page.
pub proof fn law_how_a_request_is_sent_again(
    editable: &Editable,
    plan: &Sends,
    r: Result<Replay, SendError>,
)
    requires
        call_ensures(plan_replay, (editable, plan), r),
        plan.raw_request is None,
        plan.raw_target is None,
    ensures
        r matches Ok(Replay::Fetch { fetch, sent, sends, together }) && {
            let kinds = values_of(pairs(editable.headers@), lowered("content-type"@));
            &&& sends >= 1
            &&& plan.count >= 1 ==> sends == plan.count
            &&& plan.count == 0 ==> sends == 1
            &&& together <==> plan.together && sends >= 2
            &&& fetch.url@ == editable.url@
            &&& fetch.method@ == editable.method@
            &&& fetch.body@ == editable.body@
            &&& pairs(fetch.headers@) == pairs(editable.headers@)
            &&& fetch.initiator is Replay
            &&& fetch.document is None && fetch.cors is None
            &&& plan.no_follow ==> fetch.max_redirects == Some(0usize)
            &&& !plan.no_follow ==> fetch.max_redirects is None
            &&& kinds.len() > 0 ==> fetch.content_type is Some && fetch.content_type->Some_0@
                == kinds[0]
            &&& kinds.len() == 0 ==> fetch.content_type is None
            &&& sent.method@ == editable.method@
            &&& sent.url@ == editable.url@.href
            &&& sent.body_bytes == editable.body@.len() as u64
        },
{
    crate::fetch::law_a_header_is_the_first_of_its_name(
        pairs(editable.headers@),
        "content-type"@,
    );
}

/// A sample's time to the first byte is that of the first response logged
/// under its number, and otherwise all of its time.
pub proof fn law_what_a_sample_took(
    outcome: &FetchOutcome,
    logged: &Vec<RequestRecord>,
    total: u64,
    r: Timing,
    i: int,
)
    requires
        call_ensures(time_of, (outcome, logged, total), r),
    ensures
        r.seq == outcome@.seq && r.status == outcome@.status && r.total_ms == total && r.bytes
            == outcome@.body.len() as u64,
        outcome@.seq is None ==> r.ttfb_ms == total,
        outcome@.seq is Some && 0 <= i < logged@.len() && logged@[i].seq == outcome@.seq->Some_0
            && logged@[i].phase is Response && (forall|j: int|
            0 <= j < i ==> !((#[trigger] logged@[j]).seq == outcome@.seq->Some_0
                && logged@[j].phase is Response)) ==> r.ttfb_ms == (if logged@[i].ttfb_ms is Some {
            logged@[i].ttfb_ms->Some_0
        } else {
            total
        }),
        outcome@.seq is Some && (forall|j: int|
            0 <= j < logged@.len() ==> !((#[trigger] logged@[j]).seq == outcome@.seq->Some_0
                && logged@[j].phase is Response)) ==> r.ttfb_ms == total,
{
    if let Some(n) = outcome@.seq {
        if 0 <= i < logged@.len() && logged@[i].seq == n && logged@[i].phase is Response && (forall|
            j: int,
        |
            0 <= j < i ==> !((#[trigger] logged@[j]).seq == n && logged@[j].phase is Response)) {
            lemma_first_response(logged@, n, i);
        }
        if forall|j: int|
            0 <= j < logged@.len() ==> !((#[trigger] logged@[j]).seq == n && logged@[j].phase
                is Response) {
            lemma_no_response(logged@, n);
        }
    }
}

proof fn lemma_first_response(logged: Seq<RequestRecord>, n: u64, i: int)
    requires
        0 <= i < logged.len(),
        logged[i].seq == n && logged[i].phase is Response,
        forall|j: int|
            0 <= j < i ==> !((#[trigger] logged[j]).seq == n && logged[j].phase is Response),
    ensures
        first_response(logged, n) == Some(logged[i]),
    decreases logged.len(),
{
    if i > 0 {
        assert(!(logged[0].seq == n && logged[0].phase is Response));
        let rest = logged.drop_first();
        assert forall|j: int| 0 <= j < i - 1 implies !((#[trigger] rest[j]).seq == n
            && rest[j].phase is Response) by {
            assert(rest[j] == logged[j + 1]);
        }
        lemma_first_response(rest, n, i - 1);
    }
}

proof fn lemma_no_response(logged: Seq<RequestRecord>, n: u64)
    requires
        forall|j: int|
            0 <= j < logged.len() ==> !((#[trigger] logged[j]).seq == n && logged[j].phase
                is Response),
    ensures
        first_response(logged, n) is None,
    decreases logged.len(),
{
    if logged.len() > 0 {
        assert(!(logged[0].seq == n && logged[0].phase is Response));
        let rest = logged.drop_first();
        assert forall|j: int| 0 <= j < rest.len() implies !((#[trigger] rest[j]).seq == n
            && rest[j].phase is Response) by {
            assert(rest[j] == logged[j + 1]);
        }
        lemma_no_response(rest, n);
    }
}

/// The cookies that an answer sets are the values of its `Set-Cookie` headers,
/// in any case and in order.
pub proof fn law_which_cookies_an_answer_sets(headers: &Vec<(String, String)>, r: Vec<String>)
    requires
        call_ensures(set_cookies, (headers,), r),
    ensures
        texts(r@) == values_of(pairs(headers@), "set-cookie"@),
{
    reveal_strlit("set-cookie");
    assert(lowered("set-cookie"@) =~= "set-cookie"@);
}

/// The three ends of a raw request are recorded under its own number, with how
/// long it took and with why, or with what came back.
pub proof fn law_how_a_raw_request_is_recorded(
    raw: &RawRequest,
    record: &RequestRecord,
    error: &str,
    took: u64,
    answer: RawAnswer,
    stored: usize,
    a: (RequestRecord, FetchOutcome),
    b: (RequestRecord, FetchOutcome),
    c: (RequestRecord, FetchOutcome),
)
    requires
        call_ensures(raw_unsent, (raw, record, error, took), a),
        call_ensures(raw_unanswered, (raw, record, error, took), b),
        call_ensures(raw_answered, (raw, record, answer, stored, took), c),
    ensures
        a.0@.seq == record@.seq && b.0@.seq == record@.seq && c.0@.seq == record@.seq,
        a.0@.phase is Response && b.0@.phase is Response && c.0@.phase is Response,
        a.0@.error == Some(error@) && b.0@.error == Some(error@) && c.0@.error == record@.error,
        a.0@.duration_ms == Some(took) && b.0@.duration_ms == Some(took) && c.0@.duration_ms
            == Some(took),
        a.0@.ttfb_ms == record@.ttfb_ms && b.0@.ttfb_ms == Some(took) && c.0@.ttfb_ms == Some(took),
        a.1@.error == Some(error@) && b.1@.error == Some(error@) && c.1@.error is None,
        a.1@.seq == Some(record@.seq) && b.1@.seq == Some(record@.seq) && c.1@.seq == Some(
            record@.seq,
        ),
        a.1@.final_url == raw.url@ && b.1@.final_url == raw.url@ && c.1@.final_url == raw.url@,
        a.1@.body.len() == 0 && b.1@.body.len() == 0 && c.1@.body == answer.body@,
        c.0@.status == answer.status && c.1@.status == answer.status,
        c.1@.headers == pairs(answer.headers@),
        c.0@.bytes == Some(answer.body@.len() as u64),
        c.0@.cookies_stored == Some(stored),
        answer.trailing@.len() > 0 ==> c.0@.trailing_bytes == Some(answer.trailing@.len() as u64),
{
}

/// A whole request's body begins behind its first blank line, and a request
/// without one has none.
pub proof fn law_where_a_body_begins(b: Seq<u8>, at: int)
    requires
        is_body_start(b, at),
    ensures
        0 <= at <= b.len(),
        at >= 4 && b.subrange(at - 4, at) == seq![13u8, 10, 13, 10] || at == b.len(),
        forall|i: int|
            0 <= i < at - 4 ==> #[trigger] b.subrange(i, i + 4) != seq![13u8, 10, 13, 10],
        (exists|i: int|
            0 <= i <= b.len() - 4 && #[trigger] b.subrange(i, i + 4) == seq![13u8, 10, 13, 10])
            ==> at >= 4 && b.subrange(at - 4, at) == seq![13u8, 10, 13, 10],
{
    let blank = seq![13u8, 10, 13, 10];
    assert forall|i: int| 0 <= i <= b.len() - 4 implies (#[trigger] head_ends_at(b, i)
        <==> b.subrange(i, i + 4) == blank) by {
        let s = b.subrange(i, i + 4);
        assert(s[0] == b[i] && s[1] == b[i + 1] && s[2] == b[i + 2] && s[3] == b[i + 3]);
        assert(blank[0] == 13 && blank[1] == 10 && blank[2] == 13 && blank[3] == 10);
        if head_ends_at(b, i) {
            assert(s =~= blank);
        }
    }
    assert forall|i: int| 0 <= i < at - 4 implies #[trigger] b.subrange(i, i + 4) != blank by {
        assert(!head_ends_at(b, i));
    }
    if exists|i: int| 0 <= i <= b.len() - 4 && #[trigger] b.subrange(i, i + 4) == blank {
        let i = choose|i: int| 0 <= i <= b.len() - 4 && #[trigger] b.subrange(i, i + 4) == blank;
        assert(head_ends_at(b, i));
    }
    if at >= 4 && head_ends_at(b, at - 4) {
        assert(b.subrange(at - 4, at) == blank);
    }
}

/// A host is shown with its port where one is written, and an address begins
/// with its scheme.
pub proof fn law_how_a_host_is_shown(url: &Url, host: String, r: String)
    requires
        call_ensures(authority_host, (url,), host),
        call_ensures(scheme_authority, (url,), r),
    ensures
        r@ == url@.scheme + "://"@ + host@,
        url@.host is Some && url@.port is None ==> host@ == url@.host->Some_0,
        url@.host is Some && url@.port is Some ==> host@ == url@.host->Some_0 + ":"@ + decimal(
            url@.port->Some_0 as nat,
        ),
        url@.host is None ==> host@.len() == 0,
{
}

} // verus!
