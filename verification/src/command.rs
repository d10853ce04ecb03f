//! The command line's own decisions: what this invocation is granted, what it
//! opens, and what it reports.
use vstd::prelude::*;

use crate::forms::bytes_of;
use crate::json::{json_view, lemma_list_push, list_view, object_view, Json, JsonView};
use crate::opening::PageOptions;
use crate::policy::{default_policy, granting_all, Policy, PolicyView};
use crate::receipt::{Phase, RequestRecord};
use crate::session::{
    count_json, maybe_text, put, put_count, put_flag, put_maybe, put_text, text_json,
};
use crate::text::{
    ascending, chars_of, decimal, decimal_text, join, joined, same, split, split_on, string_view,
    texts, trim, trimmed, view_of,
};
use crate::url::{url_parsed, url_result, Url, UrlView};
use vstd::utf8::encode_utf8;

verus! {

// ------------------------------------------------------------- capabilities

/// What this engine can do, in the configuration asked about.
#[derive(Debug, Clone, Copy, PartialEq, Eq, Structural)]
pub struct Capabilities {
    /// Whether a page's scripts run.
    pub javascript: bool,
    /// No receipt, no fetch.
    pub fail_closed_receipts: bool,
    pub snapshot: bool,
    pub screenshot: bool,
    pub live_view: bool,
    pub video: bool,
    pub webgl: bool,
}

impl Capabilities {
    /// Without script, which is off unless asked for.
    pub fn current() -> (r: Capabilities)
        ensures
            r == capable(false),
    {
        Capabilities::with_script(false)
    }

    /// With script on or off: what callers route on is whether *this*
    /// invocation runs it. The rest is a property of the engine either way.
    pub fn with_script(script: bool) -> (r: Capabilities)
        ensures
            r == capable(script),
    {
        Capabilities {
            javascript: script,
            fail_closed_receipts: true,
            snapshot: true,
            screenshot: true,
            live_view: true,
            video: false,
            webgl: false,
        }
    }
}

pub open spec fn capable(script: bool) -> Capabilities {
    Capabilities {
        javascript: script,
        fail_closed_receipts: true,
        snapshot: true,
        screenshot: true,
        live_view: true,
        video: false,
        webgl: false,
    }
}

// ------------------------------------------------------------------- halves

/// Which half of the engine a process is.
#[derive(Debug, Clone, Copy, PartialEq, Eq, Structural)]
pub enum Half {
    /// One process, brokering its own requests.
    Whole,
    /// The half that parses the page.
    Renderer,
    /// The half that decides and records.
    Broker,
}

/// Decides which half this process is: one that was started by a broker
/// renders; one that loads a page brokers for a renderer, where the engine is
/// split at all; the rest need no split.
pub fn half_for(brokered: bool, loads_a_page: bool, splitting: bool) -> (r: Half)
    ensures
        r == (if brokered {
            Half::Renderer
        } else if loads_a_page && splitting {
            Half::Broker
        } else {
            Half::Whole
        }),
{
    if brokered {
        Half::Renderer
    } else if loads_a_page && splitting {
        Half::Broker
    } else {
        Half::Whole
    }
}

/// A child's status as an exit code, including the one a signal produced: a
/// renderer killed by a signal has no code at all, and reporting zero there
/// would say the page loaded.
pub fn exit_code(code: Option<i32>, signal: Option<i32>) -> (r: i32)
    requires
        signal matches Some(s) ==> s <= i32::MAX - 128,
    ensures
        r == (match code {
            Some(c) => c as int,
            None => match signal {
                Some(s) => 128 + s,
                None => 1,
            },
        }),
{
    match code {
        Some(c) => c,
        None => match signal {
            Some(s) => 128 + s,
            None => 1,
        },
    }
}

// ------------------------------------------------------------------- grants

/// What the command line says about the network.
#[derive(Debug, Clone, PartialEq, Eq)]
pub struct NetOptions {
    pub allow: Vec<String>,
    pub no_loopback: bool,
    pub allow_any_remote: bool,
    pub permissive_cors: bool,
    pub max_response_bytes: u64,
    pub max_redirects: usize,
    pub max_requests: u64,
    pub max_wire_bytes: u64,
    pub max_network_seconds: u64,
}

/// The entries of a comma-separated list, trimmed, without the blank ones.
pub open spec fn listed(text: Seq<char>) -> Seq<Seq<char>> {
    kept(split_on(text, ','))
}

pub open spec fn kept(parts: Seq<Seq<char>>) -> Seq<Seq<char>>
    decreases parts.len(),
{
    if parts.len() == 0 {
        Seq::empty()
    } else if trimmed(parts.last()).len() == 0 {
        kept(parts.drop_last())
    } else {
        kept(parts.drop_last()).push(trimmed(parts.last()))
    }
}

fn list_of(text: &str) -> (r: Vec<String>)
    ensures
        texts(r@) == listed(text@),
{
    let parts = split(text, ',');
    let ghost all = texts(parts@);
    let mut out: Vec<String> = Vec::new();
    let mut i: usize = 0;
    assert(texts(out@) =~= kept(all.take(0)));
    while i < parts.len()
        invariant
            i <= parts.len(),
            all == texts(parts@),
            texts(out@) == kept(all.take(i as int)),
        decreases parts.len() - i,
    {
        assert(all.take(i + 1).drop_last() =~= all.take(i as int));
        assert(all.take(i + 1).last() == parts@[i as int]@);
        let t = trim(&parts[i]);
        if chars_of(&t).len() > 0 {
            let ghost before = texts(out@);
            out.push(t);
            assert(texts(out@) =~= before.push(t@));
        }
        i += 1;
    }
    assert(all.take(i as int) =~= all);
    out
}

/// What an invocation is granted: its flags, and whatever its surroundings
/// grant. The two are a *union*.
pub open spec fn granted_by(net: NetOptions, surroundings: Seq<char>) -> PolicyView {
    PolicyView {
        allow_loopback: !net.no_loopback,
        any_remote: net.allow_any_remote,
        max_redirects: net.max_redirects,
        max_response_bytes: net.max_response_bytes,
        cross_site_credentials: net.permissive_cors,
        ..granting_all(granting_all(default_policy(), texts(net.allow@)), listed(surroundings))
    }
}

/// The policy of an invocation, `surroundings` being the comma-separated list
/// that it was started with.
pub fn build_policy(net: &NetOptions, surroundings: &str) -> (r: Policy)
    ensures
        r@ == granted_by(*net, surroundings@),
{
    let extra = list_of(surroundings);
    Policy::new().allow_all_of(&net.allow).allow_all_of(&extra).set_allow_loopback(
        !net.no_loopback,
    ).set_any_remote(net.allow_any_remote).set_max_redirects(
        net.max_redirects,
    ).set_max_response_bytes(net.max_response_bytes).set_cross_site_credentials(
        net.permissive_cors,
    )
}

/// The flag, or else the variable.
pub fn flag_or(flag: Option<&str>, variable: Option<&str>) -> (r: Option<String>)
    ensures
        string_view(r) == (if flag is Some {
            view_of(flag)
        } else {
            view_of(variable)
        }),
{
    match flag {
        Some(f) => Some(f.to_owned()),
        None => match variable {
            Some(v) => Some(v.to_owned()),
            None => None,
        },
    }
}

pub open spec fn unless_blank(v: Option<Seq<char>>) -> Option<Seq<char>> {
    match v {
        Some(t) => if trimmed(t).len() > 0 {
            Some(t)
        } else {
            None
        },
        None => None,
    }
}

/// The proxy: the flag's or the variable's, unless it is blank.
pub fn proxy_of(flag: Option<&str>, variable: Option<&str>) -> (r: Option<String>)
    ensures
        string_view(r) == unless_blank(
            if flag is Some {
                view_of(flag)
            } else {
                view_of(variable)
            },
        ),
{
    match flag_or(flag, variable) {
        Some(p) => if chars_of(&trim(&p)).len() > 0 {
            Some(p)
        } else {
            None
        },
        None => None,
    }
}

/// The message store's directory: the flag's as it is, or the variable's
/// unless it is blank.
pub fn capture_dir(flag: Option<&str>, variable: Option<&str>) -> (r: Option<String>)
    ensures
        string_view(r) == (if flag is Some {
            view_of(flag)
        } else {
            unless_blank(view_of(variable))
        }),
{
    match flag {
        Some(f) => Some(f.to_owned()),
        None => proxy_of(None, variable),
    }
}

/// How much one session may spend on the network.
#[derive(Debug, Clone, Copy, PartialEq, Eq, Structural)]
pub struct Limits {
    pub max_requests: u64,
    pub max_wire_bytes: u64,
    pub max_decoded_bytes: u64,
    pub max_network_seconds: u64,
}

/// The limits of an invocation. The decoded ceiling follows the wire one: it
/// exists to bound what compression expands into, so tying it to the wire
/// limit keeps the two from being set inconsistently.
pub fn limits_of(net: &NetOptions) -> (r: Limits)
    ensures
        r.max_requests == net.max_requests,
        r.max_wire_bytes == net.max_wire_bytes,
        r.max_decoded_bytes == (if net.max_wire_bytes * 4 <= u64::MAX {
            net.max_wire_bytes * 4
        } else {
            u64::MAX as int
        }),
        r.max_network_seconds == net.max_network_seconds,
{
    let decoded: u64 = if net.max_wire_bytes <= u64::MAX / 4 {
        net.max_wire_bytes * 4
    } else {
        u64::MAX
    };
    Limits {
        max_requests: net.max_requests,
        max_wire_bytes: net.max_wire_bytes,
        max_decoded_bytes: decoded,
        max_network_seconds: net.max_network_seconds,
    }
}

/// What to say where the cookie jar that was named cannot be used.
pub fn jar_unusable(path: &str, reason: &str) -> (r: String)
    ensures
        r@ == "the cookie jar at `"@ + path@ + "` could not be used: "@ + reason@,
{
    let mut e = "the cookie jar at `".to_owned();
    e.append(path);
    e.append("` could not be used: ");
    e.append(reason);
    e
}

pub open spec fn jar_lines(path: Seq<char>, loaded: u64, refused: u64) -> Seq<Seq<char>> {
    let restored = "h5i-browser: restored "@ + decimal(loaded as nat) + " cookie(s) from "@ + path;
    let left_out = "h5i-browser: "@ + decimal(refused as nat) + " cookie(s) in "@ + path
        + " were refused: they claim a scope or a name prefix no server could have set, so they were not restored"@;
    (if loaded > 0 {
        seq![restored]
    } else {
        Seq::empty()
    }) + (if refused > 0 {
        seq![left_out]
    } else {
        Seq::empty()
    })
}

/// What came of reading the jar. A row that was refused is said, not
/// swallowed.
pub fn jar_notes(path: &str, loaded: u64, refused: u64) -> (r: Vec<String>)
    ensures
        texts(r@) == jar_lines(path@, loaded, refused),
{
    let mut out: Vec<String> = Vec::new();
    if loaded > 0 {
        let mut l = "h5i-browser: restored ".to_owned();
        l.append(&decimal_text(loaded));
        l.append(" cookie(s) from ");
        l.append(path);
        out.push(l);
    }
    if refused > 0 {
        let mut l = "h5i-browser: ".to_owned();
        l.append(&decimal_text(refused));
        l.append(" cookie(s) in ");
        l.append(path);
        l.append(
            " were refused: they claim a scope or a name prefix no server could have set, so they were not restored",
        );
        out.push(l);
    }
    assert(texts(out@) =~= jar_lines(path@, loaded, refused));
    out
}

// --------------------------------------------------------------------- view

/// What the command line says about the page.
#[derive(Debug, Clone, Copy, PartialEq, Eq, Structural)]
pub struct ViewOptions {
    pub width: u32,
    pub height: u32,
    pub max_snapshot_lines: usize,
    pub script: bool,
    /// No bound at zero.
    pub script_seconds: u64,
    pub webidl_conformance: bool,
    pub navigation_seconds: u64,
}

/// Seconds in milliseconds, as far as they can be counted.
pub open spec fn millis(seconds: u64) -> u64 {
    if seconds * 1000 <= u64::MAX {
        (seconds * 1000) as u64
    } else {
        u64::MAX
    }
}

fn in_millis(seconds: u64) -> (r: u64)
    ensures
        r == millis(seconds),
{
    if seconds <= u64::MAX / 1000 {
        seconds * 1000
    } else {
        u64::MAX
    }
}

/// The page options of an invocation.
pub fn page_options(view: ViewOptions) -> (r: PageOptions)
    ensures
        r == (PageOptions {
            width: view.width,
            height: view.height,
            max_snapshot_lines: view.max_snapshot_lines,
            script: view.script,
            navigation_budget_ms: millis(view.navigation_seconds),
            script_budget_ms: if view.script_seconds > 0 {
                Some(millis(view.script_seconds))
            } else {
                None
            },
            webidl_conformance: view.webidl_conformance,
        }),
{
    PageOptions {
        width: view.width,
        height: view.height,
        max_snapshot_lines: view.max_snapshot_lines,
        script: view.script,
        navigation_budget_ms: in_millis(view.navigation_seconds),
        script_budget_ms: if view.script_seconds > 0 {
            Some(in_millis(view.script_seconds))
        } else {
            None
        },
        webidl_conformance: view.webidl_conformance,
    }
}

// ------------------------------------------------------------------ targets

/// What the caller named: a URL, or a file by its path's bytes.
#[derive(Debug, Clone, PartialEq, Eq)]
pub enum Target {
    Remote(Url),
    Local(Vec<u8>),
}

pub enum TargetView {
    Remote(UrlView),
    Local(Seq<u8>),
}

pub open spec fn target_view(r: Result<Target, String>) -> Result<TargetView, Seq<char>> {
    match r {
        Ok(Target::Remote(url)) => Ok(TargetView::Remote(url@)),
        Ok(Target::Local(path)) => Ok(TargetView::Local(path@)),
        Err(e) => Err(e@),
    }
}

/// What a target is, `read` being what it is as a URL and `path` the file that
/// a `file:` URL names.
pub open spec fn target_of(
    target: Seq<char>,
    read: Result<UrlView, Seq<char>>,
    path: Option<Seq<u8>>,
) -> Result<TargetView, Seq<char>> {
    match read {
        Err(_) => Ok(TargetView::Local(encode_utf8(target))),
        Ok(url) => if url.scheme == "http"@ || url.scheme == "https"@ {
            Ok(TargetView::Remote(url))
        } else if url.scheme == "file"@ {
            match path {
                Some(p) => Ok(TargetView::Local(p)),
                None => Err(target),
            }
        } else {
            Err(
                "`"@ + url.scheme
                    + ":` is not something this engine opens (try http, https, or a path)"@,
            )
        },
    }
}

pub open spec fn bytes_view(p: Option<Vec<u8>>) -> Option<Seq<u8>> {
    match p {
        Some(v) => Some(v@),
        None => None,
    }
}

/// Decides whether the caller named a URL or a file. An unopenable scheme says
/// so rather than being read as a file name.
pub fn classify_target(target: &str, read: Result<Url, String>, path: Option<Vec<u8>>) -> (r: Result<
    Target,
    String,
>)
    ensures
        target_view(r) == target_of(target@, url_result(read), bytes_view(path)),
{
    let url = match read {
        Ok(u) => u,
        Err(_) => {
            return Ok(Target::Local(bytes_of(target)));
        },
    };
    if same(&url.scheme, "http") || same(&url.scheme, "https") {
        return Ok(Target::Remote(url));
    }
    if same(&url.scheme, "file") {
        return match path {
            Some(p) => Ok(Target::Local(p)),
            None => Err(target.to_owned()),
        };
    }
    let mut e = "`".to_owned();
    e.append(&url.scheme);
    e.append(":` is not something this engine opens (try http, https, or a path)");
    Err(e)
}

/// The file that a `file:` URL names, by its path's bytes, from
/// `url::Url::to_file_path`; none where the URL names none. Which path that is
/// follows the machine's own rules for paths, so nothing is claimed of it.
#[verifier::external_body]
fn file_path(url: &Url) -> (r: Option<Vec<u8>>) {
    let u = url::Url::parse(&url.href).ok()?;
    let path = u.to_file_path().ok()?;
    Some(path.as_os_str().as_encoded_bytes().to_vec())
}

/// Decides whether the caller named a URL or a file.
pub fn parse_target(target: &str) -> (r: Result<Target, String>)
    ensures
        exists|path: Option<Seq<u8>>|
            target_view(r) == #[trigger] target_of(target@, url_parsed(target@), path),
{
    let read = Url::parse(target);
    let path = match &read {
        Ok(url) => file_path(url),
        Err(_) => None,
    };
    let ghost named = bytes_view(path);
    let r = classify_target(target, read, path);
    assert(target_view(r) == target_of(target@, url_parsed(target@), named));
    r
}

/// Writes an absolute path as a URL with `url::Url::from_file_path`. What comes
/// of a path is the machine's own rule, so nothing is said of it here.
#[verifier::external_body]
fn file_url(path: &str) -> (r: Option<String>) {
    url::Url::from_file_path(path).ok().map(|u| u.as_str().to_owned())
}

/// The base that a page's links are resolved against, where the page is a file
/// at `path` and the file's URL is `written`.
pub open spec fn base_of(path: Seq<char>, written: Option<Seq<char>>) -> Result<
    UrlView,
    Seq<char>,
> {
    match written {
        None => Err(path + " cannot be expressed as a file:// base"@),
        Some(href) => url_parsed(href),
    }
}

/// The base of a page from the URL of its file.
pub fn base_from(path: &str, written: Option<String>) -> (r: Result<Url, String>)
    ensures
        crate::url::url_result(r) == base_of(path@, string_view(written)),
{
    match written {
        None => Err(no_file_base(path)),
        Some(href) => Url::parse(&href),
    }
}

/// The base of a page that is a file at an absolute path.
pub fn local_base(path: &str) -> (r: Result<Url, String>)
    ensures
        exists|written: Option<Seq<char>>|
            crate::url::url_result(r) == #[trigger] base_of(path@, written),
{
    let written = file_url(path);
    let ghost named = string_view(written);
    let r = base_from(path, written);
    assert(crate::url::url_result(r) == base_of(path@, named));
    r
}

/// What to say where a path is no base for a page's links.
pub fn no_file_base(path: &str) -> (r: String)
    ensures
        r@ == path@ + " cannot be expressed as a file:// base"@,
{
    let mut e = path.to_owned();
    e.append(" cannot be expressed as a file:// base");
    e
}


// ------------------------------------------------------------------ batches

/// Whether these targets can be opened together: one screenshot path cannot
/// name several images.
pub fn check_targets(targets: usize, screenshot: bool) -> (r: Result<(), String>)
    ensures
        match r {
            Ok(_) => targets <= 1 || !screenshot,
            Err(e) => targets > 1 && screenshot && e@
                == "`--screenshot` names one file, so it cannot be used with several targets. Open them one at a time, or drop the flag."@,
        },
{
    if targets > 1 && screenshot {
        return Err(
            "`--screenshot` names one file, so it cannot be used with several targets. Open them one at a time, or drop the flag.".to_owned(),
        );
    }
    Ok(())
}

/// A batch of pages being read: a page that fails does not stop the ones after
/// it.
#[derive(Debug, PartialEq, Eq)]
pub struct Batch {
    pub total: usize,
    pub as_json: bool,
    pub results: Vec<Json>,
    pub failures: u64,
}

/// What is reported of a page that could not be opened.
pub open spec fn failed_entry(target: Seq<char>, error: Seq<char>) -> JsonView {
    JsonView::Object(
        seq![
            ("url"@, text_json(target)),
            ("ok"@, JsonView::Bool(false)),
            ("error"@, text_json(error)),
        ],
    )
}

impl Batch {
    pub fn new(total: usize, as_json: bool) -> (r: Batch)
        ensures
            r.total == total,
            r.as_json == as_json,
            r.results@.len() == 0,
            r.failures == 0,
    {
        Batch { total, as_json, results: Vec::new(), failures: 0 }
    }

    /// Counts a page that could not be opened; the line to say, where the
    /// report is not JSON.
    pub fn unopened(&mut self, target: &str, error: &str) -> (r: Option<String>)
        requires
            old(self).failures < u64::MAX,
        ensures
            final(self).total == old(self).total,
            final(self).as_json == old(self).as_json,
            final(self).failures == old(self).failures + 1,
            list_view(final(self).results@) == (if old(self).as_json {
                list_view(old(self).results@).push(failed_entry(target@, error@))
            } else {
                list_view(old(self).results@)
            }),
            string_view(r) == (if old(self).as_json {
                None
            } else {
                Some(target@ + ": "@ + error@)
            }),
    {
        self.failures = self.failures + 1;
        if self.as_json {
            let mut entries: Vec<(String, Json)> = Vec::new();
            assert(object_view(entries@) =~= Seq::<(Seq<char>, JsonView)>::empty());
            put_text(&mut entries, "url", target);
            put_flag(&mut entries, "ok", false);
            put_text(&mut entries, "error", error);
            assert(object_view(entries@) =~= failed_entry(target@, error@)->Object_0);
            let item = Json::Object(entries);
            proof {
                lemma_list_push(self.results@, item);
            }
            self.results.push(item);
            return None;
        }
        let mut l = target.to_owned();
        l.append(": ");
        l.append(error);
        Some(l)
    }

    /// Counts a page that was opened and could not be read.
    pub fn unread(&mut self, target: &str, error: &str) -> (r: String)
        requires
            old(self).failures < u64::MAX,
        ensures
            *final(self) == (Batch { failures: (old(self).failures + 1) as u64, ..*old(self) }),
            r@ == target@ + ": "@ + error@,
    {
        self.failures = self.failures + 1;
        let mut l = target.to_owned();
        l.append(": ");
        l.append(error);
        l
    }

    /// Keeps what was reported of a page.
    pub fn read(&mut self, payload: Json)
        ensures
            final(self).total == old(self).total,
            final(self).as_json == old(self).as_json,
            final(self).failures == old(self).failures,
            list_view(final(self).results@) == list_view(old(self).results@).push(
                json_view(payload),
            ),
    {
        proof {
            lemma_list_push(self.results@, payload);
        }
        self.results.push(payload);
    }

    /// Whether the page at that place is parted from the one before it.
    pub fn parts(&self, at: usize) -> (r: bool)
        ensures
            r == (self.total > 1 && !self.as_json && at > 0),
    {
        self.total > 1 && !self.as_json && at > 0
    }

    /// What the batch comes to: whether every page could be read.
    pub fn verdict(&self) -> (r: Result<(), String>)
        ensures
            match r {
                Ok(_) => self.failures == 0,
                Err(e) => self.failures > 0 && e@ == decimal(self.failures as nat) + " of "@
                    + decimal(self.total as nat) + " page(s) could not be read"@,
            },
    {
        if self.failures > 0 {
            let mut e = decimal_text(self.failures);
            e.append(" of ");
            e.append(&decimal_text(self.total as u64));
            e.append(" page(s) could not be read");
            return Err(e);
        }
        Ok(())
    }

    /// The report, where it is JSON. One target keeps the shape of one page;
    /// several come under `results`.
    pub fn report(self) -> (r: Option<Json>)
        ensures
            r is Some == self.as_json,
            r matches Some(j) ==> json_view(j) == batch_report(
                self.total,
                list_view(self.results@),
            ),
    {
        if !self.as_json {
            return None;
        }
        if self.total == 1 {
            let mut results = self.results;
            let ghost all = results@;
            proof {
                lemma_list_view(all);
            }
            if results.len() > 0 {
                let first = results.remove(0);
                return Some(first);
            }
            return Some(Json::Null);
        }
        let mut entries: Vec<(String, Json)> = Vec::new();
        assert(object_view(entries@) =~= Seq::<(Seq<char>, JsonView)>::empty());
        put(&mut entries, "results", Json::List(self.results));
        assert(object_view(entries@) =~= seq![
            ("results"@, JsonView::List(list_view(self.results@))),
        ]);
        Some(Json::Object(entries))
    }
}

pub open spec fn batch_report(total: usize, results: Seq<JsonView>) -> JsonView {
    if total == 1 {
        if results.len() > 0 {
            results[0]
        } else {
            JsonView::Null
        }
    } else {
        JsonView::Object(seq![("results"@, JsonView::List(results))])
    }
}

/// What the items of a list say, one by one.
pub proof fn lemma_list_view(items: Seq<Json>)
    ensures
        list_view(items).len() == items.len(),
        forall|i: int|
            0 <= i < items.len() ==> #[trigger] list_view(items)[i] == json_view(items[i]),
    decreases items.len(),
{
    if items.len() > 0 {
        lemma_list_view(items.drop_last());
    }
}

/// The records that are one page's own: those past the ones that were there
/// when it was opened.
pub fn own_records(records: Vec<RequestRecord>, seen_before: usize) -> (r: Vec<RequestRecord>)
    requires
        seen_before <= records@.len(),
    ensures
        r@ == records@.skip(seen_before as int),
{
    let mut all = records;
    all.split_off(seen_before)
}

/// Whether a record is one that a report lists.
pub open spec fn is_response(record: RequestRecord) -> bool {
    record.phase == Phase::Response
}

/// The records that a report lists: what came of each request.
pub fn responses(records: &Vec<RequestRecord>) -> (r: Vec<&RequestRecord>)
    ensures
        r@.map_values(|x: &RequestRecord| *x) == records@.filter(
            |x: RequestRecord| is_response(x),
        ),
{
    let ghost keep = |x: RequestRecord| is_response(x);
    let mut out: Vec<&RequestRecord> = Vec::new();
    let mut i: usize = 0;
    proof {
        reveal(Seq::filter);
        assert(out@.map_values(|x: &RequestRecord| *x) =~= records@.take(0).filter(keep));
    }
    while i < records.len()
        invariant
            i <= records.len(),
            keep == (|x: RequestRecord| is_response(x)),
            out@.map_values(|x: &RequestRecord| *x) == records@.take(i as int).filter(keep),
        decreases records.len() - i,
    {
        proof {
            reveal(Seq::filter);
            assert(records@.take(i + 1).drop_last() =~= records@.take(i as int));
            assert(records@.take(i + 1).last() == records@[i as int]);
        }
        if records[i].phase == Phase::Response {
            let ghost before = out@.map_values(|x: &RequestRecord| *x);
            out.push(&records[i]);
            assert(out@.map_values(|x: &RequestRecord| *x) =~= before.push(records@[i as int]));
        }
        i += 1;
    }
    assert(records@.take(i as int) =~= records@);
    out
}

// ----------------------------------------------------------------- one page

/// One line that the page or the browser said.
#[derive(Debug, PartialEq, Eq)]
pub struct ConsoleLine {
    pub level: String,
    pub text: String,
    /// Which of the two is talking: "the site reported an error" and "the
    /// browser could not do something" call for different responses.
    pub source: String,
    pub repeats: u64,
}

/// What there is to report of a page.
#[derive(Debug, PartialEq, Eq)]
pub struct PageReport {
    pub url: String,
    pub title: Option<String>,
    pub snapshot: Json,
    pub text: String,
    pub requests: Json,
    pub unsupported: Vec<(String, u64)>,
    pub console: Vec<ConsoleLine>,
    pub settled: Option<String>,
    pub script: bool,
    /// Where the screenshot went, and how large it is.
    pub screenshot: Option<(String, u64)>,
}

pub open spec fn unsupported_json(u: (String, u64)) -> JsonView {
    JsonView::Object(seq![("api"@, text_json(u.0@)), ("calls"@, count_json(u.1))])
}

pub open spec fn console_json(l: ConsoleLine) -> JsonView {
    JsonView::Object(
        seq![
            ("level"@, text_json(l.level@)),
            ("text"@, text_json(l.text@)),
            ("source"@, text_json(l.source@)),
            ("repeats"@, count_json(l.repeats)),
        ],
    )
}

pub open spec fn page_json(p: PageReport) -> JsonView {
    JsonView::Object(
        seq![
            ("url"@, text_json(p.url@)),
            ("title"@, maybe_text(string_view(p.title))),
            ("snapshot"@, json_view(p.snapshot)),
            ("text"@, text_json(p.text@)),
            ("requests"@, json_view(p.requests)),
            (
                "unsupported"@,
                JsonView::List(p.unsupported@.map_values(|u: (String, u64)| unsupported_json(u))),
            ),
            (
                "console"@,
                JsonView::List(p.console@.map_values(|l: ConsoleLine| console_json(l))),
            ),
            ("settled"@, maybe_text(string_view(p.settled))),
            ("script"@, JsonView::Bool(p.script)),
            (
                "screenshot"@,
                match p.screenshot {
                    Some(s) => JsonView::Object(
                        seq![("path"@, text_json(s.0@)), ("bytes"@, count_json(s.1))],
                    ),
                    None => JsonView::Null,
                },
            ),
        ],
    )
}

fn unsupported_list(v: &Vec<(String, u64)>) -> (r: Json)
    ensures
        json_view(r) == JsonView::List(v@.map_values(|u: (String, u64)| unsupported_json(u))),
{
    let ghost shown = |u: (String, u64)| unsupported_json(u);
    let mut out: Vec<Json> = Vec::new();
    let mut i: usize = 0;
    while i < v.len()
        invariant
            i <= v.len(),
            shown == (|u: (String, u64)| unsupported_json(u)),
            list_view(out@) == v@.take(i as int).map_values(shown),
        decreases v.len() - i,
    {
        let mut entries: Vec<(String, Json)> = Vec::new();
        assert(object_view(entries@) =~= Seq::<(Seq<char>, JsonView)>::empty());
        put_text(&mut entries, "api", &v[i].0);
        put_count(&mut entries, "calls", Some(v[i].1));
        assert(object_view(entries@) =~= unsupported_json(v@[i as int])->Object_0);
        let item = Json::Object(entries);
        proof {
            lemma_list_push(out@, item);
            assert(v@.take(i + 1).map_values(shown) =~= v@.take(i as int).map_values(shown).push(
                shown(v@[i as int]),
            ));
        }
        out.push(item);
        i += 1;
    }
    assert(v@.take(i as int) =~= v@);
    Json::List(out)
}

fn console_list(v: &Vec<ConsoleLine>) -> (r: Json)
    ensures
        json_view(r) == JsonView::List(v@.map_values(|l: ConsoleLine| console_json(l))),
{
    let ghost shown = |l: ConsoleLine| console_json(l);
    let mut out: Vec<Json> = Vec::new();
    let mut i: usize = 0;
    while i < v.len()
        invariant
            i <= v.len(),
            shown == (|l: ConsoleLine| console_json(l)),
            list_view(out@) == v@.take(i as int).map_values(shown),
        decreases v.len() - i,
    {
        let mut entries: Vec<(String, Json)> = Vec::new();
        assert(object_view(entries@) =~= Seq::<(Seq<char>, JsonView)>::empty());
        put_text(&mut entries, "level", &v[i].level);
        put_text(&mut entries, "text", &v[i].text);
        put_text(&mut entries, "source", &v[i].source);
        put_count(&mut entries, "repeats", Some(v[i].repeats));
        assert(object_view(entries@) =~= console_json(v@[i as int])->Object_0);
        let item = Json::Object(entries);
        proof {
            lemma_list_push(out@, item);
            assert(v@.take(i + 1).map_values(shown) =~= v@.take(i as int).map_values(shown).push(
                shown(v@[i as int]),
            ));
        }
        out.push(item);
        i += 1;
    }
    assert(v@.take(i as int) =~= v@);
    Json::List(out)
}

/// One page as JSON: machine-readable forms of what the snapshot says in
/// prose, so a caller does not have to parse sentences back out of it.
pub fn one_page(p: PageReport) -> (r: Json)
    ensures
        json_view(r) == page_json(p),
{
    let unsupported = unsupported_list(&p.unsupported);
    let console = console_list(&p.console);
    let screenshot = match &p.screenshot {
        Some(s) => {
            let mut entries: Vec<(String, Json)> = Vec::new();
            assert(object_view(entries@) =~= Seq::<(Seq<char>, JsonView)>::empty());
            put_text(&mut entries, "path", &s.0);
            put_count(&mut entries, "bytes", Some(s.1));
            assert(object_view(entries@) =~= seq![
                ("path"@, text_json(s.0@)),
                ("bytes"@, count_json(s.1)),
            ]);
            Json::Object(entries)
        },
        None => Json::Null,
    };
    let mut out: Vec<(String, Json)> = Vec::new();
    assert(object_view(out@) =~= Seq::<(Seq<char>, JsonView)>::empty());
    put_text(&mut out, "url", &p.url);
    put_maybe(&mut out, "title", &p.title);
    put(&mut out, "snapshot", p.snapshot);
    put_text(&mut out, "text", &p.text);
    put(&mut out, "requests", p.requests);
    put(&mut out, "unsupported", unsupported);
    put(&mut out, "console", console);
    put_maybe(&mut out, "settled", &p.settled);
    put_flag(&mut out, "script", p.script);
    put(&mut out, "screenshot", screenshot);
    assert(object_view(out@) =~= page_json(p)->Object_0);
    Json::Object(out)
}

// ------------------------------------------------------------------- doctor

/// What the doctor says of the configuration.
pub open spec fn doctor_lines(
    version: Seq<char>,
    fonts: Seq<char>,
    no_fonts: bool,
    proxy: Option<Seq<char>>,
    loopback: bool,
    policy: PolicyView,
    origins: Seq<Seq<char>>,
) -> Seq<Seq<char>> {
    seq!["engine     : h5i-browser "@ + version, "fonts      : "@ + fonts] + (if no_fonts {
        seq![
            "             (pass --font-file to name one; without fonts, pages render but text does not)"@,
        ]
    } else {
        Seq::empty()
    }) + seq![
        match proxy {
            Some(url) => "egress     : via "@ + url,
            None => "egress     : direct (no H5I_EGRESS_PROXY; outside a box there is no proxy to route through)"@,
        },
        if loopback {
            "loopback   : allowed (the dev server)"@
        } else {
            "loopback   : refused"@
        },
    ] + (if policy.any_remote {
        seq![
            "allowlist  : ANY REMOTE ORIGIN (--allow-any-remote; instrument mode) \u{2014} internal addresses are still refused"@,
        ] + (if origins.len() > 0 {
            seq!["             (also granted by name: "@ + joined(origins, ", "@) + ")"@]
        } else {
            Seq::empty()
        })
    } else if origins.len() == 0 {
        seq!["allowlist  : empty \u{2014} nothing remote is reachable"@]
    } else {
        seq!["allowlist  : "@ + joined(origins, ", "@)]
    }) + seq!["script     : not linked in this tier"@] + (if policy.cross_site_credentials {
        seq![
            "cors       : PERMISSIVE (--permissive-cors) \u{2014} a page may send this session's credentials cross-origin with `no-cors`, as a browser does"@,
        ]
    } else {
        Seq::empty()
    })
}

fn say(out: &mut Vec<String>, line: String)
    ensures
        texts(final(out)@) == texts(old(out)@).push(line@),
{
    out.push(line);
    assert(texts(out@) =~= texts(old(out)@).push(line@));
}

/// What the doctor says of the configuration, up to proving that the client
/// can be built with it.
pub fn doctor(
    version: &str,
    fonts: &str,
    no_fonts: bool,
    proxy: Option<&str>,
    loopback: bool,
    policy: &Policy,
) -> (r: Vec<String>)
    ensures
        exists|origins: Seq<Seq<char>>|
            ascending(origins) && origins.to_set() == policy@.origins && texts(r@)
                == #[trigger] doctor_lines(
                version@,
                fonts@,
                no_fonts,
                view_of(proxy),
                loopback,
                policy@,
                origins,
            ),
{
    let listed = policy.origins();
    let ghost names = listed@.map_values(|s: &str| s@);
    let mut origins: Vec<String> = Vec::new();
    let mut i: usize = 0;
    while i < listed.len()
        invariant
            i <= listed.len(),
            names == listed@.map_values(|s: &str| s@),
            texts(origins@) == names.take(i as int),
        decreases listed.len() - i,
    {
        let ghost before = texts(origins@);
        origins.push(listed[i].to_owned());
        assert(texts(origins@) =~= before.push(names[i as int]));
        assert(names.take(i + 1) =~= names.take(i as int).push(names[i as int]));
        i += 1;
    }
    assert(names.take(i as int) =~= names);
    let mut out: Vec<String> = Vec::new();
    assert(texts(out@) =~= Seq::<Seq<char>>::empty());
    let mut engine = "engine     : h5i-browser ".to_owned();
    engine.append(version);
    say(&mut out, engine);
    let mut have = "fonts      : ".to_owned();
    have.append(fonts);
    say(&mut out, have);
    if no_fonts {
        say(
            &mut out,
            "             (pass --font-file to name one; without fonts, pages render but text does not)".to_owned(),
        );
    }
    match proxy {
        Some(url) => {
            let mut l = "egress     : via ".to_owned();
            l.append(url);
            say(&mut out, l);
        },
        None => say(
            &mut out,
            "egress     : direct (no H5I_EGRESS_PROXY; outside a box there is no proxy to route through)".to_owned(),
        ),
    }
    if loopback {
        say(&mut out, "loopback   : allowed (the dev server)".to_owned());
    } else {
        say(&mut out, "loopback   : refused".to_owned());
    }
    if policy.allows_any_remote() {
        say(
            &mut out,
            "allowlist  : ANY REMOTE ORIGIN (--allow-any-remote; instrument mode) \u{2014} internal addresses are still refused".to_owned(),
        );
        if origins.len() > 0 {
            let mut l = "             (also granted by name: ".to_owned();
            l.append(&join(&origins, ", "));
            l.append(")");
            say(&mut out, l);
        }
    } else if origins.len() == 0 {
        say(
            &mut out,
            "allowlist  : empty \u{2014} nothing remote is reachable".to_owned(),
        );
    } else {
        let mut l = "allowlist  : ".to_owned();
        l.append(&join(&origins, ", "));
        say(&mut out, l);
    }
    say(&mut out, "script     : not linked in this tier".to_owned());
    if policy.allows_cross_site_credentials() {
        say(
            &mut out,
            "cors       : PERMISSIVE (--permissive-cors) \u{2014} a page may send this session's credentials cross-origin with `no-cors`, as a browser does".to_owned(),
        );
    }
    assert(texts(out@) =~= doctor_lines(
        version@,
        fonts@,
        no_fonts,
        view_of(proxy),
        loopback,
        policy@,
        names,
    ));
    out
}

/// The renderer is the half that was told to be one. Otherwise a page is loaded
/// by the broker where the two are kept apart, and by one process where they
/// are not.
pub proof fn law_which_half_this_is(brokered: bool, loads: bool, splitting: bool, r: Half)
    requires
        call_ensures(half_for, (brokered, loads, splitting), r),
    ensures
        r is Renderer <==> brokered,
        r is Broker <==> !brokered && loads && splitting,
        r is Whole <==> !brokered && !(loads && splitting),
{
}

/// A process ends with the code of the one it ran, with 128 and the signal
/// where a signal ended that, and with 1 where neither is known.
pub proof fn law_what_a_process_ends_with(code: Option<i32>, signal: Option<i32>, r: i32)
    requires
        signal matches Some(s) ==> s <= i32::MAX - 128,
        call_ensures(exit_code, (code, signal), r),
    ensures
        code matches Some(c) ==> r == c,
        code is None && signal is Some ==> r - signal->Some_0 == 128,
        code is None && signal is None ==> r == 1,
{
}

proof fn lemma_kept(parts: Seq<Seq<char>>, word: Seq<char>)
    ensures
        kept(parts).contains(word) <==> word.len() > 0 && exists|i: int|
            0 <= i < parts.len() && trimmed(#[trigger] parts[i]) == word,
    decreases parts.len(),
{
    if parts.len() > 0 {
        let front = parts.drop_last();
        lemma_kept(front, word);
        let before = kept(front);
        let all = kept(parts);
        if all.contains(word) {
            let k = choose|k: int| 0 <= k < all.len() && all[k] == word;
            if k < before.len() {
                assert(before[k] == word);
                assert(before.contains(word));
                let i = choose|i: int|
                    0 <= i < front.len() && trimmed(#[trigger] front[i]) == word;
                assert(trimmed(parts[i]) == word);
            } else {
                assert(trimmed(parts[parts.len() - 1]) == word);
            }
        }
        if word.len() > 0 && exists|i: int|
            0 <= i < parts.len() && trimmed(#[trigger] parts[i]) == word {
            let i = choose|i: int| 0 <= i < parts.len() && trimmed(#[trigger] parts[i]) == word;
            if i < front.len() {
                assert(trimmed(front[i]) == word);
                assert(before.contains(word));
                let k = choose|k: int| 0 <= k < before.len() && before[k] == word;
                assert(all[k] == word);
            } else {
                assert(all[all.len() - 1] == word);
            }
        }
    } else {
        assert(!kept(parts).contains(word));
    }
}

/// What the surroundings grant are the words between the commas, trimmed, but
/// for the blank ones.
pub proof fn law_what_the_surroundings_grant(text: Seq<char>, word: Seq<char>)
    ensures
        listed(text).contains(word) <==> word.len() > 0 && exists|i: int|
            0 <= i < split_on(text, ',').len() && trimmed(#[trigger] split_on(text, ',')[i])
                == word,
{
    lemma_kept(split_on(text, ','), word);
}

/// What an invocation is granted: what its flags say, each for itself, and what
/// its flags and then its surroundings grant by name, added to what is granted
/// by default.
pub proof fn law_what_an_invocation_is_granted(net: &NetOptions, surroundings: &str, r: Policy)
    requires
        call_ensures(build_policy, (net, surroundings), r),
    ensures
        r@.allow_loopback <==> !net.no_loopback,
        r@.any_remote == net.allow_any_remote,
        r@.max_redirects == net.max_redirects,
        r@.max_response_bytes == net.max_response_bytes,
        r@.cross_site_credentials == net.permissive_cors,
        ({
            let named = granting_all(
                granting_all(default_policy(), texts(net.allow@)),
                listed(surroundings@),
            );
            r@.origins == named.origins && r@.wildcards == named.wildcards
        }),
{
}

/// A flag goes before a variable. A proxy that is blank is none, wherever it
/// was named; a capture directory is none only where the variable is blank.
pub proof fn law_a_flag_goes_first(
    flag: Option<&str>,
    variable: Option<&str>,
    a: Option<String>,
    b: Option<String>,
    c: Option<String>,
)
    requires
        call_ensures(flag_or, (flag, variable), a),
        call_ensures(proxy_of, (flag, variable), b),
        call_ensures(capture_dir, (flag, variable), c),
    ensures
        string_view(a) == (if flag is Some {
            view_of(flag)
        } else {
            view_of(variable)
        }),
        b is Some <==> a is Some && trimmed(a->Some_0@).len() > 0,
        b is Some ==> string_view(b) == string_view(a),
        flag is Some ==> string_view(c) == view_of(flag),
        flag is None ==> string_view(c) == string_view(b),
{
}

/// What may be spent is what the flags say, and four times as much decoded as
/// is read, as far as that can be counted.
pub proof fn law_what_may_be_spent(net: &NetOptions, r: Limits)
    requires
        call_ensures(limits_of, (net,), r),
    ensures
        r.max_requests == net.max_requests,
        r.max_wire_bytes == net.max_wire_bytes,
        r.max_network_seconds == net.max_network_seconds,
        r.max_decoded_bytes == 4 * net.max_wire_bytes || (r.max_decoded_bytes == u64::MAX && 4
            * net.max_wire_bytes > u64::MAX),
{
}

/// A page is read as it was asked, its seconds as thousandths, as far as those
/// can be counted, and script without a bound where that is zero.
pub proof fn law_how_a_page_is_read(view: ViewOptions, r: PageOptions)
    requires
        call_ensures(page_options, (view,), r),
    ensures
        r.width == view.width && r.height == view.height,
        r.max_snapshot_lines == view.max_snapshot_lines,
        r.script == view.script,
        r.webidl_conformance == view.webidl_conformance,
        r.navigation_budget_ms == 1000 * view.navigation_seconds || (r.navigation_budget_ms
            == u64::MAX && 1000 * view.navigation_seconds > u64::MAX),
        r.script_budget_ms is None <==> view.script_seconds == 0,
        r.script_budget_ms matches Some(ms) ==> ms == 1000 * view.script_seconds || (ms == u64::MAX
            && 1000 * view.script_seconds > u64::MAX),
{
}

/// What is opened: what does not read as an address is a path, `http` and
/// `https` are fetched, `file` is the path that it names, and nothing else is
/// opened.
pub proof fn law_what_is_opened(
    target: &str,
    read: Result<Url, String>,
    path: Option<Vec<u8>>,
    r: Result<Target, String>,
)
    requires
        call_ensures(classify_target, (target, read, path), r),
    ensures
        read is Err ==> (r matches Ok(Target::Local(p)) && p@ == encode_utf8(target@)),
        read matches Ok(url) ==> {
            &&& url@.scheme == "http"@ || url@.scheme == "https"@ ==> (r matches Ok(
                Target::Remote(to),
            ) && to@ == url@)
            &&& url@.scheme == "file"@ && path is Some ==> (r matches Ok(Target::Local(p)) && p@
                == path->Some_0@)
            &&& url@.scheme == "file"@ && path is None ==> (r matches Err(e) && e@ == target@)
            &&& url@.scheme != "http"@ && url@.scheme != "https"@ && url@.scheme != "file"@ ==> (
            r matches Err(e) && e@ == "`"@ + url@.scheme
                + ":` is not something this engine opens (try http, https, or a path)"@)
        },
{
    reveal_strlit("http");
    reveal_strlit("https");
    reveal_strlit("file");
    assert("http"@.len() == 4 && "https"@.len() == 5 && "file"@.len() == 4);
    assert("http"@[0] == 'h' && "file"@[0] == 'f');
}

/// Several pages cannot share one screenshot.
pub proof fn law_one_screenshot_is_of_one_page(
    targets: usize,
    screenshot: bool,
    r: Result<(), String>,
)
    requires
        call_ensures(check_targets, (targets, screenshot), r),
    ensures
        r is Err <==> screenshot && targets >= 2,
{
}

/// A batch came off exactly where no page failed, says how many did, and counts
/// each once. A page that could not be opened is reported, and one that was
/// read is reported as it was.
pub proof fn law_how_a_batch_goes(
    a: &mut Batch,
    b: &mut Batch,
    c: &mut Batch,
    target: &str,
    error: &str,
    payload: Json,
    said: Option<String>,
    told: String,
)
    requires
        old(a).failures < u64::MAX,
        old(b).failures < u64::MAX,
        call_ensures(Batch::unopened, (a, target, error), said),
        call_ensures(Batch::unread, (b, target, error), told),
        call_ensures(Batch::read, (c, payload), ()),
    ensures
        final(a).failures == old(a).failures + 1,
        final(b).failures == old(b).failures + 1,
        final(c).failures == old(c).failures,
        final(a).total == old(a).total && final(b).total == old(b).total && final(c).total
            == old(c).total,
        said is None <==> old(a).as_json,
        said is Some ==> said->Some_0@ == target@ + ": "@ + error@,
        told@ == target@ + ": "@ + error@,
        old(a).as_json ==> list_view(final(a).results@).len() == list_view(old(a).results@).len()
            + 1 && list_view(final(a).results@).last() == JsonView::Object(
            seq![
                ("url"@, JsonView::Text(target@)),
                ("ok"@, JsonView::Bool(false)),
                ("error"@, JsonView::Text(error@)),
            ],
        ),
        list_view(final(c).results@) == list_view(old(c).results@).push(json_view(payload)),
{
}

/// A batch fails exactly where a page did, and reports as data exactly where
/// that was asked: one page as itself, several as a list.
pub proof fn law_what_a_batch_comes_to(
    batch: Batch,
    at: usize,
    v: Result<(), String>,
    r: Option<Json>,
    parts: bool,
)
    requires
        call_ensures(Batch::verdict, (&batch,), v),
        call_ensures(Batch::report, (batch,), r),
        call_ensures(Batch::parts, (&batch, at), parts),
    ensures
        v is Ok <==> batch.failures == 0,
        r is Some <==> batch.as_json,
        r is Some && batch.total == 1 && batch.results@.len() > 0 ==> json_view(r->Some_0)
            == list_view(batch.results@)[0],
        r is Some && batch.total != 1 ==> json_view(r->Some_0) == JsonView::Object(
            seq![("results"@, JsonView::List(list_view(batch.results@)))],
        ),
        parts <==> batch.total >= 2 && !batch.as_json && at >= 1,
{
    lemma_list_view(batch.results@);
}

/// What is listed of a log are its responses, all of them and in order.
pub proof fn law_what_is_listed_of_a_log(
    records: &Vec<RequestRecord>,
    r: Vec<&RequestRecord>,
    i: int,
)
    requires
        call_ensures(responses, (records,), r),
    ensures
        0 <= i < r@.len() ==> r@[i].phase is Response,
        0 <= i < records@.len() && records@[i].phase is Response ==> exists|k: int|
            0 <= k < r@.len() && *(#[trigger] r@[k]) == records@[i],
{
    let keep = |x: RequestRecord| is_response(x);
    let shown = r@.map_values(|x: &RequestRecord| *x);
    let kept = records@.filter(keep);
    assert(shown == kept);
    if 0 <= i < r@.len() {
        records@.lemma_filter_pred(keep, i);
        assert(shown[i] == *r@[i]);
    }
    if 0 <= i < records@.len() && records@[i].phase is Response {
        records@.lemma_filter_contains(keep, i);
        let k = choose|k: int| 0 <= k < kept.len() && kept[k] == records@[i];
        assert(shown[k] == *r@[k]);
    }
}

/// This engine runs script where it was linked in, always keeps its receipts,
/// snapshots, screenshots and live view, and has neither video nor WebGL.
pub proof fn law_what_this_engine_can_do(script: bool, r: Capabilities)
    requires
        call_ensures(Capabilities::with_script, (script,), r),
    ensures
        r.javascript == script,
        r.fail_closed_receipts && r.snapshot && r.screenshot && r.live_view,
        !r.video && !r.webgl,
{
}

/// A jar says what it restored and what it refused, each where there was any.
pub proof fn law_what_a_jar_says(path: &str, loaded: u64, refused: u64, r: Vec<String>)
    requires
        call_ensures(jar_notes, (path, loaded, refused), r),
    ensures
        r@.len() == (if loaded > 0 {
            1int
        } else {
            0
        }) + (if refused > 0 {
            1int
        } else {
            0
        }),
        loaded > 0 ==> texts(r@)[0] == "h5i-browser: restored "@ + decimal(loaded as nat)
            + " cookie(s) from "@ + path@,
        refused > 0 ==> texts(r@).last() == "h5i-browser: "@ + decimal(refused as nat)
            + " cookie(s) in "@ + path@
            + " were refused: they claim a scope or a name prefix no server could have set, so they were not restored"@,
{
    assert(texts(r@).len() == r@.len());
}

/// What is reported of one page, each thing under its own name and in this
/// order.
pub proof fn law_what_is_reported_of_a_page(p: PageReport, r: Json)
    requires
        call_ensures(one_page, (p,), r),
    ensures
        json_view(r) is Object,
        ({
            let e = json_view(r)->Object_0;
            &&& e.len() == 10
            &&& e[0] == ("url"@, JsonView::Text(p.url@))
            &&& e[1].0 == "title"@ && (p.title is None ==> e[1].1 is Null) && (
            p.title matches Some(t) ==> e[1].1 == JsonView::Text(t@))
            &&& e[2] == ("snapshot"@, json_view(p.snapshot))
            &&& e[3] == ("text"@, JsonView::Text(p.text@))
            &&& e[4] == ("requests"@, json_view(p.requests))
            &&& e[5].0 == "unsupported"@ && e[5].1->List_0.len() == p.unsupported@.len()
            &&& forall|i: int|
                0 <= i < p.unsupported@.len() ==> e[5].1->List_0[i] == JsonView::Object(
                    seq![
                        ("api"@, JsonView::Text((#[trigger] p.unsupported@[i]).0@)),
                        (
                            "calls"@,
                            JsonView::Number {
                                whole: Some(p.unsupported@[i].1),
                                text: decimal(p.unsupported@[i].1 as nat),
                            },
                        ),
                    ],
                )
            &&& e[6].0 == "console"@ && e[6].1->List_0.len() == p.console@.len()
            &&& e[7].0 == "settled"@
            &&& e[8] == ("script"@, JsonView::Bool(p.script))
            &&& e[9].0 == "screenshot"@ && (e[9].1 is Null <==> p.screenshot is None)
        }),
{
}

/// What the doctor says: the engine and its fonts first, then where requests go
/// out, whether this machine is reachable, and what else is; and that the
/// cross-site rule is loosened, where it is.
pub proof fn law_what_the_doctor_says(
    version: Seq<char>,
    fonts: Seq<char>,
    no_fonts: bool,
    proxy: Option<Seq<char>>,
    loopback: bool,
    policy: PolicyView,
    origins: Seq<Seq<char>>,
)
    ensures
        ({
            let lines = doctor_lines(
                version,
                fonts,
                no_fonts,
                proxy,
                loopback,
                policy,
                origins,
            );
            let k = if no_fonts {
                3int
            } else {
                2
            };
            &&& lines[0] == "engine     : h5i-browser "@ + version
            &&& lines[1] == "fonts      : "@ + fonts
            &&& no_fonts ==> lines[2]
                == "             (pass --font-file to name one; without fonts, pages render but text does not)"@
            &&& proxy matches Some(url) ==> lines[k] == "egress     : via "@ + url
            &&& proxy is None ==> lines[k]
                == "egress     : direct (no H5I_EGRESS_PROXY; outside a box there is no proxy to route through)"@
            &&& loopback ==> lines[k + 1] == "loopback   : allowed (the dev server)"@
            &&& !loopback ==> lines[k + 1] == "loopback   : refused"@
            &&& policy.any_remote ==> lines[k + 2]
                == "allowlist  : ANY REMOTE ORIGIN (--allow-any-remote; instrument mode) \u{2014} internal addresses are still refused"@
            &&& !policy.any_remote && origins.len() == 0 ==> lines[k + 2]
                == "allowlist  : empty \u{2014} nothing remote is reachable"@
            &&& !policy.any_remote && origins.len() > 0 ==> lines[k + 2] == "allowlist  : "@ + joined(
                origins,
                ", "@,
            )
            &&& lines.len() == k + 4 + (if policy.any_remote && origins.len() > 0 {
                1int
            } else {
                0
            }) + (if policy.cross_site_credentials {
                1int
            } else {
                0
            })
            &&& policy.cross_site_credentials ==> lines.last()
                == "cors       : PERMISSIVE (--permissive-cors) \u{2014} a page may send this session's credentials cross-origin with `no-cors`, as a browser does"@
        }),
{
}

} // verus!
