//! The verbs that drive a resident session: what each asks, and what its
//! reply comes to.
use vstd::prelude::*;

use crate::json::{
    entry, entry_of, json_view, lemma_list_push, lemma_object_push, list_view, object_view, Json,
    JsonView,
};
use crate::text::{decimal, decimal_text, lower, lowered, same, string_view, trim, trimmed};

verus! {

/// What names one element: a ref from a snapshot, a selector, or a role and
/// the name it goes by.
#[derive(Debug, PartialEq, Eq)]
pub struct Handle {
    pub reference: Option<String>,
    pub selector: Option<String>,
    pub role: Option<String>,
    pub name: Option<String>,
}

/// One verb as it was typed. On the verbs that act with a value, `reference`
/// of the handle and the value beside it are the two positionals as they came.
#[derive(Debug, PartialEq, Eq)]
pub enum SessionVerb {
    Status,
    Snapshot { delta: bool, url: Option<String> },
    Login { off: bool },
    Navigate { url: String },
    /// By how much, as a number is written.
    Scroll { by: String },
    Type { handle: Handle, text: Option<String> },
    Submit { handle: Handle },
    Click { handle: Handle },
    WaitFor { selector: Option<String>, text: Option<String> },
    WaitForScript { expr: String },
    Extract { schema: Json, url: Option<String> },
    Markdown { max_bytes: Option<u64>, url: Option<String> },
    Script,
    SetChecked { handle: Handle, checked: Option<String> },
    Select { handle: Handle, option: Option<String> },
    Press { handle: Handle, key: Option<String> },
    Find { role: String, name: Option<String>, url: Option<String> },
    Screenshot { path: String, url: Option<String> },
    Reload,
    Socket { url: String, send: Vec<String>, wait_ms: Option<u64> },
    Structured { url: Option<String> },
    Transcript { url: Option<String>, lang: Option<String>, max_bytes: Option<u64> },
    Env,
    Requests {
        since: Option<u64>,
        method: Option<String>,
        url_contains: Option<String>,
        status: Option<u16>,
        initiator: Option<String>,
        denied_only: bool,
        limit: Option<u64>,
    },
    Resend(Resend),
}

/// A stored request, to be sent again with edits.
#[derive(Debug, PartialEq, Eq)]
pub struct Resend {
    pub from: Option<u64>,
    pub set: Vec<String>,
    /// Edits whose values are the bytes of files.
    pub set_file: Vec<(String, Vec<u8>)>,
    pub unset: Vec<String>,
    pub create: bool,
    pub repeat: u32,
    pub together: bool,
    pub no_follow: bool,
    pub reset_budget: bool,
    /// A request composed whole, in place of a stored one.
    pub request: Option<Json>,
    pub raw_target: Option<String>,
    pub raw_request: Option<String>,
}

// ------------------------------------------------------------------- base64

/// The character that stands for six bits.
pub open spec fn base64_symbol(n: nat) -> char {
    if n < 26 {
        (65 + n) as char
    } else if n < 52 {
        (71 + n) as char
    } else if n < 62 {
        (n - 4) as char
    } else if n == 62 {
        '+'
    } else {
        '/'
    }
}

/// Bytes in the standard base64 alphabet, padded.
pub open spec fn base64_text(bytes: Seq<u8>) -> Seq<char>
    decreases bytes.len(),
{
    if bytes.len() == 0 {
        Seq::empty()
    } else {
        let a = bytes[0] as nat;
        let b = if bytes.len() > 1 { bytes[1] as nat } else { 0 };
        let c = if bytes.len() > 2 { bytes[2] as nat } else { 0 };
        let group = seq![
            base64_symbol(a / 4),
            base64_symbol(a % 4 * 16 + b / 16),
            if bytes.len() > 1 { base64_symbol(b % 16 * 4 + c / 64) } else { '=' },
            if bytes.len() > 2 { base64_symbol(c % 64) } else { '=' },
        ];
        if bytes.len() <= 3 {
            group
        } else {
            group + base64_text(bytes.skip(3))
        }
    }
}

/// Writes bytes in base64 with the `base64` crate's `STANDARD` engine: the
/// alphabet of letters, digits, `+` and `/`, three bytes to four characters,
/// the last group padded with `=`.
#[verifier::external_body]
fn base64_encode(bytes: &Vec<u8>) -> (r: String)
    ensures
        r@ == base64_text(bytes@),
{
    base64::Engine::encode(&base64::engine::general_purpose::STANDARD, bytes)
}

// -------------------------------------------------------------- positionals

/// What two positionals mean: a ref and a value, or with a locator the value
/// alone.
pub open spec fn positionals(
    verb: Seq<char>,
    what: Seq<char>,
    located: bool,
    first: Option<Seq<char>>,
    second: Option<Seq<char>>,
) -> Result<(Option<Seq<char>>, Seq<char>), Seq<char>> {
    if located && second is Some {
        Err(
            "with `--selector` or `--role`, pass only "@ + what
                + ": the locator is the handle."@,
        )
    } else if located && first is Some {
        Ok((None, first->0))
    } else if !located && first is Some && second is Some {
        Ok((Some(first->0), second->0))
    } else {
        Err(
            "`"@ + verb + "` needs a `@ref` and "@ + what
                + ", or `--selector <css>` / `--role <role>` and "@ + what + "."@,
        )
    }
}

pub open spec fn positionals_view(r: Result<(Option<String>, String), String>) -> Result<
    (Option<Seq<char>>, Seq<char>),
    Seq<char>,
> {
    match r {
        Ok(p) => Ok((string_view(p.0), p.1@)),
        Err(e) => Err(e@),
    }
}

/// Resolves the "`@ref` and a value, or a locator and the value" shape.
pub fn two_positionals(
    verb: &str,
    what: &str,
    located: bool,
    first: &Option<String>,
    second: &Option<String>,
) -> (r: Result<(Option<String>, String), String>)
    ensures
        positionals_view(r) == positionals(
            verb@,
            what@,
            located,
            string_view(*first),
            string_view(*second),
        ),
{
    if located {
        if second.is_some() {
            let mut e = "with `--selector` or `--role`, pass only ".to_owned();
            e.append(what);
            e.append(": the locator is the handle.");
            return Err(e);
        }
        if let Some(value) = first {
            return Ok((None, value.clone()));
        }
    } else if let Some(reference) = first {
        if let Some(value) = second {
            return Ok((Some(reference.clone()), value.clone()));
        }
    }
    let mut e = "`".to_owned();
    e.append(verb);
    e.append("` needs a `@ref` and ");
    e.append(what);
    e.append(", or `--selector <css>` / `--role <role>` and ");
    e.append(what);
    e.append(".");
    Err(e)
}

/// The state that a word names.
pub open spec fn state_named(word: Seq<char>) -> Option<bool> {
    let w = lowered(trimmed(word));
    if w == "true"@ || w == "yes"@ || w == "on"@ || w == "1"@ {
        Some(true)
    } else if w == "false"@ || w == "no"@ || w == "off"@ || w == "0"@ {
        Some(false)
    } else {
        None
    }
}

pub open spec fn no_state(word: Seq<char>) -> Seq<char> {
    "`"@ + lowered(trimmed(word))
        + "` is not a state. `set-checked` takes `true` or `false`: it sets a state rather than toggling one, which is what makes it replayable."@
}

/// Reads the state that a checkbox is to be in. A typo says what it should
/// have been rather than silently meaning `false`.
pub fn checked_state(word: &str) -> (r: Result<bool, String>)
    ensures
        match r {
            Ok(b) => state_named(word@) == Some(b),
            Err(e) => state_named(word@) is None && e@ == no_state(word@),
        },
{
    proof {
        reveal_strlit("true");
        reveal_strlit("yes");
        reveal_strlit("on");
        reveal_strlit("1");
        reveal_strlit("false");
        reveal_strlit("no");
        reveal_strlit("off");
        reveal_strlit("0");
    }
    let w = lower(&trim(word));
    if same(&w, "true") || same(&w, "yes") || same(&w, "on") || same(&w, "1") {
        Ok(true)
    } else if same(&w, "false") || same(&w, "no") || same(&w, "off") || same(&w, "0") {
        Ok(false)
    } else {
        let mut e = "`".to_owned();
        e.append(&w);
        e.append(
            "` is not a state. `set-checked` takes `true` or `false`: it sets a state rather than toggling one, which is what makes it replayable.",
        );
        Err(e)
    }
}

// ------------------------------------------------------------------ writing

pub open spec fn text_json(t: Seq<char>) -> JsonView {
    JsonView::Text(t)
}

pub open spec fn maybe_text(t: Option<Seq<char>>) -> JsonView {
    match t {
        Some(s) => JsonView::Text(s),
        None => JsonView::Null,
    }
}

pub open spec fn count_json(n: u64) -> JsonView {
    JsonView::Number { whole: Some(n), text: decimal(n as nat) }
}

pub open spec fn maybe_count(n: Option<u64>) -> JsonView {
    match n {
        Some(k) => count_json(k),
        None => JsonView::Null,
    }
}

pub open spec fn texts_json(v: Seq<String>) -> JsonView {
    JsonView::List(v.map_values(|s: String| JsonView::Text(s@)))
}

/// Each target with its bytes in base64.
pub open spec fn payloads_json(v: Seq<(String, Vec<u8>)>) -> JsonView {
    JsonView::List(
        v.map_values(
            |p: (String, Vec<u8>)|
                JsonView::List(
                    seq![JsonView::Text(p.0@), JsonView::Text(base64_text(p.1@))],
                ),
        ),
    )
}

pub(crate) fn put(entries: &mut Vec<(String, Json)>, name: &str, value: Json)
    ensures
        object_view(final(entries)@) == object_view(old(entries)@).push((name@, json_view(value))),
{
    let item = (name.to_owned(), value);
    proof {
        lemma_object_push(entries@, item);
    }
    entries.push(item);
}

pub(crate) fn put_text(entries: &mut Vec<(String, Json)>, name: &str, value: &str)
    ensures
        object_view(final(entries)@) == object_view(old(entries)@).push((name@, text_json(value@))),
{
    put(entries, name, Json::Text(value.to_owned()));
}

pub(crate) fn put_maybe(entries: &mut Vec<(String, Json)>, name: &str, value: &Option<String>)
    ensures
        object_view(final(entries)@) == object_view(old(entries)@).push(
            (name@, maybe_text(string_view(*value))),
        ),
{
    match value {
        Some(t) => put_text(entries, name, t),
        None => put(entries, name, Json::Null),
    }
}

pub(crate) fn put_flag(entries: &mut Vec<(String, Json)>, name: &str, value: bool)
    ensures
        object_view(final(entries)@) == object_view(old(entries)@).push(
            (name@, JsonView::Bool(value)),
        ),
{
    put(entries, name, Json::Bool(value));
}

pub(crate) fn put_count(entries: &mut Vec<(String, Json)>, name: &str, value: Option<u64>)
    ensures
        object_view(final(entries)@) == object_view(old(entries)@).push(
            (name@, maybe_count(value)),
        ),
{
    match value {
        Some(n) => put(entries, name, Json::Number { whole: Some(n), text: decimal_text(n) }),
        None => put(entries, name, Json::Null),
    }
}

pub(crate) fn put_texts(entries: &mut Vec<(String, Json)>, name: &str, values: &Vec<String>)
    ensures
        object_view(final(entries)@) == object_view(old(entries)@).push(
            (name@, texts_json(values@)),
        ),
{
    let ghost shown = |s: String| JsonView::Text(s@);
    let mut out: Vec<Json> = Vec::new();
    let mut i: usize = 0;
    while i < values.len()
        invariant
            i <= values.len(),
            shown == (|s: String| JsonView::Text(s@)),
            list_view(out@) == values@.take(i as int).map_values(shown),
        decreases values.len() - i,
    {
        let item = Json::Text(values[i].clone());
        proof {
            lemma_list_push(out@, item);
            assert(values@.take(i + 1).map_values(shown) =~= values@.take(i as int).map_values(
                shown,
            ).push(shown(values@[i as int])));
        }
        out.push(item);
        i += 1;
    }
    assert(values@.take(i as int) =~= values@);
    put(entries, name, Json::List(out));
}

fn put_payloads(entries: &mut Vec<(String, Json)>, name: &str, values: &Vec<(String, Vec<u8>)>)
    ensures
        object_view(final(entries)@) == object_view(old(entries)@).push(
            (name@, payloads_json(values@)),
        ),
{
    let ghost shown = |p: (String, Vec<u8>)|
        JsonView::List(seq![JsonView::Text(p.0@), JsonView::Text(base64_text(p.1@))]);
    let mut out: Vec<Json> = Vec::new();
    let mut i: usize = 0;
    while i < values.len()
        invariant
            i <= values.len(),
            shown == (|p: (String, Vec<u8>)|
                JsonView::List(seq![JsonView::Text(p.0@), JsonView::Text(base64_text(p.1@))])),
            list_view(out@) == values@.take(i as int).map_values(shown),
        decreases values.len() - i,
    {
        let target = Json::Text(values[i].0.clone());
        let body = Json::Text(base64_encode(&values[i].1));
        let mut pair: Vec<Json> = Vec::new();
        proof {
            lemma_list_push(Seq::empty(), target);
            lemma_list_push(Seq::empty().push(target), body);
        }
        pair.push(target);
        pair.push(body);
        assert(pair@ =~= Seq::empty().push(target).push(body));
        assert(list_view(Seq::<Json>::empty()) =~= Seq::<JsonView>::empty());
        assert(list_view(pair@) =~= seq![
            JsonView::Text(values@[i as int].0@),
            JsonView::Text(base64_text(values@[i as int].1@)),
        ]);
        let item = Json::List(pair);
        proof {
            lemma_list_push(out@, item);
            assert(json_view(item) == shown(values@[i as int]));
            assert(values@.take(i + 1).map_values(shown) =~= values@.take(i as int).map_values(
                shown,
            ).push(shown(values@[i as int])));
        }
        out.push(item);
        i += 1;
    }
    assert(values@.take(i as int) =~= values@);
    put(entries, name, Json::List(out));
}

// ------------------------------------------------------------------ copying

/// A copy that says the same.
pub fn copy_json(j: &Json) -> (r: Json)
    ensures
        json_view(r) == json_view(*j),
    decreases *j,
{
    match j {
        Json::Null => Json::Null,
        Json::Bool(b) => Json::Bool(*b),
        Json::Number { whole, text } => Json::Number { whole: *whole, text: text.clone() },
        Json::Text(t) => Json::Text(t.clone()),
        Json::List(items) => {
            let mut out: Vec<Json> = Vec::new();
            let mut i: usize = 0;
            while i < items.len()
                invariant
                    i <= items.len(),
                    *j == Json::List(*items),
                    list_view(out@) == list_view(items@.take(i as int)),
                decreases items.len() - i,
            {
                assert(decreases_to!(*j => j->List_0));
                assert(decreases_to!(*items => items@));
                assert(decreases_to!(items@ => items@[i as int]));
                let item = copy_json(&items[i]);
                proof {
                    lemma_list_push(out@, item);
                    lemma_list_push(items@.take(i as int), items@[i as int]);
                    assert(items@.take(i + 1) =~= items@.take(i as int).push(items@[i as int]));
                }
                out.push(item);
                i += 1;
            }
            assert(items@.take(i as int) =~= items@);
            Json::List(out)
        },
        Json::Object(entries) => {
            let mut out: Vec<(String, Json)> = Vec::new();
            let mut i: usize = 0;
            while i < entries.len()
                invariant
                    i <= entries.len(),
                    *j == Json::Object(*entries),
                    object_view(out@) == object_view(entries@.take(i as int)),
                decreases entries.len() - i,
            {
                assert(decreases_to!(*j => j->Object_0));
                assert(decreases_to!(*entries => entries@));
                assert(decreases_to!(entries@ => entries@[i as int]));
                assert(decreases_to!(entries@[i as int] => entries@[i as int].1));
                let item = (entries[i].0.clone(), copy_json(&entries[i].1));
                proof {
                    lemma_object_push(out@, item);
                    lemma_object_push(entries@.take(i as int), entries@[i as int]);
                    assert(entries@.take(i + 1) =~= entries@.take(i as int).push(
                        entries@[i as int],
                    ));
                }
                out.push(item);
                i += 1;
            }
            assert(entries@.take(i as int) =~= entries@);
            Json::Object(out)
        },
    }
}


// ----------------------------------------------------------------- requests

/// What a verb is called on the control channel.
pub open spec fn verb_name(v: SessionVerb) -> Seq<char> {
    match v {
        SessionVerb::Status => "status"@,
        SessionVerb::Snapshot { .. } => "snapshot"@,
        SessionVerb::Login { .. } => "login"@,
        SessionVerb::Navigate { .. } => "navigate"@,
        SessionVerb::Scroll { .. } => "scroll"@,
        SessionVerb::Type { .. } => "type"@,
        SessionVerb::Submit { .. } => "submit"@,
        SessionVerb::Click { .. } => "click"@,
        SessionVerb::WaitFor { .. } => "wait-for"@,
        SessionVerb::WaitForScript { .. } => "wait-for-script"@,
        SessionVerb::Extract { .. } => "extract"@,
        SessionVerb::Markdown { .. } => "markdown"@,
        SessionVerb::Script => "script"@,
        SessionVerb::SetChecked { .. } => "set-checked"@,
        SessionVerb::Select { .. } => "select"@,
        SessionVerb::Press { .. } => "press"@,
        SessionVerb::Find { .. } => "find"@,
        SessionVerb::Screenshot { .. } => "screenshot"@,
        SessionVerb::Reload => "reload"@,
        SessionVerb::Socket { .. } => "socket"@,
        SessionVerb::Structured { .. } => "structured"@,
        SessionVerb::Transcript { .. } => "transcript"@,
        SessionVerb::Env => "env"@,
        SessionVerb::Requests { .. } => "requests"@,
        SessionVerb::Resend(_) => "resend"@,
    }
}

fn name_of(v: &SessionVerb) -> (r: &'static str)
    ensures
        r@ == verb_name(*v),
{
    match v {
        SessionVerb::Status => "status",
        SessionVerb::Snapshot { .. } => "snapshot",
        SessionVerb::Login { .. } => "login",
        SessionVerb::Navigate { .. } => "navigate",
        SessionVerb::Scroll { .. } => "scroll",
        SessionVerb::Type { .. } => "type",
        SessionVerb::Submit { .. } => "submit",
        SessionVerb::Click { .. } => "click",
        SessionVerb::WaitFor { .. } => "wait-for",
        SessionVerb::WaitForScript { .. } => "wait-for-script",
        SessionVerb::Extract { .. } => "extract",
        SessionVerb::Markdown { .. } => "markdown",
        SessionVerb::Script => "script",
        SessionVerb::SetChecked { .. } => "set-checked",
        SessionVerb::Select { .. } => "select",
        SessionVerb::Press { .. } => "press",
        SessionVerb::Find { .. } => "find",
        SessionVerb::Screenshot { .. } => "screenshot",
        SessionVerb::Reload => "reload",
        SessionVerb::Socket { .. } => "socket",
        SessionVerb::Structured { .. } => "structured",
        SessionVerb::Transcript { .. } => "transcript",
        SessionVerb::Env => "env",
        SessionVerb::Requests { .. } => "requests",
        SessionVerb::Resend(_) => "resend",
    }
}

/// The entries that name an element, `reference` being the ref that is left of
/// the positionals.
pub open spec fn handle_entries(
    verb: Seq<char>,
    reference: Option<Seq<char>>,
    handle: Handle,
) -> Seq<(Seq<char>, JsonView)> {
    seq![
        ("verb"@, text_json(verb)),
        ("ref"@, maybe_text(reference)),
        ("selector"@, maybe_text(string_view(handle.selector))),
        ("role"@, maybe_text(string_view(handle.role))),
        ("name"@, maybe_text(string_view(handle.name))),
    ]
}

/// Whether the element is named by a locator rather than by a ref.
pub open spec fn located(handle: Handle) -> bool {
    handle.selector is Some || handle.role is Some
}

/// A request that acts on an element with a value, under the value's key.
pub open spec fn valued_request(
    verb: Seq<char>,
    what: Seq<char>,
    key: Seq<char>,
    handle: Handle,
    value: Option<String>,
) -> Result<Seq<(Seq<char>, JsonView)>, Seq<char>> {
    match positionals(
        verb,
        what,
        located(handle),
        string_view(handle.reference),
        string_view(value),
    ) {
        Err(e) => Err(e),
        Ok(p) => Ok(handle_entries(verb, p.0, handle).push((key, text_json(p.1)))),
    }
}

/// What a verb asks of the session, entry by entry, or why it cannot be asked.
pub open spec fn request_entries(v: SessionVerb) -> Result<Seq<(Seq<char>, JsonView)>, Seq<char>> {
    let verb = ("verb"@, text_json(verb_name(v)));
    match v {
        SessionVerb::Status => Ok(seq![verb]),
        SessionVerb::Script => Ok(seq![verb]),
        SessionVerb::Reload => Ok(seq![verb]),
        SessionVerb::Env => Ok(seq![verb]),
        SessionVerb::Snapshot { delta, url } => Ok(
            seq![verb, ("delta"@, JsonView::Bool(delta)), ("url"@, maybe_text(string_view(url)))],
        ),
        SessionVerb::Login { off } => Ok(seq![verb, ("on"@, JsonView::Bool(!off))]),
        SessionVerb::Navigate { url } => Ok(seq![verb, ("url"@, text_json(url@))]),
        SessionVerb::Scroll { by } => Ok(
            seq![verb, ("by"@, JsonView::Number { whole: None, text: by@ })],
        ),
        SessionVerb::Type { handle, text } => valued_request(
            "type"@,
            "the text"@,
            "text"@,
            handle,
            text,
        ),
        SessionVerb::Select { handle, option } => valued_request(
            "select"@,
            "the option"@,
            "option"@,
            handle,
            option,
        ),
        SessionVerb::Press { handle, key } => valued_request(
            "press"@,
            "the key"@,
            "key"@,
            handle,
            key,
        ),
        SessionVerb::SetChecked { handle, checked } => match positionals(
            "set-checked"@,
            "`true` or `false`"@,
            located(handle),
            string_view(handle.reference),
            string_view(checked),
        ) {
            Err(e) => Err(e),
            Ok(p) => match state_named(p.1) {
                None => Err(no_state(p.1)),
                Some(b) => Ok(
                    handle_entries("set-checked"@, p.0, handle).push(
                        ("checked"@, JsonView::Bool(b)),
                    ),
                ),
            },
        },
        SessionVerb::Submit { handle } => Ok(
            handle_entries("submit"@, string_view(handle.reference), handle),
        ),
        SessionVerb::Click { handle } => Ok(
            handle_entries("click"@, string_view(handle.reference), handle),
        ),
        SessionVerb::WaitFor { selector, text } => Ok(
            seq![
                verb,
                ("selector"@, maybe_text(string_view(selector))),
                ("text"@, maybe_text(string_view(text))),
            ],
        ),
        SessionVerb::WaitForScript { expr } => Ok(seq![verb, ("expr"@, text_json(expr@))]),
        SessionVerb::Extract { schema, url } => Ok(
            seq![verb, ("schema"@, json_view(schema)), ("url"@, maybe_text(string_view(url)))],
        ),
        SessionVerb::Markdown { max_bytes, url } => Ok(
            seq![
                verb,
                ("max_bytes"@, maybe_count(max_bytes)),
                ("url"@, maybe_text(string_view(url))),
            ],
        ),
        SessionVerb::Find { role, name, url } => Ok(
            seq![
                verb,
                ("role"@, text_json(role@)),
                ("name"@, maybe_text(string_view(name))),
                ("url"@, maybe_text(string_view(url))),
            ],
        ),
        SessionVerb::Screenshot { path, url } => Ok(
            seq![verb, ("path"@, text_json(path@)), ("url"@, maybe_text(string_view(url)))],
        ),
        SessionVerb::Socket { url, send, wait_ms } => Ok(
            seq![
                verb,
                ("url"@, text_json(url@)),
                ("send"@, texts_json(send@)),
                ("wait_ms"@, maybe_count(wait_ms)),
            ],
        ),
        SessionVerb::Structured { url } => Ok(
            seq![verb, ("url"@, maybe_text(string_view(url)))],
        ),
        SessionVerb::Transcript { url, lang, max_bytes } => Ok(
            seq![
                verb,
                ("url"@, maybe_text(string_view(url))),
                ("lang"@, maybe_text(string_view(lang))),
                ("max_bytes"@, maybe_count(max_bytes)),
            ],
        ),
        SessionVerb::Requests {
            since,
            method,
            url_contains,
            status,
            initiator,
            denied_only,
            limit,
        } => Ok(
            seq![
                verb,
                ("since"@, maybe_count(since)),
                ("method"@, maybe_text(string_view(method))),
                ("url_contains"@, maybe_text(string_view(url_contains))),
                ("status"@, maybe_count(widened(status))),
                ("initiator"@, maybe_text(string_view(initiator))),
                ("denied_only"@, JsonView::Bool(denied_only)),
                ("limit"@, maybe_count(limit)),
            ],
        ),
        SessionVerb::Resend(again) => Ok(
            seq![
                verb,
                ("from"@, maybe_count(again.from)),
                ("set"@, texts_json(again.set@)),
                ("set_file"@, payloads_json(again.set_file@)),
                ("unset"@, texts_json(again.unset@)),
                ("create"@, JsonView::Bool(again.create)),
                ("repeat"@, count_json(again.repeat as u64)),
                ("together"@, JsonView::Bool(again.together)),
                ("no_follow"@, JsonView::Bool(again.no_follow)),
                ("reset_budget"@, JsonView::Bool(again.reset_budget)),
                (
                    "request"@,
                    match again.request {
                        Some(j) => json_view(j),
                        None => JsonView::Null,
                    },
                ),
                ("raw_target"@, maybe_text(string_view(again.raw_target))),
                ("raw_request"@, maybe_text(string_view(again.raw_request))),
            ],
        ),
    }
}

pub open spec fn widened(n: Option<u16>) -> Option<u64> {
    match n {
        Some(k) => Some(k as u64),
        None => None,
    }
}

fn put_handle(entries: &mut Vec<(String, Json)>, reference: &Option<String>, handle: &Handle)
    ensures
        object_view(final(entries)@) == object_view(old(entries)@).push(
            ("ref"@, maybe_text(string_view(*reference))),
        ).push(("selector"@, maybe_text(string_view(handle.selector)))).push(
            ("role"@, maybe_text(string_view(handle.role))),
        ).push(("name"@, maybe_text(string_view(handle.name)))),
{
    put_maybe(entries, "ref", reference);
    put_maybe(entries, "selector", &handle.selector);
    put_maybe(entries, "role", &handle.role);
    put_maybe(entries, "name", &handle.name);
}

fn is_located(handle: &Handle) -> (r: bool)
    ensures
        r == located(*handle),
{
    handle.selector.is_some() || handle.role.is_some()
}

pub open spec fn entries_view(r: Result<Vec<(String, Json)>, String>) -> Result<
    Seq<(Seq<char>, JsonView)>,
    Seq<char>,
> {
    match r {
        Ok(v) => Ok(object_view(v@)),
        Err(e) => Err(e@),
    }
}

fn opened(verb: &str) -> (r: Vec<(String, Json)>)
    ensures
        object_view(r@) == seq![("verb"@, text_json(verb@))],
{
    let mut out: Vec<(String, Json)> = Vec::new();
    assert(object_view(out@) =~= Seq::<(Seq<char>, JsonView)>::empty());
    put_text(&mut out, "verb", verb);
    out
}

fn valued(
    verb: &str,
    what: &str,
    key: &str,
    handle: &Handle,
    value: &Option<String>,
) -> (r: Result<Vec<(String, Json)>, String>)
    ensures
        entries_view(r) == valued_request(verb@, what@, key@, *handle, *value),
{
    match two_positionals(verb, what, is_located(handle), &handle.reference, value) {
        Err(e) => Err(e),
        Ok((reference, text)) => {
            let mut out = opened(verb);
            put_handle(&mut out, &reference, handle);
            put_text(&mut out, key, &text);
            assert(object_view(out@) =~= handle_entries(verb@, string_view(reference), *handle).push(
                (key@, text_json(text@)),
            ));
            Ok(out)
        },
    }
}

/// The request that a verb sends to the session.
pub fn request_of(v: &SessionVerb) -> (r: Result<Json, String>)
    ensures
        match r {
            Ok(j) => request_entries(*v) is Ok && json_view(j) == JsonView::Object(
                request_entries(*v)->Ok_0,
            ),
            Err(e) => request_entries(*v) == Err::<Seq<(Seq<char>, JsonView)>, Seq<char>>(e@),
        },
{
    match entries_for(v) {
        Ok(entries) => Ok(Json::Object(entries)),
        Err(e) => Err(e),
    }
}

fn entries_for(v: &SessionVerb) -> (r: Result<Vec<(String, Json)>, String>)
    ensures
        entries_view(r) == request_entries(*v),
{
    let mut out = opened(name_of(v));
    match v {
        SessionVerb::Status => {},
        SessionVerb::Script => {},
        SessionVerb::Reload => {},
        SessionVerb::Env => {},
        SessionVerb::Snapshot { delta, url } => {
            put_flag(&mut out, "delta", *delta);
            put_maybe(&mut out, "url", url);
        },
        SessionVerb::Login { off } => {
            put_flag(&mut out, "on", !*off);
        },
        SessionVerb::Navigate { url } => {
            put_text(&mut out, "url", url);
        },
        SessionVerb::Scroll { by } => {
            put(&mut out, "by", Json::Number { whole: None, text: by.clone() });
        },
        SessionVerb::Type { handle, text } => {
            return valued("type", "the text", "text", handle, text);
        },
        SessionVerb::Select { handle, option } => {
            return valued("select", "the option", "option", handle, option);
        },
        SessionVerb::Press { handle, key } => {
            return valued("press", "the key", "key", handle, key);
        },
        SessionVerb::SetChecked { handle, checked } => {
            match two_positionals(
                "set-checked",
                "`true` or `false`",
                is_located(handle),
                &handle.reference,
                checked,
            ) {
                Err(e) => {
                    return Err(e);
                },
                Ok((reference, state)) => {
                    let on = match checked_state(&state) {
                        Ok(b) => b,
                        Err(e) => {
                            return Err(e);
                        },
                    };
                    put_handle(&mut out, &reference, handle);
                    put_flag(&mut out, "checked", on);
                    assert(object_view(out@) =~= handle_entries(
                        "set-checked"@,
                        string_view(reference),
                        *handle,
                    ).push(("checked"@, JsonView::Bool(on))));
                },
            }
        },
        SessionVerb::Submit { handle } => {
            put_handle(&mut out, &handle.reference, handle);
        },
        SessionVerb::Click { handle } => {
            put_handle(&mut out, &handle.reference, handle);
        },
        SessionVerb::WaitFor { selector, text } => {
            put_maybe(&mut out, "selector", selector);
            put_maybe(&mut out, "text", text);
        },
        SessionVerb::WaitForScript { expr } => {
            put_text(&mut out, "expr", expr);
        },
        SessionVerb::Extract { schema, url } => {
            put(&mut out, "schema", copy_json(schema));
            put_maybe(&mut out, "url", url);
        },
        SessionVerb::Markdown { max_bytes, url } => {
            put_count(&mut out, "max_bytes", *max_bytes);
            put_maybe(&mut out, "url", url);
        },
        SessionVerb::Find { role, name, url } => {
            put_text(&mut out, "role", role);
            put_maybe(&mut out, "name", name);
            put_maybe(&mut out, "url", url);
        },
        SessionVerb::Screenshot { path, url } => {
            put_text(&mut out, "path", path);
            put_maybe(&mut out, "url", url);
        },
        SessionVerb::Socket { url, send, wait_ms } => {
            put_text(&mut out, "url", url);
            put_texts(&mut out, "send", send);
            put_count(&mut out, "wait_ms", *wait_ms);
        },
        SessionVerb::Structured { url } => {
            put_maybe(&mut out, "url", url);
        },
        SessionVerb::Transcript { url, lang, max_bytes } => {
            put_maybe(&mut out, "url", url);
            put_maybe(&mut out, "lang", lang);
            put_count(&mut out, "max_bytes", *max_bytes);
        },
        SessionVerb::Requests {
            since,
            method,
            url_contains,
            status,
            initiator,
            denied_only,
            limit,
        } => {
            put_count(&mut out, "since", *since);
            put_maybe(&mut out, "method", method);
            put_maybe(&mut out, "url_contains", url_contains);
            let code = match status {
                Some(k) => Some(*k as u64),
                None => None,
            };
            put_count(&mut out, "status", code);
            put_maybe(&mut out, "initiator", initiator);
            put_flag(&mut out, "denied_only", *denied_only);
            put_count(&mut out, "limit", *limit);
        },
        SessionVerb::Resend(again) => {
            put_count(&mut out, "from", again.from);
            put_texts(&mut out, "set", &again.set);
            put_payloads(&mut out, "set_file", &again.set_file);
            put_texts(&mut out, "unset", &again.unset);
            put_flag(&mut out, "create", again.create);
            put_count(&mut out, "repeat", Some(again.repeat as u64));
            put_flag(&mut out, "together", again.together);
            put_flag(&mut out, "no_follow", again.no_follow);
            put_flag(&mut out, "reset_budget", again.reset_budget);
            let composed = match &again.request {
                Some(j) => copy_json(j),
                None => Json::Null,
            };
            put(&mut out, "request", composed);
            put_maybe(&mut out, "raw_target", &again.raw_target);
            put_maybe(&mut out, "raw_request", &again.raw_request);
        },
    }
    assert(object_view(out@) =~= request_entries(*v)->Ok_0);
    Ok(out)
}

// ------------------------------------------------------------------ replies

/// A reply's entry of that name; what is not an object has none.
pub open spec fn reply_entry(reply: Json, name: Seq<char>) -> Option<Json> {
    match reply {
        Json::Object(entries) => entry_of(entries@, name),
        _ => None,
    }
}

pub open spec fn reply_text(reply: Json, name: Seq<char>) -> Option<Seq<char>> {
    match reply_entry(reply, name) {
        Some(Json::Text(t)) => Some(t@),
        _ => None,
    }
}

/// Whether the session did what it was asked.
pub open spec fn granted(reply: Json) -> bool {
    reply_entry(reply, "ok"@) == Some(Json::Bool(true))
}

/// Why it did not.
pub open spec fn refusal(reply: Json) -> Seq<char> {
    match reply_text(reply, "error"@) {
        Some(t) => t,
        None => "the session refused, without saying why"@,
    }
}

fn get<'a>(reply: &'a Json, name: &str) -> (r: Option<&'a Json>)
    ensures
        crate::json::json_ref(r) == reply_entry(*reply, name@),
{
    match reply {
        Json::Object(entries) => entry(entries, name),
        _ => None,
    }
}

fn get_text<'a>(reply: &'a Json, name: &str) -> (r: Option<&'a String>)
    ensures
        r matches Some(t) ==> reply_text(*reply, name@) == Some(t@),
        r is None ==> reply_text(*reply, name@) is None,
{
    match get(reply, name) {
        Some(Json::Text(t)) => Some(t),
        _ => None,
    }
}

/// Whether the session did what it was asked; the exit code carries it.
pub fn is_ok(reply: &Json) -> (r: bool)
    ensures
        r == granted(*reply),
{
    match get(reply, "ok") {
        Some(Json::Bool(b)) => *b,
        _ => false,
    }
}

/// What to say of a refusal.
pub fn refusal_of(reply: &Json) -> (r: String)
    ensures
        r@ == refusal(*reply),
{
    match get_text(reply, "error") {
        Some(t) => t.clone(),
        None => "the session refused, without saying why".to_owned(),
    }
}

/// What a granted reply shows: the snapshot is the whole point of the verb,
/// everything else is a line.
#[derive(Debug, PartialEq, Eq)]
pub enum Shown {
    /// A text, and why it is not the difference that was asked for.
    Text { text: String, note: Option<String> },
    Line(String),
    /// Whether the page moved: "did not move" is the answer an agent needs to
    /// stop scrolling.
    Moved(bool),
    Nothing,
}

pub enum ShownView {
    Text { text: Seq<char>, note: Option<Seq<char>> },
    Line(Seq<char>),
    Moved(bool),
    Nothing,
}

impl View for Shown {
    type V = ShownView;

    open spec fn view(&self) -> ShownView {
        match *self {
            Shown::Text { text, note } => ShownView::Text { text: text@, note: string_view(note) },
            Shown::Line(l) => ShownView::Line(l@),
            Shown::Moved(b) => ShownView::Moved(b),
            Shown::Nothing => ShownView::Nothing,
        }
    }
}

pub open spec fn shown(reply: Json) -> ShownView {
    if let Some(text) = reply_text(reply, "text"@) {
        ShownView::Text {
            text,
            note: match reply_text(reply, "reason"@) {
                Some(why) => Some("note: "@ + why),
                None => None,
            },
        }
    } else if let Some(message) = reply_text(reply, "message"@) {
        ShownView::Line(message)
    } else if let Some(Json::Bool(moved)) = reply_entry(reply, "moved"@) {
        ShownView::Moved(moved)
    } else if let Some(url) = reply_text(reply, "url"@) {
        ShownView::Line("url: "@ + url)
    } else if let Some(reference) = reply_text(reply, "ref"@) {
        ShownView::Line("typed into "@ + reference)
    } else {
        ShownView::Nothing
    }
}

/// What to show of a granted reply. The typed text is deliberately not echoed:
/// it may be a password.
pub fn show(reply: &Json) -> (r: Shown)
    ensures
        r@ == shown(*reply),
{
    if let Some(text) = get_text(reply, "text") {
        let note = match get_text(reply, "reason") {
            Some(why) => {
                let mut n = "note: ".to_owned();
                n.append(why);
                Some(n)
            },
            None => None,
        };
        return Shown::Text { text: text.clone(), note };
    }
    if let Some(message) = get_text(reply, "message") {
        return Shown::Line(message.clone());
    }
    if let Some(Json::Bool(moved)) = get(reply, "moved") {
        return Shown::Moved(*moved);
    }
    if let Some(url) = get_text(reply, "url") {
        let mut l = "url: ".to_owned();
        l.append(url);
        return Shown::Line(l);
    }
    if let Some(reference) = get_text(reply, "ref") {
        let mut l = "typed into ".to_owned();
        l.append(reference);
        return Shown::Line(l);
    }
    Shown::Nothing
}

/// A recording to be kept: the document, and what to say of it.
#[derive(Debug, PartialEq, Eq)]
pub struct Recording {
    pub document: Json,
    pub wrote: String,
    /// Said where the script is shorter than the session it came from.
    pub missing: Option<String>,
}

/// The entry, or what stands in for it.
pub open spec fn entry_or(reply: Json, name: Seq<char>, other: JsonView) -> JsonView {
    match reply_entry(reply, name) {
        Some(j) => json_view(j),
        None => other,
    }
}

pub open spec fn steps_in(reply: Json) -> nat {
    match reply_entry(reply, "steps"@) {
        Some(Json::List(items)) => items@.len(),
        _ => 0,
    }
}

pub open spec fn dropped_in(reply: Json) -> u64 {
    match reply_entry(reply, "dropped"@) {
        Some(Json::Number { whole: Some(n), .. }) => n,
        _ => 0,
    }
}

pub open spec fn recording_document(reply: Json) -> JsonView {
    JsonView::Object(
        seq![
            ("start_url"@, entry_or(reply, "start_url"@, JsonView::Null)),
            ("steps"@, entry_or(reply, "steps"@, JsonView::List(Seq::empty()))),
            ("dropped"@, entry_or(reply, "dropped"@, count_json(0))),
        ],
    )
}

/// The step list of a reply, as a script to be kept at `path`.
pub fn recording_of(reply: &Json, path: &str) -> (r: Recording)
    ensures
        json_view(r.document) == recording_document(*reply),
        r.wrote@ == "wrote "@ + decimal(steps_in(*reply)) + " step(s) to "@ + path@,
        string_view(r.missing) == (if dropped_in(*reply) > 0 {
            Some(
                "note: "@ + decimal(dropped_in(*reply) as nat)
                    + " action(s) are not in it \u{2014} no durable selector could be verified for what they acted on"@,
            )
        } else {
            None
        }),
{
    let mut out: Vec<(String, Json)> = Vec::new();
    assert(object_view(out@) =~= Seq::<(Seq<char>, JsonView)>::empty());
    let start = match get(reply, "start_url") {
        Some(j) => copy_json(j),
        None => Json::Null,
    };
    put(&mut out, "start_url", start);
    let steps = match get(reply, "steps") {
        Some(j) => copy_json(j),
        None => {
            let none: Vec<Json> = Vec::new();
            assert(list_view(none@) =~= Seq::<JsonView>::empty());
            Json::List(none)
        },
    };
    put(&mut out, "steps", steps);
    let lost = match get(reply, "dropped") {
        Some(j) => copy_json(j),
        None => Json::Number { whole: Some(0), text: decimal_text(0) },
    };
    put(&mut out, "dropped", lost);
    assert(object_view(out@) =~= recording_document(*reply)->Object_0);
    let count: u64 = match get(reply, "steps") {
        Some(Json::List(items)) => items.len() as u64,
        _ => 0,
    };
    let mut wrote = "wrote ".to_owned();
    wrote.append(&decimal_text(count));
    wrote.append(" step(s) to ");
    wrote.append(path);
    let dropped: u64 = match get(reply, "dropped") {
        Some(Json::Number { whole: Some(n), .. }) => *n,
        _ => 0,
    };
    let missing = if dropped > 0 {
        let mut n = "note: ".to_owned();
        n.append(&decimal_text(dropped));
        n.append(
            " action(s) are not in it \u{2014} no durable selector could be verified for what they acted on",
        );
        Some(n)
    } else {
        None
    };
    Recording { document: Json::Object(out), wrote, missing }
}


// ------------------------------------------------------------------- replay

/// How far a replay has come.
#[derive(Debug, Clone, Copy, PartialEq, Eq, Structural)]
pub struct Replaying {
    pub total: u64,
    pub ran: u64,
    pub failed: u64,
    pub keep_going: bool,
}

/// What one step came to: a line for the output, a line for the errors, and
/// the reason to stop, where there is one.
#[derive(Debug, PartialEq, Eq)]
pub struct Stepped {
    pub line: Option<String>,
    pub trouble: Option<String>,
    pub stop: Option<String>,
}

/// A number at the right of three columns.
pub open spec fn in_three(n: nat) -> Seq<char> {
    if n < 10 {
        "  "@ + decimal(n)
    } else if n < 100 {
        " "@ + decimal(n)
    } else {
        decimal(n)
    }
}

fn three(n: u64) -> (r: String)
    ensures
        r@ == in_three(n as nat),
{
    if n < 10 {
        let mut out = "  ".to_owned();
        out.append(&decimal_text(n));
        out
    } else if n < 100 {
        let mut out = " ".to_owned();
        out.append(&decimal_text(n));
        out
    } else {
        decimal_text(n)
    }
}

impl Replaying {
    pub fn new(total: u64, keep_going: bool) -> (r: Replaying)
        ensures
            r == (Replaying { total, ran: 0, failed: 0, keep_going }),
    {
        Replaying { total, ran: 0, failed: 0, keep_going }
    }

    /// The step that is next, counted from one.
    pub open spec fn next(self) -> nat {
        (self.ran + self.failed + 1) as nat
    }

    /// Takes the session's reply to the next step, which reads `step`.
    ///
    /// A sequence, not a set: where one step fails, carrying on would act on a
    /// page that it failed to reach.
    pub fn take(&mut self, step: &str, reply: &Json) -> (r: Stepped)
        requires
            old(self).ran + old(self).failed < old(self).total,
        ensures
            granted(*reply) ==> {
                &&& *final(self) == (Replaying { ran: (old(self).ran + 1) as u64, ..*old(self) })
                &&& string_view(r.line) == Some(in_three(old(self).next()) + ". "@ + step@)
                &&& r.trouble is None
                &&& r.stop is None
            },
            !granted(*reply) ==> {
                &&& *final(self) == (Replaying {
                    failed: (old(self).failed + 1) as u64,
                    ..*old(self)
                })
                &&& r.line is None
                &&& string_view(r.trouble) == Some(
                    in_three(old(self).next()) + ". "@ + step@ + " \u{2014} FAILED: "@ + refusal(
                        *reply,
                    ),
                )
                &&& string_view(r.stop) == (if old(self).keep_going {
                    None
                } else {
                    Some(
                        "step "@ + decimal(old(self).next()) + " of "@ + decimal(
                            old(self).total as nat,
                        ) + " failed: "@ + refusal(*reply)
                            + ". The replay stopped there; pass --keep-going to run the rest anyway."@,
                    )
                })
            },
    {
        let at: u64 = self.ran + self.failed + 1;
        let mut head = three(at);
        head.append(". ");
        head.append(step);
        if is_ok(reply) {
            self.ran = self.ran + 1;
            return Stepped { line: Some(head), trouble: None, stop: None };
        }
        self.failed = self.failed + 1;
        let reason = refusal_of(reply);
        head.append(" \u{2014} FAILED: ");
        head.append(&reason);
        let stop = if self.keep_going {
            None
        } else {
            let mut s = "step ".to_owned();
            s.append(&decimal_text(at));
            s.append(" of ");
            s.append(&decimal_text(self.total));
            s.append(" failed: ");
            s.append(&reason);
            s.append(". The replay stopped there; pass --keep-going to run the rest anyway.");
            Some(s)
        };
        Stepped { line: None, trouble: Some(head), stop }
    }

    /// What the replay as a whole came to.
    pub fn end(&self) -> (r: Result<String, String>)
        ensures
            match r {
                Ok(said) => self.failed == 0 && said@ == "replayed "@ + decimal(self.ran as nat)
                    + " step(s)"@,
                Err(said) => self.failed > 0 && said@ == decimal(self.ran as nat) + " of "@
                    + decimal(self.total as nat) + " step(s) replayed; "@ + decimal(
                    self.failed as nat,
                ) + " failed"@,
            },
    {
        if self.failed > 0 {
            let mut s = decimal_text(self.ran);
            s.append(" of ");
            s.append(&decimal_text(self.total));
            s.append(" step(s) replayed; ");
            s.append(&decimal_text(self.failed));
            s.append(" failed");
            return Err(s);
        }
        let mut s = "replayed ".to_owned();
        s.append(&decimal_text(self.ran));
        s.append(" step(s)");
        Ok(s)
    }
}

/// What to say before a replay of a script that is not the whole session.
pub fn replay_note(dropped: u64) -> (r: Option<String>)
    ensures
        string_view(r) == (if dropped > 0 {
            Some(
                "note: this script is missing "@ + decimal(dropped as nat)
                    + " action(s) from the session it was recorded from \u{2014} no durable selector could be verified for them"@,
            )
        } else {
            None
        }),
{
    if dropped == 0 {
        return None;
    }
    let mut n = "note: this script is missing ".to_owned();
    n.append(&decimal_text(dropped));
    n.append(
        " action(s) from the session it was recorded from \u{2014} no durable selector could be verified for them",
    );
    Some(n)
}

// --------------------------------------------------------------------- laws

/// Every request that can be asked says first which verb it is.
pub proof fn law_a_request_names_its_verb(v: SessionVerb)
    ensures
        request_entries(v) matches Ok(entries) ==> entries.len() > 0 && entries[0] == (
            "verb"@,
            text_json(verb_name(v)),
        ),
{
}

/// A locator is the handle: with one, what is asked carries no ref beside it.
pub proof fn law_a_locator_is_the_handle(
    verb: Seq<char>,
    what: Seq<char>,
    key: Seq<char>,
    handle: Handle,
    value: Option<String>,
)
    requires
        located(handle),
    ensures
        valued_request(verb, what, key, handle, value) matches Ok(entries) ==> entries[1] == (
            "ref"@,
            JsonView::Null,
        ),
{
}

/// The sixty-four symbols, in order.
proof fn lemma_symbols(n: nat)
    requires
        n < 64,
    ensures
        base64_symbol(n)
            == "ABCDEFGHIJKLMNOPQRSTUVWXYZabcdefghijklmnopqrstuvwxyz0123456789+/"@[n as int],
{
    reveal_strlit("ABCDEFGHIJKLMNOPQRSTUVWXYZabcdefghijklmnopqrstuvwxyz0123456789+/");
    let all = "ABCDEFGHIJKLMNOPQRSTUVWXYZabcdefghijklmnopqrstuvwxyz0123456789+/"@;
    assert forall|k: int| 0 <= k < 26 implies #[trigger] all[k] == (65 + k) as char by {}
    assert forall|k: int| 26 <= k < 52 implies #[trigger] all[k] == (71 + k) as char by {}
    assert forall|k: int| 52 <= k < 62 implies #[trigger] all[k] == (k - 4) as char by {}
}

/// Three bytes are four symbols of the alphabet, whose places in it, sixty-four
/// to a place, make the number that the bytes make, and the rest follows. One
/// or two bytes at the end are padded to four symbols with equals signs.
pub proof fn law_how_bytes_are_written_in_base64(
    a: u8,
    b: u8,
    c: u8,
    rest: Seq<u8>,
    p: nat,
    q: nat,
    s: nat,
    t: nat,
)
    requires
        p < 64 && q < 64 && s < 64 && t < 64,
    ensures
        ({
            let symbols = "ABCDEFGHIJKLMNOPQRSTUVWXYZabcdefghijklmnopqrstuvwxyz0123456789+/"@;
            &&& 0x4_0000 * p + 0x1000 * q + 0x40 * s + t == 0x1_0000 * a + 0x100 * b + c
                ==> base64_text(seq![a, b, c] + rest) == seq![
                symbols[p as int],
                symbols[q as int],
                symbols[s as int],
                symbols[t as int],
            ] + base64_text(rest)
            &&& 0x1000 * p + 0x40 * q + s == 0x400 * a + 4 * b ==> base64_text(seq![a, b]) == seq![
                symbols[p as int],
                symbols[q as int],
                symbols[s as int],
                '=',
            ]
            &&& 0x40 * p + q == 0x10 * a ==> base64_text(seq![a]) == seq![
                symbols[p as int],
                symbols[q as int],
                '=',
                '=',
            ]
        }),
        base64_text(Seq::empty()) == Seq::<char>::empty(),
{
    lemma_symbols(p);
    lemma_symbols(q);
    lemma_symbols(s);
    lemma_symbols(t);
    let x = a as nat;
    let y = b as nat;
    let z = c as nat;
    if 0x4_0000 * p + 0x1000 * q + 0x40 * s + t == 0x1_0000 * a + 0x100 * b + c {
        assert(p == x / 4 && q == x % 4 * 16 + y / 16 && s == y % 16 * 4 + z / 64 && t == z % 64);
        let all = seq![a, b, c] + rest;
        assert(all.skip(3) =~= rest);
        assert(all[0] == a && all[1] == b && all[2] == c);
        let group = seq![
            base64_symbol(p),
            base64_symbol(q),
            base64_symbol(s),
            base64_symbol(t),
        ];
        if rest.len() == 0 {
            assert(base64_text(rest) =~= Seq::empty());
            assert(group + base64_text(rest) =~= group);
        }
        assert(base64_text(all) =~= group + base64_text(rest));
    }
    if 0x1000 * p + 0x40 * q + s == 0x400 * a + 4 * b {
        assert(p == x / 4 && q == x % 4 * 16 + y / 16 && s == y % 16 * 4);
        assert(seq![a, b][0] == a && seq![a, b][1] == b && seq![a, b].len() == 2);
        assert(base64_text(seq![a, b]) =~= seq![
            base64_symbol(p),
            base64_symbol(q),
            base64_symbol(s),
            '=',
        ]);
    }
    if 0x40 * p + q == 0x10 * a {
        assert(p == x / 4 && q == x % 4 * 16);
        assert(seq![a][0] == a && seq![a].len() == 1);
        assert(base64_text(seq![a]) =~= seq![base64_symbol(p), base64_symbol(q), '=', '=']);
    }
}

/// With a locator a verb takes one word, its value, and the handle is the
/// locator; without one it takes two, a ref and its value. Any other number is
/// refused.
pub proof fn law_how_many_words_a_verb_takes(
    verb: &str,
    what: &str,
    located: bool,
    first: &Option<String>,
    second: &Option<String>,
    r: Result<(Option<String>, String), String>,
)
    requires
        call_ensures(two_positionals, (verb, what, located, first, second), r),
    ensures
        r is Ok <==> *first is Some && (located <==> *second is None),
        r is Ok && located ==> r->Ok_0.0 is None && r->Ok_0.1@ == first->Some_0@,
        r is Ok && !located ==> r->Ok_0.0 is Some && r->Ok_0.0->Some_0@ == first->Some_0@
            && r->Ok_0.1@ == second->Some_0@,
{
}

/// A state is `true`, `yes`, `on` or `1`, or `false`, `no`, `off` or `0`,
/// trimmed and in any case, and nothing else.
pub proof fn law_which_words_are_states(word: &str, r: Result<bool, String>)
    requires
        call_ensures(checked_state, (word,), r),
    ensures
        ({
            let w = lowered(trimmed(word@));
            &&& r == Ok::<bool, String>(true) <==> w == "true"@ || w == "yes"@ || w == "on"@ || w
                == "1"@
            &&& r == Ok::<bool, String>(false) <==> w == "false"@ || w == "no"@ || w == "off"@ || w
                == "0"@
        }),
{
    reveal_strlit("true");
    reveal_strlit("yes");
    reveal_strlit("on");
    reveal_strlit("1");
    reveal_strlit("false");
    reveal_strlit("no");
    reveal_strlit("off");
    reveal_strlit("0");
    assert("true"@.len() == 4 && "yes"@.len() == 3 && "on"@.len() == 2 && "1"@.len() == 1);
    assert("false"@.len() == 5 && "no"@.len() == 2 && "off"@.len() == 3 && "0"@.len() == 1);
    assert("yes"@[0] == 'y' && "off"@[0] == 'o' && "on"@[0] == 'o' && "no"@[0] == 'n' && "1"@[0]
        == '1' && "0"@[0] == '0');
}

/// A session granted what was asked exactly where its reply is an object whose
/// first `ok` is true. Where it did not, its `error` says why, where that is
/// text.
pub proof fn law_when_a_reply_grants(reply: &Json, r: bool, why: String)
    requires
        call_ensures(is_ok, (reply,), r),
        call_ensures(refusal_of, (reply,), why),
    ensures
        !(*reply is Object) ==> !r && why@ == "the session refused, without saying why"@,
        *reply is Object ==> {
            let e = reply->Object_0@;
            &&& r <==> entry_of(e, "ok"@) == Some(Json::Bool(true))
            &&& match entry_of(e, "error"@) {
                Some(Json::Text(t)) => why@ == t@,
                _ => why@ == "the session refused, without saying why"@,
            }
        },
{
}

/// A reply is shown by the first of these that it has: its text, with its
/// reason as a note; its message; whether the page moved; its address; and the
/// ref it typed into.
pub proof fn law_what_is_shown_of_a_reply(reply: &Json, r: Shown)
    requires
        call_ensures(show, (reply,), r),
        *reply is Object,
    ensures
        ({
            let e = reply->Object_0@;
            let text = entry_of(e, "text"@) is Some && entry_of(e, "text"@)->Some_0 is Text;
            let message = entry_of(e, "message"@) is Some && entry_of(e, "message"@)->Some_0
                is Text;
            let moved = entry_of(e, "moved"@) is Some && entry_of(e, "moved"@)->Some_0 is Bool;
            let url = entry_of(e, "url"@) is Some && entry_of(e, "url"@)->Some_0 is Text;
            let typed = entry_of(e, "ref"@) is Some && entry_of(e, "ref"@)->Some_0 is Text;
            &&& r is Text <==> text
            &&& r matches Shown::Text { text: shown, .. } ==> shown@ == entry_of(
                e,
                "text"@,
            )->Some_0->Text_0@
            &&& r matches Shown::Text { note, .. } ==> (match entry_of(e, "reason"@) {
                Some(Json::Text(why)) => note is Some && note->Some_0@ == "note: "@ + why@,
                _ => note is None,
            })
            &&& r is Moved <==> !text && !message && moved
            &&& r matches Shown::Moved(b) ==> entry_of(e, "moved"@) == Some(Json::Bool(b))
            &&& r is Nothing <==> !text && !message && !moved && !url && !typed
            &&& r matches Shown::Line(l) ==> l@ == if message {
                entry_of(e, "message"@)->Some_0->Text_0@
            } else if url {
                "url: "@ + entry_of(e, "url"@)->Some_0->Text_0@
            } else {
                "typed into "@ + entry_of(e, "ref"@)->Some_0->Text_0@
            }
        }),
{
}

/// A replay stops at the first step that fails, unless it was told to keep
/// going. A step counts as run or as failed, and never as both.
pub proof fn law_how_a_replay_goes(
    replay: &mut Replaying,
    step: &str,
    reply: &Json,
    granted_it: bool,
    r: Stepped,
)
    requires
        old(replay).ran + old(replay).failed < old(replay).total,
        call_ensures(Replaying::take, (replay, step, reply), r),
        call_ensures(is_ok, (reply,), granted_it),
    ensures
        granted_it ==> final(replay).ran == old(replay).ran + 1 && final(replay).failed
            == old(replay).failed,
        !granted_it ==> final(replay).ran == old(replay).ran && final(replay).failed
            == old(replay).failed + 1,
        final(replay).total == old(replay).total,
        final(replay).keep_going == old(replay).keep_going,
        r.line is Some <==> granted_it,
        r.trouble is Some <==> !granted_it,
        r.stop is Some <==> !granted_it && !old(replay).keep_going,
{
}

/// A replay came off exactly where no step failed.
pub proof fn law_when_a_replay_came_off(replay: &Replaying, r: Result<String, String>)
    requires
        call_ensures(Replaying::end, (replay,), r),
    ensures
        r is Ok <==> replay.failed == 0,
        r matches Ok(said) ==> said@ == "replayed "@ + decimal(replay.ran as nat) + " step(s)"@,
{
}

/// What a recording holds: where it started, its steps, and how many actions
/// are missing from it, with something in place of each that the reply lacks.
pub proof fn law_what_a_recording_holds(reply: &Json, path: &str, r: Recording)
    requires
        call_ensures(recording_of, (reply, path), r),
        *reply is Object,
    ensures
        json_view(r.document) is Object,
        ({
            let e = reply->Object_0@;
            let d = json_view(r.document)->Object_0;
            &&& d.len() == 3
            &&& d[0].0 == "start_url"@ && d[1].0 == "steps"@ && d[2].0 == "dropped"@
            &&& entry_of(e, "start_url"@) matches Some(j) ==> d[0].1 == json_view(j)
            &&& entry_of(e, "start_url"@) is None ==> d[0].1 is Null
            &&& entry_of(e, "steps"@) matches Some(j) ==> d[1].1 == json_view(j)
            &&& entry_of(e, "steps"@) is None ==> d[1].1 is List && d[1].1->List_0.len() == 0
            &&& entry_of(e, "dropped"@) matches Some(j) ==> d[2].1 == json_view(j)
            &&& r.missing is Some <==> (entry_of(e, "dropped"@) matches Some(
                Json::Number { whole: Some(n), .. },
            ) && n > 0)
        }),
{
}

/// Whether a request says that of a name.
pub open spec fn says_of(r: Json, name: Seq<char>, value: JsonView) -> bool {
    json_view(r) matches JsonView::Object(e) && e.contains((name, value))
}

proof fn lemma_says(r: Json, e: Seq<(Seq<char>, JsonView)>, i: int)
    requires
        json_view(r) == JsonView::Object(e),
        0 <= i < e.len(),
    ensures
        says_of(r, e[i].0, e[i].1),
{
    assert(e.contains(e[i]));
}

/// Every verb goes out under its own name.
pub proof fn law_what_each_verb_is_called(v: &SessionVerb, r: Result<Json, String>)
    requires
        call_ensures(request_of, (v,), r),
        r is Ok,
    ensures
        says_of(
            r->Ok_0,
            "verb"@,
            JsonView::Text(
                match *v {
                    SessionVerb::Status => "status"@,
                    SessionVerb::Snapshot { .. } => "snapshot"@,
                    SessionVerb::Login { .. } => "login"@,
                    SessionVerb::Navigate { .. } => "navigate"@,
                    SessionVerb::Scroll { .. } => "scroll"@,
                    SessionVerb::Type { .. } => "type"@,
                    SessionVerb::Submit { .. } => "submit"@,
                    SessionVerb::Click { .. } => "click"@,
                    SessionVerb::WaitFor { .. } => "wait-for"@,
                    SessionVerb::WaitForScript { .. } => "wait-for-script"@,
                    SessionVerb::Extract { .. } => "extract"@,
                    SessionVerb::Markdown { .. } => "markdown"@,
                    SessionVerb::Script => "script"@,
                    SessionVerb::SetChecked { .. } => "set-checked"@,
                    SessionVerb::Select { .. } => "select"@,
                    SessionVerb::Press { .. } => "press"@,
                    SessionVerb::Find { .. } => "find"@,
                    SessionVerb::Screenshot { .. } => "screenshot"@,
                    SessionVerb::Reload => "reload"@,
                    SessionVerb::Socket { .. } => "socket"@,
                    SessionVerb::Structured { .. } => "structured"@,
                    SessionVerb::Transcript { .. } => "transcript"@,
                    SessionVerb::Env => "env"@,
                    SessionVerb::Requests { .. } => "requests"@,
                    SessionVerb::Resend(_) => "resend"@,
                },
            ),
        ),
{
    law_a_request_names_its_verb(*v);
    lemma_says(r->Ok_0, request_entries(*v)->Ok_0, 0);
}

/// What a verb that acts on an element says of it: its ref, or with a locator
/// none, and the selector, role and name it was given.
pub proof fn law_how_an_element_is_named(v: &SessionVerb, handle: Handle, r: Result<Json, String>)
    requires
        call_ensures(request_of, (v,), r),
        r is Ok,
        match *v {
            SessionVerb::Click { handle: h } => h == handle,
            SessionVerb::Submit { handle: h } => h == handle,
            SessionVerb::Type { handle: h, .. } => h == handle,
            SessionVerb::Select { handle: h, .. } => h == handle,
            SessionVerb::Press { handle: h, .. } => h == handle,
            SessionVerb::SetChecked { handle: h, .. } => h == handle,
            _ => false,
        },
    ensures
        says_of(r->Ok_0, "selector"@, maybe_text(string_view(handle.selector))),
        says_of(r->Ok_0, "role"@, maybe_text(string_view(handle.role))),
        says_of(r->Ok_0, "name"@, maybe_text(string_view(handle.name))),
        *v is Click || *v is Submit || (handle.selector is None && handle.role is None) ==> says_of(
            r->Ok_0,
            "ref"@,
            maybe_text(string_view(handle.reference)),
        ),
        !(*v is Click || *v is Submit) && (handle.selector is Some || handle.role is Some)
            ==> says_of(r->Ok_0, "ref"@, JsonView::Null),
{
    let e = request_entries(*v)->Ok_0;
    lemma_says(r->Ok_0, e, 1);
    lemma_says(r->Ok_0, e, 2);
    lemma_says(r->Ok_0, e, 3);
    lemma_says(r->Ok_0, e, 4);
}

/// What a verb that sets something says it is set to: the text, the option, the
/// key, or the state, which is the last word it was given.
pub proof fn law_what_an_element_is_set_to(v: &SessionVerb, r: Result<Json, String>)
    requires
        call_ensures(request_of, (v,), r),
        r is Ok,
    ensures
        match *v {
            SessionVerb::Type { handle, text } => says_of(
                r->Ok_0,
                "text"@,
                maybe_text(if handle.selector is Some || handle.role is Some {
                    string_view(handle.reference)
                } else {
                    string_view(text)
                }),
            ),
            SessionVerb::Select { handle, option } => says_of(
                r->Ok_0,
                "option"@,
                maybe_text(if handle.selector is Some || handle.role is Some {
                    string_view(handle.reference)
                } else {
                    string_view(option)
                }),
            ),
            SessionVerb::Press { handle, key } => says_of(
                r->Ok_0,
                "key"@,
                maybe_text(if handle.selector is Some || handle.role is Some {
                    string_view(handle.reference)
                } else {
                    string_view(key)
                }),
            ),
            SessionVerb::SetChecked { handle, checked } => {
                let word = if handle.selector is Some || handle.role is Some {
                    string_view(handle.reference)
                } else {
                    string_view(checked)
                };
                let w = lowered(trimmed(word->Some_0));
                &&& w == "true"@ || w == "yes"@ || w == "on"@ || w == "1"@ ==> says_of(
                    r->Ok_0,
                    "checked"@,
                    JsonView::Bool(true),
                )
                &&& w == "false"@ || w == "no"@ || w == "off"@ || w == "0"@ ==> says_of(
                    r->Ok_0,
                    "checked"@,
                    JsonView::Bool(false),
                )
            },
            _ => true,
        },
{
    let e = request_entries(*v)->Ok_0;
    reveal_strlit("true");
    reveal_strlit("yes");
    reveal_strlit("on");
    reveal_strlit("1");
    reveal_strlit("false");
    reveal_strlit("no");
    reveal_strlit("off");
    reveal_strlit("0");
    assert("true"@.len() == 4 && "yes"@.len() == 3 && "on"@.len() == 2 && "1"@.len() == 1);
    assert("false"@.len() == 5 && "no"@.len() == 2 && "off"@.len() == 3 && "0"@.len() == 1);
    assert("yes"@[0] == 'y' && "off"@[0] == 'o' && "on"@[0] == 'o' && "no"@[0] == 'n' && "1"@[0]
        == '1' && "0"@[0] == '0');
    match *v {
        SessionVerb::Type { .. } | SessionVerb::Select { .. } | SessionVerb::Press { .. }
        | SessionVerb::SetChecked { .. } => {
            lemma_says(r->Ok_0, e, 5);
        },
        _ => {},
    }
}

/// What every other verb says, each thing that it was given under its own name.
pub proof fn law_what_each_verb_says(v: &SessionVerb, r: Result<Json, String>)
    requires
        call_ensures(request_of, (v,), r),
        r is Ok,
    ensures
        match *v {
            SessionVerb::Snapshot { delta, url } => says_of(
                r->Ok_0,
                "delta"@,
                JsonView::Bool(delta),
            ) && says_of(r->Ok_0, "url"@, maybe_text(string_view(url))),
            SessionVerb::Login { off } => says_of(r->Ok_0, "on"@, JsonView::Bool(!off)),
            SessionVerb::Navigate { url } => says_of(r->Ok_0, "url"@, JsonView::Text(url@)),
            SessionVerb::Scroll { by } => says_of(
                r->Ok_0,
                "by"@,
                JsonView::Number { whole: None, text: by@ },
            ),
            SessionVerb::WaitFor { selector, text } => says_of(
                r->Ok_0,
                "selector"@,
                maybe_text(string_view(selector)),
            ) && says_of(r->Ok_0, "text"@, maybe_text(string_view(text))),
            SessionVerb::WaitForScript { expr } => says_of(
                r->Ok_0,
                "expr"@,
                JsonView::Text(expr@),
            ),
            SessionVerb::Extract { schema, url } => says_of(r->Ok_0, "schema"@, json_view(schema))
                && says_of(r->Ok_0, "url"@, maybe_text(string_view(url))),
            SessionVerb::Markdown { max_bytes, url } => says_of(
                r->Ok_0,
                "max_bytes"@,
                maybe_count(max_bytes),
            ) && says_of(r->Ok_0, "url"@, maybe_text(string_view(url))),
            SessionVerb::Find { role, name, url } => says_of(
                r->Ok_0,
                "role"@,
                JsonView::Text(role@),
            ) && says_of(r->Ok_0, "name"@, maybe_text(string_view(name))) && says_of(
                r->Ok_0,
                "url"@,
                maybe_text(string_view(url)),
            ),
            SessionVerb::Screenshot { path, url } => says_of(
                r->Ok_0,
                "path"@,
                JsonView::Text(path@),
            ) && says_of(r->Ok_0, "url"@, maybe_text(string_view(url))),
            SessionVerb::Socket { url, send, wait_ms } => says_of(
                r->Ok_0,
                "url"@,
                JsonView::Text(url@),
            ) && says_of(r->Ok_0, "send"@, texts_json(send@)) && says_of(
                r->Ok_0,
                "wait_ms"@,
                maybe_count(wait_ms),
            ),
            SessionVerb::Structured { url } => says_of(
                r->Ok_0,
                "url"@,
                maybe_text(string_view(url)),
            ),
            SessionVerb::Transcript { url, lang, max_bytes } => says_of(
                r->Ok_0,
                "url"@,
                maybe_text(string_view(url)),
            ) && says_of(r->Ok_0, "lang"@, maybe_text(string_view(lang))) && says_of(
                r->Ok_0,
                "max_bytes"@,
                maybe_count(max_bytes),
            ),
            _ => true,
        },
{
    let e = request_entries(*v)->Ok_0;
    if e.len() > 1 {
        lemma_says(r->Ok_0, e, 1);
    }
    if e.len() > 2 {
        lemma_says(r->Ok_0, e, 2);
    }
    if e.len() > 3 {
        lemma_says(r->Ok_0, e, 3);
    }
}

/// What the two longest verbs say: which requests are listed, and how one is
/// sent again.
pub proof fn law_what_the_request_verbs_say(v: &SessionVerb, r: Result<Json, String>)
    requires
        call_ensures(request_of, (v,), r),
        r is Ok,
    ensures
        match *v {
            SessionVerb::Requests {
                since,
                method,
                url_contains,
                status,
                initiator,
                denied_only,
                limit,
            } => says_of(r->Ok_0, "since"@, maybe_count(since)) && says_of(
                r->Ok_0,
                "method"@,
                maybe_text(string_view(method)),
            ) && says_of(r->Ok_0, "url_contains"@, maybe_text(string_view(url_contains)))
                && says_of(
                r->Ok_0,
                "status"@,
                match status {
                    Some(n) => count_json(n as u64),
                    None => JsonView::Null,
                },
            ) && says_of(r->Ok_0, "initiator"@, maybe_text(string_view(initiator))) && says_of(
                r->Ok_0,
                "denied_only"@,
                JsonView::Bool(denied_only),
            ) && says_of(r->Ok_0, "limit"@, maybe_count(limit)),
            SessionVerb::Resend(again) => says_of(r->Ok_0, "from"@, maybe_count(again.from))
                && says_of(r->Ok_0, "set"@, texts_json(again.set@)) && says_of(
                r->Ok_0,
                "set_file"@,
                payloads_json(again.set_file@),
            ) && says_of(r->Ok_0, "unset"@, texts_json(again.unset@)) && says_of(
                r->Ok_0,
                "create"@,
                JsonView::Bool(again.create),
            ) && says_of(r->Ok_0, "repeat"@, count_json(again.repeat as u64)) && says_of(
                r->Ok_0,
                "together"@,
                JsonView::Bool(again.together),
            ) && says_of(r->Ok_0, "no_follow"@, JsonView::Bool(again.no_follow)) && says_of(
                r->Ok_0,
                "reset_budget"@,
                JsonView::Bool(again.reset_budget),
            ) && says_of(r->Ok_0, "raw_target"@, maybe_text(string_view(again.raw_target)))
                && says_of(r->Ok_0, "raw_request"@, maybe_text(string_view(again.raw_request)))
                && says_of(
                r->Ok_0,
                "request"@,
                match again.request {
                    Some(j) => json_view(j),
                    None => JsonView::Null,
                },
            ),
            _ => true,
        },
{
    let e = request_entries(*v)->Ok_0;
    assert forall|i: int| 0 <= i < e.len() implies says_of(
        r->Ok_0,
        (#[trigger] e[i]).0,
        e[i].1,
    ) by {
        lemma_says(r->Ok_0, e, i);
    }
    match *v {
        SessionVerb::Requests { .. } => {
            assert(e[1].0 == "since"@ && e[2].0 == "method"@ && e[3].0 == "url_contains"@ && e[4].0
                == "status"@ && e[5].0 == "initiator"@ && e[6].0 == "denied_only"@ && e[7].0
                == "limit"@);
        },
        SessionVerb::Resend(_) => {
            assert(e[1].0 == "from"@ && e[2].0 == "set"@ && e[3].0 == "set_file"@ && e[4].0
                == "unset"@ && e[5].0 == "create"@ && e[6].0 == "repeat"@ && e[7].0 == "together"@
                && e[8].0 == "no_follow"@ && e[9].0 == "reset_budget"@ && e[10].0 == "request"@
                && e[11].0 == "raw_target"@ && e[12].0 == "raw_request"@);
        },
        _ => {},
    }
}

/// A count is said as its number, and nothing as null.
pub proof fn law_how_values_are_said(n: u64, t: Seq<char>, v: Seq<String>, i: int)
    ensures
        maybe_text(Some(t)) == JsonView::Text(t),
        maybe_text(None) is Null,
        maybe_count(Some(n)) == (JsonView::Number { whole: Some(n), text: decimal(n as nat) }),
        maybe_count(None) is Null,
        texts_json(v) is List && texts_json(v)->List_0.len() == v.len(),
        0 <= i < v.len() ==> texts_json(v)->List_0[i] == JsonView::Text(v[i]@),
{
}

/// A step's number stands at the right of three columns.
pub proof fn law_a_steps_number_fills_three_columns(n: nat)
    requires
        0 < n < 1000,
    ensures
        in_three(n).len() == 3,
        n >= 100 ==> in_three(n) == decimal(n),
        10 <= n < 100 ==> in_three(n) == " "@ + decimal(n),
        n < 10 ==> in_three(n) == "  "@ + decimal(n),
{
    reveal_strlit(" ");
    reveal_strlit("  ");
    crate::address::law_a_numeral_reads_back(n);
    if n >= 10 {
        crate::address::law_a_numeral_reads_back(n / 10);
        assert(decimal(n).len() == decimal(n / 10).len() + 1);
        if n >= 100 {
            assert(decimal(n / 10).len() == decimal(n / 10 / 10).len() + 1);
            crate::address::law_a_numeral_reads_back(n / 10 / 10);
        }
    }
}

} // verus!
