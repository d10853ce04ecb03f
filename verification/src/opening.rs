//! Opening a page: following what asks to be followed, and saying what a reader
//! of the page has to know.
use vstd::prelude::*;

use crate::fetch::Fetch;
use crate::forms::Submission;
use crate::frames::note_if;
use crate::markup::{sourceless_from, strip_image_sources};
use crate::receipt::Initiator;
use crate::scripts::{unsettled_note, Settled};
use crate::text::{copy_texts, decimal, decimal_text, listed_in, string_view, texts, view_of};
use crate::url::{copy_option, url_option, Url, UrlView};

verus! {

/// How many `<meta refresh>` hops to follow before giving up. A refresh chain
/// longer than this is a loop or a tracker bounce.
pub const MAX_META_REFRESH_HOPS: usize = 3;

/// The line between "this page redirected" and "this page updates itself".
pub const META_REFRESH_MAX_DELAY_SECONDS: u64 = 15;

/// How many submissions a page may chain on its own before this stops
/// following.
pub const MAX_SELF_SUBMISSIONS: usize = 3;

/// Viewport and budget for a page.
#[derive(Debug, Clone, Copy, PartialEq, Eq)]
pub struct PageOptions {
    pub width: u32,
    pub height: u32,
    pub max_snapshot_lines: usize,
    /// Run the page's own scripts. Off by default and opt-in at every layer
    /// above, because it changes what an untrusted page can do.
    pub script: bool,
    /// How long one navigation may take, first byte to last.
    pub navigation_budget_ms: u64,
    /// How long the script realm's job queue may run before it is cancelled.
    pub script_budget_ms: Option<u64>,
    /// Install the WebIDL member decoration in the script realm.
    pub webidl_conformance: bool,
}

impl Default for PageOptions {
    fn default() -> (r: PageOptions)
        ensures
            r == (PageOptions {
                width: 1280,
                height: 720,
                max_snapshot_lines: 500,
                script: false,
                navigation_budget_ms: 45_000,
                script_budget_ms: None,
                webidl_conformance: false,
            }),
    {
        PageOptions {
            width: 1280,
            height: 720,
            max_snapshot_lines: 500,
            script: false,
            navigation_budget_ms: 45_000,
            script_budget_ms: None,
            webidl_conformance: false,
        }
    }
}

/// A navigation that may be sent on by the pages it meets.
#[derive(Debug, Clone, PartialEq, Eq)]
pub struct Opening {
    /// What was asked for.
    pub asked: String,
    /// Where the chain has been, so that a page that refreshes to itself is
    /// loaded once rather than forever.
    pub visited: Vec<String>,
    /// The pages that sent it on.
    pub followed: Vec<String>,
}

/// What an [`Opening`] holds.
#[verifier::ext_equal]
pub struct OpeningView {
    pub asked: Seq<char>,
    pub visited: Seq<Seq<char>>,
    pub followed: Seq<Seq<char>>,
}

impl View for Opening {
    type V = OpeningView;

    open spec fn view(&self) -> OpeningView {
        OpeningView {
            asked: self.asked@,
            visited: texts(self.visited@),
            followed: texts(self.followed@),
        }
    }
}

/// What a page that arrived comes to.
#[derive(Debug, Clone, PartialEq, Eq)]
pub enum Arrival {
    /// This is the page.
    Here,
    /// Fetch this next.
    Onward(Url),
    /// It never arrives anywhere.
    Lost(String),
}

pub open spec fn refresh_view(r: Option<(u64, Url)>) -> Option<(u64, UrlView)> {
    match r {
        Some((delay, url)) => Some((delay, url@)),
        None => None,
    }
}

/// The page asks to be somewhere else, soon, and not where the chain has been.
pub open spec fn sends_on(o: OpeningView, refresh: Option<(u64, UrlView)>) -> bool {
    refresh matches Some((delay, next)) && delay <= META_REFRESH_MAX_DELAY_SECONDS
        && !o.visited.contains(next.href)
}

pub open spec fn lost_text(asked: Seq<char>) -> Seq<char> {
    "could not open "@ + asked
        + ": it redirected through more than 3 <meta refresh> hops without arriving anywhere"@
}

impl Opening {
    pub fn begin(url: &Url) -> (r: Opening)
        ensures
            r@ == (OpeningView {
                asked: url@.href,
                visited: seq![url@.href],
                followed: Seq::empty(),
            }),
    {
        let mut visited: Vec<String> = Vec::new();
        visited.push(url.href.clone());
        let r = Opening { asked: url.href.clone(), visited, followed: Vec::new() };
        assert(r@.visited =~= seq![url@.href]);
        assert(r@.followed =~= Seq::empty());
        r
    }

    /// Decides whether the page that was fetched is the page, or asks to be
    /// somewhere else.
    pub fn arrive(&mut self, at: &Url, refresh: &Option<(u64, Url)>) -> (r: Arrival)
        ensures
            if sends_on(old(self)@, refresh_view(*refresh)) {
                final(self)@ == (OpeningView {
                    visited: old(self)@.visited.push(refresh_view(*refresh)->Some_0.1.href),
                    followed: old(self)@.followed.push(at@.href),
                    ..old(self)@
                }) && if old(self)@.followed.len() >= MAX_META_REFRESH_HOPS {
                    r matches Arrival::Lost(why) && why@ == lost_text(old(self)@.asked)
                } else {
                    r matches Arrival::Onward(url) && url@ == refresh_view(*refresh)->Some_0.1
                }
            } else {
                r is Here && final(self)@ == old(self)@
            },
    {
        match refresh {
            None => Arrival::Here,
            Some((delay, next)) => {
                if *delay > META_REFRESH_MAX_DELAY_SECONDS || listed_in(
                    &self.visited,
                    &next.href,
                ) {
                    return Arrival::Here;
                }
                let ghost been = self.visited@;
                let ghost gone = self.followed@;
                let full = self.followed.len() >= MAX_META_REFRESH_HOPS;
                self.followed.push(at.href.clone());
                self.visited.push(next.href.clone());
                assert(texts(self.visited@) =~= texts(been).push(next@.href));
                assert(texts(self.followed@) =~= texts(gone).push(at@.href));
                if full {
                    let mut why = "could not open ".to_owned();
                    why.append(&self.asked);
                    why.append(
                        ": it redirected through more than 3 <meta refresh> hops without arriving anywhere",
                    );
                    return Arrival::Lost(why);
                }
                Arrival::Onward(next.copy())
            },
        }
    }
}

/// What is told of a navigation whose fetch failed.
pub fn could_not_open(target: &Url, error: &str) -> (r: String)
    ensures
        r@ == "could not open "@ + target@.href + ": "@ + error@,
{
    let mut why = "could not open ".to_owned();
    why.append(&target.href);
    why.append(": ");
    why.append(error);
    why
}

// -------------------------------------------------------------------- notes

pub open spec fn status_note(status: u16) -> Seq<char> {
    "the server answered "@ + decimal(status as nat)
        + " for this URL; what follows is whatever it returned with that status, not the page that was asked for"@
}

pub open spec fn challenge_note(marker: Seq<char>) -> Seq<char> {
    "this looks like a bot challenge rather than the page that was asked for (it says \""@ + marker
        + "\"). The content below is the challenge. This engine runs script but solves no proof-of-work and has no browser fingerprint to offer, so this site is not readable from here."@
}

pub open spec fn followed_note(from: Seq<char>) -> Seq<char> {
    from
        + " asked for a <meta refresh> and this engine followed it; what follows is the page it named"@
}

pub open spec fn followed_notes(followed: Seq<Seq<char>>) -> Seq<Seq<char>> {
    followed.map_values(|f: Seq<char>| followed_note(f))
}

pub open spec fn reload_note(next: Seq<char>, delay: u64) -> Seq<char> {
    "this page asks to reload itself as "@ + next + " after "@ + decimal(delay as nat)
        + "s; that is a page updating itself rather than a redirect, so it was not followed"@
}

pub open spec fn already_note(next: Seq<char>) -> Seq<char> {
    "this page's <meta refresh> points at "@ + next
        + ", which is where we already are; it was not followed"@
}

/// What is said of a refresh that was not followed.
pub open spec fn unfollowed_notes(o: OpeningView, refresh: Option<(u64, UrlView)>) -> Seq<
    Seq<char>,
> {
    match refresh {
        None => Seq::empty(),
        Some((delay, next)) => if delay > META_REFRESH_MAX_DELAY_SECONDS {
            seq![reload_note(next.href, delay)]
        } else if o.visited.contains(next.href) && o.followed.len() == 0 {
            seq![already_note(next.href)]
        } else {
            Seq::empty()
        },
    }
}

/// Everything a reader of an opened page has to know about how it was opened.
pub open spec fn opened_notes(
    o: OpeningView,
    status: u16,
    frames: Seq<Seq<char>>,
    marker: Option<Seq<char>>,
    refresh: Option<(u64, UrlView)>,
) -> Seq<Seq<char>> {
    note_if(!(200 <= status < 300), status_note(status)) + frames + note_if(
        marker is Some,
        challenge_note(marker->Some_0),
    ) + followed_notes(o.followed) + unfollowed_notes(o, refresh)
}

fn push_all(out: &mut Vec<String>, more: &Vec<String>)
    ensures
        texts(final(out)@) == texts(old(out)@) + texts(more@),
{
    let ghost start = texts(out@);
    let ghost all = texts(more@);
    let mut i: usize = 0;
    assert(start + all.take(0) =~= start);
    while i < more.len()
        invariant
            i <= more.len(),
            all == texts(more@),
            texts(out@) == start + all.take(i as int),
        decreases more.len() - i,
    {
        let ghost before = out@;
        out.push(more[i].clone());
        assert(texts(out@) =~= texts(before).push(all[i as int]));
        i += 1;
        assert(start + all.take(i as int) =~= (start + all.take(i - 1)).push(all[i - 1]));
    }
    assert(all.take(i as int) =~= all);
}

fn push_note(out: &mut Vec<String>, note: String)
    ensures
        texts(final(out)@) == texts(old(out)@) + seq![note@],
{
    let ghost before = out@;
    out.push(note);
    assert(texts(out@) =~= texts(before) + seq![note@]);
}

impl Opening {
    /// Everything a reader of the opened page has to know about how it was
    /// opened. An HTTP error still has a body, and a challenge reads as a page
    /// that is simply empty: each is named.
    pub fn notes(
        &self,
        status: u16,
        frames: &Vec<String>,
        marker: Option<&str>,
        refresh: &Option<(u64, Url)>,
    ) -> (r: Vec<String>)
        ensures
            texts(r@) == opened_notes(
                self@,
                status,
                texts(frames@),
                view_of(marker),
                refresh_view(*refresh),
            ),
    {
        let mut out: Vec<String> = Vec::new();
        assert(texts(out@) =~= Seq::empty());
        if !(200 <= status && status < 300) {
            let mut note = "the server answered ".to_owned();
            note.append(&decimal_text(status as u64));
            note.append(
                " for this URL; what follows is whatever it returned with that status, not the page that was asked for",
            );
            push_note(&mut out, note);
        }
        let ghost a = note_if(!(200 <= status < 300), status_note(status));
        assert(texts(out@) =~= a);
        push_all(&mut out, frames);
        let ghost b = a + texts(frames@);
        if let Some(m) = marker {
            let mut note =
                "this looks like a bot challenge rather than the page that was asked for (it says \"".to_owned();
            note.append(m);
            note.append(
                "\"). The content below is the challenge. This engine runs script but solves no proof-of-work and has no browser fingerprint to offer, so this site is not readable from here.",
            );
            push_note(&mut out, note);
        }
        let ghost c = b + note_if(marker is Some, challenge_note(view_of(marker)->Some_0));
        assert(texts(out@) =~= c);
        let ghost all = texts(self.followed@);
        let mut i: usize = 0;
        assert(c + followed_notes(all.take(0)) =~= c);
        while i < self.followed.len()
            invariant
                i <= self.followed.len(),
                all == texts(self.followed@),
                texts(out@) == c + followed_notes(all.take(i as int)),
            decreases self.followed.len() - i,
        {
            let ghost before = texts(out@);
            let mut note = self.followed[i].clone();
            note.append(
                " asked for a <meta refresh> and this engine followed it; what follows is the page it named",
            );
            assert(note@ == followed_note(all[i as int]));
            push_note(&mut out, note);
            i += 1;
            assert(followed_notes(all.take(i as int)) =~= followed_notes(all.take(i - 1)).push(
                followed_note(all[i - 1]),
            ));
            assert(texts(out@) =~= c + followed_notes(all.take(i as int)));
        }
        assert(all.take(i as int) =~= all);
        let ghost d = c + followed_notes(all);
        if let Some((delay, next)) = refresh {
            if *delay > META_REFRESH_MAX_DELAY_SECONDS {
                let mut note = "this page asks to reload itself as ".to_owned();
                note.append(&next.href);
                note.append(" after ");
                note.append(&decimal_text(*delay));
                note.append(
                    "s; that is a page updating itself rather than a redirect, so it was not followed",
                );
                push_note(&mut out, note);
            } else if listed_in(&self.visited, &next.href) && self.followed.len() == 0 {
                let mut note = "this page's <meta refresh> points at ".to_owned();
                note.append(&next.href);
                note.append(", which is where we already are; it was not followed");
                push_note(&mut out, note);
            }
        }
        assert(texts(out@) =~= d + unfollowed_notes(self@, refresh_view(*refresh)));
        out
    }
}

/// What is said where a navigation left an origin behind.
pub open spec fn session_dropped() -> Seq<char> {
    "cookies from the previous origin were dropped on navigation: this engine holds a session only for the origin currently loaded"@
}

/// What is said where a page nests too deeply.
pub open spec fn nested_note(cut: nat) -> Seq<char> {
    "this page nests elements more than 512 deep; "@ + decimal(cut)
        + " subtree(s) below that were dropped before layout. The bound exists because the layout pass recurses and a deep enough page ends the process rather than the page, and it is said here rather than silently applied."@
}

/// What a page says about how it was built.
pub fn built_notes(over_nested: usize, dropped_session: bool) -> (r: Vec<String>)
    ensures
        texts(r@) == note_if(over_nested > 0, nested_note(over_nested as nat)) + note_if(
            dropped_session,
            session_dropped(),
        ),
{
    let mut out: Vec<String> = Vec::new();
    assert(texts(out@) =~= Seq::empty());
    if over_nested > 0 {
        let mut note = "this page nests elements more than 512 deep; ".to_owned();
        note.append(&decimal_text(over_nested as u64));
        note.append(
            " subtree(s) below that were dropped before layout. The bound exists because the layout pass recurses and a deep enough page ends the process rather than the page, and it is said here rather than silently applied.",
        );
        push_note(&mut out, note);
    }
    if dropped_session {
        push_note(
            &mut out,
            "cookies from the previous origin were dropped on navigation: this engine holds a session only for the origin currently loaded".to_owned(),
        );
    }
    assert(texts(out@) =~= note_if(over_nested > 0, nested_note(over_nested as nat)) + note_if(
        dropped_session,
        session_dropped(),
    ));
    out
}

/// What went wrong with the layout of a page. The first failure is kept; a
/// page that was read without its images says so.
pub fn layout_failure(first: Option<String>, unloadable_images: bool) -> (r: Option<String>)
    ensures
        string_view(r) == (if first is None && unloadable_images {
            Some("this page's images could not be loaded, so it was read without them"@)
        } else {
            string_view(first)
        }),
{
    if first.is_none() && unloadable_images {
        Some("this page's images could not be loaded, so it was read without them".to_owned())
    } else {
        first
    }
}

/// Keeps the first layout failure: a later pass that happens to survive does
/// not undo it.
pub fn keep_failure(kept: Option<String>, outcome: Result<(), String>) -> (r: Option<String>)
    ensures
        string_view(r) == (match (string_view(kept), outcome) {
            (None, Err(e)) => Some(e@),
            _ => string_view(kept),
        }),
{
    match outcome {
        Err(e) => match kept {
            Some(k) => Some(k),
            None => Some(e),
        },
        Ok(()) => kept,
    }
}

// ----------------------------------------------------------------- snapshots

/// What a page spent on the network in one navigation, and what it may.
#[derive(Debug, Clone, Copy, PartialEq, Eq)]
pub struct Spending {
    pub requests: u64,
    pub max_requests: u64,
    pub wire_bytes: u64,
    pub max_wire_bytes: u64,
    pub decoded_bytes: u64,
    pub max_decoded_bytes: u64,
    pub network_ms: u64,
    pub max_network_ms: u64,
}

/// What the reading of a page has to report besides the page.
#[derive(Debug, Clone, PartialEq, Eq)]
pub struct Reading {
    pub notes: Vec<String>,
    /// The outline has no line.
    pub empty: bool,
    /// How many script elements the page has.
    pub scripts: usize,
    /// There is a script realm.
    pub realm: bool,
    pub ran_scripts: bool,
    pub layout_failure: Option<String>,
    pub spent: Option<Spending>,
    /// How far the page had come when it was read, where it has run.
    pub settled: Option<Settled>,
    /// The same in words.
    pub settled_text: String,
    /// Web APIs the page asked for and this engine does not have, and how
    /// often.
    pub unsupported: Vec<(String, usize)>,
}

pub open spec fn scripts_were(r: Reading) -> Seq<char> {
    if r.realm {
        "ran them"@
    } else if !r.ran_scripts {
        "did not run them (script is off)"@
    } else if r.scripts == 0 {
        "had none to run"@
    } else {
        "ran them"@
    }
}

pub open spec fn empty_note(r: Reading) -> Seq<char> {
    "this page produced no readable content. It has "@ + decimal(r.scripts as nat)
        + " script element(s) and this engine "@ + scripts_were(r)
        + ". If it needs JavaScript beyond what is listed above, the chromium engine has more of it."@
}

pub open spec fn layout_note(detail: Seq<char>) -> Seq<char> {
    "this engine's layout stage failed on this page ("@ + detail
        + "). What follows was read from a partly laid-out document and may be incomplete."@
}

/// What a page that passed its budget says. The requests come before the
/// bytes, and the bytes before the time.
pub open spec fn spending_notes(spent: Option<Spending>) -> Seq<Seq<char>> {
    match spent {
        None => Seq::empty(),
        Some(s) => if s.requests > s.max_requests {
            seq![
                "this page asked for more than "@ + decimal(s.max_requests as nat)
                    + " requests in one navigation and the rest were refused. What follows was read from what it managed to load; the request log names which were denied."@,
            ]
        } else if s.wire_bytes > s.max_wire_bytes || s.decoded_bytes > s.max_decoded_bytes {
            seq![
                "this page pulled "@ + decimal(s.wire_bytes as nat) + " bytes ("@ + decimal(
                    s.decoded_bytes as nat,
                )
                    + " decoded) and passed its budget for one navigation, so later requests were refused."@,
            ]
        } else if s.network_ms > s.max_network_ms {
            seq![
                "this page spent "@ + decimal(s.network_ms as nat)
                    + "ms waiting on the network, past its budget for one navigation, so later requests were refused."@,
            ]
        } else {
            Seq::empty()
        },
    }
}

/// The Web APIs that a page used and this engine does not have, the first six
/// of them.
pub open spec fn listed_apis(apis: Seq<(String, usize)>) -> Seq<Seq<char>> {
    apis.take(
        if apis.len() < 6 {
            apis.len() as int
        } else {
            6
        },
    ).map_values(|a: (String, usize)| a.0@ + " x"@ + decimal(a.1 as nat))
}

pub open spec fn unsupported_note(apis: Seq<(String, usize)>) -> Seq<char> {
    "this page used Web APIs this engine does not have ("@ + crate::text::joined(
        listed_apis(apis),
        ", "@,
    ) + "). What depends on them did not run; the chromium engine has them."@
}

/// What a reader of a page is told besides the page: silence is the one answer
/// an agent cannot act on.
pub open spec fn reading_notes(r: Reading) -> Seq<Seq<char>> {
    texts(r.notes@) + note_if(r.empty, empty_note(r)) + note_if(
        r.layout_failure is Some,
        layout_note(string_view(r.layout_failure)->Some_0),
    ) + spending_notes(r.spent) + note_if(
        r.settled is Some && r.settled->Some_0.matters(),
        r.settled_text@,
    ) + note_if(r.unsupported@.len() > 0, unsupported_note(r.unsupported@))
}

fn spending_text(spent: &Option<Spending>) -> (r: Option<String>)
    ensures
        match r {
            Some(t) => spending_notes(*spent) == seq![t@],
            None => spending_notes(*spent) == Seq::<Seq<char>>::empty(),
        },
{
    match spent {
        None => None,
        Some(s) => {
            if s.requests > s.max_requests {
                let mut note = "this page asked for more than ".to_owned();
                note.append(&decimal_text(s.max_requests));
                note.append(
                    " requests in one navigation and the rest were refused. What follows was read from what it managed to load; the request log names which were denied.",
                );
                Some(note)
            } else if s.wire_bytes > s.max_wire_bytes || s.decoded_bytes > s.max_decoded_bytes {
                let mut note = "this page pulled ".to_owned();
                note.append(&decimal_text(s.wire_bytes));
                note.append(" bytes (");
                note.append(&decimal_text(s.decoded_bytes));
                note.append(
                    " decoded) and passed its budget for one navigation, so later requests were refused.",
                );
                Some(note)
            } else if s.network_ms > s.max_network_ms {
                let mut note = "this page spent ".to_owned();
                note.append(&decimal_text(s.network_ms));
                note.append(
                    "ms waiting on the network, past its budget for one navigation, so later requests were refused.",
                );
                Some(note)
            } else {
                None
            }
        },
    }
}

/// What a reader of a page is told besides the page.
pub fn snapshot_notes(reading: &Reading) -> (r: Vec<String>)
    ensures
        texts(r@) == reading_notes(*reading),
{
    let mut out: Vec<String> = copy_texts(&reading.notes);
    let ghost a = texts(reading.notes@);
    if reading.empty {
        let mut note = "this page produced no readable content. It has ".to_owned();
        note.append(&decimal_text(reading.scripts as u64));
        note.append(" script element(s) and this engine ");
        if reading.realm {
            note.append("ran them");
        } else if !reading.ran_scripts {
            note.append("did not run them (script is off)");
        } else if reading.scripts == 0 {
            note.append("had none to run");
        } else {
            note.append("ran them");
        }
        note.append(
            ". If it needs JavaScript beyond what is listed above, the chromium engine has more of it.",
        );
        push_note(&mut out, note);
    }
    let ghost b = a + note_if(reading.empty, empty_note(*reading));
    assert(texts(out@) =~= b);
    if let Some(detail) = &reading.layout_failure {
        let mut note = "this engine's layout stage failed on this page (".to_owned();
        note.append(detail);
        note.append(
            "). What follows was read from a partly laid-out document and may be incomplete.",
        );
        push_note(&mut out, note);
    }
    let ghost c = b + note_if(
        reading.layout_failure is Some,
        layout_note(string_view(reading.layout_failure)->Some_0),
    );
    assert(texts(out@) =~= c);
    if let Some(note) = spending_text(&reading.spent) {
        push_note(&mut out, note);
    }
    let ghost d = c + spending_notes(reading.spent);
    assert(texts(out@) =~= d);
    if let Some(note) = unsettled_note(&reading.settled, &reading.settled_text) {
        push_note(&mut out, note);
    }
    let ghost e = d + note_if(
        reading.settled is Some && reading.settled->Some_0.matters(),
        reading.settled_text@,
    );
    assert(texts(out@) =~= e);
    if reading.unsupported.len() > 0 {
        let limit: usize = if reading.unsupported.len() < 6 {
            reading.unsupported.len()
        } else {
            6
        };
        let ghost apis = reading.unsupported@;
        let ghost say = |a: (String, usize)| a.0@ + " x"@ + decimal(a.1 as nat);
        let mut listed: Vec<String> = Vec::new();
        let mut i: usize = 0;
        assert(texts(listed@) =~= apis.take(0).map_values(say));
        while i < limit
            invariant
                i <= limit <= reading.unsupported.len(),
                apis == reading.unsupported@,
                say == (|a: (String, usize)| a.0@ + " x"@ + decimal(a.1 as nat)),
                texts(listed@) == apis.take(i as int).map_values(say),
            decreases limit - i,
        {
            let ghost before = listed@;
            let mut word = reading.unsupported[i].0.clone();
            word.append(" x");
            word.append(&decimal_text(reading.unsupported[i].1 as u64));
            assert(word@ == say(apis[i as int]));
            listed.push(word);
            assert(texts(listed@) =~= texts(before).push(say(apis[i as int])));
            i += 1;
            assert(apis.take(i as int).map_values(say) =~= apis.take(i - 1).map_values(say).push(
                say(apis[i - 1]),
            ));
        }
        assert(texts(listed@) =~= listed_apis(apis));
        let mut note = "this page used Web APIs this engine does not have (".to_owned();
        note.append(&crate::text::join(&listed, ", "));
        note.append("). What depends on them did not run; the chromium engine has them.");
        push_note(&mut out, note);
    }
    assert(texts(out@) =~= e + note_if(
        reading.unsupported@.len() > 0,
        unsupported_note(reading.unsupported@),
    ));
    out
}

// ------------------------------------------------------------------ parsing

/// How a page is parsed. A parse can fail outright, and an empty document that
/// says so beats none at all.
#[derive(Debug, Clone, Copy, PartialEq, Eq, Structural)]
pub enum Attempt {
    /// As it came.
    Whole,
    /// Without the sources of its images.
    WithoutImages,
    /// Nothing but the shell of a document.
    Empty,
}

impl Attempt {
    /// The markup that is parsed.
    pub fn markup(self, html: &str) -> (r: String)
        ensures
            r@ == (match self {
                Attempt::Whole => html@,
                Attempt::WithoutImages => sourceless_from(html@, 0),
                Attempt::Empty => "<html><body></body></html>"@,
            }),
    {
        match self {
            Attempt::Whole => html.to_owned(),
            Attempt::WithoutImages => strip_image_sources(html),
            Attempt::Empty => "<html><body></body></html>".to_owned(),
        }
    }

    /// What is tried where this one failed.
    pub fn otherwise(self) -> (r: Option<Attempt>)
        ensures
            r == (match self {
                Attempt::Whole => Some(Attempt::WithoutImages),
                Attempt::WithoutImages => Some(Attempt::Empty),
                Attempt::Empty => None,
            }),
    {
        match self {
            Attempt::Whole => Some(Attempt::WithoutImages),
            Attempt::WithoutImages => Some(Attempt::Empty),
            Attempt::Empty => None,
        }
    }

    /// Whether the images are lost, which a reader is told.
    pub fn loses_images(self) -> (r: bool)
        ensures
            r == (self != Attempt::Whole),
    {
        self != Attempt::Whole
    }
}

// ------------------------------------------------------------- submissions

/// The fetch that a form's submission is. The page chose where it goes, so it
/// is policed as a request from the form's own document.
pub fn submission_fetch(s: &Submission) -> (r: Fetch)
    ensures
        r.url@ == s.url@,
        r.initiator == Initiator::Navigation,
        r.method@ == s.method@,
        r.body@ == s.body@,
        string_view(r.content_type) == string_view(s.content_type),
        r.headers@.len() == 0,
        r.max_redirects is None,
        url_option(r.document) == Some(s.document@),
        r.cors is None,
{
    Fetch {
        url: s.url.copy(),
        initiator: Initiator::Navigation,
        method: s.method.clone(),
        body: crate::fetch::copy_bytes(&s.body),
        content_type: copy_option(&s.content_type),
        headers: Vec::new(),
        max_redirects: None,
        document: Some(s.document.copy()),
        cors: None,
    }
}

/// What is told of a submission whose fetch failed.
pub fn could_not_submit(url: &Url, error: &str) -> (r: String)
    ensures
        r@ == "could not submit to "@ + url@.href + ": "@ + error@,
{
    let mut why = "could not submit to ".to_owned();
    why.append(&url.href);
    why.append(": ");
    why.append(error);
    why
}

/// What to do about a form that a page submitted by itself.
#[derive(Debug, Clone, PartialEq, Eq)]
pub enum SelfSubmission {
    /// There is none.
    Done,
    /// Load its answer.
    Follow,
    /// It never ends: say so.
    Stop(String),
}

/// Decides about the form that a page submitted by itself, after so many were
/// followed. Bounded: a form that submits itself on load is a redirect loop.
pub fn self_submission(followed: usize, pending: bool) -> (r: SelfSubmission)
    ensures
        if followed >= MAX_SELF_SUBMISSIONS {
            r matches SelfSubmission::Stop(note) && note@
                == "this page submitted a form by itself more than 3 times running, so the engine stopped following it"@
        } else if pending {
            r is Follow
        } else {
            r is Done
        },
{
    if followed >= MAX_SELF_SUBMISSIONS {
        SelfSubmission::Stop(
            "this page submitted a form by itself more than 3 times running, so the engine stopped following it".to_owned(),
        )
    } else if pending {
        SelfSubmission::Follow
    } else {
        SelfSubmission::Done
    }
}

/// What the answer to a form that a page submitted by itself says of itself.
pub fn self_submitted(from: &Url, to: &Url) -> (r: String)
    ensures
        r@ == from@.href + " submitted a form to "@ + to@.href
            + " by itself, without anything being clicked, and this is the answer to that submission"@,
{
    let mut note = from.href.clone();
    note.append(" submitted a form to ");
    note.append(&to.href);
    note.append(
        " by itself, without anything being clicked, and this is the answer to that submission",
    );
    note
}

/// What a page says whose own submission could not be followed.
pub fn self_submission_failed(error: &str) -> (r: String)
    ensures
        r@ == "this page tried to submit a form by itself: "@ + error@,
{
    let mut note = "this page tried to submit a form by itself: ".to_owned();
    note.append(error);
    note
}

/// What is told where a form does not submit: the control is in none, or the
/// form produced no request.
pub fn no_submission(inside: bool) -> (r: String)
    ensures
        r@ == (if inside {
            "the form produced no request \u{2014} its method or scheme is not one this engine submits (http and https, GET and POST)"@
        } else {
            "that control is not inside a form this page defines"@
        }),
{
    if inside {
        "the form produced no request \u{2014} its method or scheme is not one this engine submits (http and https, GET and POST)".to_owned()
    } else {
        "that control is not inside a form this page defines".to_owned()
    }
}

// --------------------------------------------------------------------- laws

/// A refresh chain ends: each step goes somewhere the chain has not been, and
/// after the last one that is allowed there is no other.
pub proof fn law_a_refresh_chain_goes_somewhere_new(
    o: OpeningView,
    at: Seq<char>,
    refresh: Option<(u64, UrlView)>,
)
    requires
        sends_on(o, refresh),
    ensures
        !o.visited.contains(refresh->Some_0.1.href),
        o.visited.push(refresh->Some_0.1.href).contains(refresh->Some_0.1.href),
        refresh->Some_0.0 <= META_REFRESH_MAX_DELAY_SECONDS,
{
    let next = refresh->Some_0.1.href;
    assert(o.visited.push(next)[o.visited.len() as int] == next);
}

/// A page that answered with an error, or that is a challenge, never passes in
/// silence.
pub proof fn law_what_is_not_the_page_is_named(
    o: OpeningView,
    status: u16,
    frames: Seq<Seq<char>>,
    marker: Option<Seq<char>>,
    refresh: Option<(u64, UrlView)>,
)
    ensures
        !(200 <= status < 300) ==> opened_notes(o, status, frames, marker, refresh).contains(
            status_note(status),
        ),
        marker matches Some(m) ==> opened_notes(o, status, frames, marker, refresh).contains(
            challenge_note(m),
        ),
{
    let all = opened_notes(o, status, frames, marker, refresh);
    let a = note_if(!(200 <= status < 300), status_note(status));
    if !(200 <= status < 300) {
        assert(all[0] == status_note(status));
    }
    if marker is Some {
        assert(all[(a.len() + frames.len()) as int] == challenge_note(marker->Some_0));
    }
}

/// A page that asks to be somewhere else within fifteen seconds, somewhere the
/// chain has not been, is left: up to three times, and the fourth is the end of
/// it. Any other page is the page.
pub proof fn law_when_a_refresh_is_followed(
    opening: &mut Opening,
    at: &Url,
    refresh: &Option<(u64, Url)>,
    r: Arrival,
)
    requires
        call_ensures(Opening::arrive, (opening, at, refresh), r),
    ensures
        ({
            let o = old(opening)@;
            let leaves = *refresh is Some && refresh->Some_0.0 <= 15 && !o.visited.contains(
                refresh->Some_0.1@.href,
            );
            &&& r is Here <==> !leaves
            &&& r is Onward <==> leaves && o.followed.len() <= 2
            &&& r is Lost <==> leaves && o.followed.len() >= 3
            &&& r matches Arrival::Onward(next) ==> next@ == refresh->Some_0.1@
            &&& leaves ==> final(opening)@.followed == o.followed.push(at@.href)
                && final(opening)@.visited == o.visited.push(refresh->Some_0.1@.href)
            &&& !leaves ==> final(opening)@ == o
            &&& final(opening)@.asked == o.asked
        }),
{
}

/// What is said of a page that was opened: its status where that is not in the
/// two hundreds, what its frames have to say, a challenge, each page that was
/// left for another, and the refresh that was not followed, if there is one,
/// because it is more than fifteen seconds off or because it leads back.
pub proof fn law_what_is_said_of_an_opened_page(
    opening: &Opening,
    status: u16,
    frames: &Vec<String>,
    marker: Option<&str>,
    refresh: &Option<(u64, Url)>,
    r: Vec<String>,
)
    requires
        call_ensures(Opening::notes, (opening, status, frames, marker, refresh), r),
    ensures
        ({
            let odd = status < 200 || status > 299;
            let late = *refresh is Some && refresh->Some_0.0 > 15;
            let back = *refresh is Some && refresh->Some_0.0 <= 15 && opening@.visited.contains(
                refresh->Some_0.1@.href,
            ) && opening@.followed.len() == 0;
            let first = if odd {
                1int
            } else {
                0
            };
            let held = if marker is Some {
                1int
            } else {
                0
            };
            &&& r@.len() == first + frames@.len() + held + opening@.followed.len() + (if late
                || back {
                1int
            } else {
                0
            })
            &&& odd ==> texts(r@)[0] == "the server answered "@ + decimal(status as nat)
                + " for this URL; what follows is whatever it returned with that status, not the page that was asked for"@
            &&& forall|i: int|
                0 <= i < frames@.len() ==> texts(r@)[first + i] == (#[trigger] frames@[i])@
            &&& forall|i: int|
                0 <= i < opening@.followed.len() ==> texts(r@)[first + frames@.len() + held + i]
                    == (#[trigger] opening@.followed[i])
                    + " asked for a <meta refresh> and this engine followed it; what follows is the page it named"@
        }),
{
    let o = opening@;
    let go = refresh_view(*refresh);
    let a = note_if(!(200 <= status < 300), status_note(status));
    let b = texts(frames@);
    let c = note_if(marker is Some, challenge_note(view_of(marker)->Some_0));
    let d = followed_notes(o.followed);
    let e = unfollowed_notes(o, go);
    assert(texts(r@) == a + b + c + d + e);
    assert(texts(r@).len() == r@.len());
    assert forall|i: int| 0 <= i < frames@.len() implies texts(r@)[a.len() + i]
        == (#[trigger] frames@[i])@ by {
        assert((a + b + c + d + e)[a.len() + i] == b[i]);
    }
    assert forall|i: int| 0 <= i < o.followed.len() implies texts(r@)[a.len() + b.len() + c.len()
        + i] == followed_note(#[trigger] o.followed[i]) by {
        assert((a + b + c + d + e)[a.len() + b.len() + c.len() + i] == d[i]);
    }
}

/// A page that passed its budget says so once, by the first of these that it
/// passed: requests, bytes, time. One that passed none says nothing.
pub proof fn law_what_is_said_of_spending(s: Spending)
    ensures
        ({
            let notes = spending_notes(Some(s));
            let much = s.wire_bytes > s.max_wire_bytes || s.decoded_bytes > s.max_decoded_bytes;
            let over = s.requests > s.max_requests || much || s.network_ms > s.max_network_ms;
            &&& notes.len() == if over {
                1int
            } else {
                0
            }
            &&& s.requests > s.max_requests ==> notes[0] == "this page asked for more than "@
                + decimal(s.max_requests as nat)
                + " requests in one navigation and the rest were refused. What follows was read from what it managed to load; the request log names which were denied."@
            &&& s.requests <= s.max_requests && much ==> notes[0] == "this page pulled "@ + decimal(
                s.wire_bytes as nat,
            ) + " bytes ("@ + decimal(s.decoded_bytes as nat)
                + " decoded) and passed its budget for one navigation, so later requests were refused."@
            &&& s.requests <= s.max_requests && !much && over ==> notes[0] == "this page spent "@
                + decimal(s.network_ms as nat)
                + "ms waiting on the network, past its budget for one navigation, so later requests were refused."@
        }),
        spending_notes(None).len() == 0,
{
}

/// Of the missing interfaces the first six are named, each with how often it
/// was asked for.
pub proof fn law_how_many_missing_interfaces_are_named(apis: Seq<(String, usize)>)
    ensures
        listed_apis(apis).len() == (if apis.len() <= 6 {
            apis.len() as int
        } else {
            6
        }),
        forall|i: int|
            0 <= i < 6 && i < apis.len() ==> listed_apis(apis)[i] == (#[trigger] apis[i]).0@ + " x"@
                + decimal(apis[i].1 as nat),
{
}

/// How much a reading has to say beside the page itself: one thing for each
/// that holds.
pub proof fn law_how_much_a_reading_says(reading: &Reading, r: Vec<String>)
    requires
        call_ensures(snapshot_notes, (reading,), r),
    ensures
        r@.len() == reading.notes@.len() + (if reading.empty {
            1int
        } else {
            0
        }) + (if reading.layout_failure is Some {
            1int
        } else {
            0
        }) + spending_notes(reading.spent).len() + (if reading.settled is Some
            && reading.settled->Some_0.matters() {
            1int
        } else {
            0
        }) + (if reading.unsupported@.len() > 0 {
            1int
        } else {
            0
        }),
        forall|i: int|
            0 <= i < reading.notes@.len() ==> texts(r@)[i] == (#[trigger] reading.notes@[i])@,
        reading.empty ==> ({
            let note = texts(r@)[reading.notes@.len() as int];
            let how = if !reading.realm && !reading.ran_scripts {
                "did not run them (script is off)"@
            } else if !reading.realm && reading.scripts == 0 {
                "had none to run"@
            } else {
                "ran them"@
            };
            note == "this page produced no readable content. It has "@ + decimal(
                reading.scripts as nat,
            ) + " script element(s) and this engine "@ + how
                + ". If it needs JavaScript beyond what is listed above, the chromium engine has more of it."@
        }),
{
    let q = *reading;
    let a = texts(q.notes@);
    let b = note_if(q.empty, empty_note(q));
    let c = note_if(
        q.layout_failure is Some,
        layout_note(string_view(q.layout_failure)->Some_0),
    );
    let d = spending_notes(q.spent);
    let e = note_if(q.settled is Some && q.settled->Some_0.matters(), q.settled_text@);
    let f = note_if(q.unsupported@.len() > 0, unsupported_note(q.unsupported@));
    let all = a + b + c + d + e + f;
    assert(texts(r@) == all);
    assert(texts(r@).len() == r@.len());
    assert forall|i: int| 0 <= i < q.notes@.len() implies texts(r@)[i] == (#[trigger] q.notes@[i])@ by {
        assert(all[i] == a[i]);
    }
    if q.empty {
        assert(all[a.len() as int] == b[0]);
    }
}

/// A form that a page submits by itself is followed three times and no more.
pub proof fn law_how_often_a_page_may_submit_itself(
    followed: usize,
    pending: bool,
    r: SelfSubmission,
)
    requires
        call_ensures(self_submission, (followed, pending), r),
    ensures
        r is Follow <==> followed <= 2 && pending,
        r is Done <==> followed <= 2 && !pending,
        r is Stop <==> followed >= 3,
{
}

/// Reading is tried on the whole page, then without its images, then on an
/// empty page, and then no more.
pub proof fn law_how_reading_is_tried_again(a: Option<Attempt>, b: Option<Attempt>, c: Option<Attempt>)
    requires
        call_ensures(Attempt::otherwise, (Attempt::Whole,), a),
        a is Some ==> call_ensures(Attempt::otherwise, (a->Some_0,), b),
        b is Some ==> call_ensures(Attempt::otherwise, (b->Some_0,), c),
    ensures
        a == Some(Attempt::WithoutImages),
        b == Some(Attempt::Empty),
        c is None,
{
}

/// The first failure of a layout is the one that is kept.
pub proof fn law_the_first_layout_failure_is_kept(
    kept: Option<String>,
    outcome: Result<(), String>,
    r: Option<String>,
)
    requires
        call_ensures(keep_failure, (kept, outcome), r),
    ensures
        kept is Some ==> string_view(r) == string_view(kept),
        kept is None && outcome is Ok ==> r is None,
        kept is None && outcome is Err ==> r is Some && r->Some_0@ == outcome->Err_0@,
{
}

/// A submission is fetched as a navigation to where the form points, with its
/// own method, body and type, and is policed as the form's own document's.
pub proof fn law_a_submission_is_policed_as_its_documents(s: &Submission, r: Fetch)
    requires
        call_ensures(submission_fetch, (s,), r),
    ensures
        r.url@ == s.url@,
        r.document is Some && r.document->Some_0@ == s.document@,
        r.initiator is Navigation,
        r.method@ == s.method@,
        r.body@ == s.body@,
        string_view(r.content_type) == string_view(s.content_type),
        r.headers@.len() == 0 && r.max_redirects is None && r.cors is None,
{
}

/// What is said of how a page was built: how much was cut off for its depth, and
/// that a session was dropped, each where it happened.
pub proof fn law_what_is_said_of_how_a_page_was_built(cut: usize, dropped: bool, r: Vec<String>)
    requires
        call_ensures(built_notes, (cut, dropped), r),
    ensures
        r@.len() == (if cut > 0 {
            1int
        } else {
            0
        }) + (if dropped {
            1int
        } else {
            0
        }),
        cut > 0 ==> texts(r@)[0] == "this page nests elements more than 512 deep; "@ + decimal(
            cut as nat,
        )
            + " subtree(s) below that were dropped before layout. The bound exists because the layout pass recurses and a deep enough page ends the process rather than the page, and it is said here rather than silently applied."@,
        dropped ==> texts(r@).last()
            == "cookies from the previous origin were dropped on navigation: this engine holds a session only for the origin currently loaded"@,
{
    assert(texts(r@).len() == r@.len());
}

/// Reading starts where it was asked to, having been nowhere else.
pub proof fn law_where_reading_starts(url: &Url, r: Opening)
    requires
        call_ensures(Opening::begin, (url,), r),
    ensures
        r@.asked == url@.href,
        r@.visited == seq![url@.href],
        r@.followed.len() == 0,
{
}

/// A page's images are lost in every attempt but the first, and the last one
/// reads nothing.
pub proof fn law_what_each_attempt_reads(a: Attempt, html: &str, lost: bool, r: String)
    requires
        call_ensures(Attempt::loses_images, (a,), lost),
        call_ensures(Attempt::markup, (a, html), r),
    ensures
        lost <==> a is WithoutImages || a is Empty,
        a is Whole ==> r@ == html@,
        a is WithoutImages ==> r@ == sourceless_from(html@, 0),
        a is Empty ==> r@ == "<html><body></body></html>"@,
{
}

} // verus!
