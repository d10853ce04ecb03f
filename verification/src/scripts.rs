//! The scripts of a page: which of its elements are code, in what order they
//! run, and what is said of those that do not.
use vstd::prelude::*;

use crate::cors::{Credentials, Mode};
use crate::fetch::{Fetch, FetchOutcome, OutcomeView};
use crate::forms::WaitTarget;
use crate::passage::ContextView;
use crate::receipt::Initiator;
use crate::text::{
    contains, decimal, decimal_text, holds, is_space, lower, lowered, same, string_view, texts, trim,
    trimmed,
};
use crate::url::{url_option, Url};

verus! {

/// How long the whole script phase may take before this engine stops starting
/// more of it.
pub const SCRIPT_PHASE_BUDGET_MS: u64 = 20_000;

/// The event-handler content attributes, as a selector. CSS can match an
/// attribute's *value* by prefix but not its *name*, so they are enumerated.
pub const INLINE_HANDLER_SELECTOR: &'static str =
    "[onload],[onclick],[onerror],[onchange],[oninput],[onsubmit],[onfocus],[onblur],[onkeydown],[onkeyup],[onkeypress],[onmousedown],[onmouseup],[onmouseover],[onmouseout],[onmousemove],[ondblclick],[onscroll],[onselect],[onreset],[oncontextmenu],[onwheel],[ontoggle],[onpageshow],[onpagehide],[onhashchange],[onpopstate],[onresize],[onmessage],[onunload],[onbeforeunload],[onanimationend],[ontransitionend],[onpointerdown],[onpointerup]";

/// A `<script>` element, as far as it matters.
#[derive(Debug, Clone, PartialEq, Eq)]
pub struct ScriptElement {
    pub node: usize,
    pub kind: Option<String>,
    pub src: Option<String>,
    pub text: String,
}

/// What a script element holds.
#[derive(Debug, Clone, PartialEq, Eq)]
pub enum Source {
    Inline(String),
    External(String),
    /// `type="module"`, inline or external. Deferred by definition: modules
    /// evaluate after every classic script, in their own document order.
    ModuleInline(String),
    ModuleExternal(String),
    /// `type="importmap"`. Never executed: it tells the loader where bare
    /// specifiers go.
    ImportMap(String),
}

/// What a [`Source`] says.
pub enum SourceView {
    Inline(Seq<char>),
    External(Seq<char>),
    ModuleInline(Seq<char>),
    ModuleExternal(Seq<char>),
    ImportMap(Seq<char>),
}

impl View for Source {
    type V = SourceView;

    open spec fn view(&self) -> SourceView {
        match self {
            Source::Inline(t) => SourceView::Inline(t@),
            Source::External(t) => SourceView::External(t@),
            Source::ModuleInline(t) => SourceView::ModuleInline(t@),
            Source::ModuleExternal(t) => SourceView::ModuleExternal(t@),
            Source::ImportMap(t) => SourceView::ImportMap(t@),
        }
    }
}

/// A script and the element it came from.
#[derive(Debug, Clone, PartialEq, Eq)]
pub struct Pending {
    pub node: usize,
    pub source: Source,
}

/// A type that means script. A page embeds data in script elements too, and
/// those are data blocks that never execute.
pub open spec fn is_script_type(kind: Seq<char>) -> bool {
    kind.len() == 0 || kind == "text/javascript"@ || kind == "application/javascript"@ || kind
        == "text/ecmascript"@ || kind == "application/ecmascript"@ || kind == "module"@
}

pub open spec fn kind_of(e: ScriptElement) -> Seq<char> {
    lowered(
        trimmed(
            match string_view(e.kind) {
                Some(k) => k,
                None => Seq::empty(),
            },
        ),
    )
}

/// What a script element is, where it is anything.
pub open spec fn source_of(e: ScriptElement) -> Option<SourceView> {
    let kind = kind_of(e);
    let blank = trimmed(e.text@).len() == 0;
    if kind == "importmap"@ {
        if blank {
            None
        } else {
            Some(SourceView::ImportMap(e.text@))
        }
    } else if !is_script_type(kind) {
        None
    } else {
        match string_view(e.src) {
            Some(src) => if kind == "module"@ {
                Some(SourceView::ModuleExternal(src))
            } else {
                Some(SourceView::External(src))
            },
            None => if blank {
                None
            } else if kind == "module"@ {
                Some(SourceView::ModuleInline(e.text@))
            } else {
                Some(SourceView::Inline(e.text@))
            },
        }
    }
}

/// What a script element is, where it is anything.
pub fn classify(e: &ScriptElement) -> (r: Option<Source>)
    ensures
        match r {
            Some(s) => source_of(*e) == Some(s@),
            None => source_of(*e) is None,
        },
{
    let kind = match &e.kind {
        Some(k) => lower(&trim(k)),
        None => lower(&trim("")),
    };
    proof {
        reveal_strlit("");
        assert(""@ =~= Seq::empty());
    }
    let blank = trim(&e.text).as_str().is_empty();
    if same(&kind, "importmap") {
        return if blank {
            None
        } else {
            Some(Source::ImportMap(e.text.clone()))
        };
    }
    let module = same(&kind, "module");
    let known = kind.as_str().is_empty() || same(&kind, "text/javascript") || same(
        &kind,
        "application/javascript",
    ) || same(&kind, "text/ecmascript") || same(&kind, "application/ecmascript") || module;
    if !known {
        return None;
    }
    match &e.src {
        Some(src) => if module {
            Some(Source::ModuleExternal(src.clone()))
        } else {
            Some(Source::External(src.clone()))
        },
        None => if blank {
            None
        } else if module {
            Some(Source::ModuleInline(e.text.clone()))
        } else {
            Some(Source::Inline(e.text.clone()))
        },
    }
}

/// A script that runs when its turn comes in the document.
pub open spec fn is_classic(s: SourceView) -> bool {
    s is Inline || s is External
}

pub open spec fn is_module(s: SourceView) -> bool {
    s is ModuleInline || s is ModuleExternal
}

/// The scripts of a kind, in document order.
pub open spec fn scripts_where(es: Seq<ScriptElement>, f: spec_fn(SourceView) -> bool) -> Seq<
    (usize, SourceView),
>
    decreases es.len(),
{
    if es.len() == 0 {
        Seq::empty()
    } else {
        let before = scripts_where(es.drop_last(), f);
        match source_of(es.last()) {
            Some(s) => if f(s) {
                before.push((es.last().node, s))
            } else {
                before
            },
            None => before,
        }
    }
}

/// The import maps, in document order.
pub open spec fn maps_of(es: Seq<ScriptElement>) -> Seq<Seq<char>>
    decreases es.len(),
{
    if es.len() == 0 {
        Seq::empty()
    } else {
        let before = maps_of(es.drop_last());
        match source_of(es.last()) {
            Some(SourceView::ImportMap(t)) => before.push(t),
            _ => before,
        }
    }
}

pub open spec fn pending_view(v: Seq<Pending>) -> Seq<(usize, SourceView)> {
    v.map_values(|p: Pending| (p.node, p.source@))
}

/// What a page's scripts come to.
#[derive(Debug, Clone, PartialEq, Eq)]
pub struct ScriptPlan {
    /// The import map, read before anything can import.
    pub map: Option<String>,
    /// Further maps, which are ignored.
    pub extra_maps: usize,
    /// Run first, in document order.
    pub classic: Vec<Pending>,
    /// Run after every classic script, in document order.
    pub modules: Vec<Pending>,
}

/// Sorts a page's script elements: the first import map counts, classic
/// scripts come before modules, and each list keeps the document's order.
pub fn plan_scripts(elements: &Vec<ScriptElement>) -> (r: ScriptPlan)
    ensures
        pending_view(r.classic@) == scripts_where(elements@, |s: SourceView| is_classic(s)),
        pending_view(r.modules@) == scripts_where(elements@, |s: SourceView| is_module(s)),
        r.classic@.len() + r.modules@.len() <= elements@.len(),
        string_view(r.map) == (if maps_of(elements@).len() > 0 {
            Some(maps_of(elements@)[0])
        } else {
            None
        }),
        r.extra_maps == (if maps_of(elements@).len() > 0 {
            maps_of(elements@).len() - 1
        } else {
            0
        }),
{
    let ghost fc = |s: SourceView| is_classic(s);
    let ghost fm = |s: SourceView| is_module(s);
    let mut classic: Vec<Pending> = Vec::new();
    let mut modules: Vec<Pending> = Vec::new();
    let mut map: Option<String> = None;
    let mut extra_maps: usize = 0;
    let mut i: usize = 0;
    assert(pending_view(classic@) =~= scripts_where(elements@.take(0), fc));
    assert(pending_view(modules@) =~= scripts_where(elements@.take(0), fm));
    while i < elements.len()
        invariant
            i <= elements.len(),
            fc == (|s: SourceView| is_classic(s)),
            fm == (|s: SourceView| is_module(s)),
            pending_view(classic@) == scripts_where(elements@.take(i as int), fc),
            pending_view(modules@) == scripts_where(elements@.take(i as int), fm),
            map is Some <==> maps_of(elements@.take(i as int)).len() > 0,
            map matches Some(m) ==> m@ == maps_of(elements@.take(i as int))[0] && extra_maps
                == maps_of(elements@.take(i as int)).len() - 1,
            map is None ==> extra_maps == 0,
            maps_of(elements@.take(i as int)).len() <= i,
            classic@.len() + modules@.len() <= i,
        decreases elements.len() - i,
    {
        let e = &elements[i];
        let ghost now = elements@.take(i + 1);
        assert(now.drop_last() =~= elements@.take(i as int));
        assert(now.last() == *e);
        let ghost c0 = classic@;
        let ghost m0 = modules@;
        match classify(e) {
            None => {},
            Some(source) => {
                let ghost sv = source@;
                match source {
                    Source::ImportMap(text) => {
                        if map.is_none() {
                            map = Some(text);
                        } else {
                            extra_maps += 1;
                        }
                    },
                    Source::Inline(_) | Source::External(_) => {
                        classic.push(Pending { node: e.node, source });
                        assert(pending_view(classic@) =~= pending_view(c0).push((e.node, sv)));
                    },
                    Source::ModuleInline(_) | Source::ModuleExternal(_) => {
                        modules.push(Pending { node: e.node, source });
                        assert(pending_view(modules@) =~= pending_view(m0).push((e.node, sv)));
                    },
                }
            },
        }
        i += 1;
    }
    assert(elements@.take(i as int) =~= elements@);
    ScriptPlan { map, extra_maps, classic, modules }
}

impl ScriptPlan {
    /// There is code to run: an import map alone is a declaration for imports
    /// that never happen.
    pub fn has_code(&self) -> (r: bool)
        ensures
            r == (self.classic@.len() > 0 || self.modules@.len() > 0),
    {
        self.classic.len() > 0 || self.modules.len() > 0
    }

    /// What is said of the maps that are ignored.
    pub fn extra_note(&self) -> (r: Option<String>)
        ensures
            string_view(r) == (if self.extra_maps > 0 {
                Some(
                    decimal(self.extra_maps as nat)
                        + " further import map(s) ignored: only the first in document order is used"@,
                )
            } else {
                None
            }),
    {
        if self.extra_maps == 0 {
            return None;
        }
        let mut note = decimal_text(self.extra_maps as u64);
        note.append(" further import map(s) ignored: only the first in document order is used");
        Some(note)
    }
}

/// Whether a script realm is built at all: a handler attribute is script too.
pub fn needs_realm(has_code: bool, has_inline_handler: bool) -> (r: bool)
    ensures
        r == (has_code || has_inline_handler),
{
    has_code || has_inline_handler
}

/// How long the script phase may take: its own ceiling, or what is left of the
/// navigation.
pub fn phase_budget(configured_ms: Option<u64>, remaining_ms: u64) -> (r: u64)
    ensures
        r <= remaining_ms,
        r == (match configured_ms {
            Some(b) => if b < remaining_ms {
                b
            } else {
                remaining_ms
            },
            None => if SCRIPT_PHASE_BUDGET_MS < remaining_ms {
                SCRIPT_PHASE_BUDGET_MS
            } else {
                remaining_ms
            },
        }),
{
    let own: u64 = match configured_ms {
        Some(b) => b,
        None => SCRIPT_PHASE_BUDGET_MS,
    };
    if own < remaining_ms {
        own
    } else {
        remaining_ms
    }
}

/// Whether another script is started, and what is left for settling: one
/// budget for the whole phase, and a second at the least.
pub fn may_start(elapsed_ms: u64, budget_ms: u64) -> (r: bool)
    ensures
        r == (elapsed_ms < budget_ms),
{
    elapsed_ms < budget_ms
}

pub fn settle_budget(elapsed_ms: u64, budget_ms: u64) -> (r: u64)
    ensures
        r >= 1000,
        r == (if budget_ms >= elapsed_ms + 1000 {
            (budget_ms - elapsed_ms) as u64
        } else {
            1000
        }),
{
    if budget_ms >= elapsed_ms && budget_ms - elapsed_ms >= 1000 {
        budget_ms - elapsed_ms
    } else {
        1000
    }
}

/// Which script this was: the element is the only locus there is.
pub fn where_from(source: &Source, index: usize) -> (r: String)
    requires
        index < usize::MAX,
    ensures
        r@ == (match source@ {
            SourceView::External(src) => src,
            _ => "inline script #"@ + decimal((index + 1) as nat),
        }),
{
    match source {
        Source::External(src) => src.clone(),
        _ => {
            let mut out = "inline script #".to_owned();
            out.append(&decimal_text((index + 1) as u64));
            out
        },
    }
}

/// The fetch of a classic script. Its address is the page's choice and the
/// answer is run in the page, so it is fetched for the document.
pub fn classic_fetch(url: &Url, document: &Url) -> (r: Fetch)
    ensures
        r.url@ == url@,
        r.initiator == Initiator::Subresource,
        r.method@ == "GET"@,
        r.body@.len() == 0,
        r.content_type is None,
        r.headers@.len() == 0,
        r.max_redirects is None,
        url_option(r.document) == Some(document@),
        r.cors is None,
{
    Fetch {
        url: url.copy(),
        initiator: Initiator::Subresource,
        method: "GET".to_owned(),
        body: Vec::new(),
        content_type: None,
        headers: Vec::new(),
        max_redirects: None,
        document: Some(document.copy()),
        cors: None,
    }
}

/// The fetch of a module script. It asks the server, which a classic script
/// does not: a module may not be loaded across origins without permission.
pub fn module_fetch(url: &Url, document: &Url) -> (r: Fetch)
    ensures
        r.url@ == url@,
        r.initiator == Initiator::Subresource,
        r.method@ == "GET"@,
        r.body@.len() == 0,
        r.content_type is None,
        r.headers@.len() == 0,
        r.max_redirects is None,
        url_option(r.document) == Some(document@),
        crate::fetch::context_view(r.cors) == Some(
            ContextView {
                document: crate::cors::origin_of(document@),
                headers: Seq::empty(),
                mode: Mode::Cors,
                credentials: Credentials::SameOrigin,
            },
        ),
{
    let none: Vec<(String, String)> = Vec::new();
    assert(crate::cors::pairs(none@) =~= Seq::empty());
    let context = crate::fetch::script_context(
        document,
        none,
        Mode::Cors,
        Credentials::SameOrigin,
    );
    Fetch {
        url: url.copy(),
        initiator: Initiator::Subresource,
        method: "GET".to_owned(),
        body: Vec::new(),
        content_type: None,
        headers: Vec::new(),
        max_redirects: None,
        document: Some(document.copy()),
        cors: Some(context),
    }
}

/// Why a script that was fetched is not run, where it is not: an error page is
/// not a script, and running one produces a syntax error that blames the page.
pub open spec fn script_refusal(url: Seq<char>, outcome: OutcomeView) -> Option<Seq<char>> {
    let status = match outcome.status {
        Some(s) => s,
        None => 0u16,
    };
    if outcome.error is Some {
        Some("could not load "@ + url + ": "@ + outcome.error->Some_0)
    } else if !(200 <= status < 300) {
        Some("could not load "@ + url + ": the server answered "@ + decimal(status as nat))
    } else {
        None
    }
}

/// Why a script that was fetched is not run, where it is not.
pub fn refuse_script(url: &Url, outcome: &FetchOutcome) -> (r: Option<String>)
    ensures
        string_view(r) == script_refusal(url@.href, outcome@),
{
    let mut why = "could not load ".to_owned();
    why.append(&url.href);
    why.append(": ");
    if let Some(error) = &outcome.error {
        why.append(error);
        return Some(why);
    }
    let status: u16 = match outcome.status {
        Some(s) => s,
        None => 0,
    };
    if !(200 <= status && status < 300) {
        let mut note = "could not load ".to_owned();
        note.append(&url.href);
        note.append(": the server answered ");
        note.append(&decimal_text(status as u64));
        return Some(note);
    }
    None
}

/// What is said of a `src` that is no address.
pub fn bad_source(module: bool, src: &str) -> (r: String)
    ensures
        r@ == (if module {
            "module src `"@
        } else {
            "script src `"@
        }) + src@ + "` is not a URL"@,
{
    let mut note = if module {
        "module src `".to_owned()
    } else {
        "script src `".to_owned()
    };
    note.append(src);
    note.append("` is not a URL");
    note
}

/// What is said of the scripts there was no time for.
pub fn skipped_note(skipped: usize) -> (r: Option<String>)
    ensures
        string_view(r) == (if skipped > 0 {
            Some(
                "this page's scripts took longer than 20s, so "@ + decimal(skipped as nat)
                    + " of them were not run. What follows was rendered by the ones that finished."@,
            )
        } else {
            None
        }),
{
    if skipped == 0 {
        return None;
    }
    let mut note = "this page's scripts took longer than 20s, so ".to_owned();
    note.append(&decimal_text(skipped as u64));
    note.append(
        " of them were not run. What follows was rendered by the ones that finished.",
    );
    Some(note)
}

// ------------------------------------------------------------- interaction

/// What a key does to a field.
#[derive(Debug, Clone, Copy, PartialEq, Eq, Structural)]
pub enum KeyEdit {
    FocusNext,
    FocusPrevious,
    Ignore,
    /// It changes the text, or moves the caret.
    Edit { types: bool, moves: bool },
}

/// One thing that a key press is.
#[derive(Debug, Clone, Copy, PartialEq, Eq, Structural)]
pub enum KeyAction {
    KeyDown,
    KeyPress,
    KeyUp,
    /// Move the focus to the next control.
    MoveFocus,
    /// Edit the field.
    Apply,
}

/// What a key press does, in order. The events stand *around* the edit, which
/// is the order an autocomplete or a controlled input is written against. Tab
/// moves between controls, so it is answered before the field is consulted;
/// backwards is not offered. A control that takes no text still hears the key.
pub open spec fn key_actions(edit: KeyEdit, takes_text: bool) -> Seq<KeyAction> {
    match edit {
        KeyEdit::FocusNext => seq![KeyAction::KeyDown, KeyAction::MoveFocus, KeyAction::KeyUp],
        KeyEdit::FocusPrevious => seq![KeyAction::KeyDown, KeyAction::KeyUp],
        _ => if !takes_text {
            seq![KeyAction::KeyDown, KeyAction::KeyPress, KeyAction::KeyUp]
        } else {
            match edit {
                KeyEdit::Edit { types, .. } => if types {
                    seq![
                        KeyAction::KeyDown,
                        KeyAction::Apply,
                        KeyAction::KeyPress,
                        KeyAction::KeyUp,
                    ]
                } else {
                    seq![KeyAction::KeyDown, KeyAction::Apply, KeyAction::KeyUp]
                },
                _ => seq![KeyAction::KeyDown, KeyAction::KeyUp],
            }
        },
    }
}

/// What a key press does, in order.
pub fn key_plan(edit: KeyEdit, takes_text: bool) -> (r: Vec<KeyAction>)
    ensures
        r@ == key_actions(edit, takes_text),
{
    let mut out: Vec<KeyAction> = Vec::new();
    out.push(KeyAction::KeyDown);
    match edit {
        KeyEdit::FocusNext => {
            out.push(KeyAction::MoveFocus);
        },
        KeyEdit::FocusPrevious => {},
        KeyEdit::Ignore => {
            if !takes_text {
                out.push(KeyAction::KeyPress);
            }
        },
        KeyEdit::Edit { types, .. } => {
            if takes_text {
                out.push(KeyAction::Apply);
                if types {
                    out.push(KeyAction::KeyPress);
                }
            } else {
                out.push(KeyAction::KeyPress);
            }
        },
    }
    out.push(KeyAction::KeyUp);
    assert(out@ =~= key_actions(edit, takes_text));
    out
}

/// Whether a key press changed the picture: a motion of the caret is a new one
/// too.
pub fn key_changed(edit: KeyEdit, takes_text: bool, moved: bool, changed: bool) -> (r: bool)
    ensures
        r == (match edit {
            KeyEdit::FocusNext => moved,
            KeyEdit::FocusPrevious => false,
            KeyEdit::Ignore => takes_text && changed,
            KeyEdit::Edit { moves, .. } => takes_text && (changed || moves),
        }),
{
    match edit {
        KeyEdit::FocusNext => moved,
        KeyEdit::FocusPrevious => false,
        KeyEdit::Ignore => takes_text && changed,
        KeyEdit::Edit { moves, .. } => takes_text && (changed || moves),
    }
}

/// Whether the field hears `input` after a key press. An edit of the user's
/// fires it; script that sets the value must not.
pub fn fires_input(edit: KeyEdit, takes_text: bool, changed: bool) -> (r: bool)
    ensures
        r == (takes_text && changed && edit != KeyEdit::FocusNext && edit
            != KeyEdit::FocusPrevious),
{
    takes_text && changed && edit != KeyEdit::FocusNext && edit != KeyEdit::FocusPrevious
}

/// How often a page may be told of its resources after one action: a handler
/// can add another.
pub const RESOURCE_EVENT_PASSES: usize = 3;

/// Whether the page is told of its resources once more, after `passes` times
/// of which the last found something to tell.
pub fn tells_again(passes: usize, told: bool) -> (r: bool)
    ensures
        r == (passes < RESOURCE_EVENT_PASSES && (passes == 0 || told)),
{
    passes < RESOURCE_EVENT_PASSES && (passes == 0 || told)
}

/// The form at which `submit` is fired after a click: only where nothing
/// prevented the click, and the control submits.
pub fn submit_after_click(click: Option<bool>, submits: bool, form: Option<usize>) -> (r: Option<
    usize,
>)
    ensures
        r == (if click != Some(false) && submits {
            form
        } else {
            None
        }),
{
    let prevented = match click {
        Some(b) => !b,
        None => false,
    };
    if !prevented && submits {
        form
    } else {
        None
    }
}

/// Whether the form is still submitted the ordinary way: neither the click nor
/// the submit that followed it was prevented.
pub fn still_submits(click: Option<bool>, fired: bool, submit: Option<bool>) -> (r: bool)
    ensures
        r == (click != Some(false) && (fired ==> submit != Some(false))),
{
    let click_ok = match click {
        Some(b) => b,
        None => true,
    };
    let submit_ok = match submit {
        Some(b) => b,
        None => true,
    };
    click_ok && (!fired || submit_ok)
}

/// How far a page had come when it was read.
#[derive(Debug, Clone, Copy, PartialEq, Eq, Structural)]
pub struct Settled {
    pub elapsed_ms: u64,
    pub timers_run: usize,
    /// The reading stopped before the page did.
    pub cut_off: bool,
    pub pending_timers: usize,
    /// Timers that re-arm themselves, by which two readings may disagree.
    pub periodic_timers: usize,
}

/// A page without script has finished by definition, and that is said: not to
/// know would be a different answer.
pub open spec fn trivially_settled() -> Settled {
    Settled {
        elapsed_ms: 0,
        timers_run: 0,
        cut_off: false,
        pending_timers: 0,
        periodic_timers: 0,
    }
}

impl Settled {
    /// The record of a page without script.
    pub fn trivial() -> (r: Settled)
        ensures
            r == trivially_settled(),
    {
        Settled {
            elapsed_ms: 0,
            timers_run: 0,
            cut_off: false,
            pending_timers: 0,
            periodic_timers: 0,
        }
    }

    /// Whether a reader has to be told: the reading is not all of the page, or
    /// the page goes on by itself.
    pub open spec fn matters(self) -> bool {
        self.cut_off || self.periodic_timers > 0
    }

    /// Whether a reader has to be told.
    pub fn is_unsettled(&self) -> (r: bool)
        ensures
            r == self.matters(),
    {
        self.cut_off || self.periodic_timers > 0
    }
}

/// What is said of how far a page had come, `said` being that in words: nothing
/// where the page has not run, and nothing where it is done.
pub open spec fn unsettled_text(settled: Option<Settled>, said: Seq<char>) -> Option<Seq<char>> {
    match settled {
        Some(s) => if s.matters() {
            Some(said)
        } else {
            None
        },
        None => None,
    }
}

/// What is said of how far a page had come, where that has to be said.
pub fn unsettled_note(settled: &Option<Settled>, said: &str) -> (r: Option<String>)
    ensures
        string_view(r) == unsettled_text(*settled, said@),
{
    match settled {
        Some(s) => if s.is_unsettled() {
            Some(said.to_owned())
        } else {
            None
        },
        None => None,
    }
}

/// How a wait ended.
#[derive(Debug, Clone, Copy, PartialEq, Eq, Structural)]
pub enum WaitEnd {
    Met,
    /// Nothing here will change any more.
    Quiescent,
}

/// Whether what is waited for is there: something that the selector matches,
/// or a line of the outline that holds the text.
pub open spec fn is_there(target: WaitTarget, found: nat, lines: Seq<Seq<char>>) -> bool {
    match target {
        WaitTarget::Selector(_) => found > 0,
        WaitTarget::Text(needle) => exists|i: int|
            0 <= i < lines.len() && contains(#[trigger] lines[i], needle@),
    }
}

/// Whether what is waited for is there, `found` being how many elements the
/// selector matches and `lines` the outline that a reader sees: a match in a
/// script body is not one that a reader would see.
pub fn wait_is_met(target: &WaitTarget, found: usize, lines: &Vec<String>) -> (r: bool)
    ensures
        r == is_there(*target, found as nat, texts(lines@)),
{
    match target {
        WaitTarget::Selector(_) => found > 0,
        WaitTarget::Text(needle) => {
            let mut i: usize = 0;
            while i < lines.len()
                invariant
                    i <= lines.len(),
                    *target == WaitTarget::Text(*needle),
                    forall|j: int| 0 <= j < i ==> !contains(#[trigger] texts(lines@)[j], needle@),
                decreases lines.len() - i,
            {
                assert(texts(lines@)[i as int] == lines@[i as int]@);
                if holds(&lines[i], needle) {
                    return true;
                }
                i += 1;
            }
            false
        },
    }
}

/// What a wait came to.
#[derive(Debug, Clone, Copy, PartialEq, Eq, Structural)]
pub struct Waited {
    pub met: bool,
    /// The page changed in the meantime.
    pub changed: bool,
    pub settled: Settled,
    pub end: WaitEnd,
}

/// What a wait comes to on a page without a script realm: it matches now, or it
/// never will. Nothing ran, so nothing changed.
pub fn wait_without_script(met: bool) -> (r: Waited)
    ensures
        r.met == met,
        !r.changed,
        r.settled == trivially_settled(),
        r.end == (if met {
            WaitEnd::Met
        } else {
            WaitEnd::Quiescent
        }),
{
    Waited {
        met,
        changed: false,
        settled: Settled::trivial(),
        end: if met {
            WaitEnd::Met
        } else {
            WaitEnd::Quiescent
        },
    }
}

// --------------------------------------------------------------------- laws

/// A data block is never run: an element whose type means neither script nor
/// an import map is in no list.
pub proof fn law_data_is_not_code(e: ScriptElement)
    requires
        !is_script_type(kind_of(e)),
        kind_of(e) != "importmap"@,
    ensures
        source_of(e) is None,
{
}

/// An element is in at most one of the lists: a map is not code, and a module
/// is not a classic script.
pub proof fn law_a_script_is_of_one_kind(s: SourceView)
    ensures
        !(is_classic(s) && is_module(s)),
        s is ImportMap ==> !is_classic(s) && !is_module(s),
        is_classic(s) || is_module(s) || s is ImportMap,
{
}

/// Both keys of a press are heard, the first before anything else and the last
/// after it.
pub proof fn law_a_key_is_heard_around_its_edit(edit: KeyEdit, takes_text: bool)
    ensures
        key_actions(edit, takes_text).len() >= 2,
        key_actions(edit, takes_text)[0] == KeyAction::KeyDown,
        key_actions(edit, takes_text).last() == KeyAction::KeyUp,
        key_actions(edit, takes_text).contains(KeyAction::Apply) ==> takes_text,
{
}

/// What a `script` element is, by its `type`, trimmed and in any case. It is
/// code where that is blank, one of the four names of the language, or
/// `module`, and a map where it is `importmap`. Code comes from its `src`
/// where it has one. Otherwise, and for a map always, it is the element's own
/// text, unless that is blank. Anything else is data.
pub proof fn law_what_a_script_element_is(e: &ScriptElement, r: Option<Source>)
    requires
        call_ensures(classify, (e,), r),
    ensures
        ({
            let kind = if e.kind is Some {
                lowered(trimmed(e.kind->Some_0@))
            } else {
                Seq::empty()
            };
            let written = exists|i: int| 0 <= i < e.text@.len() && !is_space(#[trigger] e.text@[i]);
            let classic = kind.len() == 0 || kind == "text/javascript"@ || kind
                == "application/javascript"@ || kind == "text/ecmascript"@ || kind
                == "application/ecmascript"@;
            &&& kind == "importmap"@ ==> (r is Some <==> written) && (r is Some ==> r->Some_0@
                == SourceView::ImportMap(e.text@))
            &&& kind == "module"@ && e.src is Some ==> r is Some && r->Some_0@
                == SourceView::ModuleExternal(e.src->Some_0@)
            &&& kind == "module"@ && e.src is None ==> (r is Some <==> written) && (r is Some
                ==> r->Some_0@ == SourceView::ModuleInline(e.text@))
            &&& classic && e.src is Some ==> r is Some && r->Some_0@ == SourceView::External(
                e.src->Some_0@,
            )
            &&& classic && e.src is None ==> (r is Some <==> written) && (r is Some ==> r->Some_0@
                == SourceView::Inline(e.text@))
            &&& !classic && kind != "module"@ && kind != "importmap"@ ==> r is None
        }),
{
    reveal_strlit("importmap");
    reveal_strlit("module");
    reveal_strlit("text/javascript");
    reveal_strlit("application/javascript");
    reveal_strlit("text/ecmascript");
    reveal_strlit("application/ecmascript");
    assert("importmap"@.len() == 9 && "module"@.len() == 6 && "text/javascript"@.len() == 15
        && "application/javascript"@.len() == 22 && "text/ecmascript"@.len() == 15
        && "application/ecmascript"@.len() == 22);
    lemma_blank(e.text@);
    assert(trimmed(Seq::<char>::empty()) =~= Seq::empty());
    assert(lowered(Seq::<char>::empty()) =~= Seq::empty());
}

proof fn lemma_blank(s: Seq<char>)
    ensures
        trimmed(s).len() > 0 <==> exists|i: int| 0 <= i < s.len() && !is_space(#[trigger] s[i]),
{
    crate::text::law_trimming_takes_off_the_ends(s);
    let (a, b) = choose|a: int, b: int|
        {
            &&& 0 <= a <= b <= s.len()
            &&& trimmed(s) == #[trigger] s.subrange(a, b)
            &&& forall|i: int| 0 <= i < a ==> is_space(#[trigger] s[i])
            &&& forall|i: int| b <= i < s.len() ==> is_space(#[trigger] s[i])
            &&& a < b ==> !is_space(s[a]) && !is_space(s[b - 1])
        };
    assert(trimmed(s).len() == b - a);
    if a < b {
        assert(!is_space(s[a]));
    }
}

proof fn lemma_scripts_add(
    a: Seq<ScriptElement>,
    b: Seq<ScriptElement>,
    f: spec_fn(SourceView) -> bool,
)
    ensures
        scripts_where(a + b, f) == scripts_where(a, f) + scripts_where(b, f),
        maps_of(a + b) == maps_of(a) + maps_of(b),
    decreases b.len(),
{
    if b.len() == 0 {
        assert(a + b =~= a);
        assert(scripts_where(a + b, f) =~= scripts_where(a, f) + scripts_where(b, f));
        assert(maps_of(a + b) =~= maps_of(a) + maps_of(b));
    } else {
        lemma_scripts_add(a, b.drop_last(), f);
        assert((a + b).drop_last() =~= a + b.drop_last());
        assert((a + b).last() == b.last());
        assert(scripts_where(a + b, f) =~= scripts_where(a, f) + scripts_where(b, f));
        assert(maps_of(a + b) =~= maps_of(a) + maps_of(b));
    }
}

/// Scripts run in the order of the document: those of a page are those of its
/// first part and then those of the rest, classic ones and modules each among
/// themselves, and one element is one script of its own kind, or none.
pub proof fn law_scripts_run_in_document_order(
    front: &Vec<ScriptElement>,
    back: &Vec<ScriptElement>,
    all: &Vec<ScriptElement>,
    a: ScriptPlan,
    b: ScriptPlan,
    r: ScriptPlan,
)
    requires
        all@ == front@ + back@,
        call_ensures(plan_scripts, (front,), a),
        call_ensures(plan_scripts, (back,), b),
        call_ensures(plan_scripts, (all,), r),
    ensures
        pending_view(r.classic@) == pending_view(a.classic@) + pending_view(b.classic@),
        pending_view(r.modules@) == pending_view(a.modules@) + pending_view(b.modules@),
        string_view(r.map) == (if a.map is Some {
            string_view(a.map)
        } else {
            string_view(b.map)
        }),
        r.extra_maps == a.extra_maps + b.extra_maps + (if a.map is Some && b.map is Some {
            1int
        } else {
            0
        }),
{
    lemma_scripts_add(front@, back@, |s: SourceView| is_classic(s));
    lemma_scripts_add(front@, back@, |s: SourceView| is_module(s));
    let x = maps_of(front@);
    let y = maps_of(back@);
    assert(maps_of(all@) == x + y);
    if x.len() > 0 {
        assert((x + y)[0] == x[0]);
    } else {
        assert(x + y =~= y);
    }
}

/// One element is a classic script, a module or a map, as it is classified, and
/// counts as nothing else.
pub proof fn law_one_element_is_one_script(
    one: &Vec<ScriptElement>,
    r: ScriptPlan,
    source: Option<Source>,
)
    requires
        one@.len() == 1,
        call_ensures(plan_scripts, (one,), r),
        call_ensures(classify, (&one@[0],), source),
    ensures
        pending_view(r.classic@) == (match source {
            Some(Source::Inline(t)) => seq![(one@[0].node, SourceView::Inline(t@))],
            Some(Source::External(t)) => seq![(one@[0].node, SourceView::External(t@))],
            _ => Seq::empty(),
        }),
        pending_view(r.modules@) == (match source {
            Some(Source::ModuleInline(t)) => seq![(one@[0].node, SourceView::ModuleInline(t@))],
            Some(Source::ModuleExternal(t)) => seq![(one@[0].node, SourceView::ModuleExternal(t@))],
            _ => Seq::empty(),
        }),
        string_view(r.map) == (match source {
            Some(Source::ImportMap(t)) => Some(t@),
            _ => None,
        }),
        r.extra_maps == 0,
{
    let e = one@;
    assert(e.drop_last() =~= Seq::empty());
    assert(e.last() == e[0]);
    let fc = |s: SourceView| is_classic(s);
    let fm = |s: SourceView| is_module(s);
    assert(scripts_where(e.drop_last(), fc) =~= Seq::empty());
    assert(scripts_where(e.drop_last(), fm) =~= Seq::empty());
    assert(maps_of(e.drop_last()) =~= Seq::empty());
    match source_of(e[0]) {
        Some(s) => {
            assert(Seq::<(usize, SourceView)>::empty().push((e[0].node, s)) =~= seq![
                (e[0].node, s),
            ]);
        },
        None => {},
    }
}

/// A script is taken exactly where its fetch did not fail and the server
/// answered in the two hundreds.
pub proof fn law_which_scripts_are_taken(url: &Url, outcome: &FetchOutcome, r: Option<String>)
    requires
        call_ensures(refuse_script, (url, outcome), r),
    ensures
        r is None <==> outcome@.error is None && outcome@.status is Some && 200
            <= outcome@.status->Some_0 <= 299,
        outcome@.error matches Some(e) ==> r is Some && r->Some_0@ == "could not load "@ + url@.href
            + ": "@ + e,
{
}

/// The script phase has its own time, twenty seconds where none is set, and
/// never more than is left. A script starts only before that has passed, and
/// settling gets what is left of it, or a second.
pub proof fn law_how_long_scripts_may_take(
    configured: Option<u64>,
    remaining: u64,
    elapsed: u64,
    budget: u64,
    starts: bool,
    rest: u64,
)
    requires
        call_ensures(phase_budget, (configured, remaining), budget),
        call_ensures(may_start, (elapsed, budget), starts),
        call_ensures(settle_budget, (elapsed, budget), rest),
    ensures
        budget <= remaining,
        configured matches Some(own) ==> budget <= own && (budget == own || budget == remaining),
        configured is None ==> budget <= 20_000 && (budget == 20_000 || budget == remaining),
        starts <==> elapsed < budget,
        rest >= 1000,
        elapsed + rest == budget || (rest == 1000 && elapsed + 1000 > budget),
{
}

/// A key is heard going down first and coming up last. Tab moves the focus and
/// nothing else does. A field is edited before the press is heard, and only a
/// field that takes text, by a key that edits. The press is heard where the key
/// types, and by anything that takes no text, but for the keys that move.
pub proof fn law_what_a_key_does(edit: KeyEdit, takes_text: bool, r: Vec<KeyAction>)
    requires
        call_ensures(key_plan, (edit, takes_text), r),
    ensures
        r@.len() >= 2,
        r@[0] is KeyDown,
        r@.last() is KeyUp,
        r@.contains(KeyAction::MoveFocus) <==> edit is FocusNext,
        r@.contains(KeyAction::Apply) <==> takes_text && edit is Edit,
        r@.contains(KeyAction::KeyPress) <==> (!takes_text && (edit is Ignore || edit is Edit)) || (
        takes_text && edit is Edit && edit->types),
        r@.no_duplicates(),
        forall|i: int, j: int|
            0 <= i < r@.len() && 0 <= j < r@.len() && (#[trigger] r@[i]) is Apply && (
            #[trigger] r@[j]) is KeyPress ==> i < j,
{
    let s = key_actions(edit, takes_text);
    assert(r@ == s);
    let n = s.len();
    assert(n <= 4);
    if n > 2 {
        assert(s.contains(s[1]));
    }
    if n > 3 {
        assert(s.contains(s[2]));
    }
    if s.contains(KeyAction::MoveFocus) {
        let i = choose|i: int| 0 <= i < s.len() && s[i] == KeyAction::MoveFocus;
    }
    if s.contains(KeyAction::Apply) {
        let i = choose|i: int| 0 <= i < s.len() && s[i] == KeyAction::Apply;
    }
    if s.contains(KeyAction::KeyPress) {
        let i = choose|i: int| 0 <= i < s.len() && s[i] == KeyAction::KeyPress;
    }
}

/// A key is reported to have changed something where it moved the focus, or in
/// a field that takes text where the text changed or the caret moves. `input`
/// is fired only where the text changed.
pub proof fn law_what_a_key_changes(
    edit: KeyEdit,
    takes_text: bool,
    moved: bool,
    changed: bool,
    r: bool,
    fires: bool,
)
    requires
        call_ensures(key_changed, (edit, takes_text, moved, changed), r),
        call_ensures(fires_input, (edit, takes_text, changed), fires),
    ensures
        edit is FocusNext ==> r == moved,
        edit is FocusPrevious ==> !r,
        !takes_text && !(edit is FocusNext) ==> !r,
        takes_text && (edit is Ignore || edit is Edit) && changed ==> r && fires,
        takes_text && edit is Edit && edit->moves ==> r,
        takes_text && !changed && (edit is Ignore || (edit is Edit && !edit->moves)) ==> !r,
        fires ==> takes_text && changed && (edit is Ignore || edit is Edit),
{
}

/// A page is told of its resources three times at most, the first time in any
/// case and again only as long as there was something to tell.
pub proof fn law_how_often_a_page_is_told(passes: usize, told: bool, r: bool)
    requires
        call_ensures(tells_again, (passes, told), r),
    ensures
        passes == 0 ==> r,
        passes == 1 || passes == 2 ==> r == told,
        passes >= 3 ==> !r,
{
}

/// A form is submitted after a click on a control that submits, unless the page
/// prevented the click or the submit. A page that has no handler for either
/// prevents neither.
pub proof fn law_what_a_click_submits(
    click: Option<bool>,
    submits: bool,
    form: Option<usize>,
    submit: Option<bool>,
    at: Option<usize>,
    goes: bool,
)
    requires
        call_ensures(submit_after_click, (click, submits, form), at),
        call_ensures(still_submits, (click, at is Some, submit), goes),
    ensures
        at is Some ==> at == form && submits && click != Some(false),
        submits && form is Some && click != Some(false) ==> at == form,
        click == Some(false) ==> at is None && !goes,
        click != Some(false) ==> (goes <==> !(at is Some && submit == Some(false))),
{
}

/// A wait is met by any match of a selector, and by any line that holds the
/// text.
pub proof fn law_what_a_wait_is_met_by(
    target: &WaitTarget,
    found: usize,
    lines: &Vec<String>,
    r: bool,
)
    requires
        call_ensures(wait_is_met, (target, found, lines), r),
    ensures
        *target is Selector ==> (r <==> found >= 1),
        *target matches WaitTarget::Text(needle) ==> (r <==> exists|i: int|
            0 <= i < lines@.len() && contains((#[trigger] lines@[i])@, needle@)),
{
    if let WaitTarget::Text(needle) = *target {
        let all = texts(lines@);
        if exists|i: int| 0 <= i < all.len() && contains(#[trigger] all[i], needle@) {
            let i = choose|i: int| 0 <= i < all.len() && contains(#[trigger] all[i], needle@);
            assert(contains(lines@[i]@, needle@));
        }
        if exists|i: int| 0 <= i < lines@.len() && contains((#[trigger] lines@[i])@, needle@) {
            let i = choose|i: int|
                0 <= i < lines@.len() && contains((#[trigger] lines@[i])@, needle@);
            assert(all[i] == lines@[i]@);
        }
    }
}

/// A page that was cut off, or that goes on by itself, is said to be so, and
/// no other.
pub proof fn law_when_a_page_is_unsettled(
    settled: &Option<Settled>,
    said: &str,
    r: Option<String>,
)
    requires
        call_ensures(unsettled_note, (settled, said), r),
    ensures
        r is Some <==> *settled is Some && (settled->Some_0.cut_off
            || settled->Some_0.periodic_timers >= 1),
        r is Some ==> r->Some_0@ == said@,
{
}

/// A module is fetched under `cors` for the document's own origin, and a
/// classic script without. Both are fetched for the document.
pub proof fn law_how_scripts_are_fetched(url: &Url, document: &Url, a: Fetch, b: Fetch)
    requires
        call_ensures(classic_fetch, (url, document), a),
        call_ensures(module_fetch, (url, document), b),
    ensures
        a.url@ == url@ && b.url@ == url@,
        a.initiator is Subresource && b.initiator is Subresource,
        a.method@ == "GET"@ && b.method@ == "GET"@,
        a.body@.len() == 0 && b.body@.len() == 0,
        a.document is Some && a.document->Some_0@ == document@,
        b.document is Some && b.document->Some_0@ == document@,
        a.cors is None,
        b.cors is Some && b.cors->Some_0@.document == crate::cors::origin_of(document@)
            && b.cors->Some_0@.mode is Cors && b.cors->Some_0@.credentials is SameOrigin
            && b.cors->Some_0@.headers.len() == 0,
{
}

/// A page needs a realm exactly where it has code to run or a handler in its
/// markup, and these are the handlers that are looked for.
pub proof fn law_which_pages_need_a_realm(plan: &ScriptPlan, handler: bool, code: bool, r: bool)
    requires
        call_ensures(ScriptPlan::has_code, (plan,), code),
        call_ensures(needs_realm, (code, handler), r),
    ensures
        r <==> plan.classic@.len() >= 1 || plan.modules@.len() >= 1 || handler,
        INLINE_HANDLER_SELECTOR@
            == "[onload],[onclick],[onerror],[onchange],[oninput],[onsubmit],[onfocus],[onblur],[onkeydown],[onkeyup],[onkeypress],[onmousedown],[onmouseup],[onmouseover],[onmouseout],[onmousemove],[ondblclick],[onscroll],[onselect],[onreset],[oncontextmenu],[onwheel],[ontoggle],[onpageshow],[onpagehide],[onhashchange],[onpopstate],[onresize],[onmessage],[onunload],[onbeforeunload],[onanimationend],[ontransitionend],[onpointerdown],[onpointerup]"@,
{
}

/// What is said of scripts that were passed over, and of maps that were: how
/// many, where there were any.
pub proof fn law_what_is_said_of_what_was_passed_over(
    skipped: usize,
    plan: &ScriptPlan,
    a: Option<String>,
    b: Option<String>,
)
    requires
        call_ensures(skipped_note, (skipped,), a),
        call_ensures(ScriptPlan::extra_note, (plan,), b),
    ensures
        a is Some <==> skipped >= 1,
        a is Some ==> a->Some_0@ == "this page's scripts took longer than 20s, so "@ + decimal(
            skipped as nat,
        ) + " of them were not run. What follows was rendered by the ones that finished."@,
        b is Some <==> plan.extra_maps >= 1,
        b is Some ==> b->Some_0@ == decimal(plan.extra_maps as nat)
            + " further import map(s) ignored: only the first in document order is used"@,
{
}

} // verus!
