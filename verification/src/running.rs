//! The script phase of a page, as a dialogue: [`Running`] says what is to be
//! done with the script realm, the caller does that and nothing else, and what
//! came of it is told back.
use vstd::prelude::*;

use crate::fetch::{context_view, Fetch, FetchOutcome};
use crate::passage::ContextView;
use crate::raw::{lossy, lossy_text};
use crate::receipt::Initiator;
use crate::scripts::{
    bad_source, classic_fetch, is_classic, is_module, may_start, module_fetch, needs_realm, pending_view,
    phase_budget, plan_scripts, refuse_script, script_refusal, scripts_where, settle_budget,
    skipped_note, trivially_settled, where_from, ScriptElement, ScriptPlan, Settled, Source, SourceView,
    SCRIPT_PHASE_BUDGET_MS,
};
use crate::text::{decimal, string_view};
use crate::url::{url_joined, url_option, Url, UrlView};

verus! {

/// What the caller is to do next.
#[derive(Debug, PartialEq, Eq)]
pub enum Task {
    /// Build the script realm.
    Build,
    /// Give the module loader its map.
    ImportMap(String),
    /// Put an error on the page's console.
    Note(String),
    /// Remember that a script did not run, and put an error on the console.
    NoteUnrun { script: String, error: String },
    /// Make the ids of the document global names.
    InstallNames,
    /// Start the clock, and say how much of the navigation is left.
    Start,
    /// Say how long the phase has taken.
    Clock,
    /// Fetch a script. One that is heard of goes into the log of the page's
    /// resources.
    Fetch { fetch: Fetch, heard: bool },
    /// Run a classic script as that of its element.
    Eval { node: usize, code: String, name: String },
    /// No script is the current one any more. Say how long the phase has taken.
    EndClassic,
    /// Give the realm this long for its jobs.
    JobBudget(u64),
    /// Run a module under its address.
    EvalModule { code: String, path: String },
    /// Tell the page that it is loaded.
    FireLifecycle,
    /// Let the page settle.
    Settle,
    /// The phase is over.
    Finished,
    /// There was nothing to run, and no realm was built: the page is as settled
    /// as this says.
    Nothing(Settled),
    /// There is no realm, and the page cannot be opened.
    Failed(String),
}

/// What came of the last task.
#[derive(Debug, PartialEq, Eq)]
pub enum Report {
    Built(Result<(), String>),
    Done,
    Ran(Result<(), String>),
    Started { remaining_ms: u64 },
    Elapsed(u64),
    Fetched(FetchOutcome),
}

/// How far the phase has come.
#[derive(Debug, PartialEq, Eq)]
pub enum Point {
    /// The realm is being built.
    Realm,
    /// The import map was handed over.
    Mapped,
    /// The maps that are ignored were spoken of.
    Extra,
    /// The names are being installed.
    Names,
    /// That they could not be was noted.
    Named,
    /// The clock is being started.
    Start,
    /// A classic script is next, if there is time.
    Classic(usize),
    /// It is being fetched.
    ClassicFetch { index: usize, url: Url },
    /// It is running.
    ClassicEval(usize),
    /// It is over.
    ClassicOver(usize),
    /// Every classic script had its turn.
    Between,
    /// The jobs have their budget.
    Jobs,
    Module(usize),
    ModuleFetch { index: usize, url: Url },
    ModuleEval(usize),
    ModuleOver(usize),
    /// The page is being told that it is loaded.
    Lifecycle,
    /// That it could not be was noted.
    Fired,
    /// The page is settling.
    Settling,
    /// The scripts that were skipped were spoken of.
    Last,
    Over,
}

/// The script phase of a page.
#[derive(Debug, PartialEq, Eq)]
pub struct Running {
    pub plan: ScriptPlan,
    pub document: Url,
    /// A ceiling of the caller's own.
    pub configured_ms: Option<u64>,
    /// What the phase may take, once the clock runs.
    pub budget_ms: u64,
    /// The scripts there was no time for.
    pub skipped: usize,
    pub at: Point,
}

impl Running {
    /// What holds of every script phase.
    pub open spec fn wf(self) -> bool {
        let classic = self.plan.classic@.len();
        let modules = self.plan.modules@.len();
        &&& classic + modules <= usize::MAX
        &&& forall|i: int|
            0 <= i < classic ==> is_classic(#[trigger] self.plan.classic@[i].source@)
        &&& forall|i: int| 0 <= i < modules ==> is_module(#[trigger] self.plan.modules@[i].source@)
        &&& match self.at {
            Point::Classic(i) => i < classic && self.skipped <= i,
            Point::ClassicFetch { index, .. } => index < classic && self.skipped <= index
                && self.plan.classic@[index as int].source is External,
            Point::ClassicEval(i) => i < classic && self.skipped <= i,
            Point::ClassicOver(i) => i < classic && self.skipped <= i,
            Point::Between => self.skipped <= classic,
            Point::Jobs => self.skipped <= classic,
            Point::Module(i) => i < modules && self.skipped <= classic + i,
            Point::ModuleFetch { index, .. } => index < modules && self.skipped <= classic + index
                && self.plan.modules@[index as int].source is ModuleExternal,
            Point::ModuleEval(i) => i < modules && self.skipped <= classic + i,
            Point::ModuleOver(i) => i < modules && self.skipped <= classic + i,
            Point::Lifecycle => true,
            Point::Fired => true,
            Point::Settling => true,
            Point::Last => true,
            Point::Over => true,
            _ => self.skipped == 0,
        }
    }

    /// Whether the report is the one that is waited for.
    pub open spec fn awaits(self, report: Report) -> bool {
        match self.at {
            Point::Realm => report is Built,
            Point::Names => report is Ran,
            Point::Start => report is Started,
            Point::Classic(_) => report is Elapsed,
            Point::ClassicFetch { .. } => report is Fetched,
            Point::ClassicEval(_) => report is Ran,
            Point::Between => report is Elapsed,
            Point::Module(_) => report is Elapsed,
            Point::ModuleFetch { .. } => report is Fetched,
            Point::ModuleEval(_) => report is Ran,
            Point::Lifecycle => report is Ran,
            Point::Over => false,
            _ => report is Done,
        }
    }
}

/// Everything but how far it has come.
pub open spec fn same_page(a: Running, b: Running) -> bool {
    a.plan == b.plan && a.document == b.document && a.configured_ms == b.configured_ms
}

/// Everything but the point.
pub open spec fn unmoved(a: Running, b: Running) -> bool {
    same_page(a, b) && a.budget_ms == b.budget_ms && a.skipped == b.skipped
}

/// What is next among the classic scripts: the one at `i`, or what stands
/// between them and the modules.
pub open spec fn to_classic(p: ScriptPlan, i: int, at: Point, task: Task) -> bool {
    if i < p.classic@.len() {
        at == Point::Classic(i as usize) && task is Clock
    } else {
        at is Between && task is EndClassic
    }
}

/// What is next among the modules: the one at `i`, or the end of the load.
pub open spec fn to_module(p: ScriptPlan, i: int, at: Point, task: Task) -> bool {
    if i < p.modules@.len() {
        at == Point::Module(i as usize) && task is Clock
    } else {
        at is Lifecycle && task is FireLifecycle
    }
}

/// What the classic script at `i` is called.
pub open spec fn name_of(p: ScriptPlan, i: int) -> Seq<char> {
    match p.classic@[i].source@ {
        SourceView::External(src) => src,
        _ => "inline script #"@ + decimal((i + 1) as nat),
    }
}

/// What the turn of a classic script comes to, where there is time for it.
pub open spec fn classic_turn(r: Running, i: int, at: Point, task: Task) -> bool {
    match r.plan.classic@[i].source@ {
        SourceView::External(src) => match url_joined(r.document@.href, src) {
            Err(_) => {
                &&& at == Point::ClassicOver(i as usize)
                &&& task matches Task::Note(note) && note@ == "script src `"@ + src
                    + "` is not a URL"@
            },
            Ok(to) => {
                &&& at matches Point::ClassicFetch { index, url } && index == i && url@ == to
                &&& task matches Task::Fetch { fetch, heard } && heard
                    && fetches_classic(fetch, to, r.document@)
            },
        },
        SourceView::Inline(text) => {
            &&& at == Point::ClassicEval(i as usize)
            &&& task matches Task::Eval { node, code, name } && node == r.plan.classic@[i].node
                && code@ == text && name@ == name_of(r.plan, i)
        },
        _ => false,
    }
}

/// A classic script is fetched for the document, and may come from anywhere.
pub open spec fn fetches_classic(f: Fetch, url: UrlView, document: UrlView) -> bool {
    &&& f.url@ == url
    &&& f.initiator == Initiator::Subresource
    &&& f.method@ == "GET"@
    &&& f.body@.len() == 0
    &&& f.content_type is None
    &&& f.headers@.len() == 0
    &&& f.max_redirects is None
    &&& url_option(f.document) == Some(document)
    &&& f.cors is None
}

/// A module is fetched for the document, and asks the server across origins.
pub open spec fn fetches_module(f: Fetch, url: UrlView, document: UrlView) -> bool {
    &&& f.url@ == url
    &&& f.initiator == Initiator::Subresource
    &&& f.method@ == "GET"@
    &&& f.body@.len() == 0
    &&& f.content_type is None
    &&& f.headers@.len() == 0
    &&& f.max_redirects is None
    &&& url_option(f.document) == Some(document)
    &&& context_view(f.cors) == Some(
        ContextView {
            document: crate::cors::origin_of(document),
            headers: Seq::empty(),
            mode: crate::cors::Mode::Cors,
            credentials: crate::cors::Credentials::SameOrigin,
        },
    )
}

/// What the turn of a module comes to, where there is time for it.
pub open spec fn module_turn(r: Running, i: int, at: Point, task: Task) -> bool {
    match r.plan.modules@[i].source@ {
        SourceView::ModuleExternal(src) => match url_joined(r.document@.href, src) {
            Err(_) => {
                &&& at == Point::ModuleOver(i as usize)
                &&& task matches Task::Note(note) && note@ == "module src `"@ + src
                    + "` is not a URL"@
            },
            Ok(to) => {
                &&& at matches Point::ModuleFetch { index, url } && index == i && url@ == to
                &&& task matches Task::Fetch { fetch, heard } && !heard
                    && fetches_module(fetch, to, r.document@)
            },
        },
        SourceView::ModuleInline(text) => {
            &&& at == Point::ModuleEval(i as usize)
            &&& task matches Task::EvalModule { code, path } && code@ == text && path@
                == r.document@.href
        },
        _ => false,
    }
}

/// What one report leads to.
pub open spec fn runs(pre: Running, report: Report, post: Running, task: Task) -> bool {
    match (pre.at, report) {
        (Point::Realm, Report::Built(r)) => unmoved(pre, post) && match r {
            Err(e) => post.at is Over && (task matches Task::Failed(why) && why@ == e@),
            Ok(()) => match string_view(pre.plan.map) {
                Some(map) => post.at is Mapped && (task matches Task::ImportMap(text) && text@
                    == map),
                None => post.at is Names && task is InstallNames,
            },
        },
        (Point::Mapped, Report::Done) => unmoved(pre, post) && if pre.plan.extra_maps > 0 {
            post.at is Extra && (task matches Task::Note(note) && note@ == decimal(
                pre.plan.extra_maps as nat,
            ) + " further import map(s) ignored: only the first in document order is used"@)
        } else {
            post.at is Names && task is InstallNames
        },
        (Point::Extra, Report::Done) => unmoved(pre, post) && post.at is Names && task
            is InstallNames,
        (Point::Names, Report::Ran(r)) => unmoved(pre, post) && match r {
            Err(e) => post.at is Named && (task matches Task::Note(note) && note@
                == "named access could not be installed: "@ + e@),
            Ok(()) => post.at is Start && task is Start,
        },
        (Point::Named, Report::Done) => unmoved(pre, post) && post.at is Start && task is Start,
        (Point::Start, Report::Started { remaining_ms }) => {
            let own = match pre.configured_ms {
                Some(b) => b,
                None => SCRIPT_PHASE_BUDGET_MS,
            };
            &&& same_page(pre, post)
            &&& post.skipped == pre.skipped
            &&& post.budget_ms == (if own < remaining_ms {
                own
            } else {
                remaining_ms
            })
            &&& to_classic(pre.plan, 0, post.at, task)
        },
        (Point::Classic(i), Report::Elapsed(ms)) => if ms >= pre.budget_ms {
            &&& same_page(pre, post)
            &&& post.budget_ms == pre.budget_ms
            &&& post.skipped == pre.skipped + 1
            &&& to_classic(pre.plan, i + 1, post.at, task)
        } else {
            unmoved(pre, post) && classic_turn(pre, i as int, post.at, task)
        },
        (Point::ClassicFetch { index, url }, Report::Fetched(outcome)) => unmoved(pre, post)
            && match script_refusal(url@.href, outcome@) {
            Some(why) => {
                &&& post.at == Point::ClassicOver(index)
                &&& task matches Task::NoteUnrun { script, error } && script@ == url@.href
                    && error@ == why
            },
            None => {
                &&& post.at == Point::ClassicEval(index)
                &&& task matches Task::Eval { node, code, name } && node
                    == pre.plan.classic@[index as int].node && code@ == lossy_text(outcome@.body)
                    && name@ == name_of(pre.plan, index as int)
            },
        },
        (Point::ClassicEval(i), Report::Ran(r)) => unmoved(pre, post) && match r {
            Err(e) => {
                &&& post.at == Point::ClassicOver(i)
                &&& task matches Task::NoteUnrun { script, error } && script@ == name_of(
                    pre.plan,
                    i as int,
                ) && error@ == name_of(pre.plan, i as int) + ": "@ + e@
            },
            Ok(()) => to_classic(pre.plan, i + 1, post.at, task),
        },
        (Point::ClassicOver(i), Report::Done) => unmoved(pre, post) && to_classic(
            pre.plan,
            i + 1,
            post.at,
            task,
        ),
        (Point::Between, Report::Elapsed(ms)) => unmoved(pre, post) && post.at is Jobs && (
        task matches Task::JobBudget(b) && b == (if pre.budget_ms >= ms + 1000 {
            pre.budget_ms - ms
        } else {
            1000
        })),
        (Point::Jobs, Report::Done) => unmoved(pre, post) && to_module(
            pre.plan,
            0,
            post.at,
            task,
        ),
        (Point::Module(i), Report::Elapsed(ms)) => if ms >= pre.budget_ms {
            &&& same_page(pre, post)
            &&& post.budget_ms == pre.budget_ms
            &&& post.skipped == pre.skipped + 1
            &&& to_module(pre.plan, i + 1, post.at, task)
        } else {
            unmoved(pre, post) && module_turn(pre, i as int, post.at, task)
        },
        (Point::ModuleFetch { index, url }, Report::Fetched(outcome)) => unmoved(pre, post)
            && match script_refusal(url@.href, outcome@) {
            Some(why) => {
                &&& post.at == Point::ModuleOver(index)
                &&& task matches Task::Note(note) && note@ == why
            },
            None => {
                &&& post.at == Point::ModuleEval(index)
                &&& task matches Task::EvalModule { code, path } && code@ == lossy_text(
                    outcome@.body,
                ) && path@ == outcome@.final_url.href
            },
        },
        (Point::ModuleEval(i), Report::Ran(r)) => unmoved(pre, post) && match r {
            Err(e) => post.at == Point::ModuleOver(i) && (task matches Task::Note(note) && note@
                == e@),
            Ok(()) => to_module(pre.plan, i + 1, post.at, task),
        },
        (Point::ModuleOver(i), Report::Done) => unmoved(pre, post) && to_module(
            pre.plan,
            i + 1,
            post.at,
            task,
        ),
        (Point::Lifecycle, Report::Ran(r)) => unmoved(pre, post) && match r {
            Err(e) => post.at is Fired && (task matches Task::Note(note) && note@
                == "the load lifecycle could not be fired: "@ + e@),
            Ok(()) => post.at is Settling && task is Settle,
        },
        (Point::Fired, Report::Done) => unmoved(pre, post) && post.at is Settling && task
            is Settle,
        (Point::Settling, Report::Done) => unmoved(pre, post) && if pre.skipped > 0 {
            post.at is Last && (task matches Task::Note(note) && note@
                == "this page's scripts took longer than 20s, so "@ + decimal(pre.skipped as nat)
                + " of them were not run. What follows was rendered by the ones that finished."@)
        } else {
            post.at is Over && task is Finished
        },
        (Point::Last, Report::Done) => unmoved(pre, post) && post.at is Over && task is Finished,
        _ => false,
    }
}

/// Goes on to the classic script at `i`.
fn on_to_classic(p: &ScriptPlan, i: usize) -> (r: (Point, Task))
    ensures
        to_classic(*p, i as int, r.0, r.1),
{
    if i < p.classic.len() {
        (Point::Classic(i), Task::Clock)
    } else {
        (Point::Between, Task::EndClassic)
    }
}

/// Goes on to the module at `i`.
fn on_to_module(p: &ScriptPlan, i: usize) -> (r: (Point, Task))
    ensures
        to_module(*p, i as int, r.0, r.1),
{
    if i < p.modules.len() {
        (Point::Module(i), Task::Clock)
    } else {
        (Point::Lifecycle, Task::FireLifecycle)
    }
}

/// Takes the turn of the classic script at `i`.
fn take_classic(r: &Running, i: usize) -> (s: (Point, Task))
    requires
        r.wf(),
        i < r.plan.classic@.len(),
    ensures
        classic_turn(*r, i as int, s.0, s.1),
        s.0 is ClassicFetch ==> r.plan.classic@[i as int].source is External,
{
    let pending = &r.plan.classic[i];
    let name = where_from(&pending.source, i);
    assert(is_classic(r.plan.classic@[i as int].source@));
    match &pending.source {
        Source::External(src) => match r.document.join(src) {
            Err(_) => (Point::ClassicOver(i), Task::Note(bad_source(false, src))),
            Ok(url) => {
                let fetch = classic_fetch(&url, &r.document);
                (Point::ClassicFetch { index: i, url }, Task::Fetch { fetch, heard: true })
            },
        },
        Source::Inline(text) => (
            Point::ClassicEval(i),
            Task::Eval { node: pending.node, code: text.clone(), name },
        ),
        _ => {
            assert(false);
            (Point::Over, Task::Finished)
        },
    }
}

/// Takes the turn of the module at `i`.
fn take_module(r: &Running, i: usize) -> (s: (Point, Task))
    requires
        r.wf(),
        i < r.plan.modules@.len(),
    ensures
        module_turn(*r, i as int, s.0, s.1),
        s.0 is ModuleFetch ==> r.plan.modules@[i as int].source is ModuleExternal,
{
    let pending = &r.plan.modules[i];
    assert(is_module(r.plan.modules@[i as int].source@));
    match &pending.source {
        Source::ModuleExternal(src) => match r.document.join(src) {
            Err(_) => (Point::ModuleOver(i), Task::Note(bad_source(true, src))),
            Ok(url) => {
                let fetch = module_fetch(&url, &r.document);
                (Point::ModuleFetch { index: i, url }, Task::Fetch { fetch, heard: false })
            },
        },
        Source::ModuleInline(text) => (
            Point::ModuleEval(i),
            Task::EvalModule { code: text.clone(), path: r.document.href.clone() },
        ),
        _ => {
            assert(false);
            (Point::Over, Task::Finished)
        },
    }
}

/// Every script of a list is of the kind that the list is of.
proof fn lemma_kinds(es: Seq<ScriptElement>, f: spec_fn(SourceView) -> bool)
    ensures
        forall|i: int|
            0 <= i < scripts_where(es, f).len() ==> f((#[trigger] scripts_where(es, f)[i]).1),
    decreases es.len(),
{
    if es.len() > 0 {
        lemma_kinds(es.drop_last(), f);
        let before = scripts_where(es.drop_last(), f);
        assert forall|i: int| 0 <= i < scripts_where(es, f).len() implies f(
            (#[trigger] scripts_where(es, f)[i]).1,
        ) by {
            if i < before.len() {
                assert(scripts_where(es, f)[i] == before[i]);
            }
        }
    }
}

fn reported(what: &str, e: &str) -> (r: String)
    ensures
        r@ == what@ + e@,
{
    let mut note = what.to_owned();
    note.append(e);
    note
}

impl Running {
    /// The script phase of a page with these script elements. Nothing to run
    /// means nothing to build: a realm is not free.
    pub fn begin(
        elements: &Vec<ScriptElement>,
        document: &Url,
        configured_ms: Option<u64>,
        has_inline_handler: bool,
    ) -> (r: (Running, Task))
        ensures
            r.0.wf(),
            pending_view(r.0.plan.classic@) == scripts_where(
                elements@,
                |s: SourceView| is_classic(s),
            ),
            pending_view(r.0.plan.modules@) == scripts_where(
                elements@,
                |s: SourceView| is_module(s),
            ),
            string_view(r.0.plan.map) == (if crate::scripts::maps_of(elements@).len() > 0 {
                Some(crate::scripts::maps_of(elements@)[0])
            } else {
                None
            }),
            r.0.plan.extra_maps == (if crate::scripts::maps_of(elements@).len() > 0 {
                crate::scripts::maps_of(elements@).len() - 1
            } else {
                0
            }),
            r.0.document@ == document@,
            r.0.configured_ms == configured_ms,
            r.0.skipped == 0,
            if r.0.plan.classic@.len() > 0 || r.0.plan.modules@.len() > 0 || has_inline_handler {
                r.0.at is Realm && r.1 is Build
            } else {
                r.0.at is Over && r.1 == Task::Nothing(trivially_settled())
            },
    {
        let plan = plan_scripts(elements);
        proof {
            assert(elements.len() <= usize::MAX);
            let fc = |s: SourceView| is_classic(s);
            let fm = |s: SourceView| is_module(s);
            lemma_kinds(elements@, fc);
            lemma_kinds(elements@, fm);
            assert forall|i: int| 0 <= i < plan.classic@.len() implies is_classic(
                #[trigger] plan.classic@[i].source@,
            ) by {
                assert(pending_view(plan.classic@)[i].1 == plan.classic@[i].source@);
                assert(fc(scripts_where(elements@, fc)[i].1));
            }
            assert forall|i: int| 0 <= i < plan.modules@.len() implies is_module(
                #[trigger] plan.modules@[i].source@,
            ) by {
                assert(pending_view(plan.modules@)[i].1 == plan.modules@[i].source@);
                assert(fm(scripts_where(elements@, fm)[i].1));
            }
        }
        let (at, task) = if needs_realm(plan.has_code(), has_inline_handler) {
            (Point::Realm, Task::Build)
        } else {
            (Point::Over, Task::Nothing(Settled::trivial()))
        };
        (
            Running {
                plan,
                document: document.copy(),
                configured_ms,
                budget_ms: 0,
                skipped: 0,
                at,
            },
            task,
        )
    }

    /// Takes what came of the last task, and says what is next.
    pub fn next(self, report: Report) -> (r: (Running, Task))
        requires
            self.wf(),
            self.awaits(report),
        ensures
            r.0.wf(),
            runs(self, report, r.0, r.1),
    {
        let mut budget_ms = self.budget_ms;
        let mut skipped = self.skipped;
        let (at, task) = match (&self.at, report) {
            (Point::Realm, Report::Built(built)) => match built {
                Err(e) => (Point::Over, Task::Failed(e)),
                Ok(()) => match &self.plan.map {
                    Some(map) => (Point::Mapped, Task::ImportMap(map.clone())),
                    None => (Point::Names, Task::InstallNames),
                },
            },
            (Point::Mapped, _) => match self.plan.extra_note() {
                Some(note) => (Point::Extra, Task::Note(note)),
                None => (Point::Names, Task::InstallNames),
            },
            (Point::Extra, _) => (Point::Names, Task::InstallNames),
            (Point::Names, Report::Ran(ran)) => match ran {
                Err(e) => (
                    Point::Named,
                    Task::Note(reported("named access could not be installed: ", &e)),
                ),
                Ok(()) => (Point::Start, Task::Start),
            },
            (Point::Named, _) => (Point::Start, Task::Start),
            (Point::Start, Report::Started { remaining_ms }) => {
                budget_ms = phase_budget(self.configured_ms, remaining_ms);
                on_to_classic(&self.plan, 0)
            },
            (Point::Classic(i), Report::Elapsed(ms)) => {
                if !may_start(ms, self.budget_ms) {
                    skipped = skipped + 1;
                    on_to_classic(&self.plan, *i + 1)
                } else {
                    take_classic(&self, *i)
                }
            },
            (Point::ClassicFetch { index, url }, Report::Fetched(outcome)) => {
                match refuse_script(url, &outcome) {
                    Some(why) => (
                        Point::ClassicOver(*index),
                        Task::NoteUnrun { script: url.href.clone(), error: why },
                    ),
                    None => {
                        let pending = &self.plan.classic[*index];
                        let name = where_from(&pending.source, *index);
                        let code = lossy(outcome.body.as_slice());
                        (
                            Point::ClassicEval(*index),
                            Task::Eval { node: pending.node, code, name },
                        )
                    },
                }
            },
            (Point::ClassicEval(i), Report::Ran(ran)) => match ran {
                Err(e) => {
                    let script = where_from(&self.plan.classic[*i].source, *i);
                    let mut error = script.clone();
                    error.append(": ");
                    error.append(&e);
                    (Point::ClassicOver(*i), Task::NoteUnrun { script, error })
                },
                Ok(()) => on_to_classic(&self.plan, *i + 1),
            },
            (Point::ClassicOver(i), _) => on_to_classic(&self.plan, *i + 1),
            (Point::Between, Report::Elapsed(ms)) => (
                Point::Jobs,
                Task::JobBudget(settle_budget(ms, self.budget_ms)),
            ),
            (Point::Jobs, _) => on_to_module(&self.plan, 0),
            (Point::Module(i), Report::Elapsed(ms)) => {
                if !may_start(ms, self.budget_ms) {
                    skipped = skipped + 1;
                    on_to_module(&self.plan, *i + 1)
                } else {
                    take_module(&self, *i)
                }
            },
            (Point::ModuleFetch { index, url }, Report::Fetched(outcome)) => {
                match refuse_script(url, &outcome) {
                    Some(why) => (Point::ModuleOver(*index), Task::Note(why)),
                    None => {
                        let code = lossy(outcome.body.as_slice());
                        let path = outcome.final_url.href.clone();
                        (Point::ModuleEval(*index), Task::EvalModule { code, path })
                    },
                }
            },
            (Point::ModuleEval(i), Report::Ran(ran)) => match ran {
                Err(e) => (Point::ModuleOver(*i), Task::Note(e)),
                Ok(()) => on_to_module(&self.plan, *i + 1),
            },
            (Point::ModuleOver(i), _) => on_to_module(&self.plan, *i + 1),
            (Point::Lifecycle, Report::Ran(ran)) => match ran {
                Err(e) => (
                    Point::Fired,
                    Task::Note(reported("the load lifecycle could not be fired: ", &e)),
                ),
                Ok(()) => (Point::Settling, Task::Settle),
            },
            (Point::Fired, _) => (Point::Settling, Task::Settle),
            (Point::Settling, _) => match skipped_note(self.skipped) {
                Some(note) => (Point::Last, Task::Note(note)),
                None => (Point::Over, Task::Finished),
            },
            (Point::Last, _) => (Point::Over, Task::Finished),
            _ => {
                assert(false);
                (Point::Over, Task::Finished)
            },
        };
        let Running { plan, document, configured_ms, .. } = self;
        (Running { plan, document, configured_ms, budget_ms, skipped, at }, task)
    }
}

// --------------------------------------------------------------------- laws

/// How much of the phase may be left: the stages in their order, and within
/// the two lists the scripts in theirs.
pub open spec fn left(r: Running) -> int {
    let classic = r.plan.classic@.len() as int;
    let modules = r.plan.modules@.len() as int;
    match r.at {
        Point::Realm => 16 + 4 * modules + 4 * classic,
        Point::Mapped => 15 + 4 * modules + 4 * classic,
        Point::Extra => 14 + 4 * modules + 4 * classic,
        Point::Names => 13 + 4 * modules + 4 * classic,
        Point::Named => 12 + 4 * modules + 4 * classic,
        Point::Start => 11 + 4 * modules + 4 * classic,
        Point::Classic(i) => 10 + 4 * modules + 4 * (classic - i),
        Point::ClassicFetch { index, .. } => 9 + 4 * modules + 4 * (classic - index),
        Point::ClassicEval(i) => 8 + 4 * modules + 4 * (classic - i),
        Point::ClassicOver(i) => 7 + 4 * modules + 4 * (classic - i),
        Point::Between => 9 + 4 * modules,
        Point::Jobs => 8 + 4 * modules,
        Point::Module(i) => 7 + 4 * (modules - i),
        Point::ModuleFetch { index, .. } => 6 + 4 * (modules - index),
        Point::ModuleEval(i) => 5 + 4 * (modules - i),
        Point::ModuleOver(i) => 4 + 4 * (modules - i),
        Point::Lifecycle => 4int,
        Point::Fired => 3,
        Point::Settling => 2,
        Point::Last => 1,
        Point::Over => 0,
    }
}

/// Every script phase comes to an end: each turn leaves less of it.
pub proof fn law_every_script_phase_ends(pre: Running, report: Report, post: Running, task: Task)
    requires
        pre.wf(),
        runs(pre, report, post, task),
    ensures
        0 <= left(post) < left(pre),
        (task is Finished || task is Failed) <==> post.at is Over,
{
}

/// Whether the classic scripts have all had their turn.
pub open spec fn past_classic(at: Point) -> bool {
    at is Jobs || at is Module || at is ModuleFetch || at is ModuleEval || at is ModuleOver || at
        is Lifecycle || at is Fired || at is Settling || at is Last
}

/// Modules come after every classic script, whatever their order in the
/// markup: a module runs only once the classic ones have all had their turn,
/// and after that no classic script runs.
pub proof fn law_modules_come_after_classic_scripts(
    pre: Running,
    report: Report,
    post: Running,
    task: Task,
)
    requires
        pre.wf(),
        runs(pre, report, post, task),
    ensures
        task is EvalModule ==> past_classic(pre.at),
        task is Eval ==> !past_classic(pre.at),
        past_classic(pre.at) && !(post.at is Over) ==> past_classic(post.at),
        past_classic(post.at) && !past_classic(pre.at) ==> pre.at is Between,
        post.at is Between ==> (pre.at matches Point::Classic(i) && i + 1
            >= pre.plan.classic@.len()) || (pre.at matches Point::ClassicEval(i) && i + 1
            >= pre.plan.classic@.len()) || (pre.at matches Point::ClassicOver(i) && i + 1
            >= pre.plan.classic@.len()) || (pre.at is Start && pre.plan.classic@.len() == 0),
{
}

/// Nothing is started past the budget: a script whose turn comes too late is
/// counted, and neither fetched nor run.
pub proof fn law_nothing_starts_past_the_budget(
    pre: Running,
    elapsed_ms: u64,
    post: Running,
    task: Task,
)
    requires
        pre.at is Classic || pre.at is Module,
        elapsed_ms >= pre.budget_ms,
        runs(pre, Report::Elapsed(elapsed_ms), post, task),
    ensures
        !(task is Eval) && !(task is EvalModule) && !(task is Fetch),
        post.skipped == pre.skipped + 1,
{
}

/// An error page is not a script: what was not fetched, or came with another
/// status than success, is spoken of and not run.
pub proof fn law_an_error_page_is_not_run(
    pre: Running,
    outcome: FetchOutcome,
    post: Running,
    task: Task,
)
    requires
        runs(pre, Report::Fetched(outcome), post, task),
        outcome@.error is Some || outcome@.status is None || !(200 <= outcome@.status->Some_0
            < 300),
    ensures
        task is NoteUnrun || task is Note,
{
}

/// A script phase goes on as long as there is a script left, classic ones
/// first and in order, then modules: after one comes the next, whether it ran,
/// failed or was passed over.
pub proof fn law_scripts_come_one_after_the_other(running: Running, report: Report, r: (Running, Task))
    requires
        running.wf(),
        running.awaits(report),
        call_ensures(Running::next, (running, report), r),
    ensures
        ({
            let classic = running.plan.classic@.len();
            let modules = running.plan.modules@.len();
            let ran = report matches Report::Ran(Ok(_));
            &&& running.at matches Point::ClassicEval(i) ==> ran ==> if i + 1 < classic {
                r.0.at == Point::Classic((i + 1) as usize) && r.1 is Clock
            } else {
                r.0.at is Between && r.1 is EndClassic
            }
            &&& running.at matches Point::ClassicOver(i) ==> if i + 1 < classic {
                r.0.at == Point::Classic((i + 1) as usize)
            } else {
                r.0.at is Between
            }
            &&& running.at matches Point::ModuleEval(i) ==> ran ==> if i + 1 < modules {
                r.0.at == Point::Module((i + 1) as usize) && r.1 is Clock
            } else {
                r.0.at is Lifecycle && r.1 is FireLifecycle
            }
            &&& running.at matches Point::ModuleOver(i) ==> if i + 1 < modules {
                r.0.at == Point::Module((i + 1) as usize)
            } else {
                r.0.at is Lifecycle
            }
            &&& running.at is Start ==> if classic > 0 {
                r.0.at == Point::Classic(0)
            } else {
                r.0.at is Between
            }
            &&& running.at is Jobs ==> if modules > 0 {
                r.0.at == Point::Module(0)
            } else {
                r.0.at is Lifecycle
            }
        }),
        r.0.plan == running.plan,
        r.0.document == running.document,
{
}

/// A script is passed over exactly where the time of the phase has passed when
/// its turn comes, and each one that is passed over is counted.
pub proof fn law_which_scripts_are_passed_over(running: Running, report: Report, r: (Running, Task))
    requires
        running.wf(),
        running.awaits(report),
        call_ensures(Running::next, (running, report), r),
    ensures
        ({
            let turn = running.at is Classic || running.at is Module;
            let late = report matches Report::Elapsed(ms) && ms >= running.budget_ms;
            &&& turn && late ==> r.0.skipped == running.skipped + 1 && !(r.1 is Eval) && !(r.1
                is EvalModule) && !(r.1 is Fetch)
            &&& !(turn && late) ==> r.0.skipped == running.skipped
        }),
        running.at is Start && report is Started ==> {
            let own = if running.configured_ms is Some {
                running.configured_ms->Some_0
            } else {
                20_000
            };
            r.0.budget_ms <= own && r.0.budget_ms <= report->remaining_ms && (r.0.budget_ms == own
                || r.0.budget_ms == report->remaining_ms)
        },
        !(running.at is Start) ==> r.0.budget_ms == running.budget_ms,
{
}

/// What is run at a script's turn is its own text, or what was fetched from its
/// own address, completed by the document's, and only where the server answered
/// in the two hundreds.
pub proof fn law_what_code_is_run(running: Running, report: Report, r: (Running, Task))
    requires
        running.wf(),
        running.awaits(report),
        call_ensures(Running::next, (running, report), r),
    ensures
        r.1 matches Task::Eval { node, code, .. } ==> (running.at matches Point::Classic(i)
            && running.plan.classic@[i as int].source@ == SourceView::Inline(code@) && node
            == running.plan.classic@[i as int].node) || (running.at matches Point::ClassicFetch {
            index,
            ..
        } && node == running.plan.classic@[index as int].node && report is Fetched && code@
            == lossy_text(report->Fetched_0@.body) && report->Fetched_0@.error is None
            && report->Fetched_0@.status is Some && 200 <= report->Fetched_0@.status->Some_0 <= 299),
        r.1 matches Task::EvalModule { code, path } ==> (running.at matches Point::Module(i)
            && running.plan.modules@[i as int].source@ == SourceView::ModuleInline(code@) && path@
            == running.document@.href) || (running.at is ModuleFetch && report is Fetched && code@
            == lossy_text(report->Fetched_0@.body) && path@ == report->Fetched_0@.final_url.href
            && report->Fetched_0@.error is None && report->Fetched_0@.status is Some && 200
            <= report->Fetched_0@.status->Some_0 <= 299),
        r.1 matches Task::Fetch { fetch, heard } ==> {
            &&& fetch.document is Some && fetch.document->Some_0@ == running.document@
            &&& fetch.initiator is Subresource
            &&& fetch.method@ == "GET"@
            &&& heard <==> running.at is Classic
            &&& fetch.cors is Some <==> running.at is Module
        },
{
}

/// What a script phase does besides: an import map goes in before any script
/// where there is one, the lifecycle fires once after the last, and the page
/// settles after that.
pub proof fn law_what_surrounds_the_scripts(running: Running, report: Report, r: (Running, Task))
    requires
        running.wf(),
        running.awaits(report),
        call_ensures(Running::next, (running, report), r),
    ensures
        r.1 is Failed <==> (running.at is Realm && (report matches Report::Built(Err(_)))),
        running.at is Realm && (report matches Report::Built(Ok(_))) ==> (r.1 is ImportMap
            <==> running.plan.map is Some) && (r.1 is InstallNames <==> running.plan.map is None),
        r.1 is Settle ==> running.at is Lifecycle || running.at is Fired,
        r.1 is Finished <==> (running.at is Settling && running.skipped == 0) || running.at is Last,
        r.0.at is Over <==> r.1 is Finished || r.1 is Failed,
        running.at is Settling && running.skipped > 0 ==> r.1 is Note,
        running.at is Mapped ==> (r.1 is Note <==> running.plan.extra_maps >= 1),
{
}

} // verus!
