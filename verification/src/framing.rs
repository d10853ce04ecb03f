//! Loading the frames of a page, from beginning to end, as a dialogue:
//! [`Framing`] says what is to be done with the document and the network, the
//! caller does that and nothing else, and what came of it is told back.
use vstd::prelude::*;

use crate::dom::{is_sifting, sift_frame, Document, Sifted};
use crate::fetch::{header_value, Fetch, FetchOutcome};
use crate::frames::{
    are_frame_notes, asked_of, capped_note, failed_note, first_unseen, frame_fetch, frame_refusal,
    frame_source, is_roll, loaded_note, named_origin, note_if, sum_capped, FrameSource, Frames, FramesView, SourceView, MAX_FRAMES,
};
use crate::markup::declared_content_type;
use crate::receipt::Initiator;
use crate::text::{string_view, texts};
use crate::url::{url_joined, url_option, Url, UrlView};

verus! {

/// What the caller is to do next.
#[derive(Debug, PartialEq, Eq)]
pub enum FrameTask {
    /// Name the frames that the document holds now, in order.
    Find,
    /// Read what a frame's attributes say.
    Look(usize),
    /// Fetch a frame's document.
    Fetch(Fetch),
    /// Put a text under a frame, and read the document again.
    GraftText { id: usize, html: String },
    /// Put the document that was fetched under a frame, and read the document
    /// again.
    GraftBody { id: usize, body: Vec<u8>, content_type: Option<String> },
    /// Take out what a frame may not bring with it.
    Sift(Sifted),
    /// Take out all that was put under a frame.
    Withdraw(usize),
    /// Nothing more: this is what the page says of its frames.
    End(Vec<String>),
}

/// What came of the last task.
#[derive(Debug, PartialEq, Eq)]
pub enum FrameReport {
    Found(Vec<usize>),
    Source { srcdoc: Option<String>, src: Option<String> },
    Fetched(FetchOutcome),
    /// The document as it is now, and where in it the frame stands.
    Grafted { tree: Document, frame: Option<usize> },
    Done,
}

/// How far the loading has come.
#[derive(Debug, PartialEq, Eq)]
pub enum Spot {
    /// The frames are being named.
    Seeking,
    /// A frame is being looked at.
    Looking(usize),
    /// Its document is being fetched.
    Fetching { id: usize, url: Url },
    /// Its document is being grafted.
    Grafting(usize),
    /// What was grafted is being sifted or taken out.
    Tidying,
    Over,
}

/// The loading of a page's frames.
#[derive(Debug, PartialEq, Eq)]
pub struct Framing {
    pub frames: Frames,
    /// The page that holds them.
    pub page: Url,
    pub at: Spot,
}

impl Framing {
    /// What holds of every loading: no more frames than the bound, and room for
    /// the one it is at.
    pub open spec fn wf(self) -> bool {
        &&& self.frames@.loaded <= MAX_FRAMES
        &&& (self.at is Looking || self.at is Fetching || self.at is Grafting)
            ==> self.frames@.loaded < MAX_FRAMES
    }

    /// Whether the report is the one that is waited for.
    pub open spec fn awaits(self, report: FrameReport) -> bool {
        match self.at {
            Spot::Seeking => report is Found,
            Spot::Looking(_) => report is Source,
            Spot::Fetching { .. } => report is Fetched,
            Spot::Grafting(_) => report is Grafted,
            Spot::Tidying => report is Done,
            Spot::Over => false,
        }
    }
}

/// The next frame is looked for.
pub open spec fn goes_on(post: Framing, task: FrameTask) -> bool {
    post.at is Seeking && task is Find
}

/// The loading is over, and the page says what there is to say of it.
pub open spec fn ends(post: Framing, task: FrameTask) -> bool {
    post.at is Over && (task matches FrameTask::End(notes) && are_frame_notes(
        texts(notes@),
        post.frames@,
    ))
}

/// A frame could not be loaded, for a reason that is kept.
pub open spec fn failing(f: FramesView, why: Seq<char>) -> FramesView {
    FramesView { failures: f.failures.push(why), ..f }
}

pub open spec fn no_script() -> Seq<char> {
    "a frame with a javascript: source was not run"@
}

pub open spec fn unresolvable(address: Seq<char>) -> Seq<char> {
    "`"@ + address + "` is not a resolvable frame URL"@
}

pub open spec fn unreadable() -> Seq<char> {
    "a frame whose document could not be read back was taken out again"@
}

/// The request for a frame's document: a plain `GET` under an initiator of its
/// own, on behalf of the page that holds the frame.
pub open spec fn is_frame_fetch(f: Fetch, url: UrlView, page: UrlView) -> bool {
    &&& f.url@ == url
    &&& f.initiator == Initiator::Frame
    &&& f.method@ == "GET"@
    &&& f.body@.len() == 0
    &&& f.content_type is None
    &&& f.headers@.len() == 0
    &&& f.max_redirects is None
    &&& url_option(f.document) == Some(page)
    &&& f.cors is None
}

/// What a frame's attributes lead to.
pub open spec fn looked_at(
    pre: Framing,
    id: usize,
    source: SourceView,
    post: Framing,
    task: FrameTask,
) -> bool {
    match source {
        // Inline content needs no fetch.
        SourceView::Inline(html) => {
            &&& post.frames@ == pre.frames@
            &&& post.at == Spot::Grafting(id)
            &&& task matches FrameTask::GraftText { id: i, html: h } && i == id && h@ == html
        },
        SourceView::Nothing => post.frames@ == pre.frames@ && goes_on(post, task),
        SourceView::Script => post.frames@ == failing(pre.frames@, no_script()) && goes_on(
            post,
            task,
        ),
        SourceView::Address(raw) => match url_joined(pre.page@.href, raw) {
            Err(_) => post.frames@ == failing(pre.frames@, unresolvable(raw)) && goes_on(
                post,
                task,
            ),
            Ok(to) => {
                &&& post.frames@ == pre.frames@
                &&& post.at matches Spot::Fetching { id: i, url } && i == id && url@ == to
                &&& task matches FrameTask::Fetch(f) && is_frame_fetch(f, to, pre.page@)
            },
        },
    }
}

/// What the answer for a frame leads to: one that is refused is grafted
/// nowhere.
pub open spec fn answered(
    pre: Framing,
    id: usize,
    url: UrlView,
    outcome: FetchOutcome,
    post: Framing,
    task: FrameTask,
) -> bool {
    match frame_refusal(url.href, outcome@) {
        Some(why) => post.frames@ == failing(pre.frames@, why) && goes_on(post, task),
        None => {
            &&& post.frames@ == (FramesView {
                origins: pre.frames@.origins.push(named_origin(outcome@.final_url)),
                ..pre.frames@
            })
            &&& post.at == Spot::Grafting(id)
            &&& task matches FrameTask::GraftBody { id: i, body, content_type } && i == id && body@
                == outcome@.body && string_view(content_type) == header_value(
                outcome@.headers,
                "content-type"@,
            )
        },
    }
}

/// The place of a frame in a document that can be sifted.
pub open spec fn can_sift(tree: Document, frame: Option<usize>) -> bool {
    tree.wf() && frame is Some && frame->Some_0 < tree.nodes@.len()
}

/// What a graft leads to: it is sifted and counted, or taken out again.
pub open spec fn grafted(
    pre: Framing,
    id: usize,
    tree: Document,
    frame: Option<usize>,
    post: Framing,
    task: FrameTask,
) -> bool {
    &&& post.at is Tidying
    &&& if can_sift(tree, frame) {
        &&& task matches FrameTask::Sift(sifted) && is_sifting(tree, frame->Some_0 as int, sifted)
            && post.frames@ == (FramesView {
            loaded: (pre.frames@.loaded + 1) as usize,
            stripped: sum_capped(
                sum_capped(pre.frames@.stripped, sifted.scripts as int),
                sifted.defused@.len() as int,
            ),
            ..pre.frames@
        })
    } else {
        task == FrameTask::Withdraw(id) && post.frames@ == failing(pre.frames@, unreadable())
    }
}

/// What one report leads to.
pub open spec fn loads(pre: Framing, report: FrameReport, post: Framing, task: FrameTask) -> bool {
    &&& post.page@ == pre.page@
    &&& match (pre.at, report) {
        (Spot::Seeking, FrameReport::Found(found)) => match first_unseen(
            found@,
            pre.frames@.seen,
        ) {
            None => post.frames@ == pre.frames@ && ends(post, task),
            Some(id) => if pre.frames@.loaded >= MAX_FRAMES {
                post.frames@ == (FramesView { capped: true, ..pre.frames@ }) && ends(post, task)
            } else {
                &&& post.frames@ == (FramesView {
                    seen: pre.frames@.seen.push(id),
                    ..pre.frames@
                })
                &&& post.at == Spot::Looking(id)
                &&& task == FrameTask::Look(id)
            },
        },
        (Spot::Looking(id), FrameReport::Source { srcdoc, src }) => looked_at(
            pre,
            id,
            asked_of(string_view(srcdoc), string_view(src)),
            post,
            task,
        ),
        (Spot::Fetching { id, url }, FrameReport::Fetched(outcome)) => answered(
            pre,
            id,
            url@,
            outcome,
            post,
            task,
        ),
        (Spot::Grafting(id), FrameReport::Grafted { tree, frame }) => grafted(
            pre,
            id,
            tree,
            frame,
            post,
            task,
        ),
        (Spot::Tidying, FrameReport::Done) => post.frames@ == pre.frames@ && goes_on(post, task),
        _ => false,
    }
}

impl Framing {
    /// The loading of a page's frames, before the first.
    pub fn begin(page: &Url) -> (r: (Framing, FrameTask))
        ensures
            r.0.wf(),
            r.0.page@ == page@,
            r.0.at is Seeking,
            r.0.frames@ == (FramesView {
                loaded: 0,
                stripped: 0,
                failures: Seq::empty(),
                seen: Seq::empty(),
                capped: false,
                origins: Seq::empty(),
            }),
            r.1 is Find,
    {
        (Framing { frames: Frames::new(), page: page.copy(), at: Spot::Seeking }, FrameTask::Find)
    }

    /// Takes what came of the last task, and says what the next one is.
    pub fn next(self, report: FrameReport) -> (r: (Framing, FrameTask))
        requires
            self.wf(),
            self.awaits(report),
        ensures
            r.0.wf(),
            loads(self, report, r.0, r.1),
    {
        let mut frames = self.frames;
        let page = self.page;
        let (at, task) = match self.at {
            Spot::Seeking => {
                let found = match report {
                    FrameReport::Found(found) => found,
                    _ => Vec::new(),
                };
                match frames.next_frame(&found) {
                    None => (Spot::Over, FrameTask::End(frames.notes())),
                    Some(id) => (Spot::Looking(id), FrameTask::Look(id)),
                }
            },
            Spot::Looking(id) => {
                let (srcdoc, src) = match report {
                    FrameReport::Source { srcdoc, src } => (srcdoc, src),
                    _ => (None, None),
                };
                match frame_source(srcdoc, src) {
                    FrameSource::Inline(html) => (
                        Spot::Grafting(id),
                        FrameTask::GraftText { id, html },
                    ),
                    FrameSource::Nothing => (Spot::Seeking, FrameTask::Find),
                    FrameSource::Script => {
                        frames.refuse_script();
                        (Spot::Seeking, FrameTask::Find)
                    },
                    FrameSource::Address(raw) => match frames.resolve(&page, &raw) {
                        None => (Spot::Seeking, FrameTask::Find),
                        Some(url) => {
                            let fetch = frame_fetch(&url, &page);
                            (Spot::Fetching { id, url }, FrameTask::Fetch(fetch))
                        },
                    },
                }
            },
            Spot::Fetching { id, url } => {
                if let FrameReport::Fetched(outcome) = report {
                    if frames.accept(&url, &outcome) {
                        let content_type = declared_content_type(&outcome);
                        (
                            Spot::Grafting(id),
                            FrameTask::GraftBody { id, body: outcome.body, content_type },
                        )
                    } else {
                        (Spot::Seeking, FrameTask::Find)
                    }
                } else {
                    (Spot::Seeking, FrameTask::Find)
                }
            },
            Spot::Grafting(id) => {
                if let FrameReport::Grafted { tree, frame } = report {
                    match frame {
                        Some(place) if place < tree.nodes.len() && tree.is_wf() => {
                            let sifted = sift_frame(&tree, place);
                            frames.grafted(&sifted);
                            (Spot::Tidying, FrameTask::Sift(sifted))
                        },
                        _ => {
                            frames.give_up();
                            (Spot::Tidying, FrameTask::Withdraw(id))
                        },
                    }
                } else {
                    (Spot::Seeking, FrameTask::Find)
                }
            },
            Spot::Tidying => (Spot::Seeking, FrameTask::Find),
            Spot::Over => (Spot::Over, FrameTask::Find),
        };
        (Framing { frames, page, at }, task)
    }
}

// ------------------------------------------------------------------- laws

/// Every document that is fetched for a frame is fetched as one: by `GET`, with
/// nothing in it, under the initiator that the log knows frames by, on behalf
/// of the page that holds the frame.
pub proof fn law_a_frame_is_fetched_for_its_page(
    pre: Framing,
    report: FrameReport,
    post: Framing,
    task: FrameTask,
)
    requires
        loads(pre, report, post, task),
        task is Fetch,
    ensures
        is_frame_fetch(task->Fetch_0, task->Fetch_0.url@, pre.page@),
        post.at matches Spot::Fetching { url, .. } && url@ == task->Fetch_0.url@,
{
}

/// A frame that carries its document with it is grafted without a fetch.
pub proof fn law_an_inline_frame_is_not_fetched(
    pre: Framing,
    report: FrameReport,
    post: Framing,
    task: FrameTask,
)
    requires
        loads(pre, report, post, task),
        report matches FrameReport::Source { srcdoc, .. } && srcdoc is Some,
    ensures
        task is GraftText,
        post.frames@ == pre.frames@,
{
}

/// What is grafted is what the frame carries itself, or the body of an answer
/// that nothing stands against. One that something stands against is noted and
/// grafted nowhere.
pub proof fn law_only_an_accepted_answer_is_grafted(
    pre: Framing,
    report: FrameReport,
    post: Framing,
    task: FrameTask,
)
    requires
        loads(pre, report, post, task),
    ensures
        task is GraftBody ==> (pre.at matches Spot::Fetching { url, .. } && (report matches FrameReport::Fetched(
            outcome,
        ) && frame_refusal(url@.href, outcome@) is None && task->GraftBody_body@ == outcome@.body)),
        task is GraftText ==> (report matches FrameReport::Source { srcdoc: Some(html), .. }
            && task->html@ == html@),
        (pre.at matches Spot::Fetching { url, .. } && report is Fetched && frame_refusal(
            url@.href,
            report->Fetched_0@,
        ) is Some) ==> task is Find && post.frames@.failures.len() == pre.frames@.failures.len() + 1,
{
}

/// What is put under a frame is sifted before the next frame is looked at, or
/// taken out again.
pub proof fn law_a_graft_is_sifted_or_withdrawn(
    pre: Framing,
    report: FrameReport,
    post: Framing,
    task: FrameTask,
)
    requires
        pre.at is Grafting,
        loads(pre, report, post, task),
    ensures
        report matches FrameReport::Grafted { tree, frame } && if can_sift(tree, frame) {
            task matches FrameTask::Sift(sifted) && is_sifting(
                tree,
                frame->Some_0 as int,
                sifted,
            )
        } else {
            task == FrameTask::Withdraw(pre.at->Grafting_0)
        },
{
}

/// A whole loading, from its beginning on: `states[i]` is where it stands once
/// `tasks[i]` is asked for, and `reports[i]` what came of that.
pub open spec fn is_loading(
    states: Seq<Framing>,
    tasks: Seq<FrameTask>,
    reports: Seq<FrameReport>,
) -> bool {
    &&& states.len() == reports.len() + 1
    &&& tasks.len() == states.len()
    &&& states[0].at is Seeking
    &&& states[0].frames@.loaded == 0
    &&& tasks[0] is Find
    &&& forall|i: int| 0 <= i < states.len() ==> (#[trigger] states[i]).wf()
    &&& forall|i: int|
        0 <= i < reports.len() ==> loads(
            states[i],
            #[trigger] reports[i],
            states[i + 1],
            tasks[i + 1],
        )
}

/// How many of the tasks keep a graft.
pub open spec fn kept(tasks: Seq<FrameTask>) -> nat
    decreases tasks.len(),
{
    if tasks.len() == 0 {
        0
    } else {
        kept(tasks.drop_last()) + (if tasks.last() is Sift {
            1nat
        } else {
            0nat
        })
    }
}

/// However many frames a page has, nested ones among them, no more than the
/// bound are kept in it.
pub proof fn law_no_more_frames_than_the_bound(
    states: Seq<Framing>,
    tasks: Seq<FrameTask>,
    reports: Seq<FrameReport>,
    i: int,
)
    requires
        is_loading(states, tasks, reports),
        0 <= i < states.len(),
    ensures
        kept(tasks.take(i + 1)) == states[i].frames@.loaded,
        kept(tasks.take(i + 1)) <= MAX_FRAMES,
    decreases i,
{
    assert(tasks.take(i + 1).drop_last() =~= tasks.take(i));
    assert(states[i].wf());
    if i > 0 {
        law_no_more_frames_than_the_bound(states, tasks, reports, i - 1);
        assert(states[i - 1].wf());
        assert(loads(states[i - 1], reports[i - 1], states[i - 1 + 1], tasks[i - 1 + 1]));
    } else {
        assert(tasks.take(0).len() == 0);
    }
}

/// A page that holds more frames than the bound is told so: where there is one
/// not looked at and no room for it, the loading ends with the note.
pub proof fn law_a_frame_past_the_bound_is_said(
    pre: Framing,
    found: Vec<usize>,
    post: Framing,
    task: FrameTask,
)
    requires
        pre.at is Seeking,
        pre.frames@.loaded >= MAX_FRAMES,
        first_unseen(found@, pre.frames@.seen) is Some,
        loads(pre, FrameReport::Found(found), post, task),
    ensures
        task matches FrameTask::End(notes) && texts(notes@).contains(
            capped_note(),
        ),
{
    let notes = task->End_0;
    let f = post.frames@;
    let named = choose|named: Seq<Seq<char>>| #[trigger]
        is_roll(named, f.origins) && texts(notes@) == note_if(
            f.loaded > 0,
            loaded_note(f, named),
        ) + note_if(f.capped, capped_note()) + note_if(
            f.failures.len() > 0,
            failed_note(f.failures),
        );
    let first = note_if(f.loaded > 0, loaded_note(f, named));
    assert(texts(notes@)[first.len() as int] == capped_note());
}

/// How loading goes on: what is found is looked at one frame at a time, up to
/// eight of them; a frame that asks for nothing, for script or for no address
/// is passed over; any other is fetched for the page or grafted from its own
/// text; and an answer is grafted exactly where the fetch did not fail, came
/// back in the two hundreds, and is not declared as anything but HTML.
pub proof fn law_how_a_page_loads_its_frames(
    framing: Framing,
    report: FrameReport,
    r: (Framing, FrameTask),
)
    requires
        framing.wf(),
        framing.awaits(report),
        call_ensures(Framing::next, (framing, report), r),
    ensures
        r.0.page@ == framing.page@,
        r.1 is Look ==> framing.frames@.loaded <= 7 && !framing.frames@.seen.contains(r.1->Look_0)
            && r.0.frames@.seen == framing.frames@.seen.push(r.1->Look_0),
        framing.at is Seeking ==> r.1 is Look || r.1 is End,
        r.1 is End ==> framing.at is Seeking && r.0.at is Over,
        report matches FrameReport::Source { srcdoc, src } ==> {
            let t = crate::text::trimmed(src->Some_0@);
            let about = t.len() >= 6 && t.take(6) == "about:"@;
            let script = t.len() >= 11 && t.take(11) == "javascript:"@;
            let nowhere = src is None || t.len() == 0 || about;
            &&& srcdoc is Some ==> (r.1 matches FrameTask::GraftText { html, .. } && html@
                == srcdoc->Some_0@)
            &&& srcdoc is None && nowhere ==> r.1 is Find && r.0.frames@ == framing.frames@
            &&& srcdoc is None && !nowhere && script ==> r.1 is Find
                && r.0.frames@.failures.len() == framing.frames@.failures.len() + 1
            &&& srcdoc is None && !nowhere && !script ==> (match url_joined(framing.page@.href, t) {
                Ok(to) => r.1 matches FrameTask::Fetch(f) && f.url@ == to && f.initiator is Frame
                    && f.method@ == "GET"@ && url_option(f.document) == Some(framing.page@)
                    && f.cors is None && r.0.frames@ == framing.frames@,
                Err(_) => r.1 is Find && r.0.frames@.failures.len()
                    == framing.frames@.failures.len() + 1,
            })
        },
        report matches FrameReport::Fetched(outcome) ==> {
            let kinds = crate::fetch::values_of(
                outcome@.headers,
                crate::text::lowered("content-type"@),
            );
            let good = outcome@.error is None && outcome@.status is Some && 200
                <= outcome@.status->Some_0 <= 299 && (kinds.len() == 0 || crate::text::contains(
                kinds[0],
                "html"@,
            ));
            &&& good ==> (r.1 matches FrameTask::GraftBody { body, .. } && body@ == outcome@.body)
                && r.0.frames@.origins.len() == framing.frames@.origins.len() + 1
                && r.0.frames@.failures == framing.frames@.failures
            &&& !good ==> r.1 is Find && r.0.frames@.failures.len()
                == framing.frames@.failures.len() + 1 && r.0.frames@.origins
                == framing.frames@.origins
        },
{
    if let FrameReport::Source { srcdoc, src } = report {
        reveal_strlit("about:");
        reveal_strlit("javascript:");
        let t = crate::text::trimmed(src->Some_0@);
        if t.len() >= 6 {
            assert(t.take(6) =~= t.subrange(0, 6));
            assert(t.take(6)[0] == t[0]);
        }
        if t.len() >= 11 {
            assert(t.take(11) =~= t.subrange(0, 11));
            assert(t.take(11)[0] == t[0]);
        }
    }
    if let FrameReport::Fetched(outcome) = report {
        if let Spot::Fetching { id, url } = framing.at {
            crate::frames::law_which_frames_are_taken(url@.href, outcome@);
        }
    }
    if let FrameReport::Found(found) = report {
        crate::frames::law_a_frame_is_looked_at_once(found@, framing.frames@.seen);
    }
}

/// A graft is counted once it is sifted, with what was taken out of it; one
/// that cannot be read back is taken out again and counted as a failure.
pub proof fn law_how_a_graft_is_counted(
    framing: Framing,
    report: FrameReport,
    r: (Framing, FrameTask),
)
    requires
        framing.wf(),
        framing.awaits(report),
        framing.at is Grafting,
        call_ensures(Framing::next, (framing, report), r),
    ensures
        r.1 matches FrameTask::Sift(sifted) ==> {
            let sum = framing.frames@.stripped + sifted.scripts + sifted.defused@.len();
            &&& r.0.frames@.loaded == framing.frames@.loaded + 1
            &&& r.0.frames@.stripped == if sum > u64::MAX {
                u64::MAX as int
            } else {
                sum
            }
            &&& r.0.frames@.failures == framing.frames@.failures
        },
        !(r.1 is Sift) ==> r.1 == FrameTask::Withdraw(framing.at->Grafting_0)
            && r.0.frames@.loaded == framing.frames@.loaded && r.0.frames@.failures.len()
            == framing.frames@.failures.len() + 1,
{
}

} // verus!
