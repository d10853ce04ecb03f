//! The documents inside a document: which are loaded, and what the page says of
//! it.
use vstd::prelude::*;

use crate::cors::{origin_header, origin_of, Origin};
use crate::dom::Sifted;
use crate::fetch::{header_value, Fetch, FetchOutcome, OutcomeView};
use crate::markup::declared_content_type;
use crate::receipt::Initiator;
use crate::text::{
    ascending, begins, contains, decimal, decimal_text, holds, insert_ascending, join, joined,
    starts_with, string_view, texts, trim, trimmed,
};
use crate::url::{url_joined, url_option, Url, UrlView};

verus! {

/// How many frame documents one page may pull in, including nested ones. A
/// bound, and a *said* bound: every fetch spends the page's own budget.
pub const MAX_FRAMES: usize = 8;

/// Loading the frames of a page.
#[derive(Debug, Clone, PartialEq, Eq)]
pub struct Frames {
    pub loaded: usize,
    /// How much script was stripped from them.
    pub stripped: u64,
    pub failures: Vec<String>,
    pub seen: Vec<usize>,
    pub capped: bool,
    /// Where each grafted document came from.
    pub origins: Vec<String>,
}

/// What a [`Frames`] holds.
#[verifier::ext_equal]
pub struct FramesView {
    pub loaded: usize,
    pub stripped: u64,
    pub failures: Seq<Seq<char>>,
    pub seen: Seq<usize>,
    pub capped: bool,
    pub origins: Seq<Seq<char>>,
}

impl View for Frames {
    type V = FramesView;

    open spec fn view(&self) -> FramesView {
        FramesView {
            loaded: self.loaded,
            stripped: self.stripped,
            failures: texts(self.failures@),
            seen: self.seen@,
            capped: self.capped,
            origins: texts(self.origins@),
        }
    }
}

/// The first of the frames that has not been looked at.
pub open spec fn first_unseen(found: Seq<usize>, seen: Seq<usize>) -> Option<usize>
    decreases found.len(),
{
    if found.len() == 0 {
        None
    } else if !seen.contains(found[0]) {
        Some(found[0])
    } else {
        first_unseen(found.drop_first(), seen)
    }
}

/// What a frame's attributes ask for.
#[derive(Debug, Clone, PartialEq, Eq)]
pub enum FrameSource {
    /// Content that the parser already carried. It has the page's own origin.
    Inline(String),
    /// Nothing.
    Nothing,
    /// Script by another road, which is not run.
    Script,
    /// A document at an address, as it is written.
    Address(String),
}

/// What a [`FrameSource`] says.
pub enum SourceView {
    Inline(Seq<char>),
    Nothing,
    Script,
    Address(Seq<char>),
}

impl View for FrameSource {
    type V = SourceView;

    open spec fn view(&self) -> SourceView {
        match self {
            FrameSource::Inline(t) => SourceView::Inline(t@),
            FrameSource::Nothing => SourceView::Nothing,
            FrameSource::Script => SourceView::Script,
            FrameSource::Address(t) => SourceView::Address(t@),
        }
    }
}

/// `srcdoc` wins over `src`.
pub open spec fn asked_of(srcdoc: Option<Seq<char>>, src: Option<Seq<char>>) -> SourceView {
    match (srcdoc, src) {
        (Some(html), _) => SourceView::Inline(html),
        (None, None) => SourceView::Nothing,
        (None, Some(raw)) => {
            let t = trimmed(raw);
            if t.len() == 0 || starts_with(t, "about:"@) {
                SourceView::Nothing
            } else if starts_with(t, "javascript:"@) {
                SourceView::Script
            } else {
                SourceView::Address(t)
            }
        },
    }
}

/// What a frame's attributes ask for.
pub fn frame_source(srcdoc: Option<String>, src: Option<String>) -> (r: FrameSource)
    ensures
        r@ == asked_of(string_view(srcdoc), string_view(src)),
{
    match (srcdoc, src) {
        (Some(html), _) => FrameSource::Inline(html),
        (None, None) => FrameSource::Nothing,
        (None, Some(raw)) => {
            let t = trim(&raw);
            if t.as_str().is_empty() || begins(&t, "about:") {
                FrameSource::Nothing
            } else if begins(&t, "javascript:") {
                FrameSource::Script
            } else {
                FrameSource::Address(t)
            }
        },
    }
}

/// The request for a frame's document, on behalf of the page that holds the
/// frame.
pub fn frame_fetch(url: &Url, page: &Url) -> (r: Fetch)
    ensures
        r.url@ == url@,
        r.initiator == Initiator::Frame,
        r.method@ == "GET"@,
        r.body@.len() == 0,
        r.content_type is None,
        r.headers@.len() == 0,
        r.max_redirects is None,
        url_option(r.document) == Some(page@),
        r.cors is None,
{
    let mut fetch = Fetch::get(url, Initiator::Frame);
    fetch.document = Some(page.copy());
    fetch
}

/// Why the answer for a frame is not grafted, where it is not.
pub open spec fn frame_refusal(resolved: Seq<char>, outcome: OutcomeView) -> Option<Seq<char>> {
    let status = match outcome.status {
        Some(s) => s,
        None => 0u16,
    };
    let kind = header_value(outcome.headers, "content-type"@);
    if outcome.error is Some {
        Some(resolved + ": "@ + outcome.error->Some_0)
    } else if !(200 <= status < 300) {
        Some(resolved + ": the server answered "@ + decimal(status as nat))
    } else if kind is Some && !contains(kind->Some_0, "html"@) {
        Some(resolved + ": `"@ + kind->Some_0 + "` is not a document"@)
    } else {
        None
    }
}

/// How a document's origin is named.
pub open spec fn named_origin(url: UrlView) -> Seq<char> {
    match origin_of(url) {
        Some(o) => origin_header(o),
        None => url.href,
    }
}

pub open spec fn sum_capped(a: u64, b: int) -> u64 {
    if a + b > u64::MAX {
        u64::MAX
    } else {
        (a + b) as u64
    }
}

/// Where the frames came from, in words. Named, not just counted: a third
/// party writing into the reading of a page is answerable only by its origin.
pub open spec fn served_by(named: Seq<Seq<char>>) -> Seq<char> {
    if named.len() == 0 {
        "written inline by this page"@
    } else {
        "served by "@ + joined(named, ", "@)
    }
}

/// The origins of a list, each once, in order.
pub open spec fn is_roll(named: Seq<Seq<char>>, origins: Seq<Seq<char>>) -> bool {
    ascending(named) && forall|o: Seq<char>| #[trigger] named.contains(o) <==> origins.contains(o)
}

pub open spec fn loaded_note(f: FramesView, named: Seq<Seq<char>>) -> Seq<char> {
    decimal(f.loaded as nat) + " frame(s) were loaded as content, "@ + served_by(named)
        + ": each document was fetched through the policy (initiator `frame` in the request log) and appears in the outline below, flattened, so some of what follows is another origin's page rather than this one's. Their scripts do not run ("@
        + decimal(f.stripped as nat)
        + " stripped) and their styles do not apply \u{2014} a frame here is content, not a second page \u{2014} and `contentDocument` answers null."@
}

pub open spec fn capped_note() -> Seq<char> {
    "this page has more than 8 frames; the rest were not loaded. The bound exists because ad cascades nest frames without limit, and it is said here rather than silently applied."@
}

pub open spec fn failed_note(failures: Seq<Seq<char>>) -> Seq<char> {
    decimal(failures.len()) + " frame(s) could not be loaded: "@ + joined(failures, "; "@)
}

pub open spec fn note_if(cond: bool, note: Seq<char>) -> Seq<Seq<char>> {
    if cond {
        seq![note]
    } else {
        Seq::empty()
    }
}

/// What the page says about its frames.
pub open spec fn are_frame_notes(notes: Seq<Seq<char>>, f: FramesView) -> bool {
    exists|named: Seq<Seq<char>>| #[trigger]
        is_roll(named, f.origins) && notes == note_if(f.loaded > 0, loaded_note(f, named))
            + note_if(f.capped, capped_note()) + note_if(
            f.failures.len() > 0,
            failed_note(f.failures),
        )
}

impl Frames {
    pub fn new() -> (r: Frames)
        ensures
            r@ == (FramesView {
                loaded: 0,
                stripped: 0,
                failures: Seq::empty(),
                seen: Seq::empty(),
                capped: false,
                origins: Seq::empty(),
            }),
    {
        let r = Frames {
            loaded: 0,
            stripped: 0,
            failures: Vec::new(),
            seen: Vec::new(),
            capped: false,
            origins: Vec::new(),
        };
        assert(r@.failures =~= Seq::empty());
        assert(r@.origins =~= Seq::empty());
        r
    }

    /// The next frame to look at, of those the page has now: a graft may bring
    /// more. `None` where all have been looked at, or where enough are loaded.
    pub fn next_frame(&mut self, found: &Vec<usize>) -> (r: Option<usize>)
        ensures
            match first_unseen(found@, old(self)@.seen) {
                None => r is None && final(self)@ == old(self)@,
                Some(id) => if old(self)@.loaded >= MAX_FRAMES {
                    r is None && final(self)@ == (FramesView { capped: true, ..old(self)@ })
                } else {
                    r == Some(id) && final(self)@ == (FramesView {
                        seen: old(self)@.seen.push(id),
                        ..old(self)@
                    })
                },
            },
    {
        let mut i: usize = 0;
        let ghost all = found@;
        let ghost known = self.seen@;
        assert(all.skip(0) =~= all);
        while i < found.len()
            invariant
                i <= found.len(),
                all == found@,
                *self == *old(self),
                known == self.seen@,
                first_unseen(all, known) == first_unseen(all.skip(i as int), known),
            decreases found.len() - i,
        {
            assert(all.skip(i as int)[0] == found@[i as int]);
            assert(all.skip(i as int).drop_first() =~= all.skip(i + 1));
            let id = found[i];
            let mut k: usize = 0;
            let mut met = false;
            while k < self.seen.len()
                invariant
                    k <= self.seen.len(),
                    *self == *old(self),
                    known == self.seen@,
                    met == known.take(k as int).contains(id),
                decreases self.seen.len() - k,
            {
                if self.seen[k] == id {
                    met = true;
                }
                proof {
                    let before = known.take(k as int);
                    let now = known.take(k + 1);
                    assert(now =~= before.push(known[k as int]));
                    assert(now[k as int] == known[k as int]);
                    if before.contains(id) {
                        let j = choose|j: int| 0 <= j < before.len() && before[j] == id;
                        assert(now[j] == id);
                    }
                    if now.contains(id) && known[k as int] != id {
                        let j = choose|j: int| 0 <= j < now.len() && now[j] == id;
                        assert(before[j] == id);
                    }
                }
                k += 1;
            }
            assert(known.take(k as int) =~= known);
            if !met {
                if self.loaded >= MAX_FRAMES {
                    self.capped = true;
                    return None;
                }
                self.seen.push(id);
                return Some(id);
            }
            i += 1;
        }
        None
    }

    fn fail(&mut self, why: String)
        ensures
            final(self)@ == (FramesView {
                failures: old(self)@.failures.push(why@),
                ..old(self)@
            }),
    {
        let ghost before = self.failures@;
        self.failures.push(why);
        assert(texts(self.failures@) =~= texts(before).push(why@));
    }

    /// Notes that a frame asked to run script.
    pub fn refuse_script(&mut self)
        ensures
            final(self)@ == (FramesView {
                failures: old(self)@.failures.push(
                    "a frame with a javascript: source was not run"@,
                ),
                ..old(self)@
            }),
    {
        self.fail("a frame with a javascript: source was not run".to_owned());
    }

    /// Notes that what was grafted could not be read back.
    pub fn give_up(&mut self)
        ensures
            final(self)@ == (FramesView {
                failures: old(self)@.failures.push(
                    "a frame whose document could not be read back was taken out again"@,
                ),
                ..old(self)@
            }),
    {
        self.fail("a frame whose document could not be read back was taken out again".to_owned());
    }

    /// The address a frame's document is fetched from.
    pub fn resolve(&mut self, page: &Url, address: &str) -> (r: Option<Url>)
        ensures
            match url_joined(page@.href, address@) {
                Ok(u) => r matches Some(url) && url@ == u && final(self)@ == old(self)@,
                Err(_) => r is None && final(self)@ == (FramesView {
                    failures: old(self)@.failures.push(
                        "`"@ + address@ + "` is not a resolvable frame URL"@,
                    ),
                    ..old(self)@
                }),
            },
    {
        match page.join(address) {
            Ok(u) => Some(u),
            Err(_) => {
                let mut why = "`".to_owned();
                why.append(address);
                why.append("` is not a resolvable frame URL");
                self.fail(why);
                None
            },
        }
    }

    /// Whether the answer for a frame is grafted. A refusal is noted rather
    /// than silently rendered as an empty frame.
    pub fn accept(&mut self, resolved: &Url, outcome: &FetchOutcome) -> (r: bool)
        ensures
            match frame_refusal(resolved@.href, outcome@) {
                Some(why) => !r && final(self)@ == (FramesView {
                    failures: old(self)@.failures.push(why),
                    ..old(self)@
                }),
                None => r && final(self)@ == (FramesView {
                    origins: old(self)@.origins.push(named_origin(outcome@.final_url)),
                    ..old(self)@
                }),
            },
    {
        if let Some(error) = &outcome.error {
            let mut why = resolved.href.clone();
            why.append(": ");
            why.append(error);
            self.fail(why);
            return false;
        }
        let status: u16 = match outcome.status {
            Some(s) => s,
            None => 0,
        };
        if !(200 <= status && status < 300) {
            let mut why = resolved.href.clone();
            why.append(": the server answered ");
            why.append(&decimal_text(status as u64));
            self.fail(why);
            return false;
        }
        if let Some(kind) = declared_content_type(outcome) {
            if !holds(&kind, "html") {
                let mut why = resolved.href.clone();
                why.append(": `");
                why.append(&kind);
                why.append("` is not a document");
                self.fail(why);
                return false;
            }
        }
        let name = match Origin::of(&outcome.final_url) {
            Some(o) => o.header(),
            None => outcome.final_url.href.clone(),
        };
        let ghost before = self.origins@;
        self.origins.push(name);
        assert(texts(self.origins@) =~= texts(before).push(name@));
        true
    }

    /// Counts a frame whose document was grafted and sifted.
    pub fn grafted(&mut self, sifted: &Sifted)
        requires
            old(self)@.loaded < MAX_FRAMES,
        ensures
            final(self)@ == (FramesView {
                loaded: (old(self)@.loaded + 1) as usize,
                stripped: sum_capped(
                    sum_capped(old(self)@.stripped, sifted.scripts as int),
                    sifted.defused@.len() as int,
                ),
                ..old(self)@
            }),
    {
        self.loaded = self.loaded + 1;
        let a: u64 = self.stripped;
        let b: u64 = sifted.scripts as u64;
        let c: u64 = sifted.defused.len() as u64;
        let ab: u64 = if a > u64::MAX - b {
            u64::MAX
        } else {
            a + b
        };
        self.stripped = if ab > u64::MAX - c {
            u64::MAX
        } else {
            ab + c
        };
    }

    /// What the page says about its frames.
    pub fn notes(&self) -> (r: Vec<String>)
        ensures
            are_frame_notes(texts(r@), self@),
    {
        let mut named: Vec<String> = Vec::new();
        let mut i: usize = 0;
        let ghost all = texts(self.origins@);
        while i < self.origins.len()
            invariant
                i <= self.origins.len(),
                all == texts(self.origins@),
                ascending(texts(named@)),
                forall|o: Seq<char>| #[trigger]
                    texts(named@).contains(o) <==> all.take(i as int).contains(o),
            decreases self.origins.len() - i,
        {
            let ghost word = self.origins@[i as int]@;
            insert_ascending(&mut named, self.origins[i].clone());
            i += 1;
            proof {
                let before = all.take(i - 1);
                let now = all.take(i as int);
                assert(now =~= before.push(word));
                assert forall|o: Seq<char>| #[trigger] now.contains(o) <==> before.contains(o) || o
                    == word by {
                    if before.contains(o) {
                        let j = choose|j: int| 0 <= j < before.len() && before[j] == o;
                        assert(now[j] == o);
                    }
                    if o == word {
                        assert(now[i - 1] == o);
                    }
                    if now.contains(o) && o != word {
                        let j = choose|j: int| 0 <= j < now.len() && now[j] == o;
                        assert(before[j] == o);
                    }
                }
            }
        }
        assert(all.take(i as int) =~= all);
        let ghost roll = texts(named@);
        let mut out: Vec<String> = Vec::new();
        if self.loaded > 0 {
            let mut note = decimal_text(self.loaded as u64);
            note.append(" frame(s) were loaded as content, ");
            if named.len() == 0 {
                note.append("written inline by this page");
            } else {
                note.append("served by ");
                note.append(&join(&named, ", "));
            }
            note.append(
                ": each document was fetched through the policy (initiator `frame` in the request log) and appears in the outline below, flattened, so some of what follows is another origin's page rather than this one's. Their scripts do not run (",
            );
            note.append(&decimal_text(self.stripped));
            note.append(
                " stripped) and their styles do not apply \u{2014} a frame here is content, not a second page \u{2014} and `contentDocument` answers null.",
            );
            assert(note@ =~= loaded_note(self@, roll));
            out.push(note);
        }
        let ghost first = note_if(self.loaded > 0, loaded_note(self@, roll));
        assert(texts(out@) =~= first);
        if self.capped {
            out.push(
                "this page has more than 8 frames; the rest were not loaded. The bound exists because ad cascades nest frames without limit, and it is said here rather than silently applied.".to_owned(),
            );
        }
        let ghost second = first + note_if(self.capped, capped_note());
        assert(texts(out@) =~= second);
        if self.failures.len() > 0 {
            let mut note = decimal_text(self.failures.len() as u64);
            note.append(" frame(s) could not be loaded: ");
            note.append(&join(&self.failures, "; "));
            out.push(note);
        }
        assert(texts(out@) =~= second + note_if(
            self@.failures.len() > 0,
            failed_note(self@.failures),
        ));
        assert(is_roll(roll, self@.origins));
        out
    }
}

/// A frame is looked at once: what is handed out has not been seen, and is seen
/// from then on.
pub proof fn law_a_frame_is_looked_at_once(found: Seq<usize>, seen: Seq<usize>)
    ensures
        first_unseen(found, seen) matches Some(id) ==> !seen.contains(id) && found.contains(id)
            && seen.push(id).contains(id),
    decreases found.len(),
{
    if found.len() > 0 {
        if seen.contains(found[0]) {
            law_a_frame_is_looked_at_once(found.drop_first(), seen);
            if let Some(id) = first_unseen(found.drop_first(), seen) {
                let k = choose|k: int|
                    0 <= k < found.drop_first().len() && found.drop_first()[k] == id;
                assert(found[k + 1] == id);
            }
        } else {
            assert(found.contains(found[0]));
        }
        if let Some(id) = first_unseen(found, seen) {
            assert(seen.push(id)[seen.len() as int] == id);
        }
    }
}

/// What a frame asks for: its `srcdoc` where it has one, and otherwise its
/// `src`, trimmed. Nothing, blank and anything under `about:` ask for nothing,
/// and `javascript:` for what is not run.
pub proof fn law_what_a_frame_asks_for(
    srcdoc: Option<String>,
    src: Option<String>,
    r: FrameSource,
)
    requires
        call_ensures(frame_source, (srcdoc, src), r),
    ensures
        ({
            let t = trimmed(src->Some_0@);
            let about = t.len() >= 6 && t.take(6) == "about:"@;
            let script = t.len() >= 11 && t.take(11) == "javascript:"@;
            &&& srcdoc is Some ==> r@ == SourceView::Inline(srcdoc->Some_0@)
            &&& srcdoc is None && src is None ==> r@ is Nothing
            &&& srcdoc is None && src is Some ==> {
                &&& r@ is Nothing <==> t.len() == 0 || about
                &&& r@ is Script <==> script
                &&& t.len() > 0 && !about && !script ==> r@ == SourceView::Address(t)
            }
        }),
{
    reveal_strlit("about:");
    reveal_strlit("javascript:");
    let t = trimmed(src->Some_0@);
    if t.len() >= 6 {
        assert(t.take(6) =~= t.subrange(0, 6));
    }
    if t.len() >= 11 {
        assert(t.take(11) =~= t.subrange(0, 11));
        assert(t.take(11)[0] == t[0]);
    }
    if t.len() >= 6 {
        assert(t.take(6)[0] == t[0]);
    }
}

/// A frame's document is taken exactly where the fetch did not fail, the
/// server answered in the two hundreds, and the first content type, where one
/// is declared, holds `html`.
pub proof fn law_which_frames_are_taken(resolved: Seq<char>, outcome: OutcomeView)
    ensures
        ({
            let kinds = crate::fetch::values_of(
                outcome.headers,
                crate::text::lowered("content-type"@),
            );
            frame_refusal(resolved, outcome) is None <==> outcome.error is None && outcome.status
                is Some && 200 <= outcome.status->Some_0 <= 299 && (kinds.len() == 0 || contains(
                kinds[0],
                "html"@,
            ))
        }),
        outcome.error matches Some(why) ==> frame_refusal(resolved, outcome) == Some(
            resolved + ": "@ + why,
        ),
{
    crate::fetch::law_a_header_is_the_first_of_its_name(outcome.headers, "content-type"@);
}

/// The frame that is looked at next is the first one found that was not seen
/// before, and there is none exactly where all were.
pub proof fn law_frames_are_taken_in_order(found: Seq<usize>, seen: Seq<usize>, i: int)
    requires
        0 <= i < found.len(),
        !seen.contains(found[i]),
        forall|j: int| 0 <= j < i ==> seen.contains(#[trigger] found[j]),
    ensures
        first_unseen(found, seen) == Some(found[i]),
    decreases found.len(),
{
    if i > 0 {
        assert(seen.contains(found[0]));
        let rest = found.drop_first();
        assert forall|j: int| 0 <= j < i - 1 implies seen.contains(#[trigger] rest[j]) by {
            assert(rest[j] == found[j + 1]);
        }
        law_frames_are_taken_in_order(rest, seen, i - 1);
    }
}

/// And none where all were.
pub proof fn law_no_frame_is_taken_twice(found: Seq<usize>, seen: Seq<usize>)
    requires
        forall|j: int| 0 <= j < found.len() ==> seen.contains(#[trigger] found[j]),
    ensures
        first_unseen(found, seen) is None,
    decreases found.len(),
{
    if found.len() > 0 {
        assert(seen.contains(found[0]));
        let rest = found.drop_first();
        assert forall|j: int| 0 <= j < rest.len() implies seen.contains(#[trigger] rest[j]) by {
            assert(rest[j] == found[j + 1]);
        }
        law_no_frame_is_taken_twice(rest, seen);
    }
}

/// A page is told of its frames exactly where there is something to tell: that
/// some were loaded, that more than eight were found, or that some failed, in
/// that order.
pub proof fn law_what_is_said_of_frames(frames: &Frames, r: Vec<String>)
    requires
        call_ensures(Frames::notes, (frames,), r),
    ensures
        r@.len() == (if frames.loaded > 0 {
            1int
        } else {
            0
        }) + (if frames.capped {
            1int
        } else {
            0
        }) + (if frames.failures@.len() > 0 {
            1int
        } else {
            0
        }),
        frames.failures@.len() > 0 ==> r@.last()@ == decimal(frames.failures@.len())
            + " frame(s) could not be loaded: "@ + joined(texts(frames.failures@), "; "@),
        frames.capped ==> texts(r@).contains(
            "this page has more than 8 frames; the rest were not loaded. The bound exists because ad cascades nest frames without limit, and it is said here rather than silently applied."@,
        ),
        MAX_FRAMES == 8,
{
    let f = frames@;
    let named = choose|named: Seq<Seq<char>>| #[trigger]
        is_roll(named, f.origins) && texts(r@) == note_if(f.loaded > 0, loaded_note(f, named))
            + note_if(f.capped, capped_note()) + note_if(
            f.failures.len() > 0,
            failed_note(f.failures),
        );
    let a = note_if(f.loaded > 0, loaded_note(f, named));
    let b = note_if(f.capped, capped_note());
    let c = note_if(f.failures.len() > 0, failed_note(f.failures));
    assert(texts(r@) == a + b + c);
    assert(texts(r@).len() == r@.len());
    if f.failures.len() > 0 {
        assert((a + b + c).last() == c[0]);
        assert(texts(r@)[r@.len() - 1] == r@[r@.len() - 1]@);
    }
    if f.capped {
        assert((a + b + c)[a.len() as int] == b[0]);
        assert(texts(r@).contains(texts(r@)[a.len() as int]));
    }
}

/// Frames are named by the origins they came from, each once and in order, and
/// a page that wrote them all itself is said to have.
pub proof fn law_who_served_the_frames(named: Seq<Seq<char>>)
    ensures
        named.len() == 0 ==> served_by(named) == "written inline by this page"@,
        named.len() > 0 ==> served_by(named) == "served by "@ + joined(named, ", "@),
{
}

/// At most eight frames are loaded: once eight are, no further one is taken up,
/// and that is noted where there is one. Before that the first that was not
/// seen is taken up and counts as seen. Nothing else changes.
pub proof fn law_no_more_than_eight_frames(f: &mut Frames, found: &Vec<usize>, r: Option<usize>)
    requires
        call_ensures(Frames::next_frame, (f, found), r),
    ensures
        ({
            let left = exists|i: int|
                0 <= i < found@.len() && !old(f)@.seen.contains(#[trigger] found@[i]);
            &&& r is Some <==> left && old(f)@.loaded < 8
            &&& final(f)@.capped <==> old(f)@.capped || (left && old(f)@.loaded >= 8)
            &&& r matches Some(id) ==> final(f)@.seen == old(f)@.seen.push(id)
            &&& r is None ==> final(f)@.seen == old(f)@.seen
            &&& final(f)@.loaded == old(f)@.loaded
            &&& final(f)@.stripped == old(f)@.stripped
            &&& final(f)@.failures == old(f)@.failures
            &&& final(f)@.origins == old(f)@.origins
        }),
{
    lemma_unseen_left(found@, old(f)@.seen);
}

proof fn lemma_unseen_left(found: Seq<usize>, seen: Seq<usize>)
    ensures
        first_unseen(found, seen) is Some <==> exists|i: int|
            0 <= i < found.len() && !seen.contains(#[trigger] found[i]),
    decreases found.len(),
{
    if found.len() > 0 {
        let rest = found.drop_first();
        lemma_unseen_left(rest, seen);
        if exists|i: int| 0 <= i < found.len() && !seen.contains(#[trigger] found[i]) {
            let i = choose|i: int| 0 <= i < found.len() && !seen.contains(#[trigger] found[i]);
            if i > 0 {
                assert(rest[i - 1] == found[i]);
            }
        }
        if exists|i: int| 0 <= i < rest.len() && !seen.contains(#[trigger] rest[i]) {
            let i = choose|i: int| 0 <= i < rest.len() && !seen.contains(#[trigger] rest[i]);
            assert(found[i + 1] == rest[i]);
        }
    }
}

/// A frame is named by the origin it came from, its port only where that is not
/// the scheme's own, and by its address where it has no origin.
pub proof fn law_how_a_frame_is_named(url: UrlView)
    ensures
        origin_of(url) is None ==> named_origin(url) == url.href,
        origin_of(url) matches Some(o) ==> {
            let short = o.scheme + "://"@ + o.host;
            let usual = (o.scheme == "https"@ && o.port == 443) || (o.scheme != "https"@ && o.port
                == 80);
            &&& usual ==> named_origin(url) == short
            &&& !usual ==> named_origin(url) == short + ":"@ + decimal(o.port as nat)
        },
{
}

/// What is said of the frames that were loaded: how many, who served them, and
/// how much script was taken out.
pub proof fn law_what_is_said_of_loaded_frames(f: FramesView, named: Seq<Seq<char>>)
    ensures
        starts_with(
            loaded_note(f, named),
            decimal(f.loaded as nat) + " frame(s) were loaded as content, "@ + served_by(named),
        ),
        contains(loaded_note(f, named), decimal(f.stripped as nat) + " stripped)"@),
{
    let head = decimal(f.loaded as nat) + " frame(s) were loaded as content, "@ + served_by(named);
    let middle =
        ": each document was fetched through the policy (initiator `frame` in the request log) and appears in the outline below, flattened, so some of what follows is another origin's page rather than this one's. Their scripts do not run ("@;
    let n = decimal(f.stripped as nat);
    let tail =
        " stripped) and their styles do not apply \u{2014} a frame here is content, not a second page \u{2014} and `contentDocument` answers null."@;
    reveal_strlit(" stripped)");
    reveal_strlit(
        " stripped) and their styles do not apply \u{2014} a frame here is content, not a second page \u{2014} and `contentDocument` answers null.",
    );
    let all = loaded_note(f, named);
    assert(all == head + middle + n + tail);
    assert(all.subrange(0, head.len() as int) =~= head);
    let k = (head.len() + middle.len()) as int;
    let want = n + " stripped)"@;
    assert(all.subrange(k, k + want.len()) =~= want);
    assert(crate::text::occurs_at(all, want, k));
}

} // verus!
