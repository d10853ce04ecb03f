//! What goes out besides a page's own fetches, from beginning to end: a
//! preflight, the handshake of a socket, an event stream, a request written
//! byte for byte. A [`Crossing`] says what it needs, the caller does that and
//! nothing else, and what came of it is told back.
use vstd::prelude::*;

use crate::address::IpAddr;
use crate::cors::{outcome, pairs, Plan, Preflight};
use crate::fetch::{
    copy_bytes, failed_outcome, jar_view, may_use_cookies, refuse_hop, refused_outcome,
    FetchOutcome, OutcomeView, WireRequest,
};
use crate::passage::{
    cleared, law_every_check_is_passed_in_turn, lookup, may_ask, moves, name_refusal, receipt_of,
    same_journey, Errand, Journey, Passage, Stage, Step, StepView,
};
use crate::policy::{Policy, PolicyView};
use crate::raw::{
    cookies_set, raw_answered, raw_passage, raw_unanswered, raw_unsent, raw_unwritten, set_cookies,
    shown_target, RawAnswer, RawRequest,
};
use crate::receipt::{response_record, Initiator, Phase, RecordView, RequestRecord};
use crate::text::{string_view, texts, uppered};
use crate::url::{url_option, Url, UrlView};
use crate::wire::{
    cookies_carried, preflight_answered, preflight_headers, preflight_outcome, preflight_passage, preflight_request,
    preflight_unsent, refuse_channel, socket_passage, stream_answered, stream_asker,
    stream_context, stream_headers, stream_passage, stream_refusal, stream_request, stream_unrecorded,
    stream_unsent, PreflightAnswer, StreamAnswer,
};

verus! {

/// What is to go out.
#[derive(Debug, PartialEq, Eq)]
pub enum Cause {
    /// A question to a server: whether it will accept a request.
    Preflight { ask: Preflight, url: Url, document: Option<Url> },
    /// The handshake of a socket, which the caller then makes.
    Socket { url: Url, document: Option<Url> },
    /// An event stream.
    Stream { url: Url, document: Option<Url> },
    /// A request as its bytes.
    Raw(RawRequest),
}

/// What the caller is to do next.
#[derive(Debug, PartialEq, Eq)]
pub enum Deed {
    /// Draw the number of the next receipt.
    Number,
    /// Look up the addresses of a host.
    Resolve { host: String, port: u16 },
    /// Claim one request of the page's allowance.
    Claim,
    /// Write a record.
    Append(RequestRecord),
    /// Write both halves of the record of a request that is not made.
    AppendPair(RequestRecord, RequestRecord),
    /// Ask the jar for the cookies of a URL.
    Cookies(Url),
    /// Send this, and report the head of what comes back.
    Send(WireRequest),
    /// Connect to the host of the URL, write the bytes, and read what follows.
    Dial { url: Url, wire: Vec<u8> },
    /// Hand the jar what the answer sets.
    Store { url: Url, set_cookies: Vec<String> },
    /// Charge the page's allowance, and write a record.
    Settle { record: RequestRecord, wire: u64, memory: u64, elapsed_ms: u64 },
    /// Nothing more: this is what it came to.
    Done(Ending),
}

/// What a crossing comes to.
#[derive(Debug, PartialEq, Eq)]
pub enum Ending {
    /// Whether the server will accept the request.
    Asked(Result<(), String>),
    /// The number of the receipt under which a socket may be opened.
    Opened(Result<u64, String>),
    /// Whether what came back is read as a stream.
    Streamed(Result<(), String>),
    /// What a raw request came to.
    Sent(FetchOutcome),
}

/// What an [`Ending`] says.
pub enum EndView {
    Asked(Result<(), Seq<char>>),
    Opened(Result<u64, Seq<char>>),
    Streamed(Result<(), Seq<char>>),
    Sent(OutcomeView),
}

impl View for Ending {
    type V = EndView;

    open spec fn view(&self) -> EndView {
        match self {
            Ending::Asked(r) => EndView::Asked(outcome(*r)),
            Ending::Opened(r) => EndView::Opened(
                match r {
                    Ok(n) => Ok(*n),
                    Err(e) => Err(e@),
                },
            ),
            Ending::Streamed(r) => EndView::Streamed(outcome(*r)),
            Ending::Sent(o) => EndView::Sent(o@),
        }
    }
}

/// What came of dialling.
#[derive(Debug, PartialEq, Eq)]
pub enum Dialled {
    /// There is no connection.
    Unreachable { error: String, elapsed_ms: u64 },
    /// The bytes could not be written.
    Unwritten { error: String, elapsed_ms: u64 },
    /// Nothing that is an answer came back.
    Unanswered { error: String, ttfb_ms: u64 },
    Answered { answer: RawAnswer, ttfb_ms: u64 },
}

/// What came of the last deed.
#[derive(Debug, PartialEq, Eq)]
pub enum Word {
    Numbered(u64),
    Resolved(Result<Vec<IpAddr>, String>),
    Claimed(Result<(), String>),
    Appended(Result<(), String>),
    /// The `Cookie` header for the URL, and how many cookies it holds.
    Cookies(Option<(String, usize)>),
    Asked { answer: Result<PreflightAnswer, String>, elapsed_ms: u64 },
    Streamed(Result<StreamAnswer, String>),
    Dialled(Dialled),
    Stored(usize),
}

/// What a crossing is waiting for.
#[derive(Debug, PartialEq, Eq)]
pub enum Wait {
    Number,
    /// What its passage waits for.
    Passing(Passage),
    /// The record of a refusal.
    Refusing { told: String, seq: u64 },
    /// The jar.
    Jar(Passage),
    /// What comes back over the wire.
    Wire(Passage),
    /// The jar again, which is handed what a raw answer sets.
    Storing { passage: Passage, answer: RawAnswer, ttfb_ms: u64 },
    /// The record of a stream that is open.
    Opening,
    /// The last record.
    Closing(Ending),
    Done,
}

/// A crossing under way.
#[derive(Debug, PartialEq, Eq)]
pub struct Crossing {
    pub cause: Cause,
    pub at: Wait,
}

/// Where it goes.
pub open spec fn goal(c: Cause) -> UrlView {
    match c {
        Cause::Preflight { url, .. } => url@,
        Cause::Socket { url, .. } => url@,
        Cause::Stream { url, .. } => url@,
        Cause::Raw(raw) => raw.url@,
    }
}

/// The document it goes out for.
pub open spec fn sender(c: Cause) -> Option<UrlView> {
    match c {
        Cause::Preflight { document, .. } => url_option(document),
        Cause::Socket { document, .. } => url_option(document),
        Cause::Stream { document, .. } => url_option(document),
        Cause::Raw(_) => None,
    }
}

/// The passage is that of the cause.
pub open spec fn for_cause(c: Cause, p: Passage) -> bool {
    &&& p.url@ == goal(c)
    &&& match c {
        Cause::Preflight { url, .. } => p.errand == Errand::Preflight && p.initiator
            == Initiator::Subresource && p.verb@ == "OPTIONS"@ && p.method@ == "OPTIONS"@
            && p.shown@ == url@.href && p.overridden@.len() == 0,
        Cause::Socket { url, .. } => p.errand == Errand::Socket && p.initiator
            == Initiator::Subresource && p.verb@ == "WS-OPEN"@ && p.method@ == "GET"@ && p.shown@
            == url@.href && p.overridden@.len() == 0,
        Cause::Stream { url, .. } => p.errand == Errand::Stream && p.initiator
            == Initiator::Subresource && p.verb@ == "SSE-OPEN"@ && p.method@ == "GET"@ && p.shown@
            == url@.href && p.overridden@.len() == 0,
        Cause::Raw(raw) => p.errand == Errand::Raw && p.initiator == Initiator::Replay && p.verb@
            == raw.method@ && p.method@ == raw.method@ && p.shown@ == shown_target(raw)
            && p.overridden@ == raw.broke@,
    }
}

/// The passage that a crossing begins with.
pub open spec fn departs(c: Cause, seq: u64, p: Passage) -> bool {
    for_cause(c, p) && p.seq == seq && p.stage == Stage::Naming && p.plan is None
}

/// What the passage meets, as far as the word tells.
pub open spec fn way(c: Cause, policy: PolicyView, proxied: bool, word: Word) -> Journey {
    Journey {
        policy,
        proxied,
        document: sender(c),
        context: match c {
            Cause::Stream { .. } => stream_asker(sender(c)),
            _ => None,
        },
        tainted: false,
        found: match word {
            Word::Resolved(found) => lookup(found),
            _ => Err(Seq::empty()),
        },
        answer: Err(Seq::empty()),
        claim: match word {
            Word::Claimed(r) => outcome(r),
            _ => Err(Seq::empty()),
        },
        receipt: match word {
            Word::Appended(r) => outcome(r),
            _ => Err(Seq::empty()),
        },
    }
}

/// What a crossing that is not made comes to, once its record was written or
/// was not. A preflight is refused either way.
pub open spec fn turned_away(
    c: Cause,
    told: Seq<char>,
    seq: u64,
    pair: Result<(), Seq<char>>,
) -> EndView {
    let said = match pair {
        Ok(()) => told,
        Err(e) => "receipt sink refused: "@ + e,
    };
    match c {
        Cause::Preflight { .. } => EndView::Asked(Err(told)),
        Cause::Socket { .. } => EndView::Opened(Err(said)),
        Cause::Stream { .. } => EndView::Streamed(Err(said)),
        Cause::Raw(raw) => EndView::Sent(refused_outcome(raw.url@, told, seq, pair)),
    }
}

/// What a crossing without a receipt comes to.
pub open spec fn held_back(c: Cause, told: Seq<char>) -> EndView {
    match c {
        Cause::Preflight { .. } => EndView::Asked(Err(told)),
        Cause::Socket { .. } => EndView::Opened(Err(told)),
        Cause::Stream { .. } => EndView::Streamed(Err(told)),
        Cause::Raw(raw) => EndView::Sent(failed_outcome(raw.url@, told, None)),
    }
}

/// The request that opens a stream.
pub open spec fn opens(
    url: UrlView,
    p: Passage,
    language: Seq<char>,
    jar: Option<(Seq<char>, usize)>,
    w: WireRequest,
) -> bool {
    &&& w.method@ == "GET"@
    &&& w.url@ == url
    &&& pairs(w.headers@) == stream_headers(p.plan, language, jar)
    &&& w.body@.len() == 0
    &&& w.cookies_sent == cookies_carried(p.plan, jar)
}

/// What follows once the receipt is written.
pub open spec fn released(c: Cause, p: Passage, language: Seq<char>, at: Wait, deed: Deed) -> bool {
    match c {
        Cause::Preflight { ask, url, .. } => {
            &&& at == Wait::Wire(p)
            &&& deed matches Deed::Send(w) && w.method@ == "OPTIONS"@ && w.url@ == url@ && pairs(
                w.headers@,
            ) == preflight_headers(ask@) && w.body@.len() == 0 && w.cookies_sent == 0
        },
        Cause::Socket { .. } => at is Done && deed == Deed::Done(Ending::Opened(Ok(p.seq))),
        Cause::Stream { url, .. } => if may_use_cookies(p.plan) {
            at == Wait::Jar(p) && (deed matches Deed::Cookies(u) && u@ == url@)
        } else {
            at == Wait::Wire(p) && (deed matches Deed::Send(w) && opens(
                url@,
                p,
                language,
                None,
                w,
            ))
        },
        Cause::Raw(raw) => {
            &&& at == Wait::Wire(p)
            &&& deed matches Deed::Dial { url, wire } && url@ == raw.url@ && wire@ == raw.wire@
        },
    }
}

/// What a step of the passage leads to.
pub open spec fn leads(
    c: Cause,
    p: Passage,
    step: StepView,
    language: Seq<char>,
    at: Wait,
    deed: Deed,
) -> bool {
    match step {
        StepView::Refused { record, told } => {
            &&& at matches Wait::Refusing { told: t, seq } && t@ == told && seq == p.seq
            &&& deed matches Deed::AppendPair(a, b) && a@ == record && b@ == response_record(record)
        },
        StepView::Turned(told) => at is Done && (deed matches Deed::Done(end) && end@ == held_back(
            c,
            told,
        )),
        StepView::Resolve { host, port } => at == Wait::Passing(p) && (deed matches Deed::Resolve {
            host: h,
            port: n,
        } && h@ == host && n == port),
        StepView::Ask => false,
        StepView::Claim => at == Wait::Passing(p) && deed is Claim,
        StepView::Record(record) => at == Wait::Passing(p) && (deed matches Deed::Append(a) && a@
            == record),
        StepView::Go => released(c, p, language, at, deed),
    }
}

/// What the answer to a preflight leads to.
pub open spec fn asked(
    ask: Preflight,
    p: Passage,
    answer: Result<PreflightAnswer, String>,
    elapsed_ms: u64,
    at: Wait,
    deed: Deed,
) -> bool {
    let response = response_record(receipt_of(p));
    match answer {
        Err(e) => {
            &&& at matches Wait::Closing(end) && end@ == EndView::Asked(
                Err("the preflight could not be sent: "@ + e@),
            )
            &&& deed matches Deed::Append(a) && a@ == (RecordView {
                duration_ms: Some(elapsed_ms),
                error: Some(e@),
                ..response
            })
        },
        Ok(answer) => {
            &&& at matches Wait::Closing(end) && end@ == EndView::Asked(
                preflight_outcome(ask@, answer),
            )
            &&& deed matches Deed::Settle { record: a, wire, memory, elapsed_ms: ms } && a@ == (
            RecordView {
                status: Some(answer.status),
                duration_ms: Some(elapsed_ms),
                ..response
            }) && wire == 0 && memory == 0 && ms == elapsed_ms
        },
    }
}

/// What the answer to the request that opens a stream leads to.
pub open spec fn streamed(
    p: Passage,
    answer: Result<StreamAnswer, String>,
    at: Wait,
    deed: Deed,
) -> bool {
    let response = response_record(receipt_of(p));
    match answer {
        Err(e) => {
            &&& at matches Wait::Closing(end) && end@ == EndView::Streamed(
                Err("could not open the event stream: "@ + e@),
            )
            &&& deed matches Deed::Append(a) && a@ == (RecordView { error: Some(e@), ..response })
        },
        Ok(answer) => match stream_refusal(p.plan, answer) {
            Some(why) => {
                &&& at matches Wait::Closing(end) && end@ == EndView::Streamed(Err(why))
                &&& deed matches Deed::Append(a) && a@ == (RecordView {
                    status: Some(answer.status),
                    error: Some(why),
                    ..response
                })
            },
            None => {
                &&& at is Opening
                &&& deed matches Deed::Append(a) && a@ == (RecordView {
                    status: Some(answer.status),
                    ..response
                })
            },
        },
    }
}

/// What came of dialling leads to.
pub open spec fn dialled(raw: RawRequest, p: Passage, d: Dialled, at: Wait, deed: Deed) -> bool {
    let response = response_record(receipt_of(p));
    match d {
        Dialled::Unreachable { error, elapsed_ms } => {
            &&& at matches Wait::Closing(end) && end@ == EndView::Sent(
                failed_outcome(raw.url@, error@, Some(p.seq)),
            )
            &&& deed matches Deed::Append(a) && a@ == (RecordView {
                duration_ms: Some(elapsed_ms),
                error: Some(error@),
                ..response
            })
        },
        Dialled::Unwritten { error, elapsed_ms } => {
            let why = "writing the request failed: "@ + error@;
            &&& at matches Wait::Closing(end) && end@ == EndView::Sent(
                failed_outcome(raw.url@, why, Some(p.seq)),
            )
            &&& deed matches Deed::Append(a) && a@ == (RecordView {
                duration_ms: Some(elapsed_ms),
                error: Some(why),
                ..response
            })
        },
        Dialled::Unanswered { error, ttfb_ms } => {
            &&& at matches Wait::Closing(end) && end@ == EndView::Sent(
                failed_outcome(raw.url@, error@, Some(p.seq)),
            )
            &&& deed matches Deed::Append(a) && a@ == (RecordView {
                duration_ms: Some(ttfb_ms),
                ttfb_ms: Some(ttfb_ms),
                error: Some(error@),
                ..response
            })
        },
        Dialled::Answered { answer, ttfb_ms } => {
            &&& at == (Wait::Storing { passage: p, answer, ttfb_ms })
            &&& deed matches Deed::Store { url, set_cookies: kept } && url@ == raw.url@ && texts(
                kept@,
            ) == cookies_set(pairs(answer.headers@))
        },
    }
}

/// What a raw answer whose cookies are kept leads to. It is shown whole:
/// whoever writes a request byte for byte is no page.
pub open spec fn shown(
    raw: RawRequest,
    p: Passage,
    answer: RawAnswer,
    ttfb_ms: u64,
    cookies: usize,
    at: Wait,
    deed: Deed,
) -> bool {
    &&& at matches Wait::Closing(end) && end@ == EndView::Sent(
        OutcomeView {
            seq: Some(p.seq),
            headers: pairs(answer.headers@),
            final_url: raw.url@,
            body: answer.body@,
            status: answer.status,
            error: None,
            opaque: false,
        },
    )
    &&& deed matches Deed::Settle { record: a, wire, memory, elapsed_ms } && a@ == (RecordView {
        status: answer.status,
        duration_ms: Some(ttfb_ms),
        ttfb_ms: Some(ttfb_ms),
        bytes: Some(answer.body@.len() as u64),
        cookies_stored: Some(cookies),
        trailing_bytes: if answer.trailing@.len() > 0 {
            Some(answer.trailing@.len() as u64)
        } else {
            None
        },
        ..response_record(receipt_of(p))
    }) && wire == answer.body@.len() as u64 && memory == answer.body@.len() as u64 && elapsed_ms
        == ttfb_ms
}

/// What one word leads to.
pub open spec fn crosses(
    pre: Crossing,
    policy: PolicyView,
    proxied: bool,
    language: Seq<char>,
    word: Word,
    post: Crossing,
    deed: Deed,
) -> bool {
    let c = pre.cause;
    &&& post.cause == c
    &&& match (pre.at, word) {
        (Wait::Number, Word::Numbered(seq)) => exists|p: Passage, q: Passage, step: StepView|
            departs(c, seq, p) && #[trigger] moves(way(c, policy, proxied, word), p, q, step)
                && leads(c, q, step, language, post.at, deed),
        (Wait::Passing(p), _) => exists|q: Passage, step: StepView|
            #[trigger] moves(way(c, policy, proxied, word), p, q, step) && leads(
                c,
                q,
                step,
                language,
                post.at,
                deed,
            ),
        (Wait::Refusing { told, seq }, Word::Appended(pair)) => post.at is Done && (
        deed matches Deed::Done(end) && end@ == turned_away(c, told@, seq, outcome(pair))),
        (Wait::Jar(p), Word::Cookies(jar)) => post.at == Wait::Wire(p) && (deed matches Deed::Send(
            w,
        ) && opens(goal(c), p, language, jar_view(jar), w)),
        (Wait::Wire(p), Word::Asked { answer, elapsed_ms }) => c matches Cause::Preflight {
            ask,
            ..
        } && asked(ask, p, answer, elapsed_ms, post.at, deed),
        (Wait::Wire(p), Word::Streamed(answer)) => streamed(p, answer, post.at, deed),
        (Wait::Wire(p), Word::Dialled(d)) => c matches Cause::Raw(raw) && dialled(
            raw,
            p,
            d,
            post.at,
            deed,
        ),
        (Wait::Storing { passage, answer, ttfb_ms }, Word::Stored(cookies)) => c matches Cause::Raw(
            raw,
        ) && shown(raw, passage, answer, ttfb_ms, cookies, post.at, deed),
        (Wait::Opening, Word::Appended(receipt)) => post.at is Done && (deed matches Deed::Done(end)
            && end@ == EndView::Streamed(
            match receipt {
                Ok(()) => Ok(()),
                Err(e) => Err("refusing to stream: the receipt could not be written: "@ + e@),
            },
        )),
        (Wait::Closing(end), Word::Appended(_)) => post.at is Done && deed == Deed::Done(end),
        _ => false,
    }
}

impl Crossing {
    /// What holds of every crossing under way.
    pub open spec fn wf(self) -> bool {
        match self.at {
            Wait::Passing(p) => {
                &&& for_cause(self.cause, p)
                &&& p.stage == Stage::Resolving || p.stage == Stage::Claiming || p.stage
                    == Stage::Recording
                &&& p.stage == Stage::Resolving ==> p.plan is None
            },
            Wait::Jar(p) => for_cause(self.cause, p) && p.stage == Stage::Open && self.cause
                is Stream,
            Wait::Wire(p) => for_cause(self.cause, p) && p.stage == Stage::Open && !(self.cause
                is Socket),
            Wait::Storing { passage, .. } => for_cause(self.cause, passage) && passage.stage
                == Stage::Open && self.cause is Raw,
            Wait::Opening => self.cause is Stream,
            Wait::Closing(end) => !(end is Opened),
            _ => true,
        }
    }

    /// Whether the word is the one that is waited for.
    pub open spec fn awaits(self, word: Word) -> bool {
        match self.at {
            Wait::Number => word is Numbered,
            Wait::Passing(p) => match p.stage {
                Stage::Resolving => word is Resolved,
                Stage::Claiming => word is Claimed,
                Stage::Recording => word is Appended,
                _ => false,
            },
            Wait::Refusing { .. } => word is Appended,
            Wait::Jar(_) => word is Cookies,
            Wait::Wire(_) => match self.cause {
                Cause::Preflight { .. } => word is Asked,
                Cause::Stream { .. } => word is Streamed,
                Cause::Raw(_) => word is Dialled,
                Cause::Socket { .. } => false,
            },
            Wait::Storing { .. } => word is Stored,
            Wait::Opening => word is Appended,
            Wait::Closing(_) => word is Appended,
            Wait::Done => false,
        }
    }
}

/// Opening a stream needs no leave beforehand: it is a plain request with no
/// headers of the page's own.
proof fn lemma_a_stream_asks_no_leave(
    c: Cause,
    policy: PolicyView,
    proxied: bool,
    word: Word,
    p: Passage,
    q: Passage,
    step: StepView,
)
    requires
        for_cause(c, p),
        p.stage == Stage::Naming || p.stage == Stage::Resolving || p.stage == Stage::Claiming
            || p.stage == Stage::Recording,
        moves(way(c, policy, proxied, word), p, q, step),
    ensures
        step !is Ask,
        for_cause(c, q),
{
    reveal_strlit("GET");
    assert(uppered("GET"@) =~= "GET"@);
    assert(same_journey(p, q));
}

/// The passage of a cause.
fn depart(c: &Cause, seq: u64) -> (r: Passage)
    ensures
        departs(*c, seq, r),
{
    match c {
        Cause::Preflight { url, .. } => preflight_passage(seq, url),
        Cause::Socket { url, .. } => socket_passage(seq, url),
        Cause::Stream { url, .. } => stream_passage(seq, url),
        Cause::Raw(raw) => raw_passage(raw, seq),
    }
}

/// What a crossing that is not made comes to.
fn turn_away(c: &Cause, told: String, seq: u64, pair: Result<(), String>) -> (r: Ending)
    ensures
        r@ == turned_away(*c, told@, seq, outcome(pair)),
{
    match c {
        Cause::Preflight { .. } => Ending::Asked(Err(told)),
        Cause::Socket { .. } => Ending::Opened(Err(refuse_channel(told, pair))),
        Cause::Stream { .. } => Ending::Streamed(Err(refuse_channel(told, pair))),
        Cause::Raw(raw) => Ending::Sent(refuse_hop(&raw.url, told, seq, pair)),
    }
}

/// What a crossing without a receipt comes to.
fn hold_back(c: &Cause, told: String) -> (r: Ending)
    ensures
        r@ == held_back(*c, told@),
{
    match c {
        Cause::Preflight { .. } => Ending::Asked(Err(told)),
        Cause::Socket { .. } => Ending::Opened(Err(told)),
        Cause::Stream { .. } => Ending::Streamed(Err(told)),
        Cause::Raw(raw) => Ending::Sent(FetchOutcome::failed(raw.url.copy(), told)),
    }
}

/// Puts a cleared crossing on the wire.
fn release(c: &Cause, p: Passage, language: &str) -> (r: (Wait, Deed))
    requires
        for_cause(*c, p),
        p.stage == Stage::Open,
    ensures
        released(*c, p, language@, r.0, r.1),
{
    match c {
        Cause::Preflight { ask, url, .. } => {
            let w = preflight_request(ask, url);
            (Wait::Wire(p), Deed::Send(w))
        },
        Cause::Socket { .. } => {
            let seq = p.seq;
            (Wait::Done, Deed::Done(Ending::Opened(Ok(seq))))
        },
        Cause::Stream { url, .. } => {
            let may = match &p.plan {
                Some(Plan::Send { send_cookies, .. }) => *send_cookies,
                _ => true,
            };
            if may {
                return (Wait::Jar(p), Deed::Cookies(url.copy()));
            }
            let w = stream_request(&p.plan, url, language, None);
            (Wait::Wire(p), Deed::Send(w))
        },
        Cause::Raw(raw) => (
            Wait::Wire(p),
            Deed::Dial { url: raw.url.copy(), wire: copy_bytes(&raw.wire) },
        ),
    }
}

/// Follows a step of the passage.
fn follow(c: &Cause, p: Passage, step: Step, language: &str) -> (r: (Wait, Deed))
    requires
        for_cause(*c, p),
        match step@ {
            StepView::Refused { .. } => true,
            StepView::Turned(_) => true,
            StepView::Resolve { .. } => p.stage == Stage::Resolving && p.plan is None,
            StepView::Ask => false,
            StepView::Claim => p.stage == Stage::Claiming,
            StepView::Record(_) => p.stage == Stage::Recording,
            StepView::Go => p.stage == Stage::Open,
        },
    ensures
        leads(*c, p, step@, language@, r.0, r.1),
        (Crossing { cause: *c, at: r.0 }).wf(),
{
    match step {
        Step::Refused(refusal) => {
            let told = refusal.told.clone();
            let seq = p.seq;
            let (a, b) = refusal.record_pair();
            (Wait::Refusing { told, seq }, Deed::AppendPair(a, b))
        },
        Step::Turned(told) => (Wait::Done, Deed::Done(hold_back(c, told))),
        Step::Resolve { host, port } => (Wait::Passing(p), Deed::Resolve { host, port }),
        Step::Ask => {
            assert(false);
            (Wait::Done, Deed::Claim)
        },
        Step::Claim => (Wait::Passing(p), Deed::Claim),
        Step::Record(record) => (Wait::Passing(p), Deed::Append(record)),
        Step::Go => release(c, p, language),
    }
}

/// Takes the answer to a preflight.
fn hear_preflight(
    ask: &Preflight,
    p: Passage,
    answer: Result<PreflightAnswer, String>,
    elapsed_ms: u64,
) -> (r: (Wait, Deed))
    ensures
        asked(*ask, p, answer, elapsed_ms, r.0, r.1),
        r.0 matches Wait::Closing(end) && end is Asked,
{
    let record = p.receipt();
    match answer {
        Err(e) => {
            let (noted, why) = preflight_unsent(&record, &e, elapsed_ms);
            (Wait::Closing(Ending::Asked(Err(why))), Deed::Append(noted))
        },
        Ok(answer) => {
            let (noted, verdict) = preflight_answered(ask, &record, &answer, elapsed_ms);
            (
                Wait::Closing(Ending::Asked(verdict)),
                Deed::Settle { record: noted, wire: 0, memory: 0, elapsed_ms },
            )
        },
    }
}

/// Takes the answer to the request that opens a stream.
fn hear_stream(p: Passage, answer: Result<StreamAnswer, String>) -> (r: (Wait, Deed))
    ensures
        streamed(p, answer, r.0, r.1),
        r.0 is Opening || (r.0 matches Wait::Closing(end) && end is Streamed),
{
    let record = p.receipt();
    match answer {
        Err(e) => {
            let (noted, why) = stream_unsent(&record, &e);
            (Wait::Closing(Ending::Streamed(Err(why))), Deed::Append(noted))
        },
        Ok(answer) => {
            let (noted, verdict) = stream_answered(&p.plan, &record, &answer);
            match verdict {
                Err(why) => (Wait::Closing(Ending::Streamed(Err(why))), Deed::Append(noted)),
                Ok(()) => (Wait::Opening, Deed::Append(noted)),
            }
        },
    }
}

/// Takes what came of dialling.
fn hear_dialled(raw: &RawRequest, p: Passage, d: Dialled) -> (r: (Wait, Deed))
    ensures
        dialled(*raw, p, d, r.0, r.1),
        (r.0 matches Wait::Closing(end) && end is Sent) || (r.0 matches Wait::Storing {
            passage,
            ..
        } && passage == p),
{
    let record = p.receipt();
    match d {
        Dialled::Unreachable { error, elapsed_ms } => {
            let (noted, o) = raw_unsent(raw, &record, &error, elapsed_ms);
            (Wait::Closing(Ending::Sent(o)), Deed::Append(noted))
        },
        Dialled::Unwritten { error, elapsed_ms } => {
            let why = raw_unwritten(&error);
            let (noted, o) = raw_unsent(raw, &record, &why, elapsed_ms);
            (Wait::Closing(Ending::Sent(o)), Deed::Append(noted))
        },
        Dialled::Unanswered { error, ttfb_ms } => {
            let (noted, o) = raw_unanswered(raw, &record, &error, ttfb_ms);
            (Wait::Closing(Ending::Sent(o)), Deed::Append(noted))
        },
        Dialled::Answered { answer, ttfb_ms } => {
            let kept = set_cookies(&answer.headers);
            (
                Wait::Storing { passage: p, answer, ttfb_ms },
                Deed::Store { url: raw.url.copy(), set_cookies: kept },
            )
        },
    }
}

/// Shows a raw answer.
fn show_raw(
    raw: &RawRequest,
    p: Passage,
    answer: RawAnswer,
    ttfb_ms: u64,
    cookies: usize,
) -> (r: (Wait, Deed))
    ensures
        shown(*raw, p, answer, ttfb_ms, cookies, r.0, r.1),
        r.0 matches Wait::Closing(end) && end is Sent,
{
    let record = p.receipt();
    let size = answer.body.len() as u64;
    let (noted, o) = raw_answered(raw, &record, answer, cookies, ttfb_ms);
    (
        Wait::Closing(Ending::Sent(o)),
        Deed::Settle { record: noted, wire: size, memory: size, elapsed_ms: ttfb_ms },
    )
}

impl Crossing {
    /// A crossing that has yet to set out, and the first thing it needs.
    pub fn begin(cause: Cause) -> (r: (Crossing, Deed))
        ensures
            r.0.cause == cause,
            r.0.at is Number,
            r.0.wf(),
            r.1 is Number,
    {
        (Crossing { cause, at: Wait::Number }, Deed::Number)
    }

    /// Takes what came of the last deed, and says what is next.
    ///
    /// `language` is the `Accept-Language` this engine presents, and `proxied`
    /// whether an egress proxy resolves names at its far end.
    pub fn next(self, policy: &Policy, proxied: bool, language: &str, word: Word) -> (r: (
        Crossing,
        Deed,
    ))
        requires
            self.wf(),
            self.awaits(word),
        ensures
            r.0.wf(),
            crosses(self, policy@, proxied, language@, word, r.0, r.1),
    {
        let ghost pre = self;
        let ghost j = way(pre.cause, policy@, proxied, word);
        let cause = self.cause;
        let (at, deed) = match self.at {
            Wait::Number => {
                let seq = match word {
                    Word::Numbered(seq) => seq,
                    _ => 0,
                };
                let mut p = depart(&cause, seq);
                let ghost before = p;
                let (document, context) = asker(&cause);
                let step = p.check_name(policy, proxied, document, context.as_ref(), false);
                proof {
                    assert(departs(cause, seq, before));
                    assert(moves(j, before, p, step@));
                    lemma_a_stream_asks_no_leave(
                        cause,
                        policy@,
                        proxied,
                        word,
                        before,
                        p,
                        step@,
                    );
                }
                follow(&cause, p, step, language)
            },
            Wait::Passing(passage) => {
                let mut p = passage;
                let ghost before = p;
                let (_, context) = asker(&cause);
                let step = match word {
                    Word::Resolved(found) => p.check_addresses(
                        policy,
                        &found,
                        context.as_ref(),
                        false,
                    ),
                    Word::Claimed(claim) => p.claimed(claim),
                    Word::Appended(receipt) => p.recorded(receipt),
                    _ => {
                        assert(false);
                        Step::Go
                    },
                };
                proof {
                    assert(moves(j, before, p, step@));
                    lemma_a_stream_asks_no_leave(
                        cause,
                        policy@,
                        proxied,
                        word,
                        before,
                        p,
                        step@,
                    );
                }
                follow(&cause, p, step, language)
            },
            Wait::Refusing { told, seq } => {
                let pair = match word {
                    Word::Appended(pair) => pair,
                    _ => Ok(()),
                };
                (Wait::Done, Deed::Done(turn_away(&cause, told, seq, pair)))
            },
            Wait::Jar(p) => {
                let jar = match word {
                    Word::Cookies(jar) => jar,
                    _ => None,
                };
                match &cause {
                    Cause::Stream { url, .. } => {
                        let w = stream_request(&p.plan, url, language, jar);
                        (Wait::Wire(p), Deed::Send(w))
                    },
                    _ => {
                        assert(false);
                        (Wait::Done, Deed::Claim)
                    },
                }
            },
            Wait::Wire(p) => match (&cause, word) {
                (Cause::Preflight { ask, .. }, Word::Asked { answer, elapsed_ms }) => {
                    hear_preflight(ask, p, answer, elapsed_ms)
                },
                (Cause::Stream { .. }, Word::Streamed(answer)) => hear_stream(p, answer),
                (Cause::Raw(raw), Word::Dialled(d)) => hear_dialled(raw, p, d),
                _ => {
                    assert(false);
                    (Wait::Done, Deed::Claim)
                },
            },
            Wait::Storing { passage, answer, ttfb_ms } => {
                let cookies: usize = match word {
                    Word::Stored(cookies) => cookies,
                    _ => 0,
                };
                match &cause {
                    Cause::Raw(raw) => show_raw(raw, passage, answer, ttfb_ms, cookies),
                    _ => {
                        assert(false);
                        (Wait::Done, Deed::Claim)
                    },
                }
            },
            Wait::Opening => {
                let end = match word {
                    Word::Appended(Err(e)) => Err(stream_unrecorded(&e)),
                    _ => Ok(()),
                };
                (Wait::Done, Deed::Done(Ending::Streamed(end)))
            },
            Wait::Closing(end) => (Wait::Done, Deed::Done(end)),
            Wait::Done => {
                assert(false);
                (Wait::Done, Deed::Claim)
            },
        };
        (Crossing { cause, at }, deed)
    }
}

/// Who a crossing goes out for: the document, and what the same-origin policy
/// is asked about.
fn asker(c: &Cause) -> (r: (Option<&Url>, Option<crate::passage::CorsContext>))
    ensures
        crate::url::url_ref(r.0) == sender(*c),
        crate::fetch::context_view(r.1) == (match c {
            Cause::Stream { .. } => stream_asker(sender(*c)),
            _ => None,
        }),
{
    match c {
        Cause::Preflight { document, .. } => (document.as_ref(), None),
        Cause::Socket { document, .. } => (document.as_ref(), None),
        Cause::Stream { document, .. } => {
            let context = stream_context(document.as_ref());
            (document.as_ref(), context)
        },
        Cause::Raw(_) => (None, None),
    }
}

// --------------------------------------------------------------------- laws

/// The passage that a crossing is in, where it is in one.
pub open spec fn crossing_in(x: Crossing) -> Option<Passage> {
    match x.at {
        Wait::Passing(p) => Some(p),
        Wait::Jar(p) => Some(p),
        Wait::Wire(p) => Some(p),
        Wait::Storing { passage, .. } => Some(passage),
        _ => None,
    }
}

/// The policy allows the name, and the same-origin policy lets the document
/// ask, as far as the crossing has come.
pub open spec fn vetted(x: Crossing, policy: PolicyView, proxied: bool) -> bool {
    match crossing_in(x) {
        None => true,
        Some(p) => {
            let j = way(x.cause, policy, proxied, Word::Numbered(p.seq));
            &&& name_refusal(p.errand, policy, proxied, p.url@, j.document) is None
            &&& p.stage != Stage::Resolving ==> may_ask(j, p)
        },
    }
}

/// Whether the word says that the record was written.
pub open spec fn is_written(word: Word) -> bool {
    word matches Word::Appended(Ok(_))
}

/// Whether the deed uses the wire, or lets the caller use it.
pub open spec fn uses_the_wire(deed: Deed) -> bool {
    deed is Send || deed is Dial || (deed matches Deed::Done(Ending::Opened(Ok(_))))
}

/// Nothing crosses unvetted or unreceipted: a preflight, a stream, a raw
/// request or a socket goes out only where the policy allows its name, and
/// only on the word that its record was written.
pub proof fn law_a_crossing_is_vetted_and_receipted(
    pre: Crossing,
    policy: PolicyView,
    proxied: bool,
    language: Seq<char>,
    word: Word,
    post: Crossing,
    deed: Deed,
)
    requires
        pre.wf(),
        vetted(pre, policy, proxied),
        crosses(pre, policy, proxied, language, word, post, deed),
    ensures
        vetted(post, policy, proxied),
        uses_the_wire(deed) && !(pre.at is Jar) ==> is_written(word) && (
        pre.at matches Wait::Passing(p) && p.stage == Stage::Recording),
        deed is Cookies <==> post.at is Jar,
        deed is Cookies ==> is_written(word) && (pre.at matches Wait::Passing(p) && p.stage
            == Stage::Recording),
{
    let c = pre.cause;
    let j = way(c, policy, proxied, word);
    match (pre.at, word) {
        (Wait::Number, Word::Numbered(seq)) => {
            let (p, q, step) = choose|p: Passage, q: Passage, step: StepView|
                departs(c, seq, p) && #[trigger] moves(j, p, q, step) && leads(
                    c,
                    q,
                    step,
                    language,
                    post.at,
                    deed,
                );
            assert(cleared(j, p));
            law_every_check_is_passed_in_turn(j, p, q, step);
        },
        (Wait::Passing(p), _) => {
            let (q, step) = choose|q: Passage, step: StepView|
                #[trigger] moves(j, p, q, step) && leads(c, q, step, language, post.at, deed);
            assert(same_journey(p, q));
        },
        _ => {},
    }
}

/// The receipt that is written before a crossing is that of the crossing, and
/// what crosses goes where it says.
pub proof fn law_the_receipt_names_the_crossing(
    pre: Crossing,
    policy: PolicyView,
    proxied: bool,
    language: Seq<char>,
    word: Word,
    post: Crossing,
    deed: Deed,
)
    requires
        pre.wf(),
        crosses(pre, policy, proxied, language, word, post, deed),
    ensures
        (post.at matches Wait::Passing(p) && p.stage == Stage::Recording) ==> (
        deed matches Deed::Append(a) && a@.phase == Phase::Request && a@.allowed && a@.seq
            == post.at->Passing_0.seq && a@.url == (match pre.cause {
            Cause::Raw(raw) => shown_target(raw),
            _ => goal(pre.cause).href,
        })),
        deed matches Deed::Send(w) ==> w.url@ == goal(pre.cause),
        deed matches Deed::Dial { url, wire } ==> url@ == goal(pre.cause) && (
        pre.cause matches Cause::Raw(raw) && wire@ == raw.wire@),
{
    let c = pre.cause;
    let j = way(c, policy, proxied, word);
    match (pre.at, word) {
        (Wait::Number, Word::Numbered(seq)) => {
            let (p, q, step) = choose|p: Passage, q: Passage, step: StepView|
                departs(c, seq, p) && #[trigger] moves(j, p, q, step) && leads(
                    c,
                    q,
                    step,
                    language,
                    post.at,
                    deed,
                );
            assert(moves(j, p, q, step));
        },
        (Wait::Passing(p), _) => {
            let (q, step) = choose|q: Passage, step: StepView|
                #[trigger] moves(j, p, q, step) && leads(c, q, step, language, post.at, deed);
            assert(moves(j, p, q, step));
        },
        _ => {},
    }
}

/// What the policy does not allow never reaches the wire, whatever it is: both
/// halves of its record are written as denied.
pub proof fn law_a_denied_crossing_is_recorded(
    pre: Crossing,
    policy: PolicyView,
    proxied: bool,
    language: Seq<char>,
    seq: u64,
    post: Crossing,
    deed: Deed,
)
    requires
        pre.at is Number,
        crosses(pre, policy, proxied, language, Word::Numbered(seq), post, deed),
        name_refusal(
            match pre.cause {
                Cause::Preflight { .. } => Errand::Preflight,
                Cause::Socket { .. } => Errand::Socket,
                Cause::Stream { .. } => Errand::Stream,
                Cause::Raw(_) => Errand::Raw,
            },
            policy,
            proxied,
            goal(pre.cause),
            sender(pre.cause),
        ) is Some,
    ensures
        post.at is Refusing,
        deed matches Deed::AppendPair(a, b) && !a@.allowed && !b@.allowed && a@.seq == seq && b@.seq
            == seq,
{
    let c = pre.cause;
    let j = way(c, policy, proxied, Word::Numbered(seq));
    let (p, q, step) = choose|p: Passage, q: Passage, step: StepView|
        departs(c, seq, p) && #[trigger] moves(j, p, q, step) && leads(
            c,
            q,
            step,
            language,
            post.at,
            deed,
        );
    assert(moves(j, p, q, step));
}

/// How much of the dialogue may be left.
pub open spec fn left(x: Crossing) -> int {
    match x.at {
        Wait::Number => 8,
        Wait::Passing(p) => match p.stage {
            Stage::Resolving => 7,
            Stage::Claiming => 6,
            _ => 5,
        },
        Wait::Jar(_) => 4,
        Wait::Wire(_) => 3,
        Wait::Storing { .. } => 2int,
        Wait::Refusing { .. } => 1,
        Wait::Opening => 1,
        Wait::Closing(_) => 1,
        Wait::Done => 0,
    }
}

/// Every crossing comes to an end: each turn leaves less of it.
pub proof fn law_every_crossing_ends(
    pre: Crossing,
    policy: PolicyView,
    proxied: bool,
    language: Seq<char>,
    word: Word,
    post: Crossing,
    deed: Deed,
)
    requires
        pre.wf(),
        crosses(pre, policy, proxied, language, word, post, deed),
        post.wf(),
    ensures
        0 <= left(post) < left(pre),
        deed is Done <==> post.at is Done,
{
    let c = pre.cause;
    let j = way(c, policy, proxied, word);
    match (pre.at, word) {
        (Wait::Number, Word::Numbered(seq)) => {
            let (p, q, step) = choose|p: Passage, q: Passage, step: StepView|
                departs(c, seq, p) && #[trigger] moves(j, p, q, step) && leads(
                    c,
                    q,
                    step,
                    language,
                    post.at,
                    deed,
                );
            assert(moves(j, p, q, step));
        },
        (Wait::Passing(p), _) => {
            let (q, step) = choose|q: Passage, step: StepView|
                #[trigger] moves(j, p, q, step) && leads(c, q, step, language, post.at, deed);
            assert(moves(j, p, q, step));
        },
        _ => {},
    }
}

/// What comes back to a preflight, a stream or a raw request decides what it
/// comes to: a preflight by its status and its headers, a stream by who may read
/// it and by its type, and a raw request by whatever came. Each is recorded as
/// the response to its own number.
pub proof fn law_what_comes_back_decides(
    c: Crossing,
    policy: &Policy,
    proxied: bool,
    language: &str,
    word: Word,
    r: (Crossing, Deed),
)
    requires
        c.wf(),
        c.awaits(word),
        c.at is Wire,
        call_ensures(Crossing::next, (c, policy, proxied, language, word), r),
    ensures
        ({
            let p = c.at->Wire_0;
            &&& word matches Word::Asked { answer: Ok(a), .. } ==> {
                let ask = c.cause->ask@;
                &&& r.0.at is Closing && r.0.at->Closing_0@ is Asked
                &&& r.0.at->Closing_0@->Asked_0 is Ok <==> 200 <= a.status <= 299
                    && crate::cors::preflight_permits(
                    ask,
                    string_view(a.allow_origin),
                    string_view(a.allow_credentials),
                    string_view(a.allow_methods),
                    string_view(a.allow_headers),
                ) is Ok
                &&& r.1 is Settle && r.1->Settle_record@.seq == p.seq
                    && r.1->Settle_record@.status == Some(a.status) && r.1->Settle_record@.phase
                    is Response
            }
            &&& word matches Word::Asked { answer: Err(e), .. } ==> r.0.at is Closing
                && r.0.at->Closing_0@ == EndView::Asked(
                Err("the preflight could not be sent: "@ + e@),
            ) && r.1 is Append && r.1->Append_0@.error == Some(e@) && r.1->Append_0@.seq == p.seq
            &&& word matches Word::Streamed(Ok(a)) ==> (r.0.at is Opening <==> stream_refusal(
                p.plan,
                a,
            ) is None) && r.1 is Append && r.1->Append_0@.status == Some(a.status)
                && r.1->Append_0@.seq == p.seq && r.1->Append_0@.error == stream_refusal(
                p.plan,
                a,
            )
            &&& word matches Word::Streamed(Err(e)) ==> r.0.at is Closing && r.0.at->Closing_0@
                == EndView::Streamed(Err("could not open the event stream: "@ + e@)) && r.1
                is Append && r.1->Append_0@.error == Some(e@)
            &&& word matches Word::Dialled(Dialled::Answered { answer, .. }) ==> r.0.at is Storing
                && (r.1 matches Deed::Store { url, set_cookies: kept } && url@ == goal(c.cause)
                && texts(kept@) == crate::fetch::values_of(
                pairs(answer.headers@),
                crate::text::lowered("set-cookie"@),
            ))
            &&& word is Dialled && !(word->Dialled_0 is Answered) ==> r.0.at is Closing
                && r.0.at->Closing_0@ is Sent && r.0.at->Closing_0@->Sent_0.error is Some
                && r.0.at->Closing_0@->Sent_0.seq == Some(p.seq) && r.1 is Append
                && r.1->Append_0@.error == r.0.at->Closing_0@->Sent_0.error
        }),
        r.0.cause == c.cause,
{
}

/// What goes out once a crossing is released: nothing is sent for a socket,
/// which is opened under its number; a stream's request carries the jar's
/// cookies where its plan lets them go; and a refusal whose record could not be
/// written says that.
pub proof fn law_how_a_crossing_ends_or_goes_out(
    c: Crossing,
    policy: &Policy,
    proxied: bool,
    language: &str,
    word: Word,
    r: (Crossing, Deed),
)
    requires
        c.wf(),
        c.awaits(word),
        call_ensures(Crossing::next, (c, policy, proxied, language, word), r),
    ensures
        c.at is Jar ==> (r.1 matches Deed::Send(w) && w.method@ == "GET"@ && w.url@ == goal(c.cause)
            && w.body@.len() == 0 && pairs(w.headers@)[0] == ("accept"@, "text/event-stream"@)
            && pairs(w.headers@)[1] == ("accept-language"@, language@)) && r.0.at is Wire,
        c.at is Closing ==> r.1 == Deed::Done(c.at->Closing_0) && r.0.at is Done,
        c.at is Opening && (word matches Word::Appended(Ok(_))) ==> (r.1 matches Deed::Done(end)
            && end@ == EndView::Streamed(Ok(()))),
        c.at is Opening && (word matches Word::Appended(Err(_))) ==> (r.1 matches Deed::Done(end)
            && end@ is Streamed && end@->Streamed_0 is Err),
        c.at is Refusing ==> r.0.at is Done && r.1 is Done,
        c.at is Refusing && c.cause is Preflight ==> r.1->Done_0@ == EndView::Asked(
            Err(c.at->told@),
        ),
        c.at is Refusing && c.cause is Socket && (word matches Word::Appended(Ok(_)))
            ==> r.1->Done_0@ == EndView::Opened(Err(c.at->told@)),
        c.at is Refusing && c.cause is Stream && (word matches Word::Appended(Ok(_)))
            ==> r.1->Done_0@ == EndView::Streamed(Err(c.at->told@)),
        c.at is Storing ==> (r.0.at matches Wait::Closing(end) && end@ is Sent
            && end@->Sent_0.error is None && end@->Sent_0.body == c.at->answer.body@
            && end@->Sent_0.status == c.at->answer.status && end@->Sent_0.seq == Some(
            c.at->Storing_passage.seq,
        )) && r.1 is Settle && r.1->Settle_wire == c.at->answer.body@.len() as u64,
{
}

} // verus!
