//! One fetch from beginning to end, as a dialogue: [`Sending`] says what it
//! needs, the caller does that and nothing else, and what came of it is told
//! back. Every decision in between is taken here.
use vstd::prelude::*;

use crate::address::IpAddr;
use crate::cors::{outcome, pairs, Exposure, Plan, Preflight};
use crate::decode::{bytes_result, read_capped, within_cap};
use crate::fetch::{
    asks_the_jar, content_encoding, context_view, dressed, encoding_of, failed_outcome, fresh,
    jar_view, may_use_cookies, noted_record, note, reacted, refuse_hop, refused_outcome,
    shown_outcome, unanswered_record, unpack, unpacked, wire_method, Answer, Exchange,
    Fetch, FetchOutcome, Measured, Reaction, WireRequest,
};
use crate::passage::{
    address_refusal, cleared, law_every_check_is_passed_in_turn, lookup, may_ask, moves,
    name_refusal, receipt_of, same_journey, to_resolve, Errand, Journey, Passage, Stage, Step,
    StepView,
};
use crate::policy::{checked_from, Policy, PolicyView, VerdictView};
use crate::raw::{cookies_set, set_cookies};
use crate::receipt::{response_record, Phase, RecordView, RequestRecord};
use crate::text::{copy_texts, string_view, texts};
use crate::url::{url_joined, url_option, Url, UrlView};

verus! {

/// What the caller is to do next.
#[derive(Debug, PartialEq, Eq)]
pub enum Action {
    /// Draw the number of the next receipt.
    Number,
    /// Look up the addresses of a host.
    Resolve { host: String, port: u16 },
    /// Ask the server whether it will accept the request.
    Preflight { ask: Preflight, url: Url, document: Option<Url> },
    /// Claim one request of the page's allowance.
    Claim,
    /// Write a record.
    Append(RequestRecord),
    /// Write both halves of the record of a request that is not made.
    AppendPair(RequestRecord, RequestRecord),
    /// Ask the jar for the cookies of a URL.
    Cookies(Url),
    /// Send this, and report the head of what comes back.
    Send(WireRequest),
    /// Hand the jar what the answer sets.
    Store { url: Url, set_cookies: Vec<String> },
    /// Read the body, up to one byte past the cap.
    Read,
    /// Charge the page's allowance, and write a record.
    Settle { record: RequestRecord, wire: u64, memory: u64, elapsed_ms: u64 },
    /// Nothing more: this is what the fetch came to.
    Done(FetchOutcome),
}

/// What came of it.
#[derive(Debug, PartialEq, Eq)]
pub enum Event {
    Numbered(u64),
    Resolved(Result<Vec<IpAddr>, String>),
    Preflighted(Result<(), String>),
    Claimed(Result<(), String>),
    Appended(Result<(), String>),
    /// The `Cookie` header for the URL, and how many cookies it holds.
    Cookies(Option<(String, usize)>),
    Answered { answer: Result<Answer, String>, ttfb_ms: u64 },
    Stored { cookies: usize, elapsed_ms: u64 },
    Body { read: Result<Vec<u8>, String>, elapsed_ms: u64 },
}

/// What a fetch under way is waiting for.
#[derive(Debug, PartialEq, Eq)]
pub enum At {
    /// A number for the hop it stands at.
    Number,
    /// What its passage waits for.
    Passing(Passage),
    /// The record of a refusal.
    Refusing { told: String, seq: u64 },
    /// The jar.
    Jar(Passage),
    /// The head of the answer.
    Wire { passage: Passage, cookies_sent: usize },
    /// The jar again, which is handed what the answer sets.
    Storing { passage: Passage, cookies_sent: usize, answer: Answer, ttfb_ms: u64 },
    /// The body.
    Reading { passage: Passage, answer: Answer, exposure: Exposure, measured: Measured },
    /// The record of a redirect that is followed.
    Onward,
    /// The last record.
    Closing(FetchOutcome),
    Done,
}

/// A fetch under way.
#[derive(Debug, PartialEq, Eq)]
pub struct Sending {
    pub exchange: Exchange,
    pub at: At,
}

/// The passage is that of the hop the exchange stands at.
pub open spec fn for_hop(x: Exchange, p: Passage) -> bool {
    &&& p.errand == (Errand::Hop { first: x.hop == 0, page: x.asked.cors is Some })
    &&& p.url@ == x.current@
    &&& p.method@ == x.method@
    &&& p.verb@ == x.method@
    &&& p.shown@ == x.current@.href
    &&& p.initiator == x.initiator
    &&& p.overridden@ == x.overridden@
}

/// The preflight that a plan holds.
pub open spec fn asked_first(plan: Option<Plan>) -> Option<Preflight> {
    match plan {
        Some(Plan::Send { preflight, .. }) => preflight,
        _ => None,
    }
}

impl Sending {
    /// What holds of every fetch under way.
    pub open spec fn wf(self) -> bool {
        &&& self.exchange.hop <= self.exchange.hop_limit
        &&& match self.at {
            At::Passing(p) => {
                &&& for_hop(self.exchange, p)
                &&& p.stage == Stage::Resolving || p.stage == Stage::Asking || p.stage
                    == Stage::Claiming || p.stage == Stage::Recording
                &&& p.stage == Stage::Resolving ==> p.plan is None
                &&& p.stage == Stage::Asking ==> asked_first(p.plan) is Some
            },
            At::Jar(p) => for_hop(self.exchange, p) && p.stage == Stage::Open,
            At::Wire { passage, .. } => for_hop(self.exchange, passage) && passage.stage
                == Stage::Open,
            At::Storing { passage, .. } => for_hop(self.exchange, passage) && passage.stage
                == Stage::Open,
            At::Reading { passage, .. } => for_hop(self.exchange, passage) && passage.stage
                == Stage::Open,
            _ => true,
        }
    }

    /// Whether the event is the one that is waited for.
    pub open spec fn awaits(self, event: Event) -> bool {
        match self.at {
            At::Number => event is Numbered,
            At::Passing(p) => match p.stage {
                Stage::Resolving => event is Resolved,
                Stage::Asking => event is Preflighted,
                Stage::Claiming => event is Claimed,
                Stage::Recording => event is Appended,
                _ => false,
            },
            At::Refusing { .. } => event is Appended,
            At::Jar(_) => event is Cookies,
            At::Wire { .. } => event is Answered,
            At::Storing { .. } => event is Stored,
            At::Reading { .. } => event is Body,
            At::Onward => event is Appended,
            At::Closing(_) => event is Appended,
            At::Done => false,
        }
    }
}

/// What the passage of a hop meets, as far as the event tells.
pub open spec fn journey(x: Exchange, policy: PolicyView, proxied: bool, event: Event) -> Journey {
    Journey {
        policy,
        proxied,
        document: url_option(x.asked.document),
        context: context_view(x.asked.cors),
        tainted: x.tainted,
        found: match event {
            Event::Resolved(found) => lookup(found),
            _ => Err(Seq::empty()),
        },
        answer: match event {
            Event::Preflighted(r) => outcome(r),
            _ => Err(Seq::empty()),
        },
        claim: match event {
            Event::Claimed(r) => outcome(r),
            _ => Err(Seq::empty()),
        },
        receipt: match event {
            Event::Appended(r) => outcome(r),
            _ => Err(Seq::empty()),
        },
    }
}

/// The passage that a hop begins with.
pub open spec fn set_out(x: Exchange, seq: u64, p: Passage) -> bool {
    for_hop(x, p) && p.seq == seq && p.stage == Stage::Naming && p.plan is None
}

/// The request that goes out.
pub open spec fn goes_out(
    x: Exchange,
    plan: Option<Plan>,
    language: Seq<char>,
    jar: Option<(Seq<char>, usize)>,
    w: WireRequest,
) -> bool {
    &&& w.method@ == wire_method(x.method@)
    &&& w.url@ == x.current@
    &&& pairs(w.headers@) == dressed(x, plan, language, jar)
    &&& w.body@ == x.body@
    &&& w.cookies_sent == (if asks_the_jar(x, plan) && jar is Some {
        jar->Some_0.1
    } else {
        0
    })
}

/// What a step of the passage leads to: `p` is where the passage stands now.
pub open spec fn led_to(
    x: Exchange,
    p: Passage,
    step: StepView,
    language: Seq<char>,
    at: At,
    action: Action,
) -> bool {
    match step {
        StepView::Refused { record, told } => {
            &&& at matches At::Refusing { told: t, seq } && t@ == told && seq == p.seq
            &&& action matches Action::AppendPair(a, b) && a@ == record && b@ == response_record(
                record,
            )
        },
        StepView::Turned(told) => {
            &&& at is Done
            // No receipt of this hop was written, so there is none to name.
            &&& action matches Action::Done(o) && o@ == failed_outcome(x.current@, told, None)
        },
        StepView::Resolve { host, port } => {
            &&& at == At::Passing(p)
            &&& action matches Action::Resolve { host: h, port: n } && h@ == host && n == port
        },
        StepView::Ask => {
            &&& at == At::Passing(p)
            &&& asked_first(p.plan) matches Some(ask) && action matches Action::Preflight {
                ask: a,
                url,
                document,
            } && a@ == ask@ && url@ == x.current@ && url_option(document) == url_option(
                x.asked.document,
            )
        },
        StepView::Claim => at == At::Passing(p) && action is Claim,
        StepView::Record(record) => {
            &&& at == At::Passing(p)
            &&& action matches Action::Append(a) && a@ == record
        },
        StepView::Go => if asks_the_jar(x, p.plan) {
            at == At::Jar(p) && (action matches Action::Cookies(u) && u@ == x.current@)
        } else {
            at == (At::Wire { passage: p, cookies_sent: 0 }) && (action matches Action::Send(w)
                && goes_out(x, p.plan, language, None, w))
        },
    }
}

/// Where an answer points.
pub open spec fn points_to(x: Exchange, answer: Answer) -> Option<UrlView> {
    match string_view(answer.location) {
        Some(to) => match url_joined(x.current@.href, to) {
            Ok(u) => Some(u),
            Err(_) => None,
        },
        None => None,
    }
}

/// What an answer whose cookies are kept leads to.
pub open spec fn judged(
    pre: Exchange,
    p: Passage,
    answer: Answer,
    m: Measured,
    post: Sending,
    action: Action,
) -> bool {
    exists|r: Reaction|
        {
            &&& #[trigger] reacted(
                pre,
                p.plan,
                p.seq,
                answer,
                points_to(pre, answer),
                post.exchange,
                r,
            )
            &&& match r {
                Reaction::Follow => {
                    &&& post.at is Onward
                    &&& action matches Action::Append(a) && a@ == noted_record(
                        receipt_of(p),
                        answer.status,
                        m,
                        None,
                    )
                },
                Reaction::Stop { outcome: o, error } => {
                    &&& post.at matches At::Closing(c) && c@ == o@
                    &&& action matches Action::Append(a) && a@ == noted_record(
                        receipt_of(p),
                        answer.status,
                        m,
                        string_view(error),
                    )
                },
                Reaction::Blocked(told) => {
                    &&& post.at matches At::Closing(c) && c@ == failed_outcome(
                        pre.current@,
                        told@,
                        Some(p.seq),
                    )
                    &&& action matches Action::Append(a) && a@ == noted_record(
                        receipt_of(p),
                        answer.status,
                        m,
                        Some(told@),
                    )
                },
                Reaction::Read(exposure) => {
                    &&& post.at matches At::Reading {
                        passage,
                        answer: a,
                        exposure: e,
                        measured,
                    } && passage == p && a == answer && e == exposure && measured == m
                    &&& action is Read
                },
            }
        }
}

/// What a body that was read, or could not be, leads to.
pub open spec fn closed(
    x: Exchange,
    p: Passage,
    answer: Answer,
    exposure: Exposure,
    m: Measured,
    cap: u64,
    read: Result<Seq<u8>, Seq<char>>,
    at: At,
    action: Action,
) -> bool {
    let encoding = content_encoding(pairs(answer.headers@));
    let raw = within_cap(read, cap);
    let record = receipt_of(p);
    match unpacked(raw, encoding, cap) {
        Ok(body) => {
            &&& at matches At::Closing(c) && c@ == shown_outcome(
                p.seq,
                x.current@,
                answer.status,
                pairs(answer.headers@),
                body,
                exposure@,
            )
            &&& action matches Action::Settle { record: a, wire, memory, elapsed_ms } && a@ == (
            RecordView {
                bytes: Some(body.len() as u64),
                wire_bytes: if encoding is Some {
                    Some(raw->Ok_0.len() as u64)
                } else {
                    None
                },
                content_encoding: encoding,
                ..noted_record(record, answer.status, m, None)
            }) && wire == raw->Ok_0.len() && memory == body.len() as u64 && elapsed_ms
                == m.duration_ms
        },
        Err(e) => {
            &&& at matches At::Closing(c) && c@ == failed_outcome(x.current@, e, Some(p.seq))
            &&& action matches Action::Settle { record: a, wire, memory, elapsed_ms } && a@
                == noted_record(record, answer.status, m, Some(e)) && wire == 0 && memory == 0
                && elapsed_ms == m.duration_ms
        },
    }
}

/// What one event leads to.
pub open spec fn turns(
    pre: Sending,
    policy: PolicyView,
    proxied: bool,
    language: Seq<char>,
    event: Event,
    post: Sending,
    action: Action,
) -> bool {
    let x = pre.exchange;
    match (pre.at, event) {
        (At::Number, Event::Numbered(seq)) => post.exchange == x && exists|
            p: Passage,
            q: Passage,
            step: StepView,
        |
            set_out(x, seq, p) && #[trigger] moves(journey(x, policy, proxied, event), p, q, step)
                && led_to(x, q, step, language, post.at, action),
        (At::Passing(p), _) => post.exchange == x && exists|q: Passage, step: StepView|
            #[trigger] moves(journey(x, policy, proxied, event), p, q, step) && led_to(
                x,
                q,
                step,
                language,
                post.at,
                action,
            ),
        (At::Refusing { told, seq }, Event::Appended(pair)) => post.exchange == x && post.at is Done
            && (action matches Action::Done(o) && o@ == refused_outcome(
            x.current@,
            told@,
            seq,
            outcome(pair),
        )),
        (At::Jar(p), Event::Cookies(jar)) => post.exchange == x && (action matches Action::Send(w)
            && goes_out(x, p.plan, language, jar_view(jar), w) && post.at == (At::Wire {
            passage: p,
            cookies_sent: w.cookies_sent,
        })),
        (At::Wire { passage, cookies_sent }, Event::Answered { answer, ttfb_ms }) => post.exchange
            == x && match answer {
            Err(e) => {
                &&& post.at matches At::Closing(c) && c@ == failed_outcome(
                    x.current@,
                    e@,
                    Some(passage.seq),
                )
                &&& action matches Action::Append(a) && a@ == unanswered_record(
                    receipt_of(passage),
                    ttfb_ms,
                    cookies_sent,
                    e@,
                )
            },
            Ok(answer) => {
                &&& post.at == (At::Storing { passage, cookies_sent, answer, ttfb_ms })
                &&& action matches Action::Store { url, set_cookies: kept } && url@ == x.current@
                    && texts(kept@) == (if may_use_cookies(passage.plan) {
                    cookies_set(pairs(answer.headers@))
                } else {
                    Seq::empty()
                })
            },
        },
        (
            At::Storing { passage, cookies_sent, answer, ttfb_ms },
            Event::Stored { cookies, elapsed_ms },
        ) => judged(
            x,
            passage,
            answer,
            Measured { duration_ms: elapsed_ms, ttfb_ms, cookies_sent, cookies_stored: cookies },
            post,
            action,
        ),
        (
            At::Reading { passage, answer, exposure, measured },
            Event::Body { read, elapsed_ms },
        ) => post.exchange == x && closed(
            x,
            passage,
            answer,
            exposure,
            Measured { duration_ms: elapsed_ms, ..measured },
            policy.max_response_bytes,
            bytes_result(read),
            post.at,
            action,
        ),
        (At::Onward, Event::Appended(_)) => post.exchange == x && post.at is Number && action
            is Number,
        (At::Closing(o), Event::Appended(_)) => post.exchange == x && post.at is Done && action
            == Action::Done(o),
        _ => false,
    }
}

fn copy_preflight(ask: &Preflight) -> (r: Preflight)
    ensures
        r@ == ask@,
{
    Preflight {
        origin: ask.origin.clone(),
        method: ask.method.clone(),
        headers: copy_texts(&ask.headers),
        credentials: ask.credentials,
    }
}

/// Follows a step of the passage.
fn lead(x: Exchange, p: Passage, step: Step, language: &str) -> (r: (Sending, Action))
    requires
        x.hop <= x.hop_limit,
        for_hop(x, p),
        match step@ {
            StepView::Refused { .. } => true,
            StepView::Turned(_) => true,
            StepView::Resolve { .. } => p.stage == Stage::Resolving && p.plan is None,
            StepView::Ask => p.stage == Stage::Asking && asked_first(p.plan) is Some,
            StepView::Claim => p.stage == Stage::Claiming,
            StepView::Record(_) => p.stage == Stage::Recording,
            StepView::Go => p.stage == Stage::Open,
        },
    ensures
        r.0.exchange == x,
        r.0.wf(),
        led_to(x, p, step@, language@, r.0.at, r.1),
{
    match step {
        Step::Refused(refusal) => {
            let told = refusal.told.clone();
            let seq = p.seq;
            let (a, b) = refusal.record_pair();
            (Sending { exchange: x, at: At::Refusing { told, seq } }, Action::AppendPair(a, b))
        },
        Step::Turned(told) => {
            let o = FetchOutcome::failed(x.current.copy(), told);
            (Sending { exchange: x, at: At::Done }, Action::Done(o))
        },
        Step::Resolve { host, port } => (
            Sending { exchange: x, at: At::Passing(p) },
            Action::Resolve { host, port },
        ),
        Step::Ask => {
            let ask = match &p.plan {
                Some(Plan::Send { preflight: Some(ask), .. }) => copy_preflight(ask),
                _ => {
                    assert(false);
                    Preflight {
                        origin: String::new(),
                        method: String::new(),
                        headers: Vec::new(),
                        credentials: false,
                    }
                },
            };
            let url = x.current.copy();
            let document = match &x.asked.document {
                Some(d) => Some(d.copy()),
                None => None,
            };
            (
                Sending { exchange: x, at: At::Passing(p) },
                Action::Preflight { ask, url, document },
            )
        },
        Step::Claim => (Sending { exchange: x, at: At::Passing(p) }, Action::Claim),
        Step::Record(record) => (
            Sending { exchange: x, at: At::Passing(p) },
            Action::Append(record),
        ),
        Step::Go => {
            if x.wants_cookies(&p.plan) {
                let url = x.current.copy();
                return (Sending { exchange: x, at: At::Jar(p) }, Action::Cookies(url));
            }
            let w = x.dress(&p.plan, language, None);
            (
                Sending { exchange: x, at: At::Wire { passage: p, cookies_sent: 0 } },
                Action::Send(w),
            )
        },
    }
}

/// Follows what an answer comes to.
fn judge(x: Exchange, p: Passage, answer: Answer, m: Measured) -> (r: (Sending, Action))
    requires
        x.hop <= x.hop_limit,
        for_hop(x, p),
        p.stage == Stage::Open,
    ensures
        r.0.wf(),
        judged(x, p, answer, m, r.0, r.1),
{
    let next = x.next_location(&answer);
    let record = p.receipt();
    let ghost pre = x;
    let mut x = x;
    let reaction = x.react(&p.plan, p.seq, &answer, next);
    let ghost reacts = reaction;
    assert(reacted(pre, p.plan, p.seq, answer, points_to(pre, answer), x, reacts));
    match reaction {
        Reaction::Follow => {
            let noted = note(&record, answer.status, m, None);
            (Sending { exchange: x, at: At::Onward }, Action::Append(noted))
        },
        Reaction::Stop { outcome: o, error } => {
            let noted = note(&record, answer.status, m, error);
            (Sending { exchange: x, at: At::Closing(o) }, Action::Append(noted))
        },
        Reaction::Blocked(told) => {
            let (noted, o) = x.blocked(&record, &answer, m, told);
            (Sending { exchange: x, at: At::Closing(o) }, Action::Append(noted))
        },
        Reaction::Read(exposure) => (
            Sending {
                exchange: x,
                at: At::Reading { passage: p, answer, exposure, measured: m },
            },
            Action::Read,
        ),
    }
}

impl Sending {
    /// A fetch that has yet to set out, and the first thing it needs.
    pub fn begin(policy: &Policy, fetch: Fetch) -> (r: (Sending, Action))
        ensures
            fresh(policy@, fetch, r.0.exchange),
            r.0.at is Number,
            r.0.wf(),
            r.1 is Number,
    {
        let exchange = Exchange::begin(policy, fetch);
        (Sending { exchange, at: At::Number }, Action::Number)
    }

    /// Takes what came of the last action, and says what is next.
    ///
    /// `language` is the `Accept-Language` this engine presents, and `proxied`
    /// whether an egress proxy resolves names at its far end.
    pub fn next(self, policy: &Policy, proxied: bool, language: &str, event: Event) -> (r: (
        Sending,
        Action,
    ))
        requires
            self.wf(),
            self.awaits(event),
            policy@.max_response_bytes < u64::MAX,
        ensures
            r.0.wf(),
            turns(self, policy@, proxied, language@, event, r.0, r.1),
    {
        let ghost pre = self;
        let ghost j = journey(pre.exchange, policy@, proxied, event);
        let x = self.exchange;
        match self.at {
            At::Number => {
                if let Event::Numbered(seq) = event {
                    let mut p = x.passage(seq);
                    let ghost before = p;
                    let step = p.check_name(
                        policy,
                        proxied,
                        x.asked.document.as_ref(),
                        x.asked.cors.as_ref(),
                        x.tainted,
                    );
                    proof {
                        assert(set_out(x, seq, before));
                        assert(moves(j, before, p, step@));
                    }
                    let r = lead(x, p, step, language);
                    return r;
                }
            },
            At::Passing(passage) => {
                let mut p = passage;
                let ghost before = p;
                let step = match event {
                    Event::Resolved(found) => p.check_addresses(
                        policy,
                        &found,
                        x.asked.cors.as_ref(),
                        x.tainted,
                    ),
                    Event::Preflighted(answer) => p.preflighted(answer),
                    Event::Claimed(claim) => p.claimed(claim),
                    Event::Appended(receipt) => p.recorded(receipt),
                    _ => {
                        assert(false);
                        Step::Go
                    },
                };
                proof {
                    assert(moves(j, before, p, step@));
                }
                let r = lead(x, p, step, language);
                return r;
            },
            At::Refusing { told, seq } => {
                if let Event::Appended(pair) = event {
                    let o = refuse_hop(&x.current, told, seq, pair);
                    return (Sending { exchange: x, at: At::Done }, Action::Done(o));
                }
            },
            At::Jar(p) => {
                if let Event::Cookies(jar) = event {
                    let w = x.dress(&p.plan, language, jar);
                    let cookies_sent = w.cookies_sent;
                    return (
                        Sending { exchange: x, at: At::Wire { passage: p, cookies_sent } },
                        Action::Send(w),
                    );
                }
            },
            At::Wire { passage, cookies_sent } => {
                if let Event::Answered { answer, ttfb_ms } = event {
                    return match answer {
                        Err(e) => {
                            let record = passage.receipt();
                            let (a, o) = x.unanswered(&record, ttfb_ms, cookies_sent, e);
                            (Sending { exchange: x, at: At::Closing(o) }, Action::Append(a))
                        },
                        Ok(answer) => {
                            let kept = if Exchange::keeps_cookies(&passage.plan) {
                                set_cookies(&answer.headers)
                            } else {
                                let none: Vec<String> = Vec::new();
                                assert(texts(none@) =~= Seq::<Seq<char>>::empty());
                                none
                            };
                            let url = x.current.copy();
                            (
                                Sending {
                                    exchange: x,
                                    at: At::Storing { passage, cookies_sent, answer, ttfb_ms },
                                },
                                Action::Store { url, set_cookies: kept },
                            )
                        },
                    };
                }
            },
            At::Storing { passage, cookies_sent, answer, ttfb_ms } => {
                if let Event::Stored { cookies, elapsed_ms } = event {
                    let m = Measured {
                        duration_ms: elapsed_ms,
                        ttfb_ms,
                        cookies_sent,
                        cookies_stored: cookies,
                    };
                    return judge(x, passage, answer, m);
                }
            },
            At::Reading { passage, answer, exposure, measured } => {
                if let Event::Body { read, elapsed_ms } = event {
                    let cap: u64 = policy.max_response_bytes();
                    let m = Measured { duration_ms: elapsed_ms, ..measured };
                    let encoding = encoding_of(&answer.headers);
                    let record = passage.receipt();
                    let body = unpack(read_capped(read, cap), &encoding, cap);
                    let end = x.conclude(&record, &answer, &exposure, &encoding, body, m);
                    return (
                        Sending { exchange: x, at: At::Closing(end.outcome) },
                        Action::Settle {
                            record: end.record,
                            wire: end.wire_charge,
                            memory: end.memory_charge,
                            elapsed_ms,
                        },
                    );
                }
            },
            At::Onward => {
                return (Sending { exchange: x, at: At::Number }, Action::Number);
            },
            At::Closing(o) => {
                return (Sending { exchange: x, at: At::Done }, Action::Done(o));
            },
            At::Done => {},
        }
        assert(false);
        (Sending { exchange: x, at: At::Done }, Action::Number)
    }
}


// --------------------------------------------------------------------- laws

/// The passage that a fetch is in, where it is in one.
pub open spec fn stands_in(s: Sending) -> Option<Passage> {
    match s.at {
        At::Passing(p) => Some(p),
        At::Jar(p) => Some(p),
        At::Wire { passage, .. } => Some(passage),
        At::Storing { passage, .. } => Some(passage),
        At::Reading { passage, .. } => Some(passage),
        _ => None,
    }
}

/// The policy allows the name that the fetch is on its way to, and the
/// same-origin policy lets it ask, as far as it has come.
pub open spec fn vetted(s: Sending, policy: PolicyView, proxied: bool) -> bool {
    match stands_in(s) {
        None => true,
        Some(p) => {
            let j = journey(s.exchange, policy, proxied, Event::Numbered(p.seq));
            &&& name_refusal(p.errand, policy, proxied, p.url@, j.document) is None
            &&& p.stage != Stage::Resolving ==> may_ask(j, p)
        },
    }
}

/// Whether the event says that the record was written.
pub open spec fn is_written(event: Event) -> bool {
    event matches Event::Appended(Ok(_))
}

/// Nothing goes out unvetted, and nothing goes out before its receipt: the
/// policy allows the name, the same-origin policy lets the document ask, and a
/// request is sent, or the jar opened for it, only on the word that its record
/// was written.
pub proof fn law_a_request_goes_out_vetted_and_receipted(
    pre: Sending,
    policy: PolicyView,
    proxied: bool,
    language: Seq<char>,
    event: Event,
    post: Sending,
    action: Action,
)
    requires
        pre.wf(),
        vetted(pre, policy, proxied),
        turns(pre, policy, proxied, language, event, post, action),
    ensures
        vetted(post, policy, proxied),
        action is Send ==> stands_in(post) is Some && post.at is Wire,
        action is Send && !(pre.at is Jar) ==> is_written(event) && (pre.at matches At::Passing(p)
            && p.stage == Stage::Recording),
        action is Cookies <==> post.at is Jar,
        action is Cookies ==> is_written(event) && (pre.at matches At::Passing(p) && p.stage
            == Stage::Recording),
{
    let x = pre.exchange;
    let j = journey(x, policy, proxied, event);
    match (pre.at, event) {
        (At::Number, Event::Numbered(seq)) => {
            let (p, q, step) = choose|p: Passage, q: Passage, step: StepView|
                set_out(x, seq, p) && #[trigger] moves(j, p, q, step) && led_to(
                    x,
                    q,
                    step,
                    language,
                    post.at,
                    action,
                );
            assert(cleared(j, p));
            law_every_check_is_passed_in_turn(j, p, q, step);
        },
        (At::Passing(p), _) => {
            let (q, step) = choose|q: Passage, step: StepView|
                #[trigger] moves(j, p, q, step) && led_to(
                    x,
                    q,
                    step,
                    language,
                    post.at,
                    action,
                );
            assert(same_journey(p, q));
        },
        (At::Storing { passage, cookies_sent, answer, ttfb_ms }, _) => {
            if post.at is Reading {
                assert(post.exchange == x);
            }
        },
        _ => {},
    }
}

/// The receipt that is written before a request is that of the request: it
/// names where the hop goes, under the hop's method, as allowed, and what is
/// sent goes there.
pub proof fn law_the_receipt_names_the_request(
    pre: Sending,
    policy: PolicyView,
    proxied: bool,
    language: Seq<char>,
    event: Event,
    post: Sending,
    action: Action,
)
    requires
        pre.wf(),
        turns(pre, policy, proxied, language, event, post, action),
    ensures
        (post.at matches At::Passing(p) && p.stage == Stage::Recording) ==> (
        action matches Action::Append(a) && a@.phase == Phase::Request && a@.allowed && a@.seq
            == post.at->Passing_0.seq && a@.url == pre.exchange.current@.href && a@.method
            == pre.exchange.method@),
        action matches Action::Send(w) ==> w.url@ == pre.exchange.current@ && w.method@
            == wire_method(pre.exchange.method@) && w.body@ == pre.exchange.body@,
{
    let x = pre.exchange;
    let j = journey(x, policy, proxied, event);
    match (pre.at, event) {
        (At::Number, Event::Numbered(seq)) => {
            let (p, q, step) = choose|p: Passage, q: Passage, step: StepView|
                set_out(x, seq, p) && #[trigger] moves(j, p, q, step) && led_to(
                    x,
                    q,
                    step,
                    language,
                    post.at,
                    action,
                );
            assert(moves(j, p, q, step));
        },
        (At::Passing(p), _) => {
            let (q, step) = choose|q: Passage, step: StepView|
                #[trigger] moves(j, p, q, step) && led_to(
                    x,
                    q,
                    step,
                    language,
                    post.at,
                    action,
                );
            assert(moves(j, p, q, step));
        },
        _ => {},
    }
}

/// A hop that the policy does not allow never reaches the wire: both halves of
/// its record are written as denied, and the fetch is over.
pub proof fn law_a_denied_hop_is_recorded_and_ends_the_fetch(
    pre: Sending,
    policy: PolicyView,
    proxied: bool,
    language: Seq<char>,
    seq: u64,
    post: Sending,
    action: Action,
)
    requires
        pre.at is Number,
        turns(pre, policy, proxied, language, Event::Numbered(seq), post, action),
        name_refusal(
            Errand::Hop { first: pre.exchange.hop == 0, page: pre.exchange.asked.cors is Some },
            policy,
            proxied,
            pre.exchange.current@,
            url_option(pre.exchange.asked.document),
        ) is Some,
    ensures
        post.at is Refusing,
        action matches Action::AppendPair(a, b) && !a@.allowed && !b@.allowed && a@.seq == seq
            && b@.seq == seq && a@.url == pre.exchange.current@.href,
{
    let x = pre.exchange;
    let j = journey(x, policy, proxied, Event::Numbered(seq));
    let (p, q, step) = choose|p: Passage, q: Passage, step: StepView|
        set_out(x, seq, p) && #[trigger] moves(j, p, q, step) && led_to(
            x,
            q,
            step,
            language,
            post.at,
            action,
        );
    assert(moves(j, p, q, step));
}

/// One address that may not be connected to stops the fetch, whatever else the
/// name answers with; and where an address was looked up, nothing but an
/// allowed answer lets it go on.
pub proof fn law_a_fetch_goes_on_only_to_allowed_addresses(
    pre: Sending,
    policy: PolicyView,
    proxied: bool,
    language: Seq<char>,
    found: Result<Vec<IpAddr>, String>,
    post: Sending,
    action: Action,
)
    requires
        pre.wf(),
        pre.at matches At::Passing(p) && p.stage == Stage::Resolving,
        turns(pre, policy, proxied, language, Event::Resolved(found), post, action),
    ensures
        post.at is Passing ==> address_refusal(policy, pre.exchange.current@, lookup(found))
            is None,
        address_refusal(policy, pre.exchange.current@, lookup(found)) is Some ==> post.at
            is Refusing && action is AppendPair,
{
    let x = pre.exchange;
    let j = journey(x, policy, proxied, Event::Resolved(found));
    let p = pre.at->Passing_0;
    let (q, step) = choose|q: Passage, step: StepView|
        #[trigger] moves(j, p, q, step) && led_to(
            x,
            q,
            step,
            language,
            post.at,
            action,
        );
    assert(moves(j, p, q, step));
}

/// How much of the dialogue may be left.
pub open spec fn left(s: Sending) -> int {
    (s.exchange.hop_limit - s.exchange.hop) * 16 + match s.at {
        At::Onward => 12,
        At::Number => 11,
        At::Passing(p) => match p.stage {
            Stage::Resolving => 10,
            Stage::Asking => 9,
            Stage::Claiming => 8,
            _ => 7,
        },
        At::Jar(_) => 6,
        At::Wire { .. } => 5,
        At::Storing { .. } => 4int,
        At::Reading { .. } => 3,
        At::Refusing { .. } => 1,
        At::Closing(_) => 1,
        At::Done => 0,
    }
}

/// Every fetch comes to an end, however often it is redirected: each turn
/// leaves less of it.
pub proof fn law_every_fetch_ends(
    pre: Sending,
    policy: PolicyView,
    proxied: bool,
    language: Seq<char>,
    event: Event,
    post: Sending,
    action: Action,
)
    requires
        pre.wf(),
        turns(pre, policy, proxied, language, event, post, action),
        post.wf(),
    ensures
        0 <= left(post) < left(pre),
        action is Done <==> post.at is Done,
{
    let x = pre.exchange;
    let j = journey(x, policy, proxied, event);
    match (pre.at, event) {
        (At::Number, Event::Numbered(seq)) => {
            let (p, q, step) = choose|p: Passage, q: Passage, step: StepView|
                set_out(x, seq, p) && #[trigger] moves(j, p, q, step) && led_to(
                    x,
                    q,
                    step,
                    language,
                    post.at,
                    action,
                );
            assert(moves(j, p, q, step));
        },
        (At::Passing(p), _) => {
            let (q, step) = choose|q: Passage, step: StepView|
                #[trigger] moves(j, p, q, step) && led_to(
                    x,
                    q,
                    step,
                    language,
                    post.at,
                    action,
                );
            assert(moves(j, p, q, step));
        },
        _ => {},
    }
}

/// What an answer sets is kept only where the request could carry cookies: an
/// answer that a page was let to cause and not to read leaves nothing behind.
pub proof fn law_cookies_come_back_only_where_they_may_go(
    pre: Sending,
    policy: PolicyView,
    proxied: bool,
    language: Seq<char>,
    event: Event,
    post: Sending,
    action: Action,
)
    requires
        turns(pre, policy, proxied, language, event, post, action),
        pre.at matches At::Wire { passage, .. } && !may_use_cookies(passage.plan),
    ensures
        action matches Action::Store { set_cookies: kept, .. } ==> kept@.len() == 0,
{
    if let Action::Store { set_cookies: kept, .. } = action {
        assert(texts(kept@).len() == kept@.len());
    }
}

/// A whole dialogue, from its beginning on: `states[i]` is where it stands once
/// `actions[i]` is asked for, and `events[i]` what came of that.
pub open spec fn is_dialogue(
    policy: PolicyView,
    proxied: bool,
    language: Seq<char>,
    states: Seq<Sending>,
    actions: Seq<Action>,
    events: Seq<Event>,
) -> bool {
    &&& states.len() == events.len() + 1
    &&& actions.len() == states.len()
    &&& states[0].at is Number
    &&& actions[0] is Number
    &&& forall|i: int| 0 <= i < states.len() ==> (#[trigger] states[i]).wf()
    &&& forall|i: int|
        0 <= i < events.len() ==> turns(
            states[i],
            policy,
            proxied,
            language,
            #[trigger] events[i],
            states[i + 1],
            actions[i + 1],
        )
}

/// Every state of a dialogue is vetted.
proof fn lemma_vetted_throughout(
    policy: PolicyView,
    proxied: bool,
    language: Seq<char>,
    states: Seq<Sending>,
    actions: Seq<Action>,
    events: Seq<Event>,
    i: int,
)
    requires
        is_dialogue(policy, proxied, language, states, actions, events),
        0 <= i < states.len(),
    ensures
        vetted(states[i], policy, proxied),
    decreases i,
{
    if i > 0 {
        lemma_vetted_throughout(policy, proxied, language, states, actions, events, i - 1);
        assert(states[i - 1].wf());
        assert(turns(
            states[i - 1],
            policy,
            proxied,
            language,
            events[i - 1],
            states[i - 1 + 1],
            actions[i - 1 + 1],
        ));
        law_a_request_goes_out_vetted_and_receipted(
            states[i - 1],
            policy,
            proxied,
            language,
            events[i - 1],
            states[i],
            actions[i],
        );
    }
}

/// Step `k` of a dialogue writes the receipt of a request to `to`, and was told
/// that it is written.
pub open spec fn receipts(
    actions: Seq<Action>,
    events: Seq<Event>,
    k: int,
    to: Seq<char>,
) -> bool {
    &&& 0 <= k < events.len()
    &&& actions[k] matches Action::Append(a) && a@.phase == Phase::Request && a@.allowed && a@.url
        == to
    &&& is_written(events[k])
}

/// In every dialogue, whatever the world answers, a request that goes out is
/// one that the policy allows, and directly before it, or with only the jar
/// between, its own receipt was written.
pub proof fn law_no_dialogue_sends_without_its_receipt(
    policy: PolicyView,
    proxied: bool,
    language: Seq<char>,
    states: Seq<Sending>,
    actions: Seq<Action>,
    events: Seq<Event>,
    i: int,
)
    requires
        is_dialogue(policy, proxied, language, states, actions, events),
        0 <= i < actions.len(),
        actions[i] is Send,
    ensures
        checked_from(
            policy,
            actions[i]->Send_0.url@,
            url_option(states[i].exchange.asked.document),
        ) == VerdictView::Allow,
        receipts(actions, events, i - 1, actions[i]->Send_0.url@.href) || (receipts(
            actions,
            events,
            i - 2,
            actions[i]->Send_0.url@.href,
        ) && actions[i - 1] is Cookies),
{
    let step = |k: int|
        turns(
            states[k],
            policy,
            proxied,
            language,
            events[k],
            states[k + 1],
            actions[k + 1],
        );
    assert forall|k: int| 0 <= k < events.len() implies #[trigger] step(k) by {
        assert(events[k] == events[k]);
    }
    assert forall|k: int| 0 <= k < states.len() implies vetted(
        #[trigger] states[k],
        policy,
        proxied,
    ) by {
        lemma_vetted_throughout(policy, proxied, language, states, actions, events, k);
    }
    assert(step(i - 1));
    let from = states[i - 1];
    assert(from.wf());
    law_a_request_goes_out_vetted_and_receipted(
        from,
        policy,
        proxied,
        language,
        events[i - 1],
        states[i],
        actions[i],
    );
    law_the_receipt_names_the_request(
        from,
        policy,
        proxied,
        language,
        events[i - 1],
        states[i],
        actions[i],
    );
    assert(vetted(states[i], policy, proxied));
    assert(states[i].wf());
    let at = if from.at is Jar {
        i - 2
    } else {
        i - 1
    };
    if from.at is Jar {
        assert(step(i - 2));
        assert(states[i - 2].wf());
        law_a_request_goes_out_vetted_and_receipted(
            states[i - 2],
            policy,
            proxied,
            language,
            events[i - 2],
            from,
            actions[i - 1],
        );
    }
    assert(states[at].at matches At::Passing(p) && p.stage == Stage::Recording);
    assert(step(at - 1));
    assert(states[at - 1].wf());
    law_the_receipt_names_the_request(
        states[at - 1],
        policy,
        proxied,
        language,
        events[at - 1],
        states[at],
        actions[at],
    );
    lemma_a_passage_stays_on_its_hop(
        states[at - 1],
        policy,
        proxied,
        language,
        events[at - 1],
        states[at],
        actions[at],
    );
    if from.at is Jar {
        lemma_a_passage_stays_on_its_hop(
            states[at],
            policy,
            proxied,
            language,
            events[at],
            from,
            actions[at + 1],
        );
    }
}

/// What a passage is asked for is asked for the hop it is of.
proof fn lemma_a_passage_stays_on_its_hop(
    pre: Sending,
    policy: PolicyView,
    proxied: bool,
    language: Seq<char>,
    event: Event,
    post: Sending,
    action: Action,
)
    requires
        turns(pre, policy, proxied, language, event, post, action),
        post.at is Passing || post.at is Jar || post.at is Wire,
    ensures
        post.exchange == pre.exchange,
{
}

/// The URL whose addresses a fetch waits for.
pub open spec fn looks_up(s: Sending) -> Option<UrlView> {
    match s.at {
        At::Passing(p) => if p.stage == Stage::Resolving {
            Some(p.url@)
        } else {
            None
        },
        _ => None,
    }
}

/// Step `k` of a dialogue told it the addresses of `to`, every one of which may
/// be connected to.
pub open spec fn cleared_at(
    policy: PolicyView,
    states: Seq<Sending>,
    events: Seq<Event>,
    k: int,
    to: UrlView,
) -> bool {
    looks_up(states[k]) == Some(to) && (events[k] matches Event::Resolved(found)
        && address_refusal(policy, to, lookup(found)) is None)
}

/// Before step `i` of a dialogue the host of `to` was looked up, and every
/// address it answered with may be connected to.
pub open spec fn addresses_cleared(
    policy: PolicyView,
    states: Seq<Sending>,
    events: Seq<Event>,
    i: int,
    to: UrlView,
) -> bool {
    exists|k: int| 0 <= k < i && #[trigger] cleared_at(policy, states, events, k, to)
}

proof fn lemma_addresses_cleared_throughout(
    policy: PolicyView,
    proxied: bool,
    language: Seq<char>,
    states: Seq<Sending>,
    actions: Seq<Action>,
    events: Seq<Event>,
    i: int,
)
    requires
        is_dialogue(policy, proxied, language, states, actions, events),
        0 <= i < states.len(),
    ensures
        stands_in(states[i]) matches Some(p) ==> p.stage == Stage::Resolving || to_resolve(
            p.url@,
            proxied,
        ) is None || addresses_cleared(policy, states, events, i, p.url@),
    decreases i,
{
    if i > 0 {
        lemma_addresses_cleared_throughout(policy, proxied, language, states, actions, events, i - 1);
        let pre = states[i - 1];
        let post = states[i];
        let event = events[i - 1];
        assert(pre.wf());
        assert(turns(
            pre,
            policy,
            proxied,
            language,
            events[i - 1],
            states[i - 1 + 1],
            actions[i - 1 + 1],
        ));
        let x = pre.exchange;
        let j = journey(x, policy, proxied, event);
        if let Some(before) = stands_in(pre) {
            if addresses_cleared(policy, states, events, i - 1, before.url@) {
                let k = choose|k: int|
                    0 <= k < i - 1 && #[trigger] cleared_at(policy, states, events, k, before.url@);
                assert(cleared_at(policy, states, events, k, before.url@));
                assert(addresses_cleared(policy, states, events, i, before.url@));
            }
        }
        match (pre.at, event) {
            (At::Number, Event::Numbered(seq)) => {
                let (p, q, step) = choose|p: Passage, q: Passage, step: StepView|
                    set_out(x, seq, p) && #[trigger] moves(j, p, q, step) && led_to(
                        x,
                        q,
                        step,
                        language,
                        post.at,
                        actions[i],
                    );
                assert(same_journey(p, q));
            },
            (At::Passing(p), _) => {
                let (q, step) = choose|q: Passage, step: StepView|
                    #[trigger] moves(j, p, q, step) && led_to(
                        x,
                        q,
                        step,
                        language,
                        post.at,
                        actions[i],
                    );
                assert(same_journey(p, q));
                if p.stage == Stage::Resolving && stands_in(post) is Some {
                    assert(cleared_at(policy, states, events, i - 1, p.url@));
                    assert(addresses_cleared(policy, states, events, i, p.url@));
                }
            },
            _ => {},
        }
    }
}

/// A request that goes out is for the URL of the passage it has behind it.
pub proof fn lemma_a_request_is_of_its_hop(
    policy: PolicyView,
    proxied: bool,
    language: Seq<char>,
    states: Seq<Sending>,
    actions: Seq<Action>,
    events: Seq<Event>,
    i: int,
)
    requires
        is_dialogue(policy, proxied, language, states, actions, events),
        0 <= i < actions.len(),
        actions[i] is Send,
    ensures
        stands_in(states[i]) matches Some(p) && p.stage == Stage::Open && p.url@
            == actions[i]->Send_0.url@,
{
    lemma_vetted_throughout(policy, proxied, language, states, actions, events, i - 1);
    assert(states[i - 1].wf());
    assert(turns(
        states[i - 1],
        policy,
        proxied,
        language,
        events[i - 1],
        states[i - 1 + 1],
        actions[i - 1 + 1],
    ));
    law_a_request_goes_out_vetted_and_receipted(
        states[i - 1],
        policy,
        proxied,
        language,
        events[i - 1],
        states[i],
        actions[i],
    );
    law_the_receipt_names_the_request(
        states[i - 1],
        policy,
        proxied,
        language,
        events[i - 1],
        states[i],
        actions[i],
    );
    lemma_a_passage_stays_on_its_hop(
        states[i - 1],
        policy,
        proxied,
        language,
        events[i - 1],
        states[i],
        actions[i],
    );
    assert(states[i].wf());
}

/// In every dialogue a request goes out only where the addresses behind its
/// name were looked up and may all be connected to. Where a proxy resolves the
/// name, or there is none, there is nothing to look up.
pub proof fn law_no_dialogue_sends_to_unchecked_addresses(
    policy: PolicyView,
    proxied: bool,
    language: Seq<char>,
    states: Seq<Sending>,
    actions: Seq<Action>,
    events: Seq<Event>,
    i: int,
)
    requires
        is_dialogue(policy, proxied, language, states, actions, events),
        0 <= i < actions.len(),
        actions[i] is Send,
        to_resolve(actions[i]->Send_0.url@, proxied) is Some,
    ensures
        addresses_cleared(policy, states, events, i, actions[i]->Send_0.url@),
{
    lemma_addresses_cleared_throughout(policy, proxied, language, states, actions, events, i);
    lemma_a_request_is_of_its_hop(policy, proxied, language, states, actions, events, i);
}

/// Step `k` of a dialogue writes a request under the number, and was told that
/// it is written.
pub open spec fn writes(actions: Seq<Action>, events: Seq<Event>, k: int, n: u64) -> bool {
    &&& is_written(events[k])
    &&& match actions[k] {
        Action::Append(a) => a@.phase == Phase::Request && a@.seq == n,
        Action::AppendPair(a, _) => a@.phase == Phase::Request && a@.seq == n,
        _ => false,
    }
}

/// Before step `i` of a dialogue a request was recorded under the number.
pub open spec fn recorded(actions: Seq<Action>, events: Seq<Event>, i: int, n: u64) -> bool {
    exists|k: int| 0 <= k < i && #[trigger] writes(actions, events, k, n)
}

/// What a state is about to name has been recorded, or is being recorded now.
spec fn on_record(states: Seq<Sending>, actions: Seq<Action>, events: Seq<Event>, i: int) -> bool {
    match states[i].at {
        At::Passing(p) => p.stage == Stage::Recording ==> (actions[i] matches Action::Append(a)
            && a@.phase == Phase::Request && a@.seq == p.seq),
        At::Refusing { seq, .. } => actions[i] matches Action::AppendPair(a, _) && a@.phase
            == Phase::Request && a@.seq == seq,
        At::Jar(p) => recorded(actions, events, i, p.seq),
        At::Wire { passage, .. } => recorded(actions, events, i, passage.seq),
        At::Storing { passage, .. } => recorded(actions, events, i, passage.seq),
        At::Reading { passage, .. } => recorded(actions, events, i, passage.seq),
        At::Closing(c) => c@.seq matches Some(n) ==> recorded(actions, events, i, n),
        _ => true,
    }
}

proof fn lemma_on_record_throughout(
    policy: PolicyView,
    proxied: bool,
    language: Seq<char>,
    states: Seq<Sending>,
    actions: Seq<Action>,
    events: Seq<Event>,
    i: int,
)
    requires
        is_dialogue(policy, proxied, language, states, actions, events),
        0 <= i < states.len(),
    ensures
        on_record(states, actions, events, i),
        actions[i] matches Action::Done(o) ==> (o@.seq matches Some(n) ==> recorded(
            actions,
            events,
            i,
            n,
        )),
    decreases i,
{
    if i > 0 {
        lemma_on_record_throughout(policy, proxied, language, states, actions, events, i - 1);
        let pre = states[i - 1];
        let post = states[i];
        let event = events[i - 1];
        assert(pre.wf());
        assert(turns(
            pre,
            policy,
            proxied,
            language,
            events[i - 1],
            states[i - 1 + 1],
            actions[i - 1 + 1],
        ));
        assert forall|n: u64| #[trigger] recorded(actions, events, i - 1, n) implies recorded(
            actions,
            events,
            i,
            n,
        ) by {
            let k = choose|k: int| 0 <= k < i - 1 && #[trigger] writes(actions, events, k, n);
            assert(writes(actions, events, k, n));
        }
        let x = pre.exchange;
        let j = journey(x, policy, proxied, event);
        match (pre.at, event) {
            (At::Number, Event::Numbered(seq)) => {
                let (p, q, step) = choose|p: Passage, q: Passage, step: StepView|
                    set_out(x, seq, p) && #[trigger] moves(j, p, q, step) && led_to(
                        x,
                        q,
                        step,
                        language,
                        post.at,
                        actions[i],
                    );
                assert(same_journey(p, q));
            },
            (At::Passing(p), _) => {
                let (q, step) = choose|q: Passage, step: StepView|
                    #[trigger] moves(j, p, q, step) && led_to(
                        x,
                        q,
                        step,
                        language,
                        post.at,
                        actions[i],
                    );
                assert(same_journey(p, q));
                if p.stage == Stage::Recording && step is Go {
                    assert(writes(actions, events, i - 1, p.seq));
                    assert(recorded(actions, events, i, q.seq));
                }
            },
            (At::Refusing { seq, .. }, Event::Appended(pair)) => {
                if pair is Ok {
                    assert(writes(actions, events, i - 1, seq));
                    assert(recorded(actions, events, i, seq));
                }
            },
            (
                At::Storing { passage, cookies_sent, answer, ttfb_ms },
                Event::Stored { cookies, elapsed_ms },
            ) => {
                let r = choose|r: Reaction| #[trigger]
                    reacted(
                        x,
                        passage.plan,
                        passage.seq,
                        answer,
                        points_to(x, answer),
                        post.exchange,
                        r,
                    ) && match r {
                        Reaction::Follow => post.at is Onward,
                        Reaction::Stop { outcome: o, .. } => post.at matches At::Closing(c) && c@
                            == o@,
                        Reaction::Blocked(told) => post.at matches At::Closing(c) && c@
                            == failed_outcome(x.current@, told@, Some(passage.seq)),
                        Reaction::Read(_) => post.at matches At::Reading { passage: q, .. } && q
                            == passage,
                    };
                assert(recorded(actions, events, i, passage.seq));
            },
            _ => {},
        }
    }
}

/// An outcome names a receipt only where there is one: the number it carries is
/// that of a request which was recorded before the dialogue ended.
pub proof fn law_an_outcome_names_only_what_was_recorded(
    policy: PolicyView,
    proxied: bool,
    language: Seq<char>,
    states: Seq<Sending>,
    actions: Seq<Action>,
    events: Seq<Event>,
    i: int,
)
    requires
        is_dialogue(policy, proxied, language, states, actions, events),
        0 <= i < actions.len(),
        actions[i] is Done,
    ensures
        actions[i]->Done_0@.seq matches Some(n) ==> recorded(actions, events, i, n),
{
    lemma_on_record_throughout(policy, proxied, language, states, actions, events, i);
}

/// What a fetch does with what comes back: an answer that failed ends it, under
/// its number and with the error; the cookies that an answer sets are kept,
/// unless the plan says that none go; and what is kept is every `Set-Cookie`.
pub proof fn law_what_is_done_with_an_answer(
    s: Sending,
    policy: &Policy,
    proxied: bool,
    language: &str,
    event: Event,
    r: (Sending, Action),
)
    requires
        s.wf(),
        s.awaits(event),
        policy@.max_response_bytes < u64::MAX,
        s.at is Wire,
        call_ensures(Sending::next, (s, policy, proxied, language, event), r),
    ensures
        ({
            let p = s.at->Wire_passage;
            let withheld = p.plan matches Some(Plan::Send { send_cookies, .. }) && !send_cookies;
            match event {
                Event::Answered { answer: Err(e), ttfb_ms } => {
                    &&& r.0.at matches At::Closing(o) && o@.error == Some(e@) && o@.seq == Some(
                        p.seq,
                    ) && o@.status is None && o@.final_url == s.exchange.current@ && o@.body.len()
                        == 0
                    &&& r.1 matches Action::Append(a) && a@.phase is Response && a@.seq == p.seq
                        && a@.error == Some(e@) && a@.ttfb_ms == Some(ttfb_ms) && a@.status is None
                },
                Event::Answered { answer: Ok(answer), .. } => {
                    &&& r.0.at is Storing
                    &&& r.1 matches Action::Store { url, set_cookies } && url@
                        == s.exchange.current@ && texts(set_cookies@) == if withheld {
                        Seq::empty()
                    } else {
                        crate::fetch::values_of(
                            pairs(answer.headers@),
                            crate::text::lowered("set-cookie"@),
                        )
                    }
                },
                _ => false,
            }
        }),
        r.0.exchange == s.exchange,
{
}

/// Once its cookies are kept an answer is judged: a 3xx that names where to go
/// is followed as long as the hops last, one that cannot be ends the fetch, and
/// any other is read, unless the origin that asked may not read it. Whatever it
/// comes to, the record is the request's own, with the status that came back.
pub proof fn law_how_an_answer_is_judged(
    s: Sending,
    policy: &Policy,
    proxied: bool,
    language: &str,
    event: Event,
    r: (Sending, Action),
)
    requires
        s.wf(),
        s.awaits(event),
        policy@.max_response_bytes < u64::MAX,
        s.at is Storing,
        call_ensures(Sending::next, (s, policy, proxied, language, event), r),
    ensures
        ({
            let x = s.exchange;
            let p = s.at->Storing_passage;
            let answer = s.at->Storing_answer;
            let to = match answer.location {
                Some(l) => url_joined(x.current@.href, l@),
                None => Err(Seq::empty()),
            };
            let turned = 300 <= answer.status <= 399;
            &&& r.0.at is Onward <==> turned && to is Ok && x.hop < x.hop_limit
            &&& r.0.at is Onward ==> r.0.exchange.current@ == to->Ok_0 && r.0.exchange.hop == x.hop
                + 1 && r.0.exchange.asked == x.asked
            &&& !(r.0.at is Onward) ==> r.0.exchange == x
            &&& r.0.at is Reading ==> !turned && r.1 is Read
            &&& !turned && !(p.plan matches Some(Plan::Send { check_response: true, .. }))
                ==> r.0.at is Reading
            &&& turned ==> r.0.at is Onward || r.0.at is Closing
            &&& r.1 matches Action::Append(a) ==> a@.phase is Response && a@.seq == p.seq
                && a@.status == Some(answer.status) && a@.allowed
            &&& r.0.at matches At::Closing(o) ==> o@.seq == Some(p.seq) && o@.final_url
                == x.current@
        }),
{
}

/// A body is read up to the policy's bound and not beyond, decoded by what its
/// header says, and shown as the plan lets it; what it cost is settled under the
/// request's own number.
pub proof fn law_how_a_body_is_read(
    s: Sending,
    policy: &Policy,
    proxied: bool,
    language: &str,
    event: Event,
    r: (Sending, Action),
)
    requires
        s.wf(),
        s.awaits(event),
        policy@.max_response_bytes < u64::MAX,
        s.at is Reading,
        call_ensures(Sending::next, (s, policy, proxied, language, event), r),
    ensures
        ({
            let p = s.at->Reading_passage;
            let answer = s.at->Reading_answer;
            let exposure = s.at->exposure;
            let read = event->read;
            let cap = policy@.max_response_bytes;
            let encoding = content_encoding(pairs(answer.headers@));
            let o = r.0.at->Closing_0@;
            let fits = read is Ok && read->Ok_0@.len() <= cap;
            let body = if encoding is None {
                Ok(read->Ok_0@)
            } else {
                crate::decode::decoded(read->Ok_0@, encoding->Some_0, cap)
            };
            &&& r.0.at is Closing && r.1 is Settle
            &&& o.error is None <==> fits && body is Ok
            &&& o.error is None && !(exposure is Opaque) ==> o.body == body->Ok_0 && o.status
                == Some(answer.status)
            &&& o.error is None && exposure is Opaque ==> o.body.len() == 0 && o.status == Some(
                0u16,
            )
            &&& o.seq == Some(p.seq)
            &&& r.1->Settle_record@.seq == p.seq
            &&& r.1->Settle_record@.status == Some(answer.status)
            &&& o.error is None ==> r.1->wire == read->Ok_0@.len() && r.1->memory
                == body->Ok_0.len() as u64
            &&& o.error is Some ==> r.1->wire == 0 && r.1->memory == 0
                && r.1->Settle_record@.error == o.error
        }),
{
}

} // verus!
