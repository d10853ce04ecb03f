//! The way to the wire: what has to hold before anything is sent.
//!
//! Every request, preflight, socket, event stream and raw request comes through
//! a [`Passage`]. Its checks stand in one order: the policy about the name, the
//! policy about the addresses behind it, the same-origin policy, the page's
//! allowance, and the receipt. The work between the checks (resolving, asking,
//! writing the log) is the caller's, and its result comes back here.
use vstd::prelude::*;

use crate::address::{IpAddr, IpView};
use crate::cors::{
    origin_option, pairs, plan, planned, Credentials, Mode, Origin, OriginView, Plan, Requester,
    RequesterView,
};
use crate::policy::{
    address_checked, checked_from, has_loopback_host, is_loopback, unbracket, unbracketed, Policy,
    PolicyView, Verdict, VerdictView,
};
use crate::receipt::{
    denied_record, request_record, response_record, Initiator, RecordView, RequestRecord,
};
use crate::text::{copy_texts, texts};
use crate::url::{effective_port, is_web_scheme, url_ref, Url, UrlView};

verus! {

/// What a passage is wanted for.
#[derive(Debug, Clone, Copy, PartialEq, Eq, Structural)]
pub enum Errand {
    /// One hop of a fetch: whether it is the first, and whether a page asked.
    Hop { first: bool, page: bool },
    /// Asking a server whether it will accept a request.
    Preflight,
    Socket,
    Stream,
    /// A request written byte for byte.
    Raw,
}

/// How far a passage has come: what it waits for.
#[derive(Debug, Clone, Copy, PartialEq, Eq, Structural)]
pub enum Stage {
    /// Nothing has been decided.
    Naming,
    /// The addresses of the host.
    Resolving,
    /// The answer to a preflight.
    Asking,
    /// The claim on the page's allowance.
    Claiming,
    /// The receipt.
    Recording,
    /// Nothing: it may go.
    Open,
    /// Nothing: it may not go.
    Shut,
}

/// Who asks, for a request that a document makes.
#[derive(Debug, Clone, PartialEq, Eq)]
pub struct CorsContext {
    /// `None` for a document with an opaque origin, which is same-origin with
    /// nothing.
    pub document: Option<Origin>,
    pub headers: Vec<(String, String)>,
    pub mode: Mode,
    pub credentials: Credentials,
}

/// What a [`CorsContext`] says.
pub struct ContextView {
    pub document: Option<OriginView>,
    pub headers: Seq<(Seq<char>, Seq<char>)>,
    pub mode: Mode,
    pub credentials: Credentials,
}

impl View for CorsContext {
    type V = ContextView;

    open spec fn view(&self) -> ContextView {
        ContextView {
            document: origin_option(self.document),
            headers: pairs(self.headers@),
            mode: self.mode,
            credentials: self.credentials,
        }
    }
}

pub open spec fn context_ref(c: Option<&CorsContext>) -> Option<ContextView> {
    match c {
        Some(x) => Some(x@),
        None => None,
    }
}

/// The document that asks. One whose request was bounced across origins has no
/// origin any more, and neither has one that never had any.
pub open spec fn requester_of(c: ContextView, tainted: bool) -> RequesterView {
    match c.document {
        Some(o) => if tainted {
            RequesterView::Opaque
        } else {
            RequesterView::Document(o)
        },
        None => RequesterView::Opaque,
    }
}

/// A request that is not made: what the log says of it, and what the caller is
/// told.
#[derive(Debug, Clone, PartialEq, Eq)]
pub struct Refusal {
    pub record: RequestRecord,
    pub told: String,
}

/// What to do next.
#[derive(Debug, Clone, PartialEq, Eq)]
pub enum Step {
    /// Write both halves of the record, then tell the caller.
    Refused(Refusal),
    /// Tell the caller; there is nothing to write.
    Turned(String),
    /// Look up the addresses of the host.
    Resolve { host: String, port: u16 },
    /// Make the preflight that the plan holds.
    Ask,
    /// Claim one request of the page's allowance.
    Claim,
    /// Write the record.
    Record(RequestRecord),
    /// Use the wire.
    Go,
}

/// What a [`Step`] says.
pub enum StepView {
    Refused { record: RecordView, told: Seq<char> },
    Turned(Seq<char>),
    Resolve { host: Seq<char>, port: u16 },
    Ask,
    Claim,
    Record(RecordView),
    Go,
}

impl View for Step {
    type V = StepView;

    open spec fn view(&self) -> StepView {
        match self {
            Step::Refused(r) => StepView::Refused { record: r.record@, told: r.told@ },
            Step::Turned(t) => StepView::Turned(t@),
            Step::Resolve { host, port } => StepView::Resolve { host: host@, port: *port },
            Step::Ask => StepView::Ask,
            Step::Claim => StepView::Claim,
            Step::Record(r) => StepView::Record(r@),
            Step::Go => StepView::Go,
        }
    }
}

/// One passage to the wire.
#[derive(Debug, PartialEq, Eq)]
pub struct Passage {
    pub errand: Errand,
    /// The number of its receipt.
    pub seq: u64,
    pub initiator: Initiator,
    /// What the log calls it.
    pub verb: String,
    /// Where the log says it went.
    pub shown: String,
    /// The method on the wire.
    pub method: String,
    pub url: Url,
    pub overridden: Vec<String>,
    pub stage: Stage,
    /// What the same-origin policy decided, where a document asks.
    pub plan: Option<Plan>,
}

/// Everything but what the checks decide.
pub open spec fn same_journey(a: Passage, b: Passage) -> bool {
    &&& a.errand == b.errand
    &&& a.seq == b.seq
    &&& a.initiator == b.initiator
    &&& a.verb == b.verb
    &&& a.shown == b.shown
    &&& a.method == b.method
    &&& a.url == b.url
    &&& a.overridden == b.overridden
}

pub open spec fn begun(p: Passage) -> RecordView {
    request_record(p.seq, p.initiator, p.verb@, p.shown@)
}

/// The record that is written before anything is sent.
pub open spec fn receipt_of(p: Passage) -> RecordView {
    RecordView { headers_overridden: texts(p.overridden@), ..begun(p) }
}

pub open spec fn raw_behind_proxy() -> Seq<char> {
    "a raw request is a socket this session's egress proxy does not carry, so it is refused off loopback rather than sent around the allowlist the proxy enforces"@
}

/// Why the name is not allowed, where it is not.
pub open spec fn name_refusal(
    errand: Errand,
    p: PolicyView,
    proxied: bool,
    url: UrlView,
    document: Option<UrlView>,
) -> Option<Seq<char>> {
    match checked_from(p, url, document) {
        VerdictView::Deny(why) => Some(why),
        VerdictView::Allow => if errand == Errand::Raw && proxied && !has_loopback_host(url) {
            Some(raw_behind_proxy())
        } else {
            None
        },
    }
}

/// What the caller is told of a name that is not allowed. A page is not told
/// where a server redirected it; whoever drives the engine is.
pub open spec fn told_of_name(errand: Errand, url: UrlView, why: Seq<char>) -> Seq<char> {
    match errand {
        Errand::Hop { first, page } => if first {
            "denied by policy: "@ + why
        } else if page {
            "the request was redirected somewhere this engine is not allowed to follow, so it was not followed"@
        } else {
            "the site redirected to "@ + url.href + ", which is not allowed: "@ + why
                + ". This engine will not follow a redirect out of the allowlist, because a server could then choose where we go; allow that host if you meant to follow it."@
        },
        _ => told_of_address(errand, why),
    }
}

/// What the caller is told of an address that is not allowed.
pub open spec fn told_of_address(errand: Errand, why: Seq<char>) -> Seq<char> {
    match errand {
        Errand::Preflight => "the preflight was denied by policy: "@ + why,
        Errand::Raw => why,
        _ => "denied by policy: "@ + why,
    }
}

pub open spec fn told_of_blocked(why: Seq<char>) -> Seq<char> {
    "blocked by the same-origin policy: "@ + why
}

/// What the caller is told where the receipt could not be written.
pub open spec fn told_of_receipt(errand: Errand, error: Seq<char>) -> Seq<char> {
    (match errand {
        Errand::Preflight => "refusing to preflight"@,
        Errand::Socket => "refusing to connect"@,
        Errand::Stream => "refusing to connect"@,
        _ => "refusing to fetch"@,
    }) + ": the receipt could not be written: "@ + error
}

/// The host and port to look up. There is nothing to look up where a proxy
/// resolves the name at the far end, or where there is no host.
pub open spec fn to_resolve(url: UrlView, proxied: bool) -> Option<(Seq<char>, u16)> {
    if proxied || !is_web_scheme(url.scheme) {
        None
    } else {
        match (url.host, effective_port(url)) {
            (Some(host), Some(port)) => Some((unbracketed(host), port)),
            _ => None,
        }
    }
}

pub open spec fn host_or_empty(url: UrlView) -> Seq<char> {
    match url.host {
        Some(h) => h,
        None => Seq::empty(),
    }
}

/// What the first address that may not be connected to is refused for.
pub open spec fn first_refusal(p: PolicyView, url: UrlView, addrs: Seq<IpView>) -> Option<Seq<char>>
    decreases addrs.len(),
{
    if addrs.len() == 0 {
        None
    } else {
        match address_checked(p, url, addrs[0]) {
            VerdictView::Deny(why) => Some(why),
            VerdictView::Allow => first_refusal(p, url, addrs.drop_first()),
        }
    }
}

pub open spec fn ips(v: Seq<IpAddr>) -> Seq<IpView> {
    v.map_values(|a: IpAddr| a@)
}

pub open spec fn lookup(r: Result<Vec<IpAddr>, String>) -> Result<Seq<IpView>, Seq<char>> {
    match r {
        Ok(v) => Ok(ips(v@)),
        Err(e) => Err(e@),
    }
}

/// Why the addresses are not allowed, where they are not. *Every* address is
/// checked: which one gets connected to is the client's choice among them.
pub open spec fn address_refusal(
    p: PolicyView,
    url: UrlView,
    found: Result<Seq<IpView>, Seq<char>>,
) -> Option<Seq<char>> {
    match found {
        Err(e) => Some("`"@ + host_or_empty(url) + "` could not be resolved: "@ + e),
        Ok(addrs) => if addrs.len() == 0 {
            Some("`"@ + host_or_empty(url) + "` resolved to no addresses"@)
        } else {
            first_refusal(p, url, addrs)
        },
    }
}

/// The passage is shut and the refusal is on record.
pub open spec fn refuses(
    post: Passage,
    step: StepView,
    why: Seq<char>,
    told: Seq<char>,
) -> bool {
    &&& post.stage == Stage::Shut
    &&& step == (StepView::Refused { record: denied_record(begun(post), why), told })
}

/// What follows once the name and the addresses are allowed.
pub open spec fn weighed(
    p: PolicyView,
    context: Option<ContextView>,
    tainted: bool,
    post: Passage,
    step: StepView,
) -> bool {
    match context {
        None => post.plan is None && post.stage == Stage::Claiming && step == StepView::Claim,
        Some(c) => {
            &&& post.plan is Some
            &&& planned(
                requester_of(c, tainted),
                post.url@,
                post.method@,
                c.headers,
                c.mode,
                c.credentials,
                if p.cross_site_credentials {
                    crate::cors::Stance::Browser
                } else {
                    crate::cors::Stance::Contained
                },
                post.plan->Some_0,
            )
            &&& match post.plan->Some_0 {
                Plan::Blocked(why) => refuses(post, step, why@, told_of_blocked(why@)),
                Plan::Send { preflight, .. } => if preflight is Some {
                    post.stage == Stage::Asking && step == StepView::Ask
                } else {
                    post.stage == Stage::Claiming && step == StepView::Claim
                },
            }
        },
    }
}

/// What the check of the name does.
pub open spec fn named(
    pre: Passage,
    p: PolicyView,
    proxied: bool,
    document: Option<UrlView>,
    context: Option<ContextView>,
    tainted: bool,
    post: Passage,
    step: StepView,
) -> bool {
    &&& same_journey(pre, post)
    &&& match name_refusal(pre.errand, p, proxied, pre.url@, document) {
        Some(why) => refuses(post, step, why, told_of_name(pre.errand, pre.url@, why)),
        None => match to_resolve(pre.url@, proxied) {
            Some((host, port)) => post.stage == Stage::Resolving && step == (StepView::Resolve {
                host,
                port,
            }),
            None => weighed(p, context, tainted, post, step),
        },
    }
}

/// What the check of the addresses does.
pub open spec fn addressed(
    pre: Passage,
    p: PolicyView,
    found: Result<Seq<IpView>, Seq<char>>,
    context: Option<ContextView>,
    tainted: bool,
    post: Passage,
    step: StepView,
) -> bool {
    &&& same_journey(pre, post)
    &&& match address_refusal(p, pre.url@, found) {
        Some(why) => refuses(post, step, why, told_of_address(pre.errand, why)),
        None => weighed(p, context, tainted, post, step),
    }
}

/// What the answer to a preflight does.
pub open spec fn answered(
    pre: Passage,
    answer: Result<(), Seq<char>>,
    post: Passage,
    step: StepView,
) -> bool {
    &&& same_journey(pre, post)
    &&& post.plan == pre.plan
    &&& match answer {
        Ok(()) => post.stage == Stage::Claiming && step == StepView::Claim,
        Err(why) => post.stage == Stage::Shut && step == StepView::Turned(told_of_blocked(why)),
    }
}

/// What the claim on the page's allowance does.
pub open spec fn allotted(
    pre: Passage,
    claim: Result<(), Seq<char>>,
    post: Passage,
    step: StepView,
) -> bool {
    &&& same_journey(pre, post)
    &&& post.plan == pre.plan
    &&& match claim {
        Ok(()) => post.stage == Stage::Recording && step == StepView::Record(receipt_of(pre)),
        Err(over) => refuses(post, step, over, over),
    }
}

/// What the receipt does.
pub open spec fn receipted(
    pre: Passage,
    receipt: Result<(), Seq<char>>,
    post: Passage,
    step: StepView,
) -> bool {
    &&& same_journey(pre, post)
    &&& post.plan == pre.plan
    &&& match receipt {
        Ok(()) => post.stage == Stage::Open && step == StepView::Go,
        Err(e) => post.stage == Stage::Shut && step == StepView::Turned(
            told_of_receipt(pre.errand, e),
        ),
    }
}

/// The addresses that a name answered with, checked.
pub fn approve_addresses(
    policy: &Policy,
    url: &Url,
    found: &Result<Vec<IpAddr>, String>,
) -> (r: Result<(), String>)
    ensures
        match r {
            Ok(()) => address_refusal(policy@, url@, lookup(*found)) is None,
            Err(why) => address_refusal(policy@, url@, lookup(*found)) == Some(why@),
        },
{
    let host: String = match &url.host {
        Some(h) => h.clone(),
        None => String::new(),
    };
    match found {
        Err(e) => {
            let mut why = "`".to_owned();
            why.append(&host);
            why.append("` could not be resolved: ");
            why.append(e);
            Err(why)
        },
        Ok(addrs) => {
            if addrs.len() == 0 {
                let mut why = "`".to_owned();
                why.append(&host);
                why.append("` resolved to no addresses");
                return Err(why);
            }
            let ghost all = ips(addrs@);
            let mut i: usize = 0;
            assert(all.skip(0) =~= all);
            while i < addrs.len()
                invariant
                    i <= addrs.len(),
                    all == ips(addrs@),
                    lookup(*found) == Ok::<Seq<IpView>, Seq<char>>(all),
                    all.len() > 0,
                    first_refusal(policy@, url@, all) == first_refusal(
                        policy@,
                        url@,
                        all.skip(i as int),
                    ),
                decreases addrs.len() - i,
            {
                assert(all.skip(i as int)[0] == addrs@[i as int]@);
                assert(all.skip(i as int).drop_first() =~= all.skip(i + 1));
                match policy.check_address(url, addrs[i]) {
                    Verdict::Deny(why) => {
                        return Err(why);
                    },
                    Verdict::Allow => {},
                }
                i += 1;
            }
            Ok(())
        },
    }
}

/// The host and port to look up for a URL, where there is anything to look up.
pub fn lookup_target(url: &Url, proxied: bool) -> (r: Option<(String, u16)>)
    ensures
        match r {
            Some((host, port)) => to_resolve(url@, proxied) == Some((host@, port)),
            None => to_resolve(url@, proxied) is None,
        },
{
    if proxied || !url.has_web_scheme() {
        return None;
    }
    match (&url.host, url.effective_port()) {
        (Some(host), Some(port)) => Some((unbracket(host), port)),
        _ => None,
    }
}

impl Passage {
    /// A passage on which nothing has been decided.
    pub fn new(
        errand: Errand,
        seq: u64,
        initiator: Initiator,
        verb: &str,
        shown: &str,
        method: &str,
        url: &Url,
        overridden: &Vec<String>,
    ) -> (r: Passage)
        ensures
            r.errand == errand,
            r.seq == seq,
            r.initiator == initiator,
            r.verb@ == verb@,
            r.shown@ == shown@,
            r.method@ == method@,
            r.url@ == url@,
            r.overridden@ == overridden@,
            r.stage == Stage::Naming,
            r.plan is None,
    {
        Passage {
            errand,
            seq,
            initiator,
            verb: verb.to_owned(),
            shown: shown.to_owned(),
            method: method.to_owned(),
            url: url.copy(),
            overridden: copy_texts(overridden),
            stage: Stage::Naming,
            plan: None,
        }
    }

    fn begun(&self) -> (r: RequestRecord)
        ensures
            r@ == begun(*self),
    {
        RequestRecord::request(self.seq, self.initiator, &self.verb, &self.shown)
    }

    /// The record that is written before anything is sent.
    pub fn receipt(&self) -> (r: RequestRecord)
        ensures
            r@ == receipt_of(*self),
    {
        let mut record = self.begun();
        record.headers_overridden = copy_texts(&self.overridden);
        record
    }

    fn refuse(&mut self, why: &str, told: String) -> (r: Step)
        ensures
            same_journey(*old(self), *final(self)),
            final(self).plan == old(self).plan,
            refuses(*final(self), r@, why@, told@),
    {
        self.stage = Stage::Shut;
        let record = self.begun().denied(why);
        Step::Refused(Refusal { record, told })
    }

    /// What the caller is told of a name that is not allowed.
    fn tell_name(&self, why: &str) -> (r: String)
        ensures
            r@ == told_of_name(self.errand, self.url@, why@),
    {
        match self.errand {
            Errand::Hop { first, page } => {
                if first {
                    let mut told = "denied by policy: ".to_owned();
                    told.append(why);
                    told
                } else if page {
                    "the request was redirected somewhere this engine is not allowed to follow, so it was not followed".to_owned()
                } else {
                    let mut told = "the site redirected to ".to_owned();
                    told.append(&self.url.href);
                    told.append(", which is not allowed: ");
                    told.append(why);
                    told.append(
                        ". This engine will not follow a redirect out of the allowlist, because a server could then choose where we go; allow that host if you meant to follow it.",
                    );
                    told
                }
            },
            _ => self.tell_address(why),
        }
    }

    fn tell_address(&self, why: &str) -> (r: String)
        ensures
            r@ == told_of_address(self.errand, why@),
    {
        let mut told = match self.errand {
            Errand::Preflight => "the preflight was denied by policy: ".to_owned(),
            Errand::Raw => {
                return why.to_owned();
            },
            _ => "denied by policy: ".to_owned(),
        };
        told.append(why);
        told
    }

    /// Weighs the request against the same-origin policy.
    fn weigh(&mut self, policy: &Policy, context: Option<&CorsContext>, tainted: bool) -> (r: Step)
        requires
            old(self).plan is None,
        ensures
            same_journey(*old(self), *final(self)),
            weighed(policy@, context_ref(context), tainted, *final(self), r@),
    {
        match context {
            None => {
                self.stage = Stage::Claiming;
                Step::Claim
            },
            Some(c) => {
                let requester = match &c.document {
                    Some(o) => if tainted {
                        Requester::Opaque
                    } else {
                        Requester::Document(o)
                    },
                    None => Requester::Opaque,
                };
                let decided = plan(
                    requester,
                    &self.url,
                    &self.method,
                    c.headers.as_slice(),
                    c.mode,
                    c.credentials,
                    policy.cors_stance(),
                );
                let step = match &decided {
                    Plan::Blocked(why) => {
                        let mut told = "blocked by the same-origin policy: ".to_owned();
                        told.append(why);
                        self.refuse(why, told)
                    },
                    Plan::Send { preflight, .. } => {
                        if preflight.is_some() {
                            self.stage = Stage::Asking;
                            Step::Ask
                        } else {
                            self.stage = Stage::Claiming;
                            Step::Claim
                        }
                    },
                };
                self.plan = Some(decided);
                step
            },
        }
    }

    /// Decides about the name.
    pub fn check_name(
        &mut self,
        policy: &Policy,
        proxied: bool,
        document: Option<&Url>,
        context: Option<&CorsContext>,
        tainted: bool,
    ) -> (r: Step)
        requires
            old(self).stage == Stage::Naming,
            old(self).plan is None,
        ensures
            named(
                *old(self),
                policy@,
                proxied,
                url_ref(document),
                context_ref(context),
                tainted,
                *final(self),
                r@,
            ),
            final(self).stage == Stage::Resolving ==> final(self).plan is None,
    {
        match policy.check_from(&self.url, document) {
            Verdict::Deny(why) => {
                let told = self.tell_name(&why);
                return self.refuse(&why, told);
            },
            Verdict::Allow => {},
        }
        // Raw sockets cannot bypass the proxy except for loopback.

        if self.errand == Errand::Raw && proxied {
            let local = match &self.url.host {
                Some(h) => is_loopback(h),
                None => false,
            };
            if !local {
                let why =
                    "a raw request is a socket this session's egress proxy does not carry, so it is refused off loopback rather than sent around the allowlist the proxy enforces";
                return self.refuse(why, why.to_owned());
            }
        }
        match lookup_target(&self.url, proxied) {
            Some((host, port)) => {
                self.stage = Stage::Resolving;
                Step::Resolve { host, port }
            },
            None => self.weigh(policy, context, tainted),
        }
    }

    /// Decides about the addresses that the name answered with.
    pub fn check_addresses(
        &mut self,
        policy: &Policy,
        found: &Result<Vec<IpAddr>, String>,
        context: Option<&CorsContext>,
        tainted: bool,
    ) -> (r: Step)
        requires
            old(self).stage == Stage::Resolving,
            old(self).plan is None,
        ensures
            addressed(
                *old(self),
                policy@,
                lookup(*found),
                context_ref(context),
                tainted,
                *final(self),
                r@,
            ),
    {
        match approve_addresses(policy, &self.url, found) {
            Err(why) => {
                let told = self.tell_address(&why);
                self.refuse(&why, told)
            },
            Ok(()) => self.weigh(policy, context, tainted),
        }
    }

    /// Takes the answer to the preflight.
    pub fn preflighted(&mut self, answer: Result<(), String>) -> (r: Step)
        requires
            old(self).stage == Stage::Asking,
        ensures
            answered(*old(self), crate::cors::outcome(answer), *final(self), r@),
    {
        match answer {
            Ok(()) => {
                self.stage = Stage::Claiming;
                Step::Claim
            },
            Err(why) => {
                self.stage = Stage::Shut;
                let mut told = "blocked by the same-origin policy: ".to_owned();
                told.append(&why);
                Step::Turned(told)
            },
        }
    }

    /// Takes the answer of the page's allowance.
    pub fn claimed(&mut self, claim: Result<(), String>) -> (r: Step)
        requires
            old(self).stage == Stage::Claiming,
        ensures
            allotted(*old(self), crate::cors::outcome(claim), *final(self), r@),
    {
        match claim {
            Err(over) => {
                let told = over.clone();
                self.refuse(&over, told)
            },
            Ok(()) => {
                self.stage = Stage::Recording;
                Step::Record(self.receipt())
            },
        }
    }

    /// Takes the answer of the log. If the record cannot be written, nothing
    /// is sent.
    pub fn recorded(&mut self, receipt: Result<(), String>) -> (r: Step)
        requires
            old(self).stage == Stage::Recording,
        ensures
            receipted(*old(self), crate::cors::outcome(receipt), *final(self), r@),
    {
        match receipt {
            Ok(()) => {
                self.stage = Stage::Open;
                Step::Go
            },
            Err(e) => {
                self.stage = Stage::Shut;
                let mut told = match self.errand {
                    Errand::Preflight => "refusing to preflight".to_owned(),
                    Errand::Socket => "refusing to connect".to_owned(),
                    Errand::Stream => "refusing to connect".to_owned(),
                    _ => "refusing to fetch".to_owned(),
                };
                told.append(": the receipt could not be written: ");
                told.append(&e);
                Step::Turned(told)
            },
        }
    }
}

impl Refusal {
    /// Both halves of the record of a request that never reaches the wire.
    pub fn record_pair(self) -> (r: (RequestRecord, RequestRecord))
        ensures
            r.0@ == self.record@,
            r.1@ == response_record(self.record@),
    {
        let second = self.record.response();
        (self.record, second)
    }
}

/// What a passage meets on its way: what the checks are asked about, and what
/// comes back between them.
pub struct Journey {
    pub policy: PolicyView,
    pub proxied: bool,
    pub document: Option<UrlView>,
    pub context: Option<ContextView>,
    pub tainted: bool,
    pub found: Result<Seq<IpView>, Seq<char>>,
    pub answer: Result<(), Seq<char>>,
    pub claim: Result<(), Seq<char>>,
    pub receipt: Result<(), Seq<char>>,
}

/// One check takes the passage from `pre` to `post`.
pub open spec fn moves(j: Journey, pre: Passage, post: Passage, step: StepView) -> bool {
    match pre.stage {
        Stage::Naming => named(
            pre,
            j.policy,
            j.proxied,
            j.document,
            j.context,
            j.tainted,
            post,
            step,
        ),
        Stage::Resolving => addressed(pre, j.policy, j.found, j.context, j.tainted, post, step),
        Stage::Asking => answered(pre, j.answer, post, step),
        Stage::Claiming => allotted(pre, j.claim, post, step),
        Stage::Recording => receipted(pre, j.receipt, post, step),
        Stage::Open => false,
        Stage::Shut => false,
    }
}

/// The name is allowed, and every address behind it.
pub open spec fn may_connect(j: Journey, p: Passage) -> bool {
    &&& name_refusal(p.errand, j.policy, j.proxied, p.url@, j.document) is None
    &&& to_resolve(p.url@, j.proxied) is Some ==> address_refusal(j.policy, p.url@, j.found) is None
}

/// The same-origin policy lets the request be made.
pub open spec fn may_ask(j: Journey, p: Passage) -> bool {
    match j.context {
        None => p.plan is None,
        Some(c) => p.plan matches Some(plan) && plan is Send && planned(
            requester_of(c, j.tainted),
            p.url@,
            p.method@,
            c.headers,
            c.mode,
            c.credentials,
            if j.policy.cross_site_credentials {
                crate::cors::Stance::Browser
            } else {
                crate::cors::Stance::Contained
            },
            plan,
        ),
    }
}

/// A preflight that had to be made was answered in favour.
pub open spec fn has_leave(j: Journey, p: Passage) -> bool {
    p.plan matches Some(Plan::Send { preflight, .. }) && preflight is Some ==> j.answer is Ok
}

/// What has been cleared by the time a passage is at its stage.
pub open spec fn cleared(j: Journey, p: Passage) -> bool {
    match p.stage {
        Stage::Naming => true,
        Stage::Resolving => name_refusal(p.errand, j.policy, j.proxied, p.url@, j.document) is None,
        Stage::Asking => may_connect(j, p) && may_ask(j, p),
        Stage::Claiming => may_connect(j, p) && may_ask(j, p) && has_leave(j, p),
        Stage::Recording => may_connect(j, p) && may_ask(j, p) && has_leave(j, p) && j.claim is Ok,
        Stage::Open => may_connect(j, p) && may_ask(j, p) && has_leave(j, p) && j.claim is Ok
            && j.receipt is Ok,
        Stage::Shut => true,
    }
}

/// No check skips what an earlier one has to clear.
pub proof fn law_every_check_is_passed_in_turn(
    j: Journey,
    pre: Passage,
    post: Passage,
    step: StepView,
)
    requires
        cleared(j, pre),
        moves(j, pre, post, step),
    ensures
        cleared(j, post),
        same_journey(pre, post),
{
}

/// A run of checks, each taking up where the one before it stopped.
pub open spec fn is_run(j: Journey, ps: Seq<Passage>, steps: Seq<StepView>) -> bool {
    &&& ps.len() == steps.len() + 1
    &&& ps[0].stage == Stage::Naming
    &&& forall|i: int| 0 <= i < steps.len() ==> moves(j, #[trigger] ps[i], ps[i + 1], steps[i])
}

proof fn lemma_run_is_cleared(j: Journey, ps: Seq<Passage>, steps: Seq<StepView>, i: int)
    requires
        is_run(j, ps, steps),
        0 <= i < ps.len(),
    ensures
        cleared(j, ps[i]),
        same_journey(ps[0], ps[i]),
    decreases i,
{
    if i > 0 {
        lemma_run_is_cleared(j, ps, steps, i - 1);
        assert(moves(j, ps[i - 1], ps[i - 1 + 1], steps[i - 1]));
        law_every_check_is_passed_in_turn(j, ps[i - 1], ps[i], steps[i - 1]);
    }
}

/// The wire is used only for a request whose name the policy allows, none of
/// whose addresses it refuses, that the same-origin policy lets through, that
/// the page's allowance covers, and whose receipt was written first.
pub proof fn law_nothing_is_sent_unless_every_check_passed(
    j: Journey,
    ps: Seq<Passage>,
    steps: Seq<StepView>,
)
    requires
        is_run(j, ps, steps),
        steps.len() > 0,
        steps.last() == StepView::Go,
    ensures
        may_connect(j, ps[0]),
        may_ask(j, ps.last()),
        has_leave(j, ps.last()),
        j.claim is Ok,
        j.receipt is Ok,
{
    let n = steps.len() - 1;
    lemma_run_is_cleared(j, ps, steps, n);
    lemma_run_is_cleared(j, ps, steps, n + 1);
    assert(moves(j, ps[n], ps[n + 1], steps[n]));
    assert(ps[n + 1].stage == Stage::Open);
}

/// No receipt, no connection: the step that lets a request go is the one that
/// a written receipt leads to.
pub proof fn law_no_receipt_no_connection(j: Journey, pre: Passage, post: Passage, step: StepView)
    requires
        moves(j, pre, post, step),
    ensures
        step == StepView::Go <==> pre.stage == Stage::Recording && j.receipt is Ok,
        step == StepView::Go <==> post.stage == Stage::Open,
{
}

/// A request that is not made is on record as refused, with the reason, unless
/// it was the server that refused it or the record that could not be written.
pub proof fn law_a_refusal_is_on_record(j: Journey, pre: Passage, post: Passage, step: StepView)
    requires
        moves(j, pre, post, step),
        post.stage == Stage::Shut,
    ensures
        match step {
            StepView::Refused { record, .. } => !record.allowed && record.reason is Some
                && record.seq == pre.seq && record.url == pre.shown@ && record.method == pre.verb@,
            StepView::Turned(_) => pre.stage == Stage::Asking || pre.stage == Stage::Recording,
            _ => false,
        },
{
}

/// A page is told nothing about where a server redirected it when the policy
/// refuses the place: whatever the place, it hears the same words.
pub proof fn law_a_page_is_not_told_where_a_redirect_pointed(
    a: UrlView,
    b: UrlView,
    why_a: Seq<char>,
    why_b: Seq<char>,
)
    ensures
        told_of_name(Errand::Hop { first: false, page: true }, a, why_a) == told_of_name(
            Errand::Hop { first: false, page: true },
            b,
            why_b,
        ),
{
}

/// A name that answers with one address that may not be connected to is
/// refused, whatever else it answers with.
pub proof fn law_one_bad_address_refuses_the_name(
    p: PolicyView,
    url: UrlView,
    addrs: Seq<IpView>,
    i: int,
)
    requires
        0 <= i < addrs.len(),
        address_checked(p, url, addrs[i]) is Deny,
    ensures
        address_refusal(p, url, Ok::<Seq<IpView>, Seq<char>>(addrs)) is Some,
    decreases addrs.len(),
{
    if i > 0 && address_checked(p, url, addrs[0]) == VerdictView::Allow {
        assert(addrs.drop_first()[i - 1] == addrs[i]);
        law_one_bad_address_refuses_the_name(p, url, addrs.drop_first(), i - 1);
    }
}

/// A request whose name the policy does not allow goes no further: it is
/// refused under its own number with the policy's reason, and so is a raw one
/// behind a proxy to any host but this machine.
pub proof fn law_what_the_policy_refuses_stops_here(
    passage: &mut Passage,
    policy: &Policy,
    proxied: bool,
    document: Option<&Url>,
    context: Option<&CorsContext>,
    tainted: bool,
    r: Step,
)
    requires
        old(passage).stage is Naming,
        old(passage).plan is None,
        call_ensures(
            Passage::check_name,
            (passage, policy, proxied, document, context, tainted),
            r,
        ),
    ensures
        ({
            let p = *old(passage);
            let verdict = checked_from(policy@, p.url@, crate::url::url_ref(document));
            let here = p.url@.host is Some && crate::policy::is_loopback_host(
                p.url@.host->Some_0,
            );
            let dodges = p.errand is Raw && proxied && !here;
            let web = p.url@.scheme == "http"@ || p.url@.scheme == "https"@ || p.url@.scheme
                == "ws"@ || p.url@.scheme == "wss"@;
            &&& verdict is Deny ==> r@ is Refused && r@->record.reason == Some(verdict->Deny_0)
            &&& verdict is Allow && dodges ==> r@ is Refused && r@->record.reason == Some(
                "a raw request is a socket this session's egress proxy does not carry, so it is refused off loopback rather than sent around the allowlist the proxy enforces"@,
            )
            &&& verdict is Deny || dodges ==> final(passage).stage is Shut && !r@->record.allowed
                && r@->record.seq == p.seq && r@->record.phase is Request && r@->record.url
                == p.shown@ && r@->record.method == p.verb@
            &&& verdict is Allow && !dodges && !proxied && web && p.url@.host is Some ==> {
                let port = if p.url@.port is Some {
                    p.url@.port->Some_0
                } else if p.url@.scheme == "http"@ || p.url@.scheme == "ws"@ {
                    80u16
                } else {
                    443u16
                };
                r@ == (StepView::Resolve { host: unbracketed(p.url@.host->Some_0), port })
            }
            &&& r@ is Resolve ==> verdict is Allow && !dodges && !proxied && web
            &&& !(r@ is Go) && !(r@ is Record)
        }),
{
    reveal_strlit("http");
    reveal_strlit("https");
    reveal_strlit("ws");
    reveal_strlit("wss");
    assert("http"@.len() == 4 && "https"@.len() == 5 && "ws"@.len() == 2 && "wss"@.len() == 3);
}

/// A name is let through by its addresses exactly where it has some and the
/// policy allows each of them.
pub proof fn law_every_address_must_be_allowed(
    p: PolicyView,
    url: UrlView,
    found: Result<Seq<IpView>, Seq<char>>,
)
    ensures
        address_refusal(p, url, found) is None <==> found is Ok && found->Ok_0.len() > 0 && forall|
            i: int,
        |
            0 <= i < found->Ok_0.len() ==> address_checked(p, url, #[trigger] found->Ok_0[i])
                is Allow,
{
    if let Ok(addrs) = found {
        lemma_no_refusal(p, url, addrs);
    }
}

proof fn lemma_no_refusal(p: PolicyView, url: UrlView, addrs: Seq<IpView>)
    ensures
        first_refusal(p, url, addrs) is None <==> forall|i: int|
            0 <= i < addrs.len() ==> address_checked(p, url, #[trigger] addrs[i]) is Allow,
    decreases addrs.len(),
{
    if addrs.len() > 0 {
        let rest = addrs.drop_first();
        lemma_no_refusal(p, url, rest);
        if forall|i: int| 0 <= i < rest.len() ==> address_checked(p, url, #[trigger] rest[i])
            is Allow {
            assert forall|i: int| 1 <= i < addrs.len() implies address_checked(
                p,
                url,
                #[trigger] addrs[i],
            ) is Allow by {
                assert(rest[i - 1] == addrs[i]);
            }
        }
        assert forall|i: int| 0 <= i < rest.len() implies #[trigger] rest[i] == addrs[i + 1] by {}
        assert(addrs[0] == addrs[0]);
    }
}

/// An address that is not allowed stops the request under its own number; a
/// request that nobody plans for is then claimed, and a page's is claimed,
/// asked about first or refused, as its plan says. A page's plan is made for
/// its own origin, or for none once a redirect has crossed one.
pub proof fn law_what_comes_after_the_addresses(
    passage: &mut Passage,
    policy: &Policy,
    found: &Result<Vec<IpAddr>, String>,
    context: Option<&CorsContext>,
    tainted: bool,
    r: Step,
)
    requires
        old(passage).stage is Resolving,
        old(passage).plan is None,
        call_ensures(Passage::check_addresses, (passage, policy, found, context, tainted), r),
    ensures
        ({
            let p = *old(passage);
            let why = address_refusal(policy@, p.url@, lookup(*found));
            let plan = final(passage).plan;
            &&& why matches Some(w) ==> final(passage).stage is Shut && r@ is Refused
                && r@->record.reason == Some(w) && !r@->record.allowed && r@->record.seq == p.seq
            &&& why is None && context is None ==> r@ is Claim && final(passage).stage is Claiming
                && plan is None
            &&& why is None && context is Some ==> plan is Some && {
                let c = context->Some_0;
                &&& planned(
                    if tainted || c.document is None {
                        crate::cors::RequesterView::Opaque
                    } else {
                        crate::cors::RequesterView::Document(c.document->Some_0@)
                    },
                    p.url@,
                    p.method@,
                    pairs(c.headers@),
                    c.mode,
                    c.credentials,
                    if policy@.cross_site_credentials {
                        crate::cors::Stance::Browser
                    } else {
                        crate::cors::Stance::Contained
                    },
                    plan->Some_0,
                )
                &&& match plan->Some_0 {
                    Plan::Blocked(w) => final(passage).stage is Shut && r@ is Refused
                        && r@->record.reason == Some(w@) && r@->told
                        == "blocked by the same-origin policy: "@ + w@,
                    Plan::Send { preflight, .. } => (r@ is Ask <==> preflight is Some) && (r@
                        is Claim <==> preflight is None),
                }
            }
            &&& !(r@ is Go) && !(r@ is Record)
        }),
{
}

/// What is said of a refusal, by what was asked for.
pub proof fn law_how_a_refusal_is_told(errand: Errand, url: UrlView, why: Seq<char>)
    ensures
        errand is Preflight ==> told_of_name(errand, url, why) == "the preflight was denied by policy: "@
            + why && told_of_address(errand, why) == "the preflight was denied by policy: "@ + why,
        errand is Raw ==> told_of_name(errand, url, why) == why && told_of_address(errand, why)
            == why,
        errand is Socket || errand is Stream ==> told_of_name(errand, url, why)
            == "denied by policy: "@ + why && told_of_address(errand, why) == "denied by policy: "@
            + why,
        errand is Hop ==> told_of_address(errand, why) == "denied by policy: "@ + why,
        errand is Hop && errand->first ==> told_of_name(errand, url, why) == "denied by policy: "@
            + why,
        errand is Hop && !errand->first && errand->page ==> told_of_name(errand, url, why)
            == "the request was redirected somewhere this engine is not allowed to follow, so it was not followed"@,
        errand is Hop && !errand->first && !errand->page ==> told_of_name(errand, url, why)
            == "the site redirected to "@ + url.href + ", which is not allowed: "@ + why
            + ". This engine will not follow a redirect out of the allowlist, because a server could then choose where we go; allow that host if you meant to follow it."@,
{
}

/// The last three steps: a preflight that is refused stops the request, and so
/// do a claim and a receipt that fail; only a written receipt lets it go. The
/// receipt is of the request itself, and says what the client overrode.
pub proof fn law_the_last_three_steps(
    asking: &mut Passage,
    claiming: &mut Passage,
    recording: &mut Passage,
    answer: Result<(), String>,
    a: Step,
    b: Step,
    c: Step,
)
    requires
        old(asking).stage is Asking,
        old(claiming).stage is Claiming,
        old(recording).stage is Recording,
        call_ensures(Passage::preflighted, (asking, answer), a),
        call_ensures(Passage::claimed, (claiming, answer), b),
        call_ensures(Passage::recorded, (recording, answer), c),
    ensures
        a@ is Claim <==> answer is Ok,
        answer matches Err(e) ==> a@ == StepView::Turned(
            "blocked by the same-origin policy: "@ + e@,
        ),
        b@ is Record <==> answer is Ok,
        answer matches Err(e) ==> b@ is Refused && b@->record.reason == Some(e@) && b@->told == e@
            && !b@->record.allowed && b@->record.seq == old(claiming).seq,
        b@ matches StepView::Record(record) ==> record.seq == old(claiming).seq && record.allowed
            && record.phase is Request && record.url == old(claiming).shown@ && record.method
            == old(claiming).verb@ && record.initiator == old(claiming).initiator
            && record.headers_overridden == texts(old(claiming).overridden@) && record.reason
            is None,
        c@ is Go <==> answer is Ok,
        answer matches Err(e) ==> c@ == StepView::Turned(
            (match old(recording).errand {
                Errand::Preflight => "refusing to preflight"@,
                Errand::Socket | Errand::Stream => "refusing to connect"@,
                Errand::Raw | Errand::Hop { .. } => "refusing to fetch"@,
            }) + ": the receipt could not be written: "@ + e@,
        ),
{
}

} // verus!
