//! The broker's own state: the numbers it gives out, the log it keeps, and the
//! addresses it approved.
use vstd::prelude::*;

use crate::address::{IpAddr, IpView};
use crate::channel::{crosses, leads, way, Cause, Crossing, Deed, Wait, Word};
use crate::drive::{
    is_dialogue, journey, lemma_a_request_is_of_its_hop, led_to, looks_up, set_out, stands_in, turns, Action, At,
    Event, Sending,
};
use crate::passage::{
    address_refusal, approve_addresses, ips, law_one_bad_address_refuses_the_name, lookup,
    lookup_target, moves, same_journey, to_resolve, Passage, Stage, StepView,
};
use crate::policy::{address_checked, Policy, PolicyView, VerdictView};
use crate::receipt::{request_record, response_record, Initiator, RecordView, RequestRecord};
use crate::text::{lower, lowered, same, string_view, trim, trimmed, view_of};
use crate::url::{url_option, url_ref, Url, UrlView};
use crate::wire::{frame_records, Presented, NATIVE_ACCEPT_LANGUAGE, USER_AGENT};

verus! {

/// Whether requests go through an egress proxy: one is named, and not blank.
pub open spec fn is_proxied(proxy: Option<Seq<char>>) -> bool {
    proxy matches Some(p) && trimmed(p).len() > 0
}

/// What `reqwest::Proxy::all` complains of in an address, where it does.
pub uninterp spec fn proxy_complaint(address: Seq<char>) -> Option<Seq<char>>;

/// Asks `reqwest::Proxy::all` whether an address can be that of a proxy. Its
/// error as text, where there is one, is what [`proxy_complaint`] names.
#[verifier::external_body]
fn proxy_error(address: &str) -> (r: Option<String>)
    ensures
        string_view(r) == proxy_complaint(address@),
{
    reqwest::Proxy::all(address).err().map(|e| e.to_string())
}

pub open spec fn unusable_proxy(address: Seq<char>, complaint: Seq<char>) -> Seq<char> {
    "egress proxy `"@ + address + "` is not usable: "@ + complaint
}

/// Why a proxy is not accepted, where it is not.
pub open spec fn proxy_refusal(proxy: Option<Seq<char>>) -> Option<Seq<char>> {
    if is_proxied(proxy) {
        match proxy_complaint(proxy->Some_0) {
            Some(c) => Some(unusable_proxy(proxy->Some_0, c)),
            None => None,
        }
    } else {
        None
    }
}

/// Whether a proxy is accepted, `complaint` being what stands against it.
pub fn accept_proxy(address: &str, complaint: Option<String>) -> (r: Result<(), String>)
    ensures
        match complaint {
            Some(c) => r matches Err(e) && e@ == unusable_proxy(address@, c@),
            None => r is Ok,
        },
{
    match complaint {
        None => Ok(()),
        Some(c) => {
            let mut why = "egress proxy `".to_owned();
            why.append(address);
            why.append("` is not usable: ");
            why.append(&c);
            Err(why)
        },
    }
}

/// Addresses already approved, by host in small letters.
pub open spec fn pins(entries: Seq<(String, Vec<IpAddr>)>) -> Map<Seq<char>, Seq<IpView>>
    decreases entries.len(),
{
    if entries.len() == 0 {
        Map::empty()
    } else {
        pins(entries.drop_last()).insert(entries.last().0@, ips(entries.last().1@))
    }
}

/// Every one of the addresses may be connected to for a URL of the host.
pub open spec fn approved_for(p: PolicyView, host: Seq<char>, addrs: Seq<IpView>) -> bool {
    exists|url: UrlView|
        url.host is Some && lowered(url.host->Some_0) == host && #[trigger] all_allowed(
            p,
            url,
            addrs,
        )
}

/// Every one of the addresses may be connected to for the URL.
pub open spec fn all_allowed(p: PolicyView, url: UrlView, addrs: Seq<IpView>) -> bool {
    forall|k: int|
        0 <= k < addrs.len() ==> address_checked(p, url, #[trigger] addrs[k]) == VerdictView::Allow
}

pub open spec fn records(v: Seq<RequestRecord>) -> Seq<RecordView> {
    v.map_values(|r: RequestRecord| r@)
}

/// Policy plus receipts plus what was approved, in that order of importance.
#[derive(Debug)]
pub struct LocalBroker {
    policy: Policy,
    presented: Presented,
    proxied: bool,
    next_seq: u64,
    log: Vec<RequestRecord>,
    pinned: Vec<(String, Vec<IpAddr>)>,
}

/// What a [`LocalBroker`] holds.
#[verifier::ext_equal]
pub struct BrokerView {
    pub policy: PolicyView,
    pub user_agent: Seq<char>,
    pub accept_language: Seq<char>,
    /// A proxy resolves names at the far end, so nothing is pinned here.
    pub proxied: bool,
    pub next_seq: u64,
    pub log: Seq<RecordView>,
    pub pinned: Map<Seq<char>, Seq<IpView>>,
}

impl View for LocalBroker {
    type V = BrokerView;

    closed spec fn view(&self) -> BrokerView {
        BrokerView {
            policy: self.policy@,
            user_agent: self.presented.user_agent@,
            accept_language: self.presented.accept_language@,
            proxied: self.proxied,
            next_seq: self.next_seq,
            log: records(self.log@),
            pinned: pins(self.pinned@),
        }
    }
}

/// Why the addresses behind a URL are refused, where they are. There is nothing
/// to refuse behind a proxy, or where there is no host.
pub open spec fn pin_refusal(
    b: BrokerView,
    url: UrlView,
    found: Result<Seq<IpView>, Seq<char>>,
) -> Option<Seq<char>> {
    if to_resolve(url, b.proxied) is Some {
        address_refusal(b.policy, url, found)
    } else {
        None
    }
}

/// The broker once it was told what a host answered with: where every address
/// passes, the host is pinned to exactly those, and otherwise nothing changes.
pub open spec fn pinning(
    b: BrokerView,
    url: UrlView,
    found: Result<Seq<IpView>, Seq<char>>,
) -> BrokerView {
    if to_resolve(url, b.proxied) is Some && address_refusal(b.policy, url, found) is None {
        BrokerView { pinned: b.pinned.insert(lowered(url.host->Some_0), found->Ok_0), ..b }
    } else {
        b
    }
}

/// The broker after an event of a fetch.
pub open spec fn after_event(b: BrokerView, s: Sending, event: Event) -> BrokerView {
    match (looks_up(s), event) {
        (Some(url), Event::Resolved(found)) => pinning(b, url, lookup(found)),
        _ => b,
    }
}

/// The URL whose addresses a crossing waits for.
pub open spec fn seeks(c: Crossing) -> Option<UrlView> {
    match c.at {
        Wait::Passing(p) => if p.stage == Stage::Resolving {
            Some(p.url@)
        } else {
            None
        },
        _ => None,
    }
}

/// The broker after a word to a crossing.
pub open spec fn after_word(b: BrokerView, c: Crossing, word: Word) -> BrokerView {
    match (seeks(c), word) {
        (Some(url), Word::Resolved(found)) => pinning(b, url, lookup(found)),
        _ => b,
    }
}

/// What passes the check holds no address that may not be connected to.
proof fn lemma_all_allowed(p: PolicyView, url: UrlView, addrs: Seq<IpView>)
    requires
        address_refusal(p, url, Ok::<Seq<IpView>, Seq<char>>(addrs)) is None,
    ensures
        all_allowed(p, url, addrs),
{
    assert forall|k: int| 0 <= k < addrs.len() implies address_checked(p, url, #[trigger] addrs[k])
        == VerdictView::Allow by {
        if address_checked(p, url, addrs[k]) is Deny {
            law_one_bad_address_refuses_the_name(p, url, addrs, k);
        }
    }
}

fn copy_addresses(v: &Vec<IpAddr>) -> (r: Vec<IpAddr>)
    ensures
        ips(r@) == ips(v@),
{
    let mut out: Vec<IpAddr> = Vec::new();
    let ghost all = ips(v@);
    let mut i: usize = 0;
    while i < v.len()
        invariant
            i <= v.len(),
            all == ips(v@),
            ips(out@) == all.take(i as int),
        decreases v.len() - i,
    {
        let ghost before = out@;
        out.push(v[i]);
        assert(ips(out@) =~= ips(before).push(all[i as int]));
        i += 1;
        assert(all.take(i as int) =~= all.take(i - 1).push(all[i - 1]));
    }
    assert(all.take(i as int) =~= all);
    out
}

impl LocalBroker {
    /// Only addresses that passed the check are pinned.
    #[verifier::type_invariant]
    spec fn inv(self) -> bool {
        forall|i: int|
            0 <= i < self.pinned@.len() ==> approved_for(
                self.policy@,
                (#[trigger] self.pinned@[i]).0@,
                ips(self.pinned@[i].1@),
            )
    }

    /// A broker that has sent nothing, under this engine's own name. `proxy` is
    /// the egress proxy, which is not required; one that is no proxy is refused
    /// here rather than at the first fetch.
    pub fn new(policy: Policy, proxy: Option<&str>) -> (r: Result<LocalBroker, String>)
        ensures
            match proxy_refusal(view_of(proxy)) {
                Some(why) => r matches Err(e) && e@ == why,
                None => r matches Ok(b) && b@ == (BrokerView {
                    policy: policy@,
                    user_agent: USER_AGENT@,
                    accept_language: NATIVE_ACCEPT_LANGUAGE@,
                    proxied: is_proxied(view_of(proxy)),
                    next_seq: 0,
                    log: Seq::empty(),
                    pinned: Map::empty(),
                }),
            },
    {
        match Presented::native() {
            Ok(presented) => LocalBroker::with_identity(policy, proxy, presented),
            Err(e) => Err(e),
        }
    }

    /// The same, presenting the identity the session was opened with. There is
    /// no changing it afterwards.
    pub fn with_identity(policy: Policy, proxy: Option<&str>, presented: Presented) -> (r: Result<
        LocalBroker,
        String,
    >)
        ensures
            match proxy_refusal(view_of(proxy)) {
                Some(why) => r matches Err(e) && e@ == why,
                None => r matches Ok(b) && b@ == (BrokerView {
                    policy: policy@,
                    user_agent: presented.user_agent@,
                    accept_language: presented.accept_language@,
                    proxied: is_proxied(view_of(proxy)),
                    next_seq: 0,
                    log: Seq::empty(),
                    pinned: Map::empty(),
                }),
            },
    {
        let mut proxied = false;
        if let Some(address) = proxy {
            if !trim(address).as_str().is_empty() {
                proxied = true;
                if let Err(e) = accept_proxy(address, proxy_error(address)) {
                    return Err(e);
                }
            }
        }
        let r = LocalBroker {
            policy,
            presented,
            proxied,
            next_seq: 0,
            log: Vec::new(),
            pinned: Vec::new(),
        };
        assert(records(r.log@) =~= Seq::empty());
        Ok(r)
    }

    pub fn policy(&self) -> (r: &Policy)
        ensures
            r@ == self@.policy,
    {
        &self.policy
    }

    /// Who this session says it is.
    pub fn identity(&self) -> (r: &Presented)
        ensures
            r.user_agent@ == self@.user_agent,
            r.accept_language@ == self@.accept_language,
    {
        &self.presented
    }

    /// Whether an egress proxy is in the path. A raw socket cannot go through
    /// one.
    pub fn has_proxy(&self) -> (r: bool)
        ensures
            r == self@.proxied,
    {
        self.proxied
    }

    /// Whether there is a number left for another receipt.
    pub fn has_number(&self) -> (r: bool)
        ensures
            r == (self@.next_seq < u64::MAX),
    {
        self.next_seq < u64::MAX
    }

    /// The number of the next receipt. There are as many as a count can hold.
    pub fn number(&mut self) -> (r: u64)
        requires
            old(self)@.next_seq < u64::MAX,
        ensures
            r == old(self)@.next_seq,
            final(self)@ == (BrokerView { next_seq: (r + 1) as u64, ..old(self)@ }),
    {
        proof {
            use_type_invariant(&*self);
        }
        let r = self.next_seq;
        self.next_seq = r + 1;
        r
    }

    /// Keeps a record. This copy never fails to be written, so keeping it
    /// before the session's own log cannot change whether a fetch happens.
    pub fn append(&mut self, record: RequestRecord)
        ensures
            final(self)@ == (BrokerView { log: old(self)@.log.push(record@), ..old(self)@ }),
    {
        proof {
            use_type_invariant(&*self);
        }
        let ghost before = self.log@;
        let mut log: Vec<RequestRecord> = Vec::new();
        std::mem::swap(&mut log, &mut self.log);
        log.push(record);
        self.log = log;
        assert(records(self.log@) =~= records(before).push(record@));
    }

    /// Everything that was recorded, in order.
    pub fn log(&self) -> (r: &Vec<RequestRecord>)
        ensures
            records(r@) == self@.log,
    {
        &self.log
    }

    /// Checks every address that a URL's host answered with, and pins the host
    /// to them for the connection that follows. One that may not be connected
    /// to refuses them all. There is nothing to do where a proxy resolves the
    /// name at the far end, or where there is no host.
    pub fn pin_addresses(&mut self, url: &Url, found: &Result<Vec<IpAddr>, String>) -> (r: Result<
        (),
        String,
    >)
        ensures
            match pin_refusal(old(self)@, url@, lookup(*found)) {
                Some(why) => r matches Err(e) && e@ == why,
                None => r is Ok,
            },
            final(self)@ == pinning(old(self)@, url@, lookup(*found)),
    {
        proof {
            use_type_invariant(&*self);
        }
        if lookup_target(url, self.proxied).is_none() {
            return Ok(());
        }
        match approve_addresses(&self.policy, url, found) {
            Err(why) => {
                return Err(why);
            },
            Ok(()) => {},
        }
        if let (Some(host), Ok(addrs)) = (&url.host, found) {
            let ghost before = self.pinned@;
            let ghost policy = self.policy@;
            let entry = (lower(host), copy_addresses(addrs));
            proof {
                lemma_all_allowed(policy, url@, ips(addrs@));
                assert(url@.host == Some(host@));
                assert(approved_for(policy, entry.0@, ips(entry.1@)));
            }
            let mut pinned: Vec<(String, Vec<IpAddr>)> = Vec::new();
            std::mem::swap(&mut pinned, &mut self.pinned);
            pinned.push(entry);
            assert(pinned@.drop_last() =~= before);
            self.pinned = pinned;
        }
        Ok(())
    }

    /// Tells a fetch under way what came of its last action. What a host
    /// answered with is checked and pinned on the way, so that the request goes
    /// to the addresses that were decided about.
    pub fn advance(&mut self, sending: Sending, event: Event) -> (r: (Sending, Action))
        requires
            sending.wf(),
            sending.awaits(event),
            old(self)@.policy.max_response_bytes < u64::MAX,
        ensures
            r.0.wf(),
            turns(
                sending,
                old(self)@.policy,
                old(self)@.proxied,
                old(self)@.accept_language,
                event,
                r.0,
                r.1,
            ),
            final(self)@ == after_event(old(self)@, sending, event),
    {
        if let At::Passing(p) = &sending.at {
            if p.stage == Stage::Resolving {
                if let Event::Resolved(found) = &event {
                    let _ = self.pin_addresses(&p.url, found);
                }
            }
        }
        sending.next(&self.policy, self.proxied, &self.presented.accept_language, event)
    }

    /// Tells a crossing under way what came of its last deed, as
    /// [`LocalBroker::advance`] does of a fetch.
    pub fn cross(&mut self, crossing: Crossing, word: Word) -> (r: (Crossing, Deed))
        requires
            crossing.wf(),
            crossing.awaits(word),
        ensures
            r.0.wf(),
            crosses(
                crossing,
                old(self)@.policy,
                old(self)@.proxied,
                old(self)@.accept_language,
                word,
                r.0,
                r.1,
            ),
            final(self)@ == after_word(old(self)@, crossing, word),
    {
        if let Wait::Passing(p) = &crossing.at {
            if p.stage == Stage::Resolving {
                if let Word::Resolved(found) = &word {
                    let _ = self.pin_addresses(&p.url, found);
                }
            }
        }
        crossing.next(&self.policy, self.proxied, &self.presented.accept_language, word)
    }

    /// The addresses a host was approved for, for a caller that does its own
    /// connecting.
    pub fn approved_addresses(&self, host: &str) -> (r: Option<Vec<IpAddr>>)
        ensures
            match r {
                Some(addrs) => self@.pinned.dom().contains(lowered(host@))
                    && self@.pinned[lowered(host@)] == ips(addrs@) && approved_for(
                    self@.policy,
                    lowered(host@),
                    ips(addrs@),
                ),
                None => !self@.pinned.dom().contains(lowered(host@)),
            },
    {
        proof {
            use_type_invariant(self);
        }
        let name = lower(host);
        let mut i: usize = self.pinned.len();
        assert(self.pinned@.take(i as int) =~= self.pinned@);
        while i > 0
            invariant
                i <= self.pinned.len(),
                self.inv(),
                name@ == lowered(host@),
                self@.pinned.dom().contains(name@) == pins(
                    self.pinned@.take(i as int),
                ).dom().contains(name@),
                self@.pinned.dom().contains(name@) ==> self@.pinned[name@] == pins(
                    self.pinned@.take(i as int),
                )[name@],
            decreases i,
        {
            let ghost now = self.pinned@.take(i as int);
            i -= 1;
            assert(now.drop_last() =~= self.pinned@.take(i as int));
            assert(now.last() == self.pinned@[i as int]);
            if same(&self.pinned[i].0, &name) {
                return Some(copy_addresses(&self.pinned[i].1));
            }
        }
        None
    }

    /// Sets out to open a socket for a document: it may be opened where the
    /// crossing ends with a number.
    pub fn authorise_socket(&self, url: &Url, document: Option<&Url>) -> (r: (Crossing, Deed))
        ensures
            r.0.wf(),
            r.0.at is Number,
            r.0.cause matches Cause::Socket { url: to, document: from } && to@ == url@
                && url_option(from) == url_ref(document),
            r.1 is Number,
    {
        Crossing::begin(Cause::Socket { url: url.copy(), document: copy_document(document) })
    }

    /// Sets out to open an event stream. `None` is the agent naming a URL.
    pub fn begin_event_stream(&self, url: &Url, document: Option<&Url>) -> (r: (Crossing, Deed))
        ensures
            r.0.wf(),
            r.0.at is Number,
            r.0.cause matches Cause::Stream { url: to, document: from } && to@ == url@
                && url_option(from) == url_ref(document),
            r.1 is Number,
    {
        Crossing::begin(Cause::Stream { url: url.copy(), document: copy_document(document) })
    }

    /// Numbers one frame on an open connection, and gives both halves of its
    /// record. `verb` says which way it went.
    pub fn record_socket_frame(&mut self, url: &Url, verb: &str, bytes: u64) -> (r: (
        RequestRecord,
        RequestRecord,
    ))
        requires
            old(self)@.next_seq < u64::MAX,
        ensures
            r.0@ == request_record(
                old(self)@.next_seq,
                Initiator::Subresource,
                verb@,
                url@.href,
            ),
            r.1@ == (RecordView { bytes: Some(bytes), ..response_record(r.0@) }),
            final(self)@ == (BrokerView {
                next_seq: (old(self)@.next_seq + 1) as u64,
                ..old(self)@
            }),
    {
        let seq = self.number();
        frame_records(seq, url, verb, bytes)
    }
}

fn copy_document(document: Option<&Url>) -> (r: Option<Url>)
    ensures
        url_option(r) == url_ref(document),
{
    match document {
        Some(d) => Some(d.copy()),
        None => None,
    }
}

/// What a resolver is told of a host that was not approved.
pub fn unpinned(host: &str) -> (r: String)
    ensures
        r@ == "`"@ + host@
            + "` was not resolved through the policy, so this engine will not connect to it"@,
{
    let mut why = "`".to_owned();
    why.append(host);
    why.append("` was not resolved through the policy, so this engine will not connect to it");
    why
}

/// A host is connected to at the addresses it was approved for last, however
/// its name is capitalised, and no other host's approval changes.
pub proof fn law_a_pin_is_read_back(
    b: BrokerView,
    url: UrlView,
    addrs: Seq<IpView>,
    asked: Seq<char>,
    other: Seq<char>,
)
    requires
        to_resolve(url, b.proxied) is Some,
        address_refusal(b.policy, url, Ok::<Seq<IpView>, Seq<char>>(addrs)) is None,
        lowered(asked) == lowered(url.host->Some_0),
        lowered(other) != lowered(url.host->Some_0),
    ensures
        ({
            let after = pinning(b, url, Ok::<Seq<IpView>, Seq<char>>(addrs)).pinned;
            &&& after.dom().contains(lowered(asked)) && after[lowered(asked)] == addrs
            &&& after.dom().contains(lowered(other)) == b.pinned.dom().contains(lowered(other))
            &&& b.pinned.dom().contains(lowered(other)) ==> after[lowered(other)]
                == b.pinned[lowered(other)]
        }),
{
}

/// Only what passed the check is pinned.
pub open spec fn pins_are_approved(b: BrokerView) -> bool {
    forall|host: Seq<char>| #[trigger]
        b.pinned.dom().contains(host) ==> approved_for(b.policy, host, b.pinned[host])
}

/// Every pinned address may be connected to: no lookup, whatever it brings,
/// pins one that may not. A lookup with a single one that may not pins nothing.
pub proof fn law_every_pinned_address_is_allowed(
    b: BrokerView,
    url: UrlView,
    found: Result<Seq<IpView>, Seq<char>>,
)
    requires
        pins_are_approved(b),
    ensures
        pins_are_approved(pinning(b, url, found)),
        pin_refusal(b, url, found) is Some ==> pinning(b, url, found) == b,
{
    if to_resolve(url, b.proxied) is Some && address_refusal(b.policy, url, found) is None {
        lemma_all_allowed(b.policy, url, found->Ok_0);
        assert(approved_for(b.policy, lowered(url.host->Some_0), found->Ok_0));
    }
}

/// The host of a URL is pinned, and to addresses that may all be connected to
/// for that URL.
pub open spec fn pinned_for(b: BrokerView, url: UrlView) -> bool {
    &&& url.host is Some
    &&& b.pinned.dom().contains(lowered(url.host->Some_0))
    &&& all_allowed(b.policy, url, b.pinned[lowered(url.host->Some_0)])
}

/// The broker beside a fetch: each event is told through it, and in between the
/// same address may be looked up once more, as a preflight of the hop does.
pub open spec fn stands_by(b: BrokerView, s: Sending, event: Event, c: BrokerView) -> bool {
    c == after_event(b, s, event) || exists|found: Result<Seq<IpView>, Seq<char>>|
        c == #[trigger] pinning(after_event(b, s, event), s.exchange.current@, found)
}

proof fn lemma_a_lookup_keeps_a_pin(
    b: BrokerView,
    url: UrlView,
    found: Result<Seq<IpView>, Seq<char>>,
)
    requires
        pinned_for(b, url),
    ensures
        pinned_for(pinning(b, url, found), url),
{
    if to_resolve(url, b.proxied) is Some && address_refusal(b.policy, url, found) is None {
        lemma_all_allowed(b.policy, url, found->Ok_0);
    }
}

proof fn lemma_pinned_throughout(
    language: Seq<char>,
    states: Seq<Sending>,
    actions: Seq<Action>,
    events: Seq<Event>,
    brokers: Seq<BrokerView>,
    i: int,
)
    requires
        brokers.len() == states.len(),
        is_dialogue(brokers[0].policy, brokers[0].proxied, language, states, actions, events),
        forall|k: int|
            0 <= k < events.len() ==> stands_by(
                brokers[k],
                states[k],
                #[trigger] events[k],
                brokers[k + 1],
            ),
        0 <= i < states.len(),
    ensures
        brokers[i].policy == brokers[0].policy,
        brokers[i].proxied == brokers[0].proxied,
        stands_in(states[i]) matches Some(p) ==> p.stage == Stage::Resolving || to_resolve(
            p.url@,
            brokers[0].proxied,
        ) is None || pinned_for(brokers[i], p.url@),
    decreases i,
{
    if i > 0 {
        lemma_pinned_throughout(language, states, actions, events, brokers, i - 1);
        let policy = brokers[0].policy;
        let proxied = brokers[0].proxied;
        let pre = states[i - 1];
        let post = states[i];
        let event = events[i - 1];
        let b = brokers[i - 1];
        let middle = after_event(b, pre, event);
        assert(pre.wf());
        assert(post.wf());
        assert(turns(pre, policy, proxied, language, events[i - 1], states[i - 1 + 1], actions[i - 1
            + 1]));
        assert(stands_by(b, pre, events[i - 1], brokers[i - 1 + 1]));
        let x = pre.exchange;
        let j = journey(x, policy, proxied, event);
        match (pre.at, event) {
            (At::Number, Event::Numbered(seq)) => {
                let (p, q, step) = choose|p: Passage, q: Passage, step: StepView|
                    set_out(x, seq, p) && #[trigger] moves(j, p, q, step) && led_to(
                        x,
                        q,
                        step,
                        language,
                        post.at,
                        actions[i],
                    );
                assert(same_journey(p, q));
            },
            (At::Passing(p), _) => {
                let (q, step) = choose|q: Passage, step: StepView|
                    #[trigger] moves(j, p, q, step) && led_to(
                        x,
                        q,
                        step,
                        language,
                        post.at,
                        actions[i],
                    );
                assert(same_journey(p, q));
                if p.stage == Stage::Resolving && stands_in(post) is Some && to_resolve(
                    p.url@,
                    proxied,
                ) is Some {
                    lemma_all_allowed(policy, p.url@, j.found->Ok_0);
                    assert(pinned_for(middle, p.url@));
                }
            },
            _ => {},
        }
        if let Some(p) = stands_in(post) {
            if p.stage != Stage::Resolving && to_resolve(p.url@, proxied) is Some {
                assert(pinned_for(middle, p.url@));
                if brokers[i] != middle {
                    let found = choose|found: Result<Seq<IpView>, Seq<char>>|
                        brokers[i] == #[trigger] pinning(middle, x.current@, found);
                    assert(p.url@ == x.current@);
                    lemma_a_lookup_keeps_a_pin(middle, x.current@, found);
                }
            }
        }
    }
}

/// A request goes to approved addresses alone: when it goes out, its host is
/// pinned, and to addresses every one of which may be connected to for its URL.
/// A client that connects to what [`LocalBroker::approved_addresses`] hands out
/// connects nowhere else.
pub proof fn law_a_request_goes_to_approved_addresses(
    language: Seq<char>,
    states: Seq<Sending>,
    actions: Seq<Action>,
    events: Seq<Event>,
    brokers: Seq<BrokerView>,
    i: int,
)
    requires
        brokers.len() == states.len(),
        is_dialogue(brokers[0].policy, brokers[0].proxied, language, states, actions, events),
        forall|k: int|
            0 <= k < events.len() ==> stands_by(
                brokers[k],
                states[k],
                #[trigger] events[k],
                brokers[k + 1],
            ),
        0 <= i < actions.len(),
        actions[i] is Send,
        to_resolve(actions[i]->Send_0.url@, brokers[0].proxied) is Some,
    ensures
        pinned_for(brokers[i], actions[i]->Send_0.url@),
{
    let policy = brokers[0].policy;
    let proxied = brokers[0].proxied;
    lemma_pinned_throughout(language, states, actions, events, brokers, i);
    lemma_a_request_is_of_its_hop(policy, proxied, language, states, actions, events, i);
}

/// A crossing that goes on from the lookup of its host leaves that host pinned
/// to exactly the addresses it was told, every one of which may be connected to.
pub proof fn law_a_crossing_goes_to_approved_addresses(
    b: BrokerView,
    language: Seq<char>,
    pre: Crossing,
    found: Result<Vec<IpAddr>, String>,
    post: Crossing,
    deed: Deed,
)
    requires
        seeks(pre) is Some,
        to_resolve(seeks(pre)->Some_0, b.proxied) is Some,
        crosses(pre, b.policy, b.proxied, language, Word::Resolved(found), post, deed),
        !(post.at is Refusing),
    ensures
        ({
            let url = seeks(pre)->Some_0;
            let after = after_word(b, pre, Word::Resolved(found));
            &&& pinned_for(after, url)
            &&& after.pinned[lowered(url.host->Some_0)] == lookup(found)->Ok_0
        }),
{
    let p = pre.at->Passing_0;
    let j = way(pre.cause, b.policy, b.proxied, Word::Resolved(found));
    let (q, step) = choose|q: Passage, step: StepView|
        #[trigger] moves(j, p, q, step) && leads(pre.cause, q, step, language, post.at, deed);
    assert(address_refusal(b.policy, p.url@, lookup(found)) is None);
    lemma_all_allowed(b.policy, p.url@, lookup(found)->Ok_0);
}

/// A session runs behind a proxy exactly where one is named that is not blank.
/// One that cannot be used is refused, by name; a blank one is none.
pub proof fn law_when_a_session_is_behind_a_proxy(
    policy: Policy,
    proxy: Option<&str>,
    presented: Presented,
    r: Result<LocalBroker, String>,
)
    requires
        call_ensures(LocalBroker::with_identity, (policy, proxy, presented), r),
    ensures
        ({
            let named = proxy is Some && trimmed(proxy->Some_0@).len() > 0;
            &&& r is Err <==> named && proxy_complaint(proxy->Some_0@) is Some
            &&& r matches Err(e) ==> e@ == "egress proxy `"@ + proxy->Some_0@
                + "` is not usable: "@ + proxy_complaint(proxy->Some_0@)->Some_0
            &&& r matches Ok(b) ==> b@.proxied == named && b@.policy == policy@ && b@.next_seq == 0
                && b@.log.len() == 0 && b@.user_agent == presented.user_agent@
                && b@.accept_language == presented.accept_language@ && forall|host: Seq<char>|
                !(#[trigger] b@.pinned.dom().contains(host))
        }),
{
}

/// A host's addresses are kept exactly where it is looked up at all, which is
/// for the web and not behind a proxy, and where it has some and each of them is
/// allowed. They are kept under its name in lower case, and nothing else
/// changes.
pub proof fn law_which_addresses_are_kept(
    broker: &mut LocalBroker,
    url: &Url,
    found: &Result<Vec<IpAddr>, String>,
    r: Result<(), String>,
    host: Seq<char>,
)
    requires
        call_ensures(LocalBroker::pin_addresses, (broker, url, found), r),
        url@.host is Some,
    ensures
        ({
            let b = old(broker)@;
            let web = url@.scheme == "http"@ || url@.scheme == "https"@ || url@.scheme == "ws"@
                || url@.scheme == "wss"@;
            let good = *found is Ok && found->Ok_0@.len() > 0 && forall|i: int|
                0 <= i < found->Ok_0@.len() ==> address_checked(
                    b.policy,
                    url@,
                    (#[trigger] found->Ok_0@[i])@,
                ) is Allow;
            let after = final(broker)@;
            &&& r is Err <==> web && !b.proxied && !good
            &&& web && !b.proxied && good ==> after.pinned.dom().contains(
                lowered(url@.host->Some_0),
            ) && after.pinned[lowered(url@.host->Some_0)] == ips(found->Ok_0@)
            &&& !(web && !b.proxied && good) || host != lowered(url@.host->Some_0)
                ==> after.pinned.dom().contains(host) == b.pinned.dom().contains(host) && (
            after.pinned.dom().contains(host) ==> after.pinned[host] == b.pinned[host])
            &&& after.policy == b.policy && after.log == b.log && after.next_seq == b.next_seq
                && after.proxied == b.proxied
        }),
{
    let b = old(broker)@;
    let got = lookup(*found);
    crate::url::law_which_schemes_are_twins(url@.scheme);
    crate::url::law_which_port_is_in_force(url@);
    crate::passage::law_every_address_must_be_allowed(b.policy, url@, got);
    if let Ok(v) = *found {
        assert(got->Ok_0 == ips(v@));
        assert forall|i: int| 0 <= i < v@.len() implies #[trigger] ips(v@)[i] == v@[i]@ by {}
        if forall|i: int|
            0 <= i < v@.len() ==> address_checked(b.policy, url@, (#[trigger] v@[i])@) is Allow {
            assert forall|i: int| 0 <= i < got->Ok_0.len() implies address_checked(
                b.policy,
                url@,
                #[trigger] got->Ok_0[i],
            ) is Allow by {
                assert(address_checked(b.policy, url@, v@[i]@) is Allow);
            }
        }
        if forall|i: int|
            0 <= i < got->Ok_0.len() ==> address_checked(b.policy, url@, #[trigger] got->Ok_0[i])
                is Allow {
            assert forall|i: int| 0 <= i < v@.len() implies address_checked(
                b.policy,
                url@,
                (#[trigger] v@[i])@,
            ) is Allow by {
                assert(got->Ok_0[i] == v@[i]@);
            }
        }
    }
}

/// Numbers are given out in turn, each once, and a record is kept behind those
/// before it.
pub proof fn law_numbers_and_records_come_in_turn(
    a: &mut LocalBroker,
    b: &mut LocalBroker,
    record: RequestRecord,
    n: u64,
)
    requires
        old(a)@.next_seq < u64::MAX,
        call_ensures(LocalBroker::number, (a,), n),
        call_ensures(LocalBroker::append, (b, record), ()),
    ensures
        n == old(a)@.next_seq,
        final(a)@.next_seq == n + 1,
        final(a)@.log == old(a)@.log && final(a)@.pinned == old(a)@.pinned && final(a)@.policy
            == old(a)@.policy,
        final(b)@.log == old(b)@.log.push(record@),
        final(b)@.next_seq == old(b)@.next_seq && final(b)@.pinned == old(b)@.pinned,
{
}

} // verus!
