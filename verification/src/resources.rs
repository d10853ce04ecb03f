//! How every subresource turned out, for the page's `load` and `error` events.
use vstd::prelude::*;

use crate::fetch::{copy_bytes, Fetch, FetchOutcome, OutcomeView};
use crate::receipt::Initiator;
use crate::text::same;
use crate::url::{url_option, Url};

verus! {

/// The statuses that subresources came back with, by URL. A URL is all that
/// the engine and the page share: a request does not say which element asked.
#[derive(Debug, Clone, PartialEq, Eq)]
pub struct ResourceOutcomes {
    by_url: Vec<(String, u16)>,
}

/// The table that a list of entries makes, the later ones over the earlier.
pub open spec fn table(entries: Seq<(String, u16)>) -> Map<Seq<char>, u16>
    decreases entries.len(),
{
    if entries.len() == 0 {
        Map::empty()
    } else {
        table(entries.drop_last()).insert(entries.last().0@, entries.last().1)
    }
}

impl View for ResourceOutcomes {
    type V = Map<Seq<char>, u16>;

    closed spec fn view(&self) -> Map<Seq<char>, u16> {
        table(self.by_url@)
    }
}

/// The status a page hears: `0` for a request that got no answer, refused or
/// failed alike.
pub open spec fn heard_status(outcome: OutcomeView) -> u16 {
    if outcome.error is None && outcome.status is Some {
        outcome.status->Some_0
    } else {
        0
    }
}

proof fn lemma_push(entries: Seq<(String, u16)>, entry: (String, u16))
    ensures
        table(entries.push(entry)) == table(entries).insert(entry.0@, entry.1),
{
    assert(entries.push(entry).drop_last() =~= entries);
}

proof fn lemma_remove(entries: Seq<(String, u16)>, i: int, key: Seq<char>, status: u16)
    requires
        0 <= i < entries.len(),
        entries[i].0@ == key,
    ensures
        table(entries.remove(i)).insert(key, status) == table(entries).insert(key, status),
    decreases entries.len(),
{
    let last = entries.last();
    let n = entries.len() - 1;
    if i == n {
        assert(entries.remove(i) =~= entries.drop_last());
        assert(table(entries).insert(key, status) =~= table(entries.drop_last()).insert(
            key,
            status,
        ));
    } else {
        let rest = entries.drop_last();
        assert(rest[i].0@ == key);
        lemma_remove(rest, i, key, status);
        let cut = entries.remove(i);
        assert(cut.drop_last() =~= rest.remove(i));
        assert(cut.last() == last);
        let a = table(rest.remove(i));
        let b = table(rest);
        assert(a.insert(key, status) == b.insert(key, status));
        let left = a.insert(last.0@, last.1).insert(key, status);
        let right = b.insert(last.0@, last.1).insert(key, status);
        assert forall|k: Seq<char>| #[trigger] left.dom().contains(k) == right.dom().contains(k)
            && (left.dom().contains(k) ==> left[k] == right[k]) by {
            if k != key {
                let with_a = a.insert(key, status);
                let with_b = b.insert(key, status);
                assert(with_a.dom().contains(k) == a.dom().contains(k));
                assert(with_b.dom().contains(k) == b.dom().contains(k));
                if a.dom().contains(k) {
                    assert(with_a[k] == a[k]);
                    assert(with_b[k] == b[k]);
                }
            }
        }
        assert(left =~= right);
        assert(table(entries) == b.insert(last.0@, last.1));
        assert(table(cut) == a.insert(last.0@, last.1));
    }
}

impl Default for ResourceOutcomes {
    fn default() -> (r: ResourceOutcomes)
        ensures
            r@ == Map::<Seq<char>, u16>::empty(),
    {
        ResourceOutcomes { by_url: Vec::new() }
    }
}

impl ResourceOutcomes {
    fn put(&mut self, url: &str, status: u16)
        ensures
            final(self)@ == old(self)@.insert(url@, status),
    {
        let ghost before = self.by_url@;
        let mut i: usize = 0;
        while i < self.by_url.len()
            invariant
                i <= self.by_url.len(),
                self.by_url@ == before,
                before == old(self).by_url@,
            decreases self.by_url.len() - i,
        {
            if same(&self.by_url[i].0, url) {
                proof {
                    lemma_remove(before, i as int, url@, status);
                }
                let _ = self.by_url.remove(i);
                let ghost rest = self.by_url@;
                assert(rest =~= before.remove(i as int));
                let entry = (url.to_owned(), status);
                proof {
                    lemma_push(rest, entry);
                }
                self.by_url.push(entry);
                return ;
            }
            i += 1;
        }
        let entry = (url.to_owned(), status);
        proof {
            lemma_push(before, entry);
        }
        self.by_url.push(entry);
    }

    /// Under both URLs: a redirected image is `src` in the markup and the final
    /// URL in the outcome, and the page asks about the first.
    pub fn record(&mut self, asked: &Url, outcome: &FetchOutcome)
        ensures
            final(self)@ == old(self)@.insert(asked@.href, heard_status(outcome@)).insert(
                outcome@.final_url.href,
                heard_status(outcome@),
            ),
    {
        let status: u16 = match (&outcome.error, outcome.status) {
            (None, Some(s)) => s,
            _ => 0,
        };
        self.put(&asked.href, status);
        self.put(&outcome.final_url.href, status);
    }

    /// The status this URL came back with, or `None` if it was never asked for.
    pub fn status(&self, url: &str) -> (r: Option<u16>)
        ensures
            r == (if self@.dom().contains(url@) {
                Some(self@[url@])
            } else {
                None
            }),
    {
        let mut i: usize = self.by_url.len();
        assert(self.by_url@.take(i as int) =~= self.by_url@);
        while i > 0
            invariant
                i <= self.by_url.len(),
                self@.dom().contains(url@) == table(self.by_url@.take(i as int)).dom().contains(
                    url@,
                ),
                self@.dom().contains(url@) ==> self@[url@] == table(
                    self.by_url@.take(i as int),
                )[url@],
            decreases i,
        {
            let ghost now = self.by_url@.take(i as int);
            i -= 1;
            assert(now.drop_last() =~= self.by_url@.take(i as int));
            assert(now.last() == self.by_url@[i as int]);
            if same(&self.by_url[i].0, url) {
                return Some(self.by_url[i].1);
            }
        }
        None
    }

    pub fn is_empty(&self) -> (r: bool)
        ensures
            r == (self@ == Map::<Seq<char>, u16>::empty()),
    {
        let r = self.by_url.len() == 0;
        proof {
            if !r {
                let k = self.by_url@.last().0@;
                assert(self@.dom().contains(k));
            }
        }
        r
    }
}

/// The subresources of one document: each is fetched for the document, and its
/// fate written down for the page to hear.
#[derive(Debug, Clone, PartialEq, Eq)]
pub struct BrokerNet {
    /// The document whose subresources these are. Without it every image on a
    /// page would be judged as a URL that the agent named.
    pub document: Option<Url>,
    pub resources: ResourceOutcomes,
}

fn copy_url(u: &Option<Url>) -> (r: Option<Url>)
    ensures
        url_option(r) == url_option(*u),
{
    match u {
        Some(x) => Some(x.copy()),
        None => None,
    }
}

impl BrokerNet {
    pub fn new(document: Option<Url>) -> (r: BrokerNet)
        ensures
            url_option(r.document) == url_option(document),
            r.resources@ == Map::<Seq<char>, u16>::empty(),
    {
        BrokerNet::with_log(document, ResourceOutcomes::default())
    }

    pub fn with_log(document: Option<Url>, resources: ResourceOutcomes) -> (r: BrokerNet)
        ensures
            url_option(r.document) == url_option(document),
            r.resources@ == resources@,
    {
        BrokerNet { document, resources }
    }

    /// The fetch of a subresource: for the document, not for the agent.
    pub fn request(&self, url: &Url) -> (r: Fetch)
        ensures
            r.url@ == url@,
            r.initiator == Initiator::Subresource,
            r.method@ == "GET"@,
            r.body@.len() == 0,
            r.content_type is None,
            r.headers@.len() == 0,
            r.max_redirects is None,
            url_option(r.document) == url_option(self.document),
            r.cors is None,
    {
        Fetch {
            url: url.copy(),
            initiator: Initiator::Subresource,
            method: "GET".to_owned(),
            body: Vec::new(),
            content_type: None,
            headers: Vec::new(),
            max_redirects: None,
            document: copy_url(&self.document),
            cors: None,
        }
    }

    /// Writes the outcome down and gives what the document is handed. A denied
    /// or failed request completes with an empty body: left pending, it would
    /// keep the document from ever being painted.
    pub fn settle(&mut self, asked: &Url, outcome: &FetchOutcome) -> (r: (String, Vec<u8>))
        ensures
            final(self).document == old(self).document,
            final(self).resources@ == old(self).resources@.insert(
                asked@.href,
                heard_status(outcome@),
            ).insert(outcome@.final_url.href, heard_status(outcome@)),
            r.0@ == outcome@.final_url.href,
            r.1@ == outcome@.body,
    {
        self.resources.record(asked, outcome);
        (outcome.final_url.href.clone(), copy_bytes(&outcome.body))
    }
}

/// A subresource is heard under both of its URLs, and nothing else changes.
pub proof fn law_an_outcome_is_heard_under_both_urls(
    before: Map<Seq<char>, u16>,
    asked: Seq<char>,
    outcome: OutcomeView,
    other: Seq<char>,
)
    ensures
        ({
            let after = before.insert(asked, heard_status(outcome)).insert(
                outcome.final_url.href,
                heard_status(outcome),
            );
            &&& after[asked] == heard_status(outcome)
            &&& after[outcome.final_url.href] == heard_status(outcome)
            &&& other != asked && other != outcome.final_url.href ==> after.dom().contains(other)
                == before.dom().contains(other) && (before.dom().contains(other) ==> after[other]
                == before[other])
        }),
{
}

/// What a page hears of a resource: the status that came back, or zero where
/// the fetch failed or brought none, under the address that was asked for and
/// under the one it ended at, and under no other.
pub proof fn law_what_a_page_hears_of_a_resource(
    log: &mut ResourceOutcomes,
    asked: &Url,
    outcome: &FetchOutcome,
    other: Seq<char>,
)
    requires
        call_ensures(ResourceOutcomes::record, (log, asked, outcome), ()),
    ensures
        ({
            let heard = if outcome@.error is Some || outcome@.status is None {
                0u16
            } else {
                outcome@.status->Some_0
            };
            let after = final(log)@;
            &&& after.dom().contains(asked@.href) && after[asked@.href] == heard
            &&& after.dom().contains(outcome@.final_url.href) && after[outcome@.final_url.href]
                == heard
            &&& other != asked@.href && other != outcome@.final_url.href ==> after.dom().contains(
                other,
            ) == old(log)@.dom().contains(other) && (after.dom().contains(other) ==> after[other]
                == old(log)@[other])
        }),
{
}

/// A resource is fetched for its document by a bare `GET`.
pub proof fn law_a_resource_is_fetched_for_its_document(net: &BrokerNet, url: &Url, r: Fetch)
    requires
        call_ensures(BrokerNet::request, (net, url), r),
    ensures
        r.url@ == url@,
        r.initiator is Subresource,
        r.method@ == "GET"@,
        r.body@.len() == 0 && r.headers@.len() == 0,
        r.content_type is None && r.cors is None && r.max_redirects is None,
        url_option(r.document) == url_option(net.document),
{
}

} // verus!
