//! A document as plain data: what the decisions about a page read of its tree.
//!
//! The nodes stand in document order, each behind its parent. That order is
//! the invariant, and it is what lets every walk below be one pass over the
//! list rather than a recursion that a deep enough page could exhaust.
use vstd::prelude::*;

use crate::cors::pairs;
use crate::forms::SelectOutcome;
use crate::markup::{defuse_attribute, is_script_attribute};
use crate::text::{lower, lowered, same, same_but_case, string_view, view_of};
use crate::url::{url_joined, url_option, Url};

verus! {

/// How deeply one page may nest elements.
pub const MAX_ELEMENT_DEPTH: usize = 512;

/// How far up a form is looked for.
pub const FORM_LEVELS: usize = 64;

/// How far up a link is looked for.
pub const LINK_LEVELS: usize = 16;

#[derive(Debug, Clone, PartialEq, Eq)]
pub struct Element {
    pub name: String,
    pub attrs: Vec<(String, String)>,
    /// The state of a checkbox or a radio button, once it has one.
    pub checked: Option<bool>,
    /// The element has state of another kind.
    pub other_state: bool,
}

#[derive(Debug, Clone, PartialEq, Eq)]
pub struct Node {
    /// What the rest of the engine calls it.
    pub id: usize,
    pub parent: Option<usize>,
    pub element: Option<Element>,
    /// The text it holds, with the white space in it collapsed.
    pub text: String,
}

#[derive(Debug, Clone, PartialEq, Eq)]
pub struct Document {
    pub nodes: Vec<Node>,
}

impl Document {
    /// Every node stands behind its parent.
    pub open spec fn wf(self) -> bool {
        forall|i: int|
            0 <= i < self.nodes@.len() ==> ((#[trigger] self.nodes@[i]).parent matches Some(p)
                ==> p < i)
    }

    /// Whether every node stands behind its parent.
    pub fn is_wf(&self) -> (r: bool)
        ensures
            r == self.wf(),
    {
        let mut i: usize = 0;
        while i < self.nodes.len()
            invariant
                i <= self.nodes.len(),
                forall|k: int|
                    0 <= k < i ==> ((#[trigger] self.nodes@[k]).parent matches Some(p) ==> p < k),
            decreases self.nodes.len() - i,
        {
            if let Some(p) = self.nodes[i].parent {
                if p >= i {
                    assert(!(self.nodes@[i as int].parent matches Some(p) ==> p < i));
                    return false;
                }
            }
            i += 1;
        }
        true
    }
}

/// The value of the first attribute of that name.
pub open spec fn attr_of(attrs: Seq<(Seq<char>, Seq<char>)>, name: Seq<char>) -> Option<Seq<char>>
    decreases attrs.len(),
{
    if attrs.len() == 0 {
        None
    } else if attrs[0].0 == name {
        Some(attrs[0].1)
    } else {
        attr_of(attrs.drop_first(), name)
    }
}

impl Element {
    pub open spec fn attr(self, name: Seq<char>) -> Option<Seq<char>> {
        attr_of(pairs(self.attrs@), name)
    }

    pub fn get(&self, name: &str) -> (r: Option<&str>)
        ensures
            view_of(r) == self.attr(name@),
    {
        let ghost all = pairs(self.attrs@);
        let mut i: usize = 0;
        assert(all.skip(0) =~= all);
        while i < self.attrs.len()
            invariant
                i <= self.attrs.len(),
                all == pairs(self.attrs@),
                attr_of(all, name@) == attr_of(all.skip(i as int), name@),
            decreases self.attrs.len() - i,
        {
            assert(all.skip(i as int)[0] == (self.attrs@[i as int].0@, self.attrs@[i as int].1@));
            assert(all.skip(i as int).drop_first() =~= all.skip(i + 1));
            if same(&self.attrs[i].0, name) {
                return Some(self.attrs[i].1.as_str());
            }
            i += 1;
        }
        None
    }
}

// ------------------------------------------------------------------ nesting

/// How many nodes stand above a node.
pub open spec fn depth(doc: Document, i: int) -> nat
    decreases i,
{
    if 0 <= i < doc.nodes@.len() {
        match doc.nodes@[i].parent {
            Some(p) => if p < i {
                1 + depth(doc, p as int)
            } else {
                0
            },
            None => 0,
        }
    } else {
        0
    }
}

/// The nodes of a list that satisfy a condition, by what the engine calls them.
pub open spec fn ids_where(doc: Document, n: int, f: spec_fn(int) -> bool) -> Seq<usize>
    decreases n,
{
    if n <= 0 {
        Seq::empty()
    } else {
        let before = ids_where(doc, n - 1, f);
        if f(n - 1) {
            before.push(doc.nodes@[n - 1].id)
        } else {
            before
        }
    }
}

/// The tops of the subtrees that nest too deeply: everything under them is at
/// least as deep, so these are all there is to cut.
pub open spec fn too_deep(doc: Document) -> Seq<usize> {
    ids_where(doc, doc.nodes@.len() as int, |i: int| depth(doc, i) == MAX_ELEMENT_DEPTH)
}

proof fn lemma_depth_bound(doc: Document, i: int)
    requires
        0 <= i,
    ensures
        depth(doc, i) <= i,
    decreases i,
{
    if i < doc.nodes@.len() {
        match doc.nodes@[i].parent {
            Some(p) => {
                if p < i {
                    lemma_depth_bound(doc, p as int);
                }
            },
            None => {},
        }
    }
}

/// Find every subtree deeper than [`MAX_ELEMENT_DEPTH`].
pub fn prune_deep_nesting(doc: &Document) -> (r: Vec<usize>)
    requires
        doc.wf(),
    ensures
        r@ == too_deep(*doc),
{
    let ghost f = |i: int| depth(*doc, i) == MAX_ELEMENT_DEPTH;
    let mut depths: Vec<usize> = Vec::new();
    let mut out: Vec<usize> = Vec::new();
    let mut i: usize = 0;
    while i < doc.nodes.len()
        invariant
            i <= doc.nodes.len(),
            doc.wf(),
            f == (|i: int| depth(*doc, i) == MAX_ELEMENT_DEPTH),
            depths@.len() == i,
            forall|k: int| 0 <= k < i ==> #[trigger] depths@[k] == depth(*doc, k),
            out@ == ids_where(*doc, i as int, f),
        decreases doc.nodes.len() - i,
    {
        proof {
            lemma_depth_bound(*doc, i as int);
        }
        let here: usize = match doc.nodes[i].parent {
            Some(p) => {
                assert(p < i);
                depths[p] + 1
            },
            None => 0,
        };
        assert(here == depth(*doc, i as int));
        depths.push(here);
        if here == MAX_ELEMENT_DEPTH {
            out.push(doc.nodes[i].id);
        }
        i += 1;
    }
    out
}

// ------------------------------------------------------------------- frames

/// An element that a flattened frame may not bring with it.
pub open spec fn is_doomed_name(name: Seq<char>) -> bool {
    name == "script"@ || name == "style"@ || name == "link"@
}

pub open spec fn is_doomed(doc: Document, i: int) -> bool {
    doc.nodes@[i].element matches Some(e) && is_doomed_name(e.name@)
}

/// A node that stays when a frame's content is sifted: the frame, and what
/// stands below a node that stays and is not itself removed.
pub open spec fn stays(doc: Document, frame: int, i: int) -> bool
    decreases i,
{
    if i == frame {
        true
    } else if 0 <= i < doc.nodes@.len() && !is_doomed(doc, i) {
        match doc.nodes@[i].parent {
            Some(p) => p < i && stays(doc, frame, p as int),
            None => false,
        }
    } else {
        false
    }
}

/// A node that is removed: one that may not come along, under one that stays.
/// What stands below it goes with it.
pub open spec fn goes(doc: Document, frame: int, i: int) -> bool {
    i != frame && is_doomed(doc, i) && (doc.nodes@[i].parent matches Some(p) && p < i && stays(
        doc,
        frame,
        p as int,
    ))
}

/// The attributes of an element that are script, by name.
pub open spec fn script_attrs(attrs: Seq<(Seq<char>, Seq<char>)>) -> Seq<Seq<char>>
    decreases attrs.len(),
{
    if attrs.len() == 0 {
        Seq::empty()
    } else {
        let before = script_attrs(attrs.drop_last());
        if is_script_attribute(attrs.last().0, attrs.last().1) {
            before.push(attrs.last().0)
        } else {
            before
        }
    }
}

/// The attributes to clear on a node: those that are script, of a node that
/// stays. The frame's own are the page's.
pub open spec fn cleared_on(doc: Document, frame: int, i: int) -> Seq<Seq<char>> {
    match doc.nodes@[i].element {
        Some(e) => if i != frame && stays(doc, frame, i) {
            script_attrs(pairs(e.attrs@))
        } else {
            Seq::empty()
        },
        None => Seq::empty(),
    }
}

pub open spec fn with_id(id: usize, names: Seq<Seq<char>>) -> Seq<(usize, Seq<char>)> {
    names.map_values(|n: Seq<char>| (id, n))
}

/// Every attribute to clear, among the first nodes of a document.
pub open spec fn cleared(doc: Document, frame: int, n: int) -> Seq<(usize, Seq<char>)>
    decreases n,
{
    if n <= 0 {
        Seq::empty()
    } else {
        cleared(doc, frame, n - 1) + with_id(doc.nodes@[n - 1].id, cleared_on(doc, frame, n - 1))
    }
}

pub open spec fn clears(v: Seq<(usize, String)>) -> Seq<(usize, Seq<char>)> {
    v.map_values(|p: (usize, String)| (p.0, p.1@))
}

/// How many scripts are removed, among the first nodes of a document.
pub open spec fn scripts_gone(doc: Document, frame: int, n: int) -> nat
    decreases n,
{
    if n <= 0 {
        0
    } else {
        let before = scripts_gone(doc, frame, n - 1);
        if goes(doc, frame, n - 1) && doc.nodes@[n - 1].element->Some_0.name@ == "script"@ {
            before + 1
        } else {
            before
        }
    }
}

/// What a flattened frame may not bring with it.
#[derive(Debug, Clone, PartialEq, Eq)]
pub struct Sifted {
    /// The nodes to remove, with what stands below them.
    pub doomed: Vec<usize>,
    /// The attributes to clear.
    pub defused: Vec<(usize, String)>,
    /// How many of the removed nodes are scripts.
    pub scripts: usize,
}

fn push_script_attrs(out: &mut Vec<(usize, String)>, id: usize, element: &Element)
    ensures
        clears(final(out)@) == clears(old(out)@) + with_id(id, script_attrs(pairs(element.attrs@))),
{
    let ghost start = clears(out@);
    let ghost all = pairs(element.attrs@);
    let mut i: usize = 0;
    assert(start + with_id(id, script_attrs(all.take(0))) =~= start);
    while i < element.attrs.len()
        invariant
            i <= element.attrs.len(),
            all == pairs(element.attrs@),
            clears(out@) == start + with_id(id, script_attrs(all.take(i as int))),
        decreases element.attrs.len() - i,
    {
        let ghost before = out@;
        let ghost names = script_attrs(all.take(i as int));
        assert(all[i as int] == (element.attrs@[i as int].0@, element.attrs@[i as int].1@));
        assert(all.take(i + 1).drop_last() =~= all.take(i as int));
        assert(all.take(i + 1).last() == all[i as int]);
        if defuse_attribute(&element.attrs[i].0, &element.attrs[i].1) {
            out.push((id, element.attrs[i].0.clone()));
            assert(clears(out@) =~= clears(before).push((id, all[i as int].0)));
            assert(with_id(id, names.push(all[i as int].0)) =~= with_id(id, names).push(
                (id, all[i as int].0),
            ));
            assert(clears(out@) =~= start + with_id(id, names.push(all[i as int].0)));
        }
        i += 1;
    }
    assert(all.take(i as int) =~= all);
}

/// What has to go of what was grafted under a frame, and nothing else.
pub open spec fn is_sifting(doc: Document, frame: int, s: Sifted) -> bool {
    &&& s.doomed@ == ids_where(doc, doc.nodes@.len() as int, |i: int| goes(doc, frame, i))
    &&& clears(s.defused@) == cleared(doc, frame, doc.nodes@.len() as int)
    &&& s.scripts == scripts_gone(doc, frame, doc.nodes@.len() as int)
}

/// Sifts what was grafted under a frame: script, styles and links are removed,
/// and the script that is not in an element of its own is cleared.
pub fn sift_frame(doc: &Document, frame: usize) -> (r: Sifted)
    requires
        doc.wf(),
        frame < doc.nodes@.len(),
    ensures
        is_sifting(*doc, frame as int, r),
{
    let ghost f = |i: int| goes(*doc, frame as int, i);
    let mut live: Vec<bool> = Vec::new();
    let mut doomed: Vec<usize> = Vec::new();
    let mut defused: Vec<(usize, String)> = Vec::new();
    let mut scripts: usize = 0;
    let mut i: usize = 0;
    assert(clears(defused@) =~= cleared(*doc, frame as int, 0));
    while i < doc.nodes.len()
        invariant
            i <= doc.nodes.len(),
            doc.wf(),
            f == (|i: int| goes(*doc, frame as int, i)),
            live@.len() == i,
            forall|k: int| 0 <= k < i ==> #[trigger] live@[k] == stays(*doc, frame as int, k),
            doomed@ == ids_where(*doc, i as int, f),
            clears(defused@) == cleared(*doc, frame as int, i as int),
            scripts == scripts_gone(*doc, frame as int, i as int),
            scripts <= i,
        decreases doc.nodes.len() - i,
    {
        let node = &doc.nodes[i];
        let under = match node.parent {
            Some(p) => {
                assert(p < i);
                live[p]
            },
            None => false,
        };
        let mut keeps = false;
        let ghost clears_before = clears(defused@);
        if i == frame {
            keeps = true;
            assert(clears_before + with_id(node.id, Seq::empty()) =~= clears_before);
        } else {
            match &node.element {
                Some(e) => {
                    let gone = same(&e.name, "script") || same(&e.name, "style") || same(
                        &e.name,
                        "link",
                    );
                    if under {
                        if gone {
                            doomed.push(node.id);
                            if same(&e.name, "script") {
                                scripts += 1;
                            }
                        } else {
                            keeps = true;
                            push_script_attrs(&mut defused, node.id, e);
                        }
                    }
                },
                None => {
                    keeps = under;
                },
            }
            assert(keeps == stays(*doc, frame as int, i as int));
            assert(clears_before + with_id(node.id, Seq::empty()) =~= clears_before);
        }
        live.push(keeps);
        i += 1;
    }
    Sifted { doomed, defused, scripts }
}

// -------------------------------------------------------------------- forms

/// The nearest form, looked for so many levels up.
pub open spec fn form_above(doc: Document, i: int, levels: nat) -> Option<usize>
    decreases levels,
{
    if levels == 0 || !(0 <= i < doc.nodes@.len()) {
        None
    } else if doc.nodes@[i].element matches Some(e) && e.name@ == "form"@ {
        Some(doc.nodes@[i].id)
    } else {
        match doc.nodes@[i].parent {
            Some(p) => form_above(doc, p as int, (levels - 1) as nat),
            None => None,
        }
    }
}

/// The form a control belongs to, when it belongs to one.
pub fn enclosing_form(doc: &Document, at: usize) -> (r: Option<usize>)
    ensures
        r == form_above(*doc, at as int, FORM_LEVELS as nat),
{
    let mut current: usize = at;
    let mut left: usize = FORM_LEVELS;
    while left > 0
        invariant
            left <= FORM_LEVELS,
            form_above(*doc, at as int, FORM_LEVELS as nat) == form_above(
                *doc,
                current as int,
                left as nat,
            ),
        decreases left,
    {
        if current >= doc.nodes.len() {
            return None;
        }
        let node = &doc.nodes[current];
        if let Some(e) = &node.element {
            if same(&e.name, "form") {
                return Some(node.id);
            }
        }
        match node.parent {
            Some(p) => {
                current = p;
            },
            None => {
                return None;
            },
        }
        left -= 1;
    }
    None
}

/// The nearest `href`, looked for so many levels up.
pub open spec fn href_above(doc: Document, i: int, levels: nat) -> Option<Seq<char>>
    decreases levels,
{
    if levels == 0 || !(0 <= i < doc.nodes@.len()) {
        None
    } else {
        let own = match doc.nodes@[i].element {
            Some(e) => e.attr("href"@),
            None => None,
        };
        if own is Some {
            own
        } else {
            match doc.nodes@[i].parent {
                Some(p) => href_above(doc, p as int, (levels - 1) as nat),
                None => None,
            }
        }
    }
}

/// The `href` that a click on a node follows. The hit lands on whatever box is
/// topmost, often a text run inside the anchor, so the tree is walked up.
pub fn link_above(doc: &Document, at: usize) -> (r: Option<String>)
    ensures
        string_view(r) == href_above(*doc, at as int, LINK_LEVELS as nat),
{
    let mut current: usize = at;
    let mut left: usize = LINK_LEVELS;
    while left > 0
        invariant
            left <= LINK_LEVELS,
            href_above(*doc, at as int, LINK_LEVELS as nat) == href_above(
                *doc,
                current as int,
                left as nat,
            ),
        decreases left,
    {
        if current >= doc.nodes.len() {
            return None;
        }
        let node = &doc.nodes[current];
        if let Some(e) = &node.element {
            if let Some(href) = e.get("href") {
                return Some(href.to_owned());
            }
        }
        match node.parent {
            Some(p) => {
                current = p;
            },
            None => {
                return None;
            },
        }
        left -= 1;
    }
    None
}

/// The link that a click on a node follows, resolved against the page.
pub fn link_at(doc: &Document, at: usize, base: &Url) -> (r: Option<Url>)
    ensures
        url_option(r) == (match href_above(*doc, at as int, LINK_LEVELS as nat) {
            Some(href) => match url_joined(base@.href, href) {
                Ok(u) => Some(u),
                Err(_) => None,
            },
            None => None,
        }),
{
    match link_above(doc, at) {
        Some(href) => match base.join(&href) {
            Ok(u) => Some(u),
            Err(_) => None,
        },
        None => None,
    }
}

/// A control that submits the form it sits in: a button, unless it says
/// otherwise, and an input that says so. This is what a browser does with a
/// click on it whether or not script is running.
pub open spec fn submits(e: Element) -> bool {
    let kind = e.attr("type"@);
    if e.name@ == "button"@ {
        kind is None || lowered(kind->Some_0) == "submit"@
    } else if e.name@ == "input"@ {
        kind is Some && (lowered(kind->Some_0) == "submit"@ || lowered(kind->Some_0) == "image"@)
    } else {
        false
    }
}

/// Is this control one that submits the form it sits in?
pub fn is_submit_control(doc: &Document, at: usize) -> (r: bool)
    ensures
        r == (at < doc.nodes@.len() && doc.nodes@[at as int].element is Some && submits(
            doc.nodes@[at as int].element->Some_0,
        )),
{
    if at >= doc.nodes.len() {
        return false;
    }
    match &doc.nodes[at].element {
        None => false,
        Some(e) => {
            let kind = match e.get("type") {
                Some(k) => Some(lower(k)),
                None => None,
            };
            if same(&e.name, "button") {
                match &kind {
                    None => true,
                    Some(k) => same(k, "submit"),
                }
            } else if same(&e.name, "input") {
                match &kind {
                    None => false,
                    Some(k) => same(k, "submit") || same(k, "image"),
                }
            } else {
                false
            }
        },
    }
}

// --------------------------------------------------------------- checkboxes

pub open spec fn is_kind(e: Element, kind: Seq<char>) -> bool {
    e.attr("type"@) matches Some(t) && lowered(t) == lowered(kind)
}

/// A checkbox or a radio button.
pub open spec fn is_checkable(e: Element) -> bool {
    e.name@ == "input"@ && (is_kind(e, "checkbox"@) || is_kind(e, "radio"@))
}

fn has_kind(e: &Element, kind: &str) -> (r: bool)
    ensures
        r == is_kind(*e, kind@),
{
    match e.get("type") {
        Some(t) => same_but_case(t, kind),
        None => false,
    }
}

fn checkable(e: &Element) -> (r: bool)
    ensures
        r == is_checkable(*e),
{
    same(&e.name, "input") && (has_kind(e, "checkbox") || has_kind(e, "radio"))
}

/// A radio button of that group.
pub open spec fn is_in_group(e: Element, group: Seq<char>) -> bool {
    is_kind(e, "radio"@) && e.attr("name"@) == Some(group)
}

/// The other buttons that checking this one turns off.
pub open spec fn turned_off(doc: Document, at: int, checked: bool) -> Seq<usize> {
    let e = doc.nodes@[at].element->Some_0;
    if checked && is_kind(e, "radio"@) && e.attr("name"@) is Some {
        ids_where(
            doc,
            doc.nodes@.len() as int,
            |i: int|
                doc.nodes@[i].id != doc.nodes@[at].id && (doc.nodes@[i].element matches Some(o)
                    && is_in_group(o, e.attr("name"@)->Some_0)),
        )
    } else {
        Seq::empty()
    }
}

/// What setting a checkbox comes to.
#[derive(Debug, Clone, PartialEq, Eq)]
pub enum Checking {
    /// There is no checkbox here.
    NotCheckable,
    /// It is so already. Reported rather than dispatched, or a replay would
    /// fire a `change` the original run never fired.
    Already,
    /// Set this one, and turn these off.
    Turn { off: Vec<usize> },
}

/// Decides what setting a checkbox or a radio button comes to. A radio turns
/// its group off, which is what makes the group a group.
pub fn set_checked(doc: &Document, at: usize, checked: bool) -> (r: Checking)
    ensures
        if at >= doc.nodes@.len() || !(doc.nodes@[at as int].element matches Some(e)
            && is_checkable(e)) {
            r is NotCheckable
        } else if (doc.nodes@[at as int].element->Some_0.checked == Some(true)) == checked {
            r is Already
        } else {
            r matches Checking::Turn { off } && off@ == turned_off(*doc, at as int, checked)
        },
{
    if at >= doc.nodes.len() {
        return Checking::NotCheckable;
    }
    match &doc.nodes[at].element {
        None => Checking::NotCheckable,
        Some(e) => {
            if !checkable(e) {
                return Checking::NotCheckable;
            }
            let was = match e.checked {
                Some(b) => b,
                None => false,
            };
            if was == checked {
                return Checking::Already;
            }
            let mut off: Vec<usize> = Vec::new();
            if checked && has_kind(e, "radio") {
                if let Some(group) = e.get("name") {
                    let ghost f = |i: int|
                        doc.nodes@[i].id != doc.nodes@[at as int].id && (
                        doc.nodes@[i].element matches Some(o) && is_in_group(
                            o,
                            e.attr("name"@)->Some_0,
                        ));
                    let mut i: usize = 0;
                    while i < doc.nodes.len()
                        invariant
                            i <= doc.nodes.len(),
                            at < doc.nodes@.len(),
                            e.attr("name"@) == Some(group@),
                            f == (|i: int|
                                doc.nodes@[i].id != doc.nodes@[at as int].id && (
                                doc.nodes@[i].element matches Some(o) && is_in_group(
                                    o,
                                    e.attr("name"@)->Some_0,
                                ))),
                            off@ == ids_where(*doc, i as int, f),
                        decreases doc.nodes.len() - i,
                    {
                        let mut hit = false;
                        if doc.nodes[i].id != doc.nodes[at].id {
                            if let Some(o) = &doc.nodes[i].element {
                                if has_kind(o, "radio") {
                                    if let Some(n) = o.get("name") {
                                        hit = same(n, group);
                                    }
                                }
                            }
                        }
                        assert(hit == f(i as int));
                        if hit {
                            off.push(doc.nodes[i].id);
                        }
                        i += 1;
                    }
                }
            }
            Checking::Turn { off }
        },
    }
}

/// A checkbox that has no state yet. One that a click or a script gave some is
/// left alone.
pub open spec fn needs_state(n: Node) -> bool {
    n.element matches Some(e) && is_checkable(e) && e.checked is None && !e.other_state
}

/// The states that checkboxes start with, among the first nodes.
pub open spec fn seeds(doc: Document, n: int) -> Seq<(usize, bool)>
    decreases n,
{
    if n <= 0 {
        Seq::empty()
    } else {
        let before = seeds(doc, n - 1);
        let node = doc.nodes@[n - 1];
        if needs_state(node) {
            before.push((node.id, node.element->Some_0.attr("checked"@) is Some))
        } else {
            before
        }
    }
}

/// The checked state of every checkbox and radio button that has none yet, so
/// that `:checked` can match from the first style pass on.
pub fn seed_checkbox_state(doc: &Document) -> (r: Vec<(usize, bool)>)
    ensures
        r@ == seeds(*doc, doc.nodes@.len() as int),
{
    let mut out: Vec<(usize, bool)> = Vec::new();
    let mut i: usize = 0;
    while i < doc.nodes.len()
        invariant
            i <= doc.nodes.len(),
            out@ == seeds(*doc, i as int),
        decreases doc.nodes.len() - i,
    {
        if let Some(e) = &doc.nodes[i].element {
            if checkable(e) && e.checked.is_none() && !e.other_state {
                out.push((doc.nodes[i].id, e.get("checked").is_some()));
            }
        }
        i += 1;
    }
    out
}

// ------------------------------------------------------------------ selects

/// A node somewhere below another.
pub open spec fn is_below(doc: Document, top: int, i: int) -> bool
    decreases i,
{
    0 <= i < doc.nodes@.len() && (doc.nodes@[i].parent matches Some(p) && p < i && (p == top
        || is_below(doc, top, p as int)))
}

/// What an option submits: its value, or its text where it has none.
pub open spec fn option_value(n: Node) -> Seq<char> {
    match n.element {
        Some(e) => match e.attr("value"@) {
            Some(v) => v,
            None => n.text@,
        },
        None => n.text@,
    }
}

pub open spec fn is_option(doc: Document, select: int, i: int) -> bool {
    is_below(doc, select, i) && (doc.nodes@[i].element matches Some(e) && e.name@ == "option"@)
}

/// The positions of a `<select>`'s options, among the first nodes.
pub open spec fn options_of(doc: Document, select: int, n: int) -> Seq<int>
    decreases n,
{
    if n <= 0 {
        Seq::empty()
    } else {
        let before = options_of(doc, select, n - 1);
        if is_option(doc, select, n - 1) {
            before.push(n - 1)
        } else {
            before
        }
    }
}

/// The first of the positions at which a node has that value.
pub open spec fn first_by_value(doc: Document, at: Seq<int>, wanted: Seq<char>) -> Option<int>
    decreases at.len(),
{
    if at.len() == 0 {
        None
    } else if option_value(doc.nodes@[at[0]]) == wanted {
        Some(at[0])
    } else {
        first_by_value(doc, at.drop_first(), wanted)
    }
}

/// The first of the positions at which a node has that text.
pub open spec fn first_by_text(doc: Document, at: Seq<int>, wanted: Seq<char>) -> Option<int>
    decreases at.len(),
{
    if at.len() == 0 {
        None
    } else if doc.nodes@[at[0]].text@ == wanted {
        Some(at[0])
    } else {
        first_by_text(doc, at.drop_first(), wanted)
    }
}

/// The option that a word means: by value, and otherwise by text.
pub open spec fn option_meant(doc: Document, select: int, wanted: Seq<char>) -> Option<int> {
    let at = options_of(doc, select, doc.nodes@.len() as int);
    match first_by_value(doc, at, wanted) {
        Some(i) => Some(i),
        None => first_by_text(doc, at, wanted),
    }
}

/// What choosing an option comes to: which one, and which others are not it.
#[derive(Debug, Clone, PartialEq, Eq)]
pub struct Choice {
    pub outcome: SelectOutcome,
    /// The option to mark.
    pub chosen: Option<usize>,
    /// The options to unmark.
    pub others: Vec<usize>,
}

fn list_options(doc: &Document, select: usize) -> (r: Vec<usize>)
    requires
        doc.wf(),
        select < doc.nodes@.len(),
    ensures
        r@.map_values(|i: usize| i as int) == options_of(
            *doc,
            select as int,
            doc.nodes@.len() as int,
        ),
        forall|k: int| 0 <= k < r@.len() ==> #[trigger] r@[k] < doc.nodes@.len(),
{
    let ghost f = |i: usize| i as int;
    let mut below: Vec<bool> = Vec::new();
    let mut out: Vec<usize> = Vec::new();
    let mut i: usize = 0;
    assert(out@.map_values(f) =~= options_of(*doc, select as int, 0));
    while i < doc.nodes.len()
        invariant
            i <= doc.nodes.len(),
            doc.wf(),
            f == (|i: usize| i as int),
            below@.len() == i,
            forall|k: int| 0 <= k < i ==> #[trigger] below@[k] == is_below(*doc, select as int, k),
            out@.map_values(f) == options_of(*doc, select as int, i as int),
            forall|k: int| 0 <= k < out@.len() ==> #[trigger] out@[k] < doc.nodes@.len(),
        decreases doc.nodes.len() - i,
    {
        let under = match doc.nodes[i].parent {
            Some(p) => {
                assert(p < i);
                p == select || below[p]
            },
            None => false,
        };
        assert(under == is_below(*doc, select as int, i as int));
        below.push(under);
        if under {
            if let Some(e) = &doc.nodes[i].element {
                if same(&e.name, "option") {
                    let ghost before = out@.map_values(f);
                    out.push(i);
                    assert(out@.map_values(f) =~= before.push(i as int));
                }
            }
        }
        i += 1;
    }
    out
}

/// The ids of the nodes at those positions, but for one.
pub open spec fn ids_but(doc: Document, at: Seq<int>, but: int) -> Seq<usize>
    decreases at.len(),
{
    if at.len() == 0 {
        Seq::empty()
    } else {
        let before = ids_but(doc, at.drop_last(), but);
        if doc.nodes@[at.last()].id == doc.nodes@[but].id {
            before
        } else {
            before.push(doc.nodes@[at.last()].id)
        }
    }
}

/// Decides what choosing an option in a `<select>` comes to, by its value or
/// its visible text. Exactly one stays marked.
pub fn select_option(doc: &Document, at: usize, wanted: &str) -> (r: Choice)
    requires
        doc.wf(),
    ensures
        if at >= doc.nodes@.len() || !(doc.nodes@[at as int].element matches Some(e) && e.name@
            == "select"@) {
            r.outcome is NotASelect && r.chosen is None && r.others@.len() == 0
        } else {
            match option_meant(*doc, at as int, wanted@) {
                None => r.outcome is NoSuchOption && r.chosen is None && r.others@.len() == 0,
                Some(i) => (r.outcome matches SelectOutcome::Chosen(v) && v@ == option_value(
                    doc.nodes@[i],
                )) && r.chosen == Some(doc.nodes@[i].id) && r.others@ == ids_but(
                    *doc,
                    options_of(*doc, at as int, doc.nodes@.len() as int),
                    i,
                ),
            }
        },
{
    let nothing: Vec<usize> = Vec::new();
    if at >= doc.nodes.len() {
        return Choice { outcome: SelectOutcome::NotASelect, chosen: None, others: nothing };
    }
    let is_select = match &doc.nodes[at].element {
        Some(e) => same(&e.name, "select"),
        None => false,
    };
    if !is_select {
        return Choice { outcome: SelectOutcome::NotASelect, chosen: None, others: nothing };
    }
    let places = list_options(doc, at);
    let ghost f = |i: usize| i as int;
    let ghost all = places@.map_values(f);
    let mut found: Option<usize> = None;
    let mut i: usize = 0;
    assert(all.skip(0) =~= all);
    while i < places.len() && found.is_none()
        invariant
            i <= places.len(),
            f == (|i: usize| i as int),
            all == places@.map_values(f),
            forall|k: int| 0 <= k < places@.len() ==> #[trigger] places@[k] < doc.nodes@.len(),
            found matches Some(n) ==> n < doc.nodes@.len() && first_by_value(*doc, all, wanted@)
                == Some(n as int),
            found is None ==> first_by_value(*doc, all, wanted@) == first_by_value(
                *doc,
                all.skip(i as int),
                wanted@,
            ),
        decreases places.len() - i,
    {
        let node = &doc.nodes[places[i]];
        assert(all.skip(i as int)[0] == places@[i as int] as int);
        assert(all.skip(i as int).drop_first() =~= all.skip(i + 1));
        if same(&value_of(node), wanted) {
            found = Some(places[i]);
        }
        i += 1;
    }
    if found.is_none() {
        let mut j: usize = 0;
        while j < places.len() && found.is_none()
            invariant
                j <= places.len(),
                f == (|i: usize| i as int),
                all == places@.map_values(f),
                forall|k: int| 0 <= k < places@.len() ==> #[trigger] places@[k] < doc.nodes@.len(),
                first_by_value(*doc, all, wanted@) is None,
                found matches Some(n) ==> n < doc.nodes@.len() && first_by_text(*doc, all, wanted@)
                    == Some(n as int),
                found is None ==> first_by_text(*doc, all, wanted@) == first_by_text(
                    *doc,
                    all.skip(j as int),
                    wanted@,
                ),
            decreases places.len() - j,
        {
            assert(all.skip(j as int)[0] == places@[j as int] as int);
            assert(all.skip(j as int).drop_first() =~= all.skip(j + 1));
            if same(&doc.nodes[places[j]].text, wanted) {
                found = Some(places[j]);
            }
            j += 1;
        }
    }
    match found {
        None => Choice { outcome: SelectOutcome::NoSuchOption, chosen: None, others: nothing },
        Some(n) => {
            let mut others: Vec<usize> = Vec::new();
            let mut k: usize = 0;
            while k < places.len()
                invariant
                    k <= places.len(),
                    n < doc.nodes@.len(),
                    f == (|i: usize| i as int),
                    all == places@.map_values(f),
                    forall|m: int|
                        0 <= m < places@.len() ==> #[trigger] places@[m] < doc.nodes@.len(),
                    others@ == ids_but(*doc, all.take(k as int), n as int),
                decreases places.len() - k,
            {
                assert(all.take(k + 1).drop_last() =~= all.take(k as int));
                assert(all.take(k + 1).last() == places@[k as int] as int);
                if doc.nodes[places[k]].id != doc.nodes[n].id {
                    others.push(doc.nodes[places[k]].id);
                }
                k += 1;
            }
            assert(all.take(k as int) =~= all);
            Choice {
                outcome: SelectOutcome::Chosen(value_of(&doc.nodes[n])),
                chosen: Some(doc.nodes[n].id),
                others,
            }
        },
    }
}

fn value_of(node: &Node) -> (r: String)
    ensures
        r@ == option_value(*node),
{
    match &node.element {
        Some(e) => match e.get("value") {
            Some(v) => v.to_owned(),
            None => node.text.clone(),
        },
        None => node.text.clone(),
    }
}

// --------------------------------------------------------------------- laws

/// What stays of a frame's content holds no script element, no style and no
/// link, at any depth.
pub proof fn law_nothing_that_stays_is_script(doc: Document, frame: int, i: int)
    requires
        stays(doc, frame, i),
        i != frame,
    ensures
        !is_doomed(doc, i),
        doc.nodes@[i].parent matches Some(p) && stays(doc, frame, p as int),
{
}

/// A frame's content is sifted whole: each node below the frame stays, goes, or
/// stands below one that goes.
pub proof fn law_a_frame_is_sifted_whole(doc: Document, frame: int, i: int)
    requires
        doc.wf(),
        is_below(doc, frame, i),
        frame < i,
    ensures
        stays(doc, frame, i) || goes(doc, frame, i) || exists|a: int|
            #![trigger goes(doc, frame, a)]
            goes(doc, frame, a) && is_below(doc, a, i),
    decreases i,
{
    let p = doc.nodes@[i].parent->Some_0 as int;
    assert(stays(doc, frame, frame));
    if stays(doc, frame, p) {
        assert(is_doomed(doc, i) ==> goes(doc, frame, i));
        assert(!is_doomed(doc, i) ==> stays(doc, frame, i));
    }
    if p != frame {
        if frame < p {
            law_a_frame_is_sifted_whole(doc, frame, p);
            if !stays(doc, frame, p) {
                if goes(doc, frame, p) {
                    assert(is_below(doc, p, i));
                } else {
                    let a = choose|a: int|
                        #![trigger goes(doc, frame, a)]
                        goes(doc, frame, a) && is_below(doc, a, p);
                    assert(is_below(doc, a, i));
                }
            }
        } else {
            lemma_below_is_behind(doc, frame, p);
        }
    }
}

proof fn lemma_below_is_behind(doc: Document, top: int, i: int)
    requires
        is_below(doc, top, i),
    ensures
        top < i,
    decreases i,
{
    let p = doc.nodes@[i].parent->Some_0 as int;
    if p != top {
        lemma_below_is_behind(doc, top, p);
    }
}

/// Cutting at the limit leaves nothing deeper: every node below the limit
/// stands under one that is cut, or is one.
pub proof fn law_nothing_deeper_is_left(doc: Document, i: int)
    requires
        doc.wf(),
        0 <= i < doc.nodes@.len(),
        depth(doc, i) >= MAX_ELEMENT_DEPTH,
    ensures
        exists|a: int|
            #![trigger depth(doc, a)]
            0 <= a < doc.nodes@.len() && depth(doc, a) == MAX_ELEMENT_DEPTH && (a == i || is_below(
                doc,
                a,
                i,
            )),
    decreases i,
{
    if depth(doc, i) > MAX_ELEMENT_DEPTH {
        let p = doc.nodes@[i].parent->Some_0 as int;
        law_nothing_deeper_is_left(doc, p);
        let a = choose|a: int|
            #![trigger depth(doc, a)]
            0 <= a < doc.nodes@.len() && depth(doc, a) == MAX_ELEMENT_DEPTH && (a == p || is_below(
                doc,
                a,
                p,
            ));
        assert(is_below(doc, a, i));
    } else {
        assert(depth(doc, i) == MAX_ELEMENT_DEPTH);
    }
}

proof fn lemma_attr_of_first(attrs: Seq<(Seq<char>, Seq<char>)>, name: Seq<char>, i: int)
    requires
        0 <= i < attrs.len(),
        attrs[i].0 == name,
        forall|j: int| 0 <= j < i ==> (#[trigger] attrs[j]).0 != name,
    ensures
        attr_of(attrs, name) == Some(attrs[i].1),
    decreases attrs.len(),
{
    if i > 0 {
        let rest = attrs.drop_first();
        assert(attrs[0].0 != name);
        assert forall|j: int| 0 <= j < i - 1 implies (#[trigger] rest[j]).0 != name by {
            assert(rest[j] == attrs[j + 1]);
        }
        lemma_attr_of_first(rest, name, i - 1);
    }
}

proof fn lemma_attr_of_none(attrs: Seq<(Seq<char>, Seq<char>)>, name: Seq<char>)
    requires
        forall|j: int| 0 <= j < attrs.len() ==> (#[trigger] attrs[j]).0 != name,
    ensures
        attr_of(attrs, name) is None,
    decreases attrs.len(),
{
    if attrs.len() > 0 {
        let rest = attrs.drop_first();
        assert(attrs[0].0 != name);
        assert forall|j: int| 0 <= j < rest.len() implies (#[trigger] rest[j]).0 != name by {
            assert(rest[j] == attrs[j + 1]);
        }
        lemma_attr_of_none(rest, name);
    }
}

/// An attribute's value is that of the first attribute of its name, compared
/// exactly, and there is none exactly where no attribute has the name.
pub proof fn law_an_attribute_is_the_first_of_its_name(e: Element, name: Seq<char>)
    ensures
        e.attr(name) is None <==> forall|j: int|
            0 <= j < e.attrs@.len() ==> (#[trigger] e.attrs@[j]).0@ != name,
        forall|i: int|
            0 <= i < e.attrs@.len() && (#[trigger] e.attrs@[i]).0@ == name && (forall|j: int|
                0 <= j < i ==> (#[trigger] e.attrs@[j]).0@ != name) ==> e.attr(name) == Some(
                e.attrs@[i].1@,
            ),
{
    let all = pairs(e.attrs@);
    assert forall|j: int| 0 <= j < all.len() implies (#[trigger] all[j]).0 == e.attrs@[j].0@
        && all[j].1 == e.attrs@[j].1@ by {}
    assert forall|i: int|
        0 <= i < e.attrs@.len() && (#[trigger] e.attrs@[i]).0@ == name && (forall|j: int|
            0 <= j < i ==> (#[trigger] e.attrs@[j]).0@ != name) implies e.attr(name) == Some(
        e.attrs@[i].1@,
    ) by {
        assert(all[i].0 == name);
        lemma_attr_of_first(all, name, i);
    }
    if forall|j: int| 0 <= j < e.attrs@.len() ==> (#[trigger] e.attrs@[j]).0@ != name {
        lemma_attr_of_none(all, name);
    } else {
        let k = choose|k: int| 0 <= k < e.attrs@.len() && (#[trigger] e.attrs@[k]).0@ == name;
        lemma_first_named(e, name, k);
    }
}

proof fn lemma_first_named(e: Element, name: Seq<char>, k: int)
    requires
        0 <= k < e.attrs@.len(),
        e.attrs@[k].0@ == name,
    ensures
        e.attr(name) is Some,
    decreases k,
{
    if exists|j: int| 0 <= j < k && (#[trigger] e.attrs@[j]).0@ == name {
        let j = choose|j: int| 0 <= j < k && (#[trigger] e.attrs@[j]).0@ == name;
        lemma_first_named(e, name, j);
    } else {
        let all = pairs(e.attrs@);
        assert forall|j: int| 0 <= j < k implies (#[trigger] all[j]).0 != name by {
            assert(e.attrs@[j].0@ != name);
        }
        assert(all[k].0 == name);
        lemma_attr_of_first(all, name, k);
    }
}

/// A button without a `type`, or whose `type` is `submit` in any case, submits
/// its form, and a button of any other `type` does not. An input submits
/// exactly where its `type` is `submit` or `image` in any case. Nothing else
/// does. An element's `type` is that of its first attribute of that name.
pub proof fn law_what_submits_a_form(e: Element)
    ensures
        (forall|j: int| 0 <= j < e.attrs@.len() ==> (#[trigger] e.attrs@[j]).0@ != "type"@) ==> (
        submits(e) <==> e.name@ == "button"@),
        forall|i: int|
            0 <= i < e.attrs@.len() && (#[trigger] e.attrs@[i]).0@ == "type"@ && (forall|j: int|
                0 <= j < i ==> (#[trigger] e.attrs@[j]).0@ != "type"@) ==> (submits(e) <==> {
                ||| e.name@ == "button"@ && lowered(e.attrs@[i].1@) == "submit"@
                ||| e.name@ == "input"@ && lowered(e.attrs@[i].1@) == "submit"@
                ||| e.name@ == "input"@ && lowered(e.attrs@[i].1@) == "image"@
            }),
{
    law_an_attribute_is_the_first_of_its_name(e, "type"@);
    reveal_strlit("button");
    reveal_strlit("input");
    assert("button"@.len() != "input"@.len());
    assert forall|i: int|
        0 <= i < e.attrs@.len() && (#[trigger] e.attrs@[i]).0@ == "type"@ && (forall|j: int|
            0 <= j < i ==> (#[trigger] e.attrs@[j]).0@ != "type"@) implies (submits(e) <==> {
        ||| e.name@ == "button"@ && lowered(e.attrs@[i].1@) == "submit"@
        ||| e.name@ == "input"@ && lowered(e.attrs@[i].1@) == "submit"@
        ||| e.name@ == "input"@ && lowered(e.attrs@[i].1@) == "image"@
    }) by {
        assert(e.attr("type"@) == Some(e.attrs@[i].1@));
    }
}

/// A click on a node submits exactly where the node is a button without a
/// `type` or of type `submit` in any case, or an input of type `submit` or
/// `image` in any case.
pub proof fn law_which_controls_submit(doc: Document, at: usize, e: Element, r: bool)
    requires
        call_ensures(is_submit_control, (&doc, at), r),
        at < doc.nodes@.len(),
        doc.nodes@[at as int].element == Some(e),
    ensures
        (forall|j: int| 0 <= j < e.attrs@.len() ==> (#[trigger] e.attrs@[j]).0@ != "type"@) ==> r
            == (e.name@ == "button"@),
        forall|i: int|
            0 <= i < e.attrs@.len() && (#[trigger] e.attrs@[i]).0@ == "type"@ && (forall|j: int|
                0 <= j < i ==> (#[trigger] e.attrs@[j]).0@ != "type"@) ==> r == (e.name@
                == "button"@ && lowered(e.attrs@[i].1@) == "submit"@ || e.name@ == "input"@ && (
            lowered(e.attrs@[i].1@) == "submit"@ || lowered(e.attrs@[i].1@) == "image"@)),
{
    law_what_submits_a_form(e);
}

// ------------------------------------------------------ the tree, and walks

proof fn lemma_ids_where(doc: Document, n: int, f: spec_fn(int) -> bool, id: usize)
    requires
        n <= doc.nodes@.len(),
    ensures
        ids_where(doc, n, f).contains(id) <==> exists|i: int|
            0 <= i < n && f(i) && (#[trigger] doc.nodes@[i]).id == id,
    decreases n,
{
    if n > 0 {
        lemma_ids_where(doc, n - 1, f, id);
        let before = ids_where(doc, n - 1, f);
        let all = ids_where(doc, n, f);
        if all.contains(id) {
            let k = choose|k: int| 0 <= k < all.len() && all[k] == id;
            if k < before.len() {
                assert(before[k] == id);
                assert(before.contains(id));
                let i = choose|i: int|
                    0 <= i < n - 1 && f(i) && (#[trigger] doc.nodes@[i]).id == id;
                assert(doc.nodes@[i].id == id);
            } else {
                assert(doc.nodes@[n - 1].id == id);
            }
        }
        if exists|i: int| 0 <= i < n && f(i) && (#[trigger] doc.nodes@[i]).id == id {
            let i = choose|i: int| 0 <= i < n && f(i) && (#[trigger] doc.nodes@[i]).id == id;
            if i < n - 1 {
                assert(before.contains(id));
                let k = choose|k: int| 0 <= k < before.len() && before[k] == id;
                assert(all[k] == id);
            } else {
                assert(all[all.len() - 1] == id);
            }
        }
    } else {
        assert(!ids_where(doc, n, f).contains(id));
    }
}

/// A root stands at depth zero and a child one deeper than its parent.
pub proof fn law_how_deep_a_node_is(doc: Document, i: int)
    requires
        doc.wf(),
        0 <= i < doc.nodes@.len(),
    ensures
        doc.nodes@[i].parent is None ==> depth(doc, i) == 0,
        doc.nodes@[i].parent matches Some(p) ==> depth(doc, i) == depth(doc, p as int) + 1,
{
}

/// A page is cut off at the nodes of depth 512, at all of them and at no
/// other.
pub proof fn law_where_deep_nesting_is_cut_off(doc: Document, r: Vec<usize>, id: usize)
    requires
        doc.wf(),
        call_ensures(prune_deep_nesting, (&doc,), r),
    ensures
        r@.contains(id) <==> exists|i: int|
            0 <= i < doc.nodes@.len() && depth(doc, i) == 512 && (#[trigger] doc.nodes@[i]).id
                == id,
{
    lemma_ids_where(
        doc,
        doc.nodes@.len() as int,
        |i: int| depth(doc, i) == MAX_ELEMENT_DEPTH,
        id,
    );
}

/// The node so many levels up, where the tree goes so far.
pub open spec fn ancestor(doc: Document, i: int, up: nat) -> Option<int>
    decreases up,
{
    if !(0 <= i < doc.nodes@.len()) {
        None
    } else if up == 0 {
        Some(i)
    } else {
        match doc.nodes@[i].parent {
            Some(p) => ancestor(doc, p as int, (up - 1) as nat),
            None => None,
        }
    }
}

/// Whether the node so many levels up is an element of that name.
pub open spec fn is_named_above(doc: Document, i: int, up: nat, name: Seq<char>) -> bool {
    ancestor(doc, i, up) matches Some(a) && (doc.nodes@[a].element matches Some(e) && e.name@
        == name)
}

proof fn lemma_form_above(doc: Document, i: int, levels: nat)
    ensures
        form_above(doc, i, levels) is None <==> forall|k: nat|
            k < levels ==> !(#[trigger] is_named_above(doc, i, k, "form"@)),
        forall|k: nat|
            k < levels && #[trigger] is_named_above(doc, i, k, "form"@) && (forall|j: nat|
                j < k ==> !(#[trigger] is_named_above(doc, i, j, "form"@))) ==> form_above(
                doc,
                i,
                levels,
            ) == Some(doc.nodes@[ancestor(doc, i, k)->Some_0].id),
    decreases levels,
{
    if levels > 0 && 0 <= i < doc.nodes@.len() {
        let own = doc.nodes@[i].element matches Some(e) && e.name@ == "form"@;
        assert(is_named_above(doc, i, 0, "form"@) == own);
        match doc.nodes@[i].parent {
            Some(p) => {
                lemma_form_above(doc, p as int, (levels - 1) as nat);
                assert forall|k: nat| 0 < k implies #[trigger] is_named_above(doc, i, k, "form"@)
                    == is_named_above(doc, p as int, (k - 1) as nat, "form"@) by {}
                assert forall|k: nat| #[trigger]
                    is_named_above(doc, p as int, k, "form"@) == is_named_above(
                        doc,
                        i,
                        k + 1,
                        "form"@,
                    ) by {}
                if !own {
                    assert forall|k: nat|
                        k < levels && #[trigger] is_named_above(doc, i, k, "form"@) && (forall|
                            j: nat,
                        |
                            j < k ==> !(#[trigger] is_named_above(doc, i, j, "form"@)))
                        implies form_above(doc, i, levels) == Some(
                        doc.nodes@[ancestor(doc, i, k)->Some_0].id,
                    ) by {
                        assert(k > 0);
                        let k1 = (k - 1) as nat;
                        assert(is_named_above(doc, p as int, k1, "form"@));
                        assert forall|j: nat| j < k1 implies !(#[trigger] is_named_above(
                            doc,
                            p as int,
                            j,
                            "form"@,
                        )) by {
                            assert(!is_named_above(doc, i, j + 1, "form"@));
                        }
                    }
                    if form_above(doc, i, levels) is None {
                        assert forall|k: nat| k < levels implies !(#[trigger] is_named_above(
                            doc,
                            i,
                            k,
                            "form"@,
                        )) by {
                            if k > 0 {
                                assert(!is_named_above(doc, p as int, (k - 1) as nat, "form"@));
                            }
                        }
                    }
                }
            },
            None => {
                assert forall|k: nat| 0 < k implies !(#[trigger] is_named_above(
                    doc,
                    i,
                    k,
                    "form"@,
                )) by {}
            },
        }
        if own {
            assert(is_named_above(doc, i, 0, "form"@));
        }
    }
}

/// A control belongs to the nearest form that it is or stands in, looked for
/// among itself and the 63 levels above it, and to none where none of those is
/// a form.
pub proof fn law_which_form_a_control_belongs_to(doc: Document, at: usize, r: Option<usize>, k: nat)
    requires
        call_ensures(enclosing_form, (&doc, at), r),
    ensures
        k < 64 && is_named_above(doc, at as int, k, "form"@) && (forall|j: nat|
            j < k ==> !(#[trigger] is_named_above(doc, at as int, j, "form"@))) ==> r == Some(
            doc.nodes@[ancestor(doc, at as int, k)->Some_0].id,
        ),
        (forall|j: nat| j < 64 ==> !(#[trigger] is_named_above(doc, at as int, j, "form"@))) ==> r
            is None,
{
    lemma_form_above(doc, at as int, 64);
}

/// The `href` of the node so many levels up.
pub open spec fn href_of(doc: Document, i: int, up: nat) -> Option<Seq<char>> {
    match ancestor(doc, i, up) {
        Some(a) => match doc.nodes@[a].element {
            Some(e) => e.attr("href"@),
            None => None,
        },
        None => None,
    }
}

proof fn lemma_href_above(doc: Document, i: int, levels: nat)
    ensures
        (forall|j: nat| j < levels ==> (#[trigger] href_of(doc, i, j)) is None) ==> href_above(
            doc,
            i,
            levels,
        ) is None,
        forall|k: nat|
            k < levels && (#[trigger] href_of(doc, i, k)) is Some && (forall|j: nat|
                j < k ==> (#[trigger] href_of(doc, i, j)) is None) ==> href_above(doc, i, levels)
                == href_of(doc, i, k),
    decreases levels,
{
    if levels > 0 && 0 <= i < doc.nodes@.len() {
        let own = match doc.nodes@[i].element {
            Some(e) => e.attr("href"@),
            None => None,
        };
        assert(href_of(doc, i, 0) == own);
        match doc.nodes@[i].parent {
            Some(p) => {
                lemma_href_above(doc, p as int, (levels - 1) as nat);
                assert forall|k: nat| 0 < k implies #[trigger] href_of(doc, i, k) == href_of(
                    doc,
                    p as int,
                    (k - 1) as nat,
                ) by {}
                if own is None {
                    assert forall|k: nat|
                        k < levels && (#[trigger] href_of(doc, i, k)) is Some && (forall|j: nat|
                            j < k ==> (#[trigger] href_of(doc, i, j)) is None) implies href_above(
                        doc,
                        i,
                        levels,
                    ) == href_of(doc, i, k) by {
                        assert(k > 0);
                        let k1 = (k - 1) as nat;
                        assert(href_of(doc, p as int, k1) is Some);
                        assert forall|j: nat| j < k1 implies (#[trigger] href_of(
                            doc,
                            p as int,
                            j,
                        )) is None by {
                            assert(href_of(doc, i, j + 1) is None);
                        }
                    }
                    if forall|j: nat| j < levels ==> (#[trigger] href_of(doc, i, j)) is None {
                        assert forall|j: nat| j < levels - 1 implies (#[trigger] href_of(
                            doc,
                            p as int,
                            j,
                        )) is None by {
                            assert(href_of(doc, i, j + 1) is None);
                        }
                    }
                }
            },
            None => {
                assert forall|k: nat| 0 < k implies (#[trigger] href_of(doc, i, k)) is None by {}
            },
        }
    }
}

/// A click follows the nearest `href`, of the node itself or of one of the 15
/// levels above it, and nothing where none of those has one.
pub proof fn law_which_link_a_click_follows(doc: Document, at: usize, r: Option<String>, k: nat)
    requires
        call_ensures(link_above, (&doc, at), r),
    ensures
        k < 16 && href_of(doc, at as int, k) is Some && (forall|j: nat|
            j < k ==> (#[trigger] href_of(doc, at as int, j)) is None) ==> string_view(r)
            == href_of(doc, at as int, k),
        (forall|j: nat| j < 16 ==> (#[trigger] href_of(doc, at as int, j)) is None) ==> r is None,
{
    lemma_href_above(doc, at as int, 16);
}

/// One node is below another exactly where that is its parent or its parent is
/// below that.
pub proof fn law_what_is_below(doc: Document, top: int, i: int)
    requires
        doc.wf(),
        0 <= i < doc.nodes@.len(),
    ensures
        is_below(doc, top, i) <==> (doc.nodes@[i].parent matches Some(p) && (p == top || is_below(
            doc,
            top,
            p as int,
        ))),
        is_below(doc, top, i) ==> top < i,
    decreases i,
{
    if let Some(p) = doc.nodes@[i].parent {
        if 0 <= p < i && p < doc.nodes@.len() {
            law_what_is_below(doc, top, p as int);
        }
    }
}

/// An element that a frame may not bring in: `script`, `style` or `link`.
pub open spec fn is_unwelcome(doc: Document, i: int) -> bool {
    doc.nodes@[i].element matches Some(e) && (e.name@ == "script"@ || e.name@ == "style"@ || e.name@
        == "link"@)
}

/// A node stays exactly where it is below the frame and neither it nor any
/// node between it and the frame is a `script`, a `style` or a `link`.
proof fn lemma_what_stays(doc: Document, frame: int, i: int)
    requires
        doc.wf(),
        0 <= frame,
        0 <= i < doc.nodes@.len(),
        i != frame,
    ensures
        stays(doc, frame, i) <==> is_below(doc, frame, i) && forall|a: int|
            (a == i || is_below(doc, a, i)) && #[trigger] is_below(doc, frame, a) ==> !is_unwelcome(
                doc,
                a,
            ),
    decreases i,
{
    match doc.nodes@[i].parent {
        None => {},
        Some(p) => {
            assert(p < i);
            law_what_is_below(doc, frame, i);
            if p == frame {
                assert forall|a: int| is_below(doc, a, i) && #[trigger] is_below(
                    doc,
                    frame,
                    a,
                ) implies false by {
                    law_what_is_below(doc, a, i);
                    law_what_is_below(doc, frame, a);
                    if a != p {
                        law_what_is_below(doc, a, p as int);
                    }
                }
                assert(is_below(doc, frame, i));
                assert(stays(doc, frame, frame));
                assert(is_unwelcome(doc, i) == is_doomed(doc, i));
            } else {
                lemma_what_stays(doc, frame, p as int);
                assert forall|a: int| #[trigger] is_below(doc, frame, a) implies ((a == i
                    || is_below(doc, a, i)) <==> (a == i || a == p || is_below(
                    doc,
                    a,
                    p as int,
                ))) by {
                    law_what_is_below(doc, a, i);
                }
                if is_below(doc, frame, i) {
                    assert(is_below(doc, frame, p as int));
                    if stays(doc, frame, i) {
                        assert forall|a: int|
                            (a == i || is_below(doc, a, i)) && #[trigger] is_below(
                                doc,
                                frame,
                                a,
                            ) implies !is_unwelcome(doc, a) by {
                            if a != i {
                                assert(a == p || is_below(doc, a, p as int));
                            }
                        }
                    }
                    if forall|a: int|
                        (a == i || is_below(doc, a, i)) && #[trigger] is_below(doc, frame, a)
                            ==> !is_unwelcome(doc, a) {
                        assert(!is_unwelcome(doc, i));
                        assert forall|a: int|
                            (a == p || is_below(doc, a, p as int)) && #[trigger] is_below(
                                doc,
                                frame,
                                a,
                            ) implies !is_unwelcome(doc, a) by {
                            assert(a == i || is_below(doc, a, i));
                        }
                    }
                }
            }
        },
    }
}

/// What is removed from a frame are the topmost `script`, `style` and `link`
/// elements below it, and nothing else.
pub proof fn law_what_a_frame_loses(doc: Document, frame: usize, r: Sifted, id: usize)
    requires
        doc.wf(),
        frame < doc.nodes@.len(),
        call_ensures(sift_frame, (&doc, frame), r),
    ensures
        r.doomed@.contains(id) <==> exists|i: int|
            0 <= i < doc.nodes@.len() && (#[trigger] doc.nodes@[i]).id == id && is_below(
                doc,
                frame as int,
                i,
            ) && is_unwelcome(doc, i) && (forall|a: int|
                is_below(doc, a, i) && #[trigger] is_below(doc, frame as int, a) ==> !is_unwelcome(
                    doc,
                    a,
                )),
{
    let f = |i: int| goes(doc, frame as int, i);
    lemma_ids_where(doc, doc.nodes@.len() as int, f, id);
    assert forall|i: int| 0 <= i < doc.nodes@.len() implies (#[trigger] f(i) <==> is_below(
        doc,
        frame as int,
        i,
    ) && is_unwelcome(doc, i) && (forall|a: int|
        is_below(doc, a, i) && #[trigger] is_below(doc, frame as int, a) ==> !is_unwelcome(
            doc,
            a,
        ))) by {
        lemma_what_goes(doc, frame as int, i);
    }
    if r.doomed@.contains(id) {
        let i = choose|i: int|
            0 <= i < doc.nodes@.len() && f(i) && (#[trigger] doc.nodes@[i]).id == id;
        assert(f(i));
    }
}

proof fn lemma_what_goes(doc: Document, frame: int, i: int)
    requires
        doc.wf(),
        0 <= frame,
        0 <= i < doc.nodes@.len(),
    ensures
        goes(doc, frame, i) <==> is_below(doc, frame, i) && is_unwelcome(doc, i) && (forall|a: int|
            is_below(doc, a, i) && #[trigger] is_below(doc, frame, a) ==> !is_unwelcome(doc, a)),
{
    law_what_is_below(doc, frame, i);
    if let Some(p) = doc.nodes@[i].parent {
        assert(p < i);
        assert forall|a: int| #[trigger] is_below(doc, frame, a) implies (is_below(doc, a, i) <==> a
            == p || is_below(doc, a, p as int)) by {
            law_what_is_below(doc, a, i);
        }
        if p != frame {
            lemma_what_stays(doc, frame, p as int);
            if goes(doc, frame, i) {
                assert forall|a: int|
                    is_below(doc, a, i) && #[trigger] is_below(doc, frame, a) implies !is_unwelcome(
                    doc,
                    a,
                ) by {
                    assert(a == p || is_below(doc, a, p as int));
                }
            }
            if is_below(doc, frame, i) && (forall|a: int|
                is_below(doc, a, i) && #[trigger] is_below(doc, frame, a) ==> !is_unwelcome(
                    doc,
                    a,
                )) {
                assert forall|a: int|
                    (a == p || is_below(doc, a, p as int)) && #[trigger] is_below(
                        doc,
                        frame,
                        a,
                    ) implies !is_unwelcome(doc, a) by {
                    assert(is_below(doc, a, i));
                }
                assert(is_below(doc, frame, p as int));
                assert(stays(doc, frame, p as int));
            }
        } else {
            assert forall|a: int|
                is_below(doc, a, i) && #[trigger] is_below(doc, frame, a) implies false by {
                law_what_is_below(doc, frame, a);
                if a != p {
                    law_what_is_below(doc, a, p as int);
                }
            }
            assert(stays(doc, frame, p as int));
        }
    }
}

proof fn lemma_script_attrs(attrs: Seq<(Seq<char>, Seq<char>)>, name: Seq<char>)
    ensures
        script_attrs(attrs).contains(name) <==> exists|j: int|
            0 <= j < attrs.len() && (#[trigger] attrs[j]).0 == name && is_script_attribute(
                attrs[j].0,
                attrs[j].1,
            ),
    decreases attrs.len(),
{
    if attrs.len() > 0 {
        let front = attrs.drop_last();
        lemma_script_attrs(front, name);
        let before = script_attrs(front);
        let all = script_attrs(attrs);
        if all.contains(name) {
            let k = choose|k: int| 0 <= k < all.len() && all[k] == name;
            if k < before.len() {
                assert(before[k] == name);
                assert(before.contains(name));
                let j = choose|j: int|
                    0 <= j < front.len() && (#[trigger] front[j]).0 == name && is_script_attribute(
                        front[j].0,
                        front[j].1,
                    );
                assert(attrs[j] == front[j]);
            } else {
                assert(attrs[attrs.len() - 1].0 == name);
            }
        }
        if exists|j: int|
            0 <= j < attrs.len() && (#[trigger] attrs[j]).0 == name && is_script_attribute(
                attrs[j].0,
                attrs[j].1,
            ) {
            let j = choose|j: int|
                0 <= j < attrs.len() && (#[trigger] attrs[j]).0 == name && is_script_attribute(
                    attrs[j].0,
                    attrs[j].1,
                );
            if j < front.len() {
                assert(front[j] == attrs[j]);
                assert(before.contains(name));
                let k = choose|k: int| 0 <= k < before.len() && before[k] == name;
                assert(all[k] == name);
            } else {
                assert(all[all.len() - 1] == name);
            }
        }
    }
}

proof fn lemma_cleared(doc: Document, frame: int, n: int, id: usize, name: Seq<char>)
    requires
        n <= doc.nodes@.len(),
    ensures
        cleared(doc, frame, n).contains((id, name)) <==> exists|i: int|
            0 <= i < n && (#[trigger] doc.nodes@[i]).id == id && cleared_on(
                doc,
                frame,
                i,
            ).contains(name),
    decreases n,
{
    if n > 0 {
        lemma_cleared(doc, frame, n - 1, id, name);
        let before = cleared(doc, frame, n - 1);
        let own = cleared_on(doc, frame, n - 1);
        let mine = with_id(doc.nodes@[n - 1].id, own);
        let all = cleared(doc, frame, n);
        if all.contains((id, name)) {
            let k = choose|k: int| 0 <= k < all.len() && all[k] == (id, name);
            if k < before.len() {
                assert(before[k] == (id, name));
                assert(before.contains((id, name)));
                let i = choose|i: int|
                    0 <= i < n - 1 && (#[trigger] doc.nodes@[i]).id == id && cleared_on(
                        doc,
                        frame,
                        i,
                    ).contains(name);
                assert(doc.nodes@[i].id == id);
            } else {
                assert(mine[k - before.len()] == (id, name));
                assert(own[k - before.len()] == name);
                assert(doc.nodes@[n - 1].id == id);
            }
        }
        if exists|i: int|
            0 <= i < n && (#[trigger] doc.nodes@[i]).id == id && cleared_on(
                doc,
                frame,
                i,
            ).contains(name) {
            let i = choose|i: int|
                0 <= i < n && (#[trigger] doc.nodes@[i]).id == id && cleared_on(
                    doc,
                    frame,
                    i,
                ).contains(name);
            if i < n - 1 {
                assert(before.contains((id, name)));
                let k = choose|k: int| 0 <= k < before.len() && before[k] == (id, name);
                assert(all[k] == (id, name));
            } else {
                let k = choose|k: int| 0 <= k < own.len() && own[k] == name;
                assert(mine[k] == (id, name));
                assert(all[before.len() + k] == (id, name));
            }
        }
    }
}

/// What is cleared in a frame are the attributes that carry script, on every
/// element below it that stays, and no other.
pub proof fn law_what_a_frame_is_cleared_of(
    doc: Document,
    frame: usize,
    r: Sifted,
    id: usize,
    name: Seq<char>,
)
    requires
        doc.wf(),
        frame < doc.nodes@.len(),
        call_ensures(sift_frame, (&doc, frame), r),
    ensures
        clears(r.defused@).contains((id, name)) <==> exists|i: int, j: int|
            #![trigger doc.nodes@[i].element->Some_0.attrs@[j]]
            0 <= i < doc.nodes@.len() && doc.nodes@[i].id == id && doc.nodes@[i].element is Some && 0
                <= j < doc.nodes@[i].element->Some_0.attrs@.len()
                && doc.nodes@[i].element->Some_0.attrs@[j].0@ == name && is_script_attribute(
                name,
                doc.nodes@[i].element->Some_0.attrs@[j].1@,
            ) && is_below(doc, frame as int, i) && (forall|a: int|
                (a == i || is_below(doc, a, i)) && #[trigger] is_below(doc, frame as int, a)
                    ==> !is_unwelcome(doc, a)),
{
    let f = frame as int;
    lemma_cleared(doc, f, doc.nodes@.len() as int, id, name);
    assert forall|i: int| 0 <= i < doc.nodes@.len() && i != f implies (#[trigger] stays(doc, f, i)
        <==> is_below(doc, f, i) && (forall|a: int|
        (a == i || is_below(doc, a, i)) && #[trigger] is_below(doc, f, a) ==> !is_unwelcome(
            doc,
            a,
        ))) by {
        lemma_what_stays(doc, f, i);
    }
    law_what_is_below(doc, f, f);
    if clears(r.defused@).contains((id, name)) {
        let i = choose|i: int|
            0 <= i < doc.nodes@.len() && (#[trigger] doc.nodes@[i]).id == id && cleared_on(
                doc,
                f,
                i,
            ).contains(name);
        let e = doc.nodes@[i].element->Some_0;
        lemma_script_attrs(pairs(e.attrs@), name);
        let j = choose|j: int|
            0 <= j < pairs(e.attrs@).len() && (#[trigger] pairs(e.attrs@)[j]).0 == name
                && is_script_attribute(pairs(e.attrs@)[j].0, pairs(e.attrs@)[j].1);
        assert(doc.nodes@[i].element->Some_0.attrs@[j].0@ == name);
        assert(stays(doc, f, i));
    }
    if exists|i: int, j: int|
        #![trigger doc.nodes@[i].element->Some_0.attrs@[j]]
        0 <= i < doc.nodes@.len() && doc.nodes@[i].id == id && doc.nodes@[i].element is Some && 0
            <= j < doc.nodes@[i].element->Some_0.attrs@.len()
            && doc.nodes@[i].element->Some_0.attrs@[j].0@ == name && is_script_attribute(
            name,
            doc.nodes@[i].element->Some_0.attrs@[j].1@,
        ) && is_below(doc, f, i) && (forall|a: int|
            (a == i || is_below(doc, a, i)) && #[trigger] is_below(doc, f, a) ==> !is_unwelcome(
                doc,
                a,
            )) {
        let (i, j) = choose|i: int, j: int|
            #![trigger doc.nodes@[i].element->Some_0.attrs@[j]]
            0 <= i < doc.nodes@.len() && doc.nodes@[i].id == id && doc.nodes@[i].element is Some && 0
                <= j < doc.nodes@[i].element->Some_0.attrs@.len()
                && doc.nodes@[i].element->Some_0.attrs@[j].0@ == name && is_script_attribute(
                name,
                doc.nodes@[i].element->Some_0.attrs@[j].1@,
            ) && is_below(doc, f, i) && (forall|a: int|
                (a == i || is_below(doc, a, i)) && #[trigger] is_below(doc, f, a) ==> !is_unwelcome(
                    doc,
                    a,
                ));
        let e = doc.nodes@[i].element->Some_0;
        lemma_script_attrs(pairs(e.attrs@), name);
        assert(pairs(e.attrs@)[j].0 == name);
        assert(i != f);
        assert(stays(doc, f, i));
        assert(cleared_on(doc, f, i).contains(name));
        assert(doc.nodes@[i].id == id);
    }
}

/// The scripts that are counted are the removed elements that are scripts.
pub proof fn law_how_many_scripts_a_frame_loses(doc: Document, frame: usize, r: Sifted)
    requires
        doc.wf(),
        frame < doc.nodes@.len(),
        call_ensures(sift_frame, (&doc, frame), r),
    ensures
        r.scripts == Set::new(
            |i: int|
                0 <= i < doc.nodes@.len() && (doc.nodes@[i].element matches Some(e) && e.name@
                    == "script"@) && is_below(doc, frame as int, i) && (forall|a: int|
                    is_below(doc, a, i) && #[trigger] is_below(doc, frame as int, a)
                        ==> !is_unwelcome(doc, a)),
        ).len(),
{
    let f = frame as int;
    let n = doc.nodes@.len() as int;
    lemma_scripts_gone(doc, f, n);
    let counted = Set::new(
        |i: int|
            0 <= i < n && goes(doc, f, i) && doc.nodes@[i].element->Some_0.name@ == "script"@,
    );
    let named = Set::new(
        |i: int|
            0 <= i < doc.nodes@.len() && (doc.nodes@[i].element matches Some(e) && e.name@
                == "script"@) && is_below(doc, f, i) && (forall|a: int|
                is_below(doc, a, i) && #[trigger] is_below(doc, f, a) ==> !is_unwelcome(doc, a)),
    );
    assert forall|i: int| counted.contains(i) <==> #[trigger] named.contains(i) by {
        if 0 <= i < n {
            lemma_what_goes(doc, f, i);
        }
    }
    assert(counted =~= named);
}

proof fn lemma_scripts_gone(doc: Document, frame: int, n: int)
    requires
        0 <= n <= doc.nodes@.len(),
    ensures
        ({
            let counted = Set::new(
                |i: int|
                    0 <= i < n && goes(doc, frame, i) && doc.nodes@[i].element->Some_0.name@
                        == "script"@,
            );
            counted.finite() && counted.len() == scripts_gone(doc, frame, n)
        }),
    decreases n,
{
    let counted = Set::new(
        |i: int|
            0 <= i < n && goes(doc, frame, i) && doc.nodes@[i].element->Some_0.name@ == "script"@,
    );
    if n == 0 {
        assert(counted =~= Set::empty());
    } else {
        lemma_scripts_gone(doc, frame, n - 1);
        let before = Set::new(
            |i: int|
                0 <= i < n - 1 && goes(doc, frame, i) && doc.nodes@[i].element->Some_0.name@
                    == "script"@,
        );
        if goes(doc, frame, n - 1) && doc.nodes@[n - 1].element->Some_0.name@ == "script"@ {
            assert(counted =~= before.insert(n - 1));
            assert(!before.contains(n - 1));
        } else {
            assert(counted =~= before);
        }
    }
}

proof fn lemma_kind_words()
    ensures
        lowered("checkbox"@) == "checkbox"@,
        lowered("radio"@) == "radio"@,
{
    reveal_strlit("checkbox");
    reveal_strlit("radio");
    assert(lowered("checkbox"@) =~= "checkbox"@);
    assert(lowered("radio"@) =~= "radio"@);
}

/// Only an input of type `checkbox` or `radio`, in any case, can be checked,
/// and one that is as asked is left alone. Checking a radio turns off every
/// other radio of its name, wherever it stands. A checkbox, a radio without a
/// name and anything that is unchecked turn nothing off.
pub proof fn law_what_checking_does(doc: Document, at: usize, checked: bool, r: Checking)
    requires
        call_ensures(set_checked, (&doc, at, checked), r),
        at < doc.nodes@.len(),
    ensures
        match doc.nodes@[at as int].element {
            None => r is NotCheckable,
            Some(e) => {
                let kind = e.attr("type"@);
                let word = lowered(kind->Some_0);
                let can = e.name@ == "input"@ && kind is Some && (word == "checkbox"@ || word
                    == "radio"@);
                &&& r is NotCheckable <==> !can
                &&& can ==> (r is Already <==> (checked <==> e.checked == Some(true)))
                &&& r matches Checking::Turn { off } ==> forall|id: usize| #[trigger]
                    off@.contains(id) <==> checked && word == "radio"@ && e.attr("name"@) is Some
                        && id != doc.nodes@[at as int].id && exists|i: int|
                        0 <= i < doc.nodes@.len() && (#[trigger] doc.nodes@[i]).id == id && (
                        doc.nodes@[i].element matches Some(o) && o.attr("type"@) is Some && lowered(
                            o.attr("type"@)->Some_0,
                        ) == "radio"@ && o.attr("name"@) == e.attr("name"@))
            },
        },
{
    lemma_kind_words();
    if let Some(e) = doc.nodes@[at as int].element {
        if let Checking::Turn { off } = r {
            if checked && is_kind(e, "radio"@) && e.attr("name"@) is Some {
                let f = |i: int|
                    doc.nodes@[i].id != doc.nodes@[at as int].id && (
                    doc.nodes@[i].element matches Some(o) && is_in_group(
                        o,
                        e.attr("name"@)->Some_0,
                    ));
                assert forall|id: usize| #[trigger] off@.contains(id) <==> exists|i: int|
                    0 <= i < doc.nodes@.len() && f(i) && (#[trigger] doc.nodes@[i]).id == id by {
                    lemma_ids_where(doc, doc.nodes@.len() as int, f, id);
                }
            }
        }
    }
}

/// A checkbox or radio without a state of its own gets one, checked exactly
/// where it has a `checked` attribute, whatever that says. Nothing else does.
pub proof fn law_which_boxes_start_checked(
    doc: Document,
    r: Vec<(usize, bool)>,
    id: usize,
    on: bool,
)
    requires
        call_ensures(seed_checkbox_state, (&doc,), r),
    ensures
        r@.contains((id, on)) <==> exists|i: int|
            0 <= i < doc.nodes@.len() && (#[trigger] doc.nodes@[i]).id == id && (
            doc.nodes@[i].element matches Some(e) && e.name@ == "input"@ && e.attr("type"@) is Some
                && (lowered(e.attr("type"@)->Some_0) == "checkbox"@ || lowered(
                e.attr("type"@)->Some_0,
            ) == "radio"@) && e.checked is None && !e.other_state && on == (exists|j: int|
                0 <= j < e.attrs@.len() && (#[trigger] e.attrs@[j]).0@ == "checked"@)),
{
    lemma_kind_words();
    lemma_seeds(doc, doc.nodes@.len() as int, id, on);
    assert forall|e: Element|
        (#[trigger] e.attr("checked"@)) is Some <==> (exists|j: int|
            0 <= j < e.attrs@.len() && (#[trigger] e.attrs@[j]).0@ == "checked"@) by {
        law_an_attribute_is_the_first_of_its_name(e, "checked"@);
    }
    if r@.contains((id, on)) {
        let i = choose|i: int|
            0 <= i < doc.nodes@.len() && (#[trigger] doc.nodes@[i]).id == id && needs_state(
                doc.nodes@[i],
            ) && on == (doc.nodes@[i].element->Some_0.attr("checked"@) is Some);
        assert(doc.nodes@[i].id == id);
    }
}

proof fn lemma_seeds(doc: Document, n: int, id: usize, on: bool)
    requires
        n <= doc.nodes@.len(),
    ensures
        seeds(doc, n).contains((id, on)) <==> exists|i: int|
            0 <= i < n && (#[trigger] doc.nodes@[i]).id == id && needs_state(doc.nodes@[i]) && on
                == (doc.nodes@[i].element->Some_0.attr("checked"@) is Some),
    decreases n,
{
    if n > 0 {
        lemma_seeds(doc, n - 1, id, on);
        let before = seeds(doc, n - 1);
        let all = seeds(doc, n);
        if all.contains((id, on)) {
            let k = choose|k: int| 0 <= k < all.len() && all[k] == (id, on);
            if k < before.len() {
                assert(before[k] == (id, on));
                assert(before.contains((id, on)));
                let i = choose|i: int|
                    0 <= i < n - 1 && (#[trigger] doc.nodes@[i]).id == id && needs_state(
                        doc.nodes@[i],
                    ) && on == (doc.nodes@[i].element->Some_0.attr("checked"@) is Some);
                assert(doc.nodes@[i].id == id);
            } else {
                assert(doc.nodes@[n - 1].id == id);
            }
        }
        if exists|i: int|
            0 <= i < n && (#[trigger] doc.nodes@[i]).id == id && needs_state(doc.nodes@[i]) && on
                == (doc.nodes@[i].element->Some_0.attr("checked"@) is Some) {
            let i = choose|i: int|
                0 <= i < n && (#[trigger] doc.nodes@[i]).id == id && needs_state(doc.nodes@[i])
                    && on == (doc.nodes@[i].element->Some_0.attr("checked"@) is Some);
            if i < n - 1 {
                assert(before.contains((id, on)));
                let k = choose|k: int| 0 <= k < before.len() && before[k] == (id, on);
                assert(all[k] == (id, on));
            } else {
                assert(all[all.len() - 1] == (id, on));
            }
        }
    }
}

proof fn lemma_options(doc: Document, select: int, n: int)
    ensures
        forall|i: int| #[trigger]
            options_of(doc, select, n).contains(i) <==> 0 <= i < n && is_option(doc, select, i),
        forall|a: int, b: int|
            0 <= a < b < options_of(doc, select, n).len() ==> (#[trigger] options_of(
                doc,
                select,
                n,
            )[a]) < (#[trigger] options_of(doc, select, n)[b]),
        forall|a: int|
            0 <= a < options_of(doc, select, n).len() ==> 0 <= (#[trigger] options_of(
                doc,
                select,
                n,
            )[a]) < n,
    decreases n,
{
    let all = options_of(doc, select, n);
    if n > 0 {
        lemma_options(doc, select, n - 1);
        let before = options_of(doc, select, n - 1);
        assert forall|i: int| #[trigger] all.contains(i) <==> 0 <= i < n && is_option(
            doc,
            select,
            i,
        ) by {
            if all.contains(i) {
                let k = choose|k: int| 0 <= k < all.len() && all[k] == i;
                if k < before.len() {
                    assert(before[k] == i);
                    assert(before.contains(i));
                }
            }
            if 0 <= i < n - 1 && is_option(doc, select, i) {
                assert(before.contains(i));
                let k = choose|k: int| 0 <= k < before.len() && before[k] == i;
                assert(all[k] == i);
            }
            if i == n - 1 && is_option(doc, select, i) {
                assert(all[all.len() - 1] == i);
            }
        }
    }
}

proof fn lemma_first_by(doc: Document, at: Seq<int>, wanted: Seq<char>)
    requires
        forall|a: int, b: int| 0 <= a < b < at.len() ==> #[trigger] at[a] < #[trigger] at[b],
    ensures
        match first_by_value(doc, at, wanted) {
            Some(i) => at.contains(i) && option_value(doc.nodes@[i]) == wanted && forall|j: int|
                j < i && #[trigger] at.contains(j) ==> option_value(doc.nodes@[j]) != wanted,
            None => forall|j: int| #[trigger]
                at.contains(j) ==> option_value(doc.nodes@[j]) != wanted,
        },
        match first_by_text(doc, at, wanted) {
            Some(i) => at.contains(i) && doc.nodes@[i].text@ == wanted && forall|j: int|
                j < i && #[trigger] at.contains(j) ==> doc.nodes@[j].text@ != wanted,
            None => forall|j: int| #[trigger] at.contains(j) ==> doc.nodes@[j].text@ != wanted,
        },
    decreases at.len(),
{
    if at.len() > 0 {
        let rest = at.drop_first();
        assert forall|a: int, b: int| 0 <= a < b < rest.len() implies #[trigger] rest[a]
            < #[trigger] rest[b] by {
            assert(at[a + 1] < at[b + 1]);
        }
        lemma_first_by(doc, rest, wanted);
        assert(at.contains(at[0]));
        assert forall|j: int| #[trigger] at.contains(j) <==> j == at[0] || rest.contains(j) by {
            if at.contains(j) {
                let k = choose|k: int| 0 <= k < at.len() && at[k] == j;
                if k > 0 {
                    assert(rest[k - 1] == j);
                }
            }
            if rest.contains(j) {
                let k = choose|k: int| 0 <= k < rest.len() && rest[k] == j;
                assert(at[k + 1] == j);
            }
        }
        assert forall|j: int| #[trigger] rest.contains(j) implies at[0] < j by {
            let k = choose|k: int| 0 <= k < rest.len() && rest[k] == j;
            assert(at[0] < at[k + 1]);
        }
    }
}

proof fn lemma_ids_but(doc: Document, at: Seq<int>, but: int, id: usize)
    ensures
        ids_but(doc, at, but).contains(id) <==> id != doc.nodes@[but].id && exists|j: int| #[trigger]
            at.contains(j) && doc.nodes@[j].id == id,
    decreases at.len(),
{
    let all = ids_but(doc, at, but);
    if at.len() > 0 {
        let front = at.drop_last();
        lemma_ids_but(doc, front, but, id);
        let before = ids_but(doc, front, but);
        assert forall|j: int| #[trigger] at.contains(j) <==> j == at.last() || front.contains(j) by {
            if at.contains(j) {
                let k = choose|k: int| 0 <= k < at.len() && at[k] == j;
                if k < front.len() {
                    assert(front[k] == j);
                }
            }
            if front.contains(j) {
                let k = choose|k: int| 0 <= k < front.len() && front[k] == j;
                assert(at[k] == j);
            }
            assert(at[at.len() - 1] == at.last());
        }
        if all.contains(id) {
            let k = choose|k: int| 0 <= k < all.len() && all[k] == id;
            if k < before.len() {
                assert(before[k] == id);
                assert(before.contains(id));
                let j = choose|j: int| #[trigger] front.contains(j) && doc.nodes@[j].id == id;
                assert(at.contains(j));
            } else {
                assert(at.contains(at.last()));
            }
        }
        if id != doc.nodes@[but].id && exists|j: int| #[trigger]
            at.contains(j) && doc.nodes@[j].id == id {
            let j = choose|j: int| #[trigger] at.contains(j) && doc.nodes@[j].id == id;
            if front.contains(j) {
                assert(before.contains(id));
                let k = choose|k: int| 0 <= k < before.len() && before[k] == id;
                assert(all[k] == id);
            } else {
                assert(all[all.len() - 1] == id);
            }
        }
    } else {
        assert(!all.contains(id));
        assert forall|j: int| !(#[trigger] at.contains(j)) by {}
    }
}

/// What choosing in a `select` marks: the first option below it whose value is
/// the one wanted, an option's value being its `value` or else its text; where
/// none has it, the first whose text is the one wanted; and where none has
/// that either, nothing. All the others below it are unmarked.
pub proof fn law_what_choosing_marks(doc: Document, at: usize, wanted: &str, r: Choice, i: int)
    requires
        doc.wf(),
        call_ensures(select_option, (&doc, at, wanted), r),
        at < doc.nodes@.len(),
        doc.nodes@[at as int].element matches Some(e) && e.name@ == "select"@,
    ensures
        ({
            let is_one = |j: int|
                0 <= j < doc.nodes@.len() && is_below(doc, at as int, j) && (
                doc.nodes@[j].element matches Some(e) && e.name@ == "option"@);
            let says = |j: int|
                {
                    let v = doc.nodes@[j].element->Some_0.attr("value"@);
                    if v is Some {
                        v->Some_0
                    } else {
                        doc.nodes@[j].text@
                    }
                };
            let by_value = is_one(i) && says(i) == wanted@ && forall|j: int|
                j < i && #[trigger] is_one(j) ==> says(j) != wanted@;
            let by_text = is_one(i) && doc.nodes@[i].text@ == wanted@ && (forall|j: int|
                #[trigger] is_one(j) ==> says(j) != wanted@) && (forall|j: int|
                j < i && #[trigger] is_one(j) ==> doc.nodes@[j].text@ != wanted@);
            &&& by_value || by_text ==> r.chosen == Some(doc.nodes@[i].id) && (
            r.outcome matches SelectOutcome::Chosen(v) && v@ == says(i)) && forall|id: usize|
                #[trigger]
                r.others@.contains(id) <==> id != doc.nodes@[i].id && exists|j: int|
                    #[trigger] is_one(j) && doc.nodes@[j].id == id
            &&& (forall|j: int| #[trigger]
                is_one(j) ==> says(j) != wanted@ && doc.nodes@[j].text@ != wanted@)
                ==> r.outcome is NoSuchOption && r.chosen is None && r.others@.len() == 0
        }),
{
    let select = at as int;
    let n = doc.nodes@.len() as int;
    let all = options_of(doc, select, n);
    lemma_options(doc, select, n);
    lemma_first_by(doc, all, wanted@);
    let is_one = |j: int|
        0 <= j < doc.nodes@.len() && is_below(doc, at as int, j) && (
        doc.nodes@[j].element matches Some(e) && e.name@ == "option"@);
    let says = |j: int|
        {
            let v = doc.nodes@[j].element->Some_0.attr("value"@);
            if v is Some {
                v->Some_0
            } else {
                doc.nodes@[j].text@
            }
        };
    assert forall|j: int| #[trigger] is_one(j) <==> all.contains(j) by {}
    assert forall|j: int| #[trigger] all.contains(j) implies option_value(doc.nodes@[j]) == says(
        j,
    ) by {
        assert(is_one(j));
    }
    let by_value = is_one(i) && says(i) == wanted@ && forall|j: int|
        j < i && #[trigger] is_one(j) ==> says(j) != wanted@;
    let by_text = is_one(i) && doc.nodes@[i].text@ == wanted@ && (forall|j: int| #[trigger]
        is_one(j) ==> says(j) != wanted@) && (forall|j: int|
        j < i && #[trigger] is_one(j) ==> doc.nodes@[j].text@ != wanted@);
    if by_value {
        assert(all.contains(i));
        assert(option_value(doc.nodes@[i]) == wanted@);
        let k = first_by_value(doc, all, wanted@)->Some_0;
        assert(is_one(k));
        assert(k == i);
    }
    if by_text {
        assert(all.contains(i));
        if let Some(k) = first_by_value(doc, all, wanted@) {
            assert(is_one(k));
            assert(says(k) == wanted@);
        }
        let k = first_by_text(doc, all, wanted@)->Some_0;
        assert(is_one(k));
        assert(k == i);
    }
    if by_value || by_text {
        assert(option_meant(doc, select, wanted@) == Some(i));
        assert forall|id: usize| #[trigger] r.others@.contains(id) <==> id != doc.nodes@[i].id
            && exists|j: int| #[trigger] is_one(j) && doc.nodes@[j].id == id by {
            lemma_ids_but(doc, all, i, id);
            if r.others@.contains(id) {
                let j = choose|j: int| #[trigger] all.contains(j) && doc.nodes@[j].id == id;
                assert(is_one(j));
            }
            if exists|j: int| #[trigger] is_one(j) && doc.nodes@[j].id == id {
                let j = choose|j: int| #[trigger] is_one(j) && doc.nodes@[j].id == id;
                assert(all.contains(j));
            }
        }
    }
    if forall|j: int| #[trigger]
        is_one(j) ==> says(j) != wanted@ && doc.nodes@[j].text@ != wanted@ {
        if let Some(k) = first_by_value(doc, all, wanted@) {
            assert(is_one(k));
        }
        if let Some(k) = first_by_text(doc, all, wanted@) {
            assert(is_one(k));
        }
    }
}

/// The link at a node is the `href` that a click on it follows, completed by
/// the page's own address.
pub proof fn law_where_a_click_leads(
    doc: Document,
    at: usize,
    base: &Url,
    href: Option<String>,
    r: Option<Url>,
)
    requires
        call_ensures(link_above, (&doc, at), href),
        call_ensures(link_at, (&doc, at, base), r),
    ensures
        match href {
            Some(to) => url_option(r) == (match url_joined(base@.href, to@) {
                Ok(u) => Some(u),
                Err(_) => None,
            }),
            None => r is None,
        },
{
}

} // verus!
