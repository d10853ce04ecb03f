//! Pull structured data out of a page by selector.
//!
//! ```text
//! "<sel>"                                first match's text, or null
//! ["<sel>"]                              every match's text
//! {"selector": "<sel>", "attr": "href"}  an attribute; href/src come back absolute
//! [{"selector": "<sel>", "attr": "..."}] that attribute of every match
//! [{"selector": "<sel>", "limit": 5,     one object per match, sub-selectors
//!   "fields": { ... }}]                  scoped to it
//! ```
//!
//! An empty array is a valid result; a schema where every top-level key came
//! back null is a mistake the caller should hear about. Values are
//! page-derived: none spans a line, and none holds the end of the fence.
use vstd::prelude::*;

use crate::json::{
    entry, entry_of, json_view, lemma_entry_within, lemma_list_push, lemma_object_push, list_view, object_view, Json,
    JsonView,
};
use crate::text::{
    ascending, chars_of, contains, decimal, decimal_text, holds, is_one_line, is_space, less,
    lemma_on_one_line, lemma_text_less_total, lemma_text_less_transitive, occurs_at, on_one_line,
    one_line, same, string_view, text_less,
};
use crate::url::{url_joined, Url, UrlView};

verus! {

/// The document root.
pub const ROOT: usize = 0;

/// One field of a schema.
#[derive(Debug, PartialEq, Eq)]
pub enum Field {
    /// `"h1"`: the first match's text.
    Text(String),
    /// `["h1"]`: every match's text.
    TextAll(String),
    /// `{"selector": "a", "attr": "href"}`: an attribute of the first match.
    Attr { selector: String, attr: String },
    /// `[{"selector": "a", "attr": "href"}]`: that attribute of every match.
    AttrAll { selector: String, attr: String, limit: Option<usize> },
    /// `[{"selector": "li", "fields": {…}}]`: one object per match.
    Objects { selector: String, limit: Option<usize>, fields: Vec<(String, Field)> },
}

/// What a [`Field`] asks for.
pub enum FieldView {
    Text(Seq<char>),
    TextAll(Seq<char>),
    Attr { selector: Seq<char>, attr: Seq<char> },
    AttrAll { selector: Seq<char>, attr: Seq<char>, limit: Option<usize> },
    Objects { selector: Seq<char>, limit: Option<usize>, fields: Seq<(Seq<char>, FieldView)> },
}

pub open spec fn field_view(f: Field) -> FieldView
    decreases f,
{
    match f {
        Field::Text(s) => FieldView::Text(s@),
        Field::TextAll(s) => FieldView::TextAll(s@),
        Field::Attr { selector, attr } => FieldView::Attr { selector: selector@, attr: attr@ },
        Field::AttrAll { selector, attr, limit } => FieldView::AttrAll {
            selector: selector@,
            attr: attr@,
            limit,
        },
        Field::Objects { selector, limit, fields } => FieldView::Objects {
            selector: selector@,
            limit,
            fields: fields_view(fields@),
        },
    }
}

pub open spec fn fields_view(fs: Seq<(String, Field)>) -> Seq<(Seq<char>, FieldView)>
    decreases fs,
{
    if fs.len() == 0 {
        Seq::empty()
    } else {
        fields_view(fs.drop_last()).push((fs.last().0@, field_view(fs.last().1)))
    }
}

/// Why a verb is refused.
#[derive(Debug, Clone, Copy, PartialEq, Eq, Structural)]
pub enum Code {
    BadRequest,
    NoMatch,
}

/// A refusal, with the sentence that says what to write instead.
#[derive(Debug, Clone, PartialEq, Eq)]
pub struct VerbError {
    pub code: Code,
    pub message: String,
}

impl VerbError {
    pub fn new(code: Code, message: String) -> (r: VerbError)
        ensures
            r.code == code,
            r.message@ == message@,
    {
        VerbError { code, message }
    }

    pub fn bad_request(message: String) -> (r: VerbError)
        ensures
            r.code == Code::BadRequest,
            r.message@ == message@,
    {
        VerbError { code: Code::BadRequest, message }
    }
}

// ------------------------------------------------------------------ parsing

/// A string that says something, under that name.
pub open spec fn text_at(map: Seq<(String, Json)>, key: Seq<char>) -> Option<Seq<char>> {
    match entry_of(map, key) {
        Some(Json::Text(t)) => if t@.len() > 0 {
            Some(t@)
        } else {
            None
        },
        _ => None,
    }
}

pub open spec fn limit_at(map: Seq<(String, Json)>) -> Option<usize> {
    match entry_of(map, "limit"@) {
        Some(Json::Number { whole: Some(n), .. }) => Some(n as usize),
        _ => None,
    }
}

/// What a value is, in words.
pub open spec fn kind_name(j: Json) -> Seq<char> {
    match j {
        Json::Null => "null"@,
        Json::Bool(_) => "a boolean"@,
        Json::Number { .. } => "a number"@,
        Json::Text(_) => "a string"@,
        Json::List(_) => "an array"@,
        Json::Object(_) => "an object"@,
    }
}

/// The fields with one more, in its place; one of that name is replaced.
pub open spec fn with_field(
    fs: Seq<(Seq<char>, FieldView)>,
    name: Seq<char>,
    f: FieldView,
) -> Seq<(Seq<char>, FieldView)>
    decreases fs.len(),
{
    if fs.len() == 0 {
        seq![(name, f)]
    } else if fs[0].0 == name {
        seq![(name, f)] + fs.drop_first()
    } else if text_less(name, fs[0].0) {
        seq![(name, f)] + fs
    } else {
        seq![fs[0]] + with_field(fs.drop_first(), name, f)
    }
}

/// What one spec of a schema asks for, or what is wrong with it. The
/// complaint names the *field*: a schema is written by a model, and the shape
/// it got wrong is the shape it needs to see.
pub open spec fn parsed(name: Seq<char>, spec: Json) -> Result<FieldView, Seq<char>>
    decreases spec, 0int,
{
    match spec {
        Json::Text(selector) => Ok(FieldView::Text(selector@)),
        Json::Object(map) => match text_at(map@, "selector"@) {
            None => Err(
                "`"@ + name + "` is an object, so it needs a `selector` and an `attr`."@,
            ),
            Some(selector) => match text_at(map@, "attr"@) {
                None => Err(
                    "`"@ + name
                        + "` has a `selector` but no `attr`. To read the text instead, write the selector on its own: \""@
                        + name + "\": \""@ + selector + "\"."@,
                ),
                Some(attr) => Ok(FieldView::Attr { selector, attr }),
            },
        },
        Json::List(items) => if items@.len() != 1 {
            Err(
                "`"@ + name
                    + "` is an array, which means \"every match\" \u{2014} it takes exactly one entry, a selector or an object spec, not "@
                    + decimal(items@.len()) + "."@,
            )
        } else {
            match items@[0] {
                Json::Text(selector) => Ok(FieldView::TextAll(selector@)),
                Json::Object(map) => match text_at(map@, "selector"@) {
                    None => Err("`"@ + name + "[0]` needs a `selector`."@),
                    Some(selector) => match text_at(map@, "attr"@) {
                        Some(attr) => Ok(
                            FieldView::AttrAll { selector, attr, limit: limit_at(map@) },
                        ),
                        None => match entry_of(map@, "fields"@) {
                            Some(Json::Object(inner)) => {
                                proof {
                                    lemma_inner_within(spec, items, map, inner);
                                }
                                match parsed_all(inner@) {
                                    Ok(fields) => Ok(
                                        FieldView::Objects {
                                            selector,
                                            limit: limit_at(map@),
                                            fields,
                                        },
                                    ),
                                    Err(e) => Err(e),
                                }
                            },
                            _ => Err(
                                "`"@ + name
                                    + "[0]` needs `fields`, an object of sub-selectors read relative to each match."@,
                            ),
                        },
                    },
                },
                other => Err(
                    "`"@ + name + "[0]` should be a selector or an object spec, not "@ + kind_name(
                        other,
                    ) + "."@,
                ),
            }
        },
        other => Err(
            "`"@ + name + "` should be a selector, an array, or an object spec, not "@ + kind_name(
                other,
            ) + "."@,
        ),
    }
}

/// The sub-fields stand inside the spec, so reading them ends.
pub proof fn lemma_inner_within(
    spec: Json,
    items: Vec<Json>,
    map: Vec<(String, Json)>,
    inner: Vec<(String, Json)>,
)
    requires
        spec == Json::List(items),
        items@.len() == 1,
        items@[0] == Json::Object(map),
        entry_of(map@, "fields"@) == Some(Json::Object(inner)),
    ensures
        decreases_to!(spec => inner@),
{
    lemma_entry_within(map@, "fields"@);
    assert(decreases_to!(spec => spec->List_0));
    assert(decreases_to!(items => items@));
    assert(decreases_to!(items@ => items@[0]));
    assert(decreases_to!(items@[0] => items@[0]->Object_0));
    assert(decreases_to!(map => map@));
    let found = Json::Object(inner);
    assert(decreases_to!(found => found->Object_0));
    assert(decreases_to!(inner => inner@));
}

/// The fields that entries ask for, or what is wrong with the first that is
/// wrong.
pub open spec fn parsed_all(entries: Seq<(String, Json)>) -> Result<
    Seq<(Seq<char>, FieldView)>,
    Seq<char>,
>
    decreases entries, 1int,
{
    if entries.len() == 0 {
        Ok(Seq::empty())
    } else {
        match parsed_all(entries.drop_last()) {
            Err(e) => Err(e),
            Ok(before) => match parsed(entries.last().0@, entries.last().1) {
                Err(e) => Err(e),
                Ok(f) => Ok(with_field(before, entries.last().0@, f)),
            },
        }
    }
}


/// What the fields ask for, one by one.
pub proof fn lemma_fields_view(fs: Seq<(String, Field)>)
    ensures
        fields_view(fs).len() == fs.len(),
        forall|i: int|
            0 <= i < fs.len() ==> #[trigger] fields_view(fs)[i] == (fs[i].0@, field_view(fs[i].1)),
    decreases fs.len(),
{
    if fs.len() > 0 {
        lemma_fields_view(fs.drop_last());
    }
}

/// Adding a field behind others that it neither is nor comes before.
proof fn lemma_with_field_behind(
    fs: Seq<(Seq<char>, FieldView)>,
    i: int,
    name: Seq<char>,
    f: FieldView,
)
    requires
        0 <= i <= fs.len(),
        forall|k: int|
            0 <= k < i ==> (#[trigger] fs[k]).0 != name && !text_less(name, fs[k].0),
    ensures
        with_field(fs, name, f) == fs.take(i) + with_field(fs.skip(i), name, f),
    decreases i,
{
    if i == 0 {
        assert(fs.skip(0) =~= fs);
        assert(fs.take(0) + with_field(fs, name, f) =~= with_field(fs, name, f));
    } else {
        let rest = fs.drop_first();
        assert forall|k: int| 0 <= k < i - 1 implies (#[trigger] rest[k]).0 != name && !text_less(
            name,
            rest[k].0,
        ) by {
            assert(rest[k] == fs[k + 1]);
        }
        lemma_with_field_behind(rest, i - 1, name, f);
        assert(rest.skip(i - 1) =~= fs.skip(i));
        assert(seq![fs[0]] + rest.take(i - 1) =~= fs.take(i));
        assert(seq![fs[0]] + (rest.take(i - 1) + with_field(fs.skip(i), name, f)) =~= fs.take(i)
            + with_field(fs.skip(i), name, f));
    }
}

/// Adds a field in its place; one of that name is replaced.
fn put_field(fs: &mut Vec<(String, Field)>, name: String, f: Field)
    ensures
        fields_view(final(fs)@) == with_field(fields_view(old(fs)@), name@, field_view(f)),
{
    let ghost before = fs@;
    let ghost fv = field_view(f);
    let ghost label = name@;
    let ghost all = fields_view(before);
    proof {
        lemma_fields_view(before);
    }
    let mut i: usize = 0;
    while i < fs.len()
        invariant
            i <= fs.len(),
            fs@ == before,
            before == old(fs)@,
            all == fields_view(before),
            all.len() == before.len(),
            fv == field_view(f),
            label == name@,
            forall|k: int|
                0 <= k < before.len() ==> #[trigger] all[k] == (
                    before[k].0@,
                    field_view(before[k].1),
                ),
            forall|k: int|
                0 <= k < i ==> (#[trigger] all[k]).0 != label && !text_less(label, all[k].0),
        decreases fs.len() - i,
    {
        assert(all[i as int] == (before[i as int].0@, field_view(before[i as int].1)));
        let here = same(&fs[i].0, &name);
        if here {
            proof {
                lemma_with_field_behind(all, i as int, label, fv);
                assert(all.skip(i as int)[0] == all[i as int]);
            }
            fs.set(i, (name, f));
            proof {
                lemma_fields_view(fs@);
                assert(fields_view(fs@) =~= with_field(all, label, fv));
            }
            return;
        }
        if less(&name, &fs[i].0) {
            proof {
                lemma_with_field_behind(all, i as int, label, fv);
                assert(all.skip(i as int)[0] == all[i as int]);
            }
            fs.insert(i, (name, f));
            proof {
                lemma_fields_view(fs@);
                assert(fields_view(fs@) =~= with_field(all, label, fv));
            }
            return;
        }
        i += 1;
    }
    proof {
        lemma_with_field_behind(all, i as int, label, fv);
    }
    fs.push((name, f));
    proof {
        lemma_fields_view(fs@);
        assert(fields_view(fs@) =~= with_field(all, label, fv));
    }
}

fn string_of(map: &Vec<(String, Json)>, key: &str) -> (r: Option<String>)
    ensures
        string_view(r) == text_at(map@, key@),
{
    match entry(map, key) {
        Some(Json::Text(t)) => if same(t, "") {
            proof {
                reveal_strlit("");
            }
            None
        } else {
            proof {
                reveal_strlit("");
                if t@.len() == 0 {
                    assert(t@ =~= ""@);
                }
            }
            Some(t.clone())
        },
        _ => None,
    }
}

fn limit_of(map: &Vec<(String, Json)>) -> (r: Option<usize>)
    ensures
        r == limit_at(map@),
{
    match entry(map, "limit") {
        Some(Json::Number { whole: Some(n), .. }) => Some(
            #[verifier::truncate]
            (*n as usize),
        ),
        _ => None,
    }
}

fn kind_of(value: &Json) -> (r: &'static str)
    ensures
        r@ == kind_name(*value),
{
    match value {
        Json::Null => "null",
        Json::Bool(_) => "a boolean",
        Json::Number { .. } => "a number",
        Json::Text(_) => "a string",
        Json::List(_) => "an array",
        Json::Object(_) => "an object",
    }
}

/// The complaint about a field: what is wrong, between backticks and after.
fn about(name: &str, rest: &str) -> (r: VerbError)
    ensures
        r.code == Code::BadRequest,
        r.message@ == "`"@ + name@ + rest@,
{
    let mut message = "`".to_owned();
    message.append(name);
    message.append(rest);
    VerbError::bad_request(message)
}

/// What a reading came to.
pub open spec fn reads_as(r: Result<Field, VerbError>, want: Result<FieldView, Seq<char>>) -> bool {
    match r {
        Ok(f) => want == Ok::<FieldView, Seq<char>>(field_view(f)),
        Err(e) => e.code == Code::BadRequest && want == Err::<FieldView, Seq<char>>(e.message@),
    }
}

/// Reads one spec of a schema.
pub fn parse_field(name: &str, spec: &Json) -> (r: Result<Field, VerbError>)
    ensures
        reads_as(r, parsed(name@, *spec)),
    decreases *spec, 0int,
{
    match spec {
        Json::Text(selector) => Ok(Field::Text(selector.clone())),
        Json::Object(map) => {
            let selector = match string_of(map, "selector") {
                Some(s) => s,
                None => {
                    return Err(
                        about(name, "` is an object, so it needs a `selector` and an `attr`."),
                    );
                },
            };
            let attr = match string_of(map, "attr") {
                Some(s) => s,
                None => {
                    let mut e = about(
                        name,
                        "` has a `selector` but no `attr`. To read the text instead, write the selector on its own: \"",
                    );
                    e.message.append(name);
                    e.message.append("\": \"");
                    e.message.append(&selector);
                    e.message.append("\".");
                    return Err(e);
                },
            };
            Ok(Field::Attr { selector, attr })
        },
        Json::List(items) => {
            if items.len() != 1 {
                let mut e = about(
                    name,
                    "` is an array, which means \"every match\" \u{2014} it takes exactly one entry, a selector or an object spec, not ",
                );
                e.message.append(&decimal_text(items.len() as u64));
                e.message.append(".");
                return Err(e);
            }
            match &items[0] {
                Json::Text(selector) => Ok(Field::TextAll(selector.clone())),
                Json::Object(map) => {
                    let selector = match string_of(map, "selector") {
                        Some(s) => s,
                        None => {
                            return Err(about(name, "[0]` needs a `selector`."));
                        },
                    };
                    if let Some(attr) = string_of(map, "attr") {
                        return Ok(Field::AttrAll { selector, attr, limit: limit_of(map) });
                    }
                    match entry(map, "fields") {
                        Some(Json::Object(inner)) => {
                            proof {
                                lemma_inner_within(*spec, *items, *map, *inner);
                            }
                            match parse_all(inner) {
                                Ok(fields) => Ok(
                                    Field::Objects { selector, limit: limit_of(map), fields },
                                ),
                                Err(e) => Err(e),
                            }
                        },
                        _ => Err(
                            about(
                                name,
                                "[0]` needs `fields`, an object of sub-selectors read relative to each match.",
                            ),
                        ),
                    }
                },
                other => {
                    let mut e = about(
                        name,
                        "[0]` should be a selector or an object spec, not ",
                    );
                    e.message.append(kind_of(other));
                    e.message.append(".");
                    Err(e)
                },
            }
        },
        other => {
            let mut e = about(
                name,
                "` should be a selector, an array, or an object spec, not ",
            );
            e.message.append(kind_of(other));
            e.message.append(".");
            Err(e)
        },
    }
}

/// What a reading of many came to.
pub open spec fn all_read_as(
    r: Result<Vec<(String, Field)>, VerbError>,
    want: Result<Seq<(Seq<char>, FieldView)>, Seq<char>>,
) -> bool {
    match r {
        Ok(fs) => want == Ok::<Seq<(Seq<char>, FieldView)>, Seq<char>>(fields_view(fs@)),
        Err(e) => e.code == Code::BadRequest && want == Err::<
            Seq<(Seq<char>, FieldView)>,
            Seq<char>,
        >(e.message@),
    }
}

/// A refusal stays a refusal, whatever entries follow.
proof fn lemma_first_refusal(entries: Seq<(String, Json)>, i: int, e: Seq<char>)
    requires
        0 <= i <= entries.len(),
        parsed_all(entries.take(i)) == Err::<Seq<(Seq<char>, FieldView)>, Seq<char>>(e),
    ensures
        parsed_all(entries) == Err::<Seq<(Seq<char>, FieldView)>, Seq<char>>(e),
    decreases entries.len() - i,
{
    if i == entries.len() {
        assert(entries.take(i) =~= entries);
    } else {
        assert(entries.take(i + 1).drop_last() =~= entries.take(i));
        lemma_first_refusal(entries, i + 1, e);
    }
}

/// Reads the specs of an object, in order.
fn parse_all(entries: &Vec<(String, Json)>) -> (r: Result<Vec<(String, Field)>, VerbError>)
    ensures
        all_read_as(r, parsed_all(entries@)),
    decreases entries@, 1int,
{
    let mut out: Vec<(String, Field)> = Vec::new();
    let ghost all = entries@;
    let mut i: usize = 0;
    while i < entries.len()
        invariant
            i <= entries.len(),
            all == entries@,
            parsed_all(all.take(i as int)) == Ok::<Seq<(Seq<char>, FieldView)>, Seq<char>>(
                fields_view(out@),
            ),
        decreases entries.len() - i,
    {
        assert(all.take(i + 1).drop_last() =~= all.take(i as int));
        assert(all.take(i + 1).last() == all[i as int]);
        assert(decreases_to!(entries@ => entries@[i as int]));
        assert(decreases_to!(entries@[i as int] => entries@[i as int].1));
        match parse_field(&entries[i].0, &entries[i].1) {
            Err(e) => {
                proof {
                    lemma_first_refusal(all, i + 1, e.message@);
                }
                return Err(e);
            },
            Ok(f) => {
                put_field(&mut out, entries[i].0.clone(), f);
            },
        }
        i += 1;
    }
    assert(all.take(i as int) =~= all);
    Ok(out)
}

/// What a schema asks for, or why it will not do.
pub open spec fn parsed_schema(value: Json) -> Result<Seq<(Seq<char>, FieldView)>, Seq<char>> {
    match value {
        Json::Object(entries) => if entries@.len() == 0 {
            Err("`extract` was given an empty schema, so there is nothing to look for."@)
        } else {
            parsed_all(entries@)
        },
        _ => Err(
            "`extract` takes a schema object: field names to selectors. For example {\"title\": \"h1\", \"links\": [\"a\"]}."@,
        ),
    }
}

/// Reads a schema, naming the offending key when it will not do.
pub fn parse(value: &Json) -> (r: Result<Vec<(String, Field)>, VerbError>)
    ensures
        all_read_as(r, parsed_schema(*value)),
{
    match value {
        Json::Object(entries) => if entries.len() == 0 {
            Err(
                VerbError::bad_request(
                    "`extract` was given an empty schema, so there is nothing to look for.".to_owned(),
                ),
            )
        } else {
            parse_all(entries)
        },
        _ => Err(
            VerbError::bad_request(
                "`extract` takes a schema object: field names to selectors. For example {\"title\": \"h1\", \"links\": [\"a\"]}.".to_owned(),
            ),
        ),
    }
}


// ---------------------------------------------------------------- answering

/// The answer to one query: the nodes inside `scope` that the selector
/// matches, in document order.
#[derive(Debug, Clone, PartialEq, Eq)]
pub struct Answered {
    pub scope: usize,
    pub selector: String,
    pub nodes: Vec<usize>,
}

/// One attribute of a node, as written.
#[derive(Debug, Clone, PartialEq, Eq)]
pub struct FoundAttr {
    pub name: String,
    pub raw: String,
}

/// One node that a query found: its text and its attributes, as the page has
/// them.
#[derive(Debug, Clone, PartialEq, Eq)]
pub struct FoundNode {
    pub id: usize,
    pub text: String,
    pub attrs: Vec<FoundAttr>,
}

/// What the document answered.
#[derive(Debug, Clone, PartialEq, Eq)]
pub struct Selected {
    pub answers: Vec<Answered>,
    pub nodes: Vec<FoundNode>,
}

/// The answer to a query, where there is one.
pub open spec fn answer_to(answers: Seq<Answered>, scope: usize, selector: Seq<char>) -> Option<
    Seq<usize>,
>
    decreases answers.len(),
{
    if answers.len() == 0 {
        None
    } else if answers[0].scope == scope && answers[0].selector@ == selector {
        Some(answers[0].nodes@)
    } else {
        answer_to(answers.drop_first(), scope, selector)
    }
}

/// The nodes that a selector matches inside a scope.
pub open spec fn matched(sel: Selected, scope: usize, selector: Seq<char>) -> Seq<usize> {
    match answer_to(sel.answers@, scope, selector) {
        Some(nodes) => nodes,
        None => Seq::empty(),
    }
}

pub open spec fn node_of(nodes: Seq<FoundNode>, id: usize) -> Option<FoundNode>
    decreases nodes.len(),
{
    if nodes.len() == 0 {
        None
    } else if nodes[0].id == id {
        Some(nodes[0])
    } else {
        node_of(nodes.drop_first(), id)
    }
}

pub open spec fn attr_named(attrs: Seq<FoundAttr>, name: Seq<char>) -> Option<FoundAttr>
    decreases attrs.len(),
{
    if attrs.len() == 0 {
        None
    } else if attrs[0].name@ == name {
        Some(attrs[0])
    } else {
        attr_named(attrs.drop_first(), name)
    }
}

/// The line that ends what a page wrote where its content is fenced in.
pub const FENCE_END: &'static str = "--- END UNTRUSTED PAGE CONTENT ---";

/// Page-derived text as it may be shown: on one line, and unable to pass for
/// the end of the fence, for a text that holds that has its hyphens replaced.
pub open spec fn collapsed(s: Seq<char>) -> Seq<char> {
    let line = on_one_line(s);
    if contains(line, FENCE_END@) {
        line.map_values(
            |c: char|
                if c == '-' {
                    '\u{2010}'
                } else {
                    c
                },
        )
    } else {
        line
    }
}

/// A text that spans no line and does not hold the end of the fence.
pub open spec fn is_presentable(s: Seq<char>) -> bool {
    is_one_line(s) && !contains(s, FENCE_END@)
}

/// A node's text; none is an empty one.
pub open spec fn text_shown(sel: Selected, id: usize) -> Seq<char> {
    match node_of(sel.nodes@, id) {
        Some(node) => collapsed(node.text@),
        None => Seq::empty(),
    }
}

/// An attribute as it comes back: a URL-shaped one in full, where the page's
/// own address can complete it.
pub open spec fn shown_with(
    attr: Seq<char>,
    raw: Seq<char>,
    completed: Result<UrlView, Seq<char>>,
) -> Seq<char> {
    match completed {
        Ok(absolute) => if attr == "href"@ || attr == "src"@ {
            collapsed(absolute.href)
        } else {
            collapsed(raw)
        },
        Err(_) => collapsed(raw),
    }
}

/// An attribute of a node, as it comes back.
pub open spec fn attr_shown(
    sel: Selected,
    base: Seq<char>,
    id: usize,
    attr: Seq<char>,
) -> JsonView {
    match node_of(sel.nodes@, id) {
        None => JsonView::Null,
        Some(node) => match attr_named(node.attrs@, attr) {
            None => JsonView::Null,
            Some(found) => JsonView::Text(
                shown_with(attr, found.raw@, url_joined(base, found.raw@)),
            ),
        },
    }
}

/// As many of the nodes as the limit lets through.
pub open spec fn capped(nodes: Seq<usize>, limit: Option<usize>) -> Seq<usize> {
    match limit {
        Some(cap) => if cap < nodes.len() {
            nodes.take(cap as int)
        } else {
            nodes
        },
        None => nodes,
    }
}

/// The node that a scalar attribute is read from: `:scope` is the node one
/// stands at.
pub open spec fn attr_node(sel: Selected, scope: usize, selector: Seq<char>) -> Option<usize> {
    if selector == ":scope"@ {
        Some(scope)
    } else if matched(sel, scope, selector).len() > 0 {
        Some(matched(sel, scope, selector)[0])
    } else {
        None
    }
}

/// What a field comes to, read at a node.
pub open spec fn evaluated(sel: Selected, base: Seq<char>, scope: usize, f: FieldView) -> JsonView
    decreases f, 2int, 0nat,
{
    match f {
        FieldView::Text(selector) => if matched(sel, scope, selector).len() > 0 {
            JsonView::Text(text_shown(sel, matched(sel, scope, selector)[0]))
        } else {
            JsonView::Null
        },
        FieldView::TextAll(selector) => JsonView::List(
            matched(sel, scope, selector).map_values(
                |id: usize| JsonView::Text(text_shown(sel, id)),
            ),
        ),
        FieldView::Attr { selector, attr } => match attr_node(sel, scope, selector) {
            Some(id) => attr_shown(sel, base, id, attr),
            None => JsonView::Null,
        },
        FieldView::AttrAll { selector, attr, limit } => JsonView::List(
            capped(matched(sel, scope, selector), limit).map_values(
                |id: usize| attr_shown(sel, base, id, attr),
            ),
        ),
        FieldView::Objects { selector, limit, fields } => JsonView::List(
            rows(sel, base, capped(matched(sel, scope, selector), limit), fields),
        ),
    }
}

/// One object per node.
pub open spec fn rows(
    sel: Selected,
    base: Seq<char>,
    nodes: Seq<usize>,
    fields: Seq<(Seq<char>, FieldView)>,
) -> Seq<JsonView>
    decreases fields, 1int, nodes.len(),
{
    if nodes.len() == 0 {
        Seq::empty()
    } else {
        rows(sel, base, nodes.drop_last(), fields).push(
            JsonView::Object(row(sel, base, nodes.last(), fields)),
        )
    }
}

/// The fields read at one node.
pub open spec fn row(
    sel: Selected,
    base: Seq<char>,
    node: usize,
    fields: Seq<(Seq<char>, FieldView)>,
) -> Seq<(Seq<char>, JsonView)>
    decreases fields, 0int, 0nat,
{
    if fields.len() == 0 {
        Seq::empty()
    } else {
        row(sel, base, node, fields.drop_last()).push(
            (fields.last().0, evaluated(sel, base, node, fields.last().1)),
        )
    }
}

fn matches<'a>(sel: &'a Selected, scope: usize, selector: &str) -> (r: Option<&'a Vec<usize>>)
    ensures
        r matches Some(v) ==> answer_to(sel.answers@, scope, selector@) == Some(v@),
        r is None ==> answer_to(sel.answers@, scope, selector@) is None,
{
    let ghost all = sel.answers@;
    let mut i: usize = 0;
    assert(all.skip(0) =~= all);
    while i < sel.answers.len()
        invariant
            i <= sel.answers.len(),
            all == sel.answers@,
            answer_to(all, scope, selector@) == answer_to(all.skip(i as int), scope, selector@),
        decreases sel.answers.len() - i,
    {
        assert(all.skip(i as int)[0] == all[i as int]);
        assert(all.skip(i as int).drop_first() =~= all.skip(i + 1));
        if sel.answers[i].scope == scope && same(&sel.answers[i].selector, selector) {
            return Some(&sel.answers[i].nodes);
        }
        i += 1;
    }
    None
}

fn first(sel: &Selected, scope: usize, selector: &str) -> (r: Option<usize>)
    ensures
        r == (if matched(*sel, scope, selector@).len() > 0 {
            Some(matched(*sel, scope, selector@)[0])
        } else {
            None
        }),
{
    match matches(sel, scope, selector) {
        Some(nodes) => if nodes.len() > 0 {
            Some(nodes[0])
        } else {
            None
        },
        None => None,
    }
}

fn find_node(sel: &Selected, id: usize) -> (r: Option<&FoundNode>)
    ensures
        r matches Some(n) ==> node_of(sel.nodes@, id) == Some(*n),
        r is None ==> node_of(sel.nodes@, id) is None,
{
    let ghost all = sel.nodes@;
    let mut i: usize = 0;
    assert(all.skip(0) =~= all);
    while i < sel.nodes.len()
        invariant
            i <= sel.nodes.len(),
            all == sel.nodes@,
            node_of(all, id) == node_of(all.skip(i as int), id),
        decreases sel.nodes.len() - i,
    {
        assert(all.skip(i as int)[0] == all[i as int]);
        assert(all.skip(i as int).drop_first() =~= all.skip(i + 1));
        if sel.nodes[i].id == id {
            return Some(&sel.nodes[i]);
        }
        i += 1;
    }
    None
}

fn find_attr<'a>(attrs: &'a Vec<FoundAttr>, name: &str) -> (r: Option<&'a FoundAttr>)
    ensures
        r matches Some(a) ==> attr_named(attrs@, name@) == Some(*a),
        r is None ==> attr_named(attrs@, name@) is None,
{
    let ghost all = attrs@;
    let mut i: usize = 0;
    assert(all.skip(0) =~= all);
    while i < attrs.len()
        invariant
            i <= attrs.len(),
            all == attrs@,
            attr_named(all, name@) == attr_named(all.skip(i as int), name@),
        decreases attrs.len() - i,
    {
        assert(all.skip(i as int)[0] == all[i as int]);
        assert(all.skip(i as int).drop_first() =~= all.skip(i + 1));
        if same(&attrs[i].name, name) {
            return Some(&attrs[i]);
        }
        i += 1;
    }
    None
}

/// Page-derived text as it may be shown.
pub fn collapse(s: &str) -> (r: String)
    ensures
        r@ == collapsed(s@),
        is_presentable(r@),
{
    proof {
        lemma_presentable(s@);
    }
    let line = one_line(s);
    if !holds(&line, FENCE_END) {
        return line;
    }
    let ghost f = |c: char|
        if c == '-' {
            '\u{2010}'
        } else {
            c
        };
    let v = chars_of(&line);
    let mut out = String::new();
    let mut i: usize = 0;
    assert(out@ =~= v@.take(0).map_values(f));
    while i < v.len()
        invariant
            i <= v.len(),
            f == (|c: char|
                if c == '-' {
                    '\u{2010}'
                } else {
                    c
                }),
            out@ == v@.take(i as int).map_values(f),
        decreases v.len() - i,
    {
        let c = v[i];
        out.push(
            if c == '-' {
                '\u{2010}'
            } else {
                c
            },
        );
        i += 1;
        assert(out@ =~= v@.take(i as int).map_values(f));
    }
    assert(v@.take(i as int) =~= v@);
    out
}

proof fn lemma_presentable(s: Seq<char>)
    ensures
        is_presentable(collapsed(s)),
{
    lemma_on_one_line(s);
    let line = on_one_line(s);
    let c = collapsed(s);
    if contains(line, FENCE_END@) {
        reveal_strlit("--- END UNTRUSTED PAGE CONTENT ---");
        assert(FENCE_END@[0] == '-');
        assert forall|i: int| 0 <= i < c.len() && is_space(#[trigger] c[i]) implies c[i]
            == ' ' by {
            assert(is_space(line[i]));
        }
        if contains(c, FENCE_END@) {
            let i = choose|i: int| occurs_at(c, FENCE_END@, i);
            assert(c.subrange(i, i + FENCE_END@.len())[0] == c[i]);
        }
    }
}

fn text_of(sel: &Selected, id: usize) -> (r: String)
    ensures
        r@ == text_shown(*sel, id),
{
    match find_node(sel, id) {
        Some(node) => collapse(&node.text),
        None => {
            let r = String::new();
            assert(r@ =~= Seq::<char>::empty());
            r
        },
    }
}

/// An attribute as it comes back, `completed` being what the page's address
/// made of it: `href` and `src` are resolved because a relative one means
/// nothing away from the page it came from. Everything else is handed back as
/// written, but for its white space.
pub fn resolved_attribute(attr: &str, raw: &str, completed: &Result<Url, String>) -> (r: String)
    ensures
        r@ == shown_with(attr@, raw@, crate::url::url_result(*completed)),
{
    if same(attr, "href") || same(attr, "src") {
        if let Ok(absolute) = completed {
            return collapse(&absolute.href);
        }
    }
    collapse(raw)
}

fn attribute(sel: &Selected, base: &Url, id: usize, attr: &str) -> (r: Json)
    ensures
        json_view(r) == attr_shown(*sel, base.href@, id, attr@),
{
    match find_node(sel, id) {
        None => Json::Null,
        Some(node) => match find_attr(&node.attrs, attr) {
            None => Json::Null,
            Some(found) => Json::Text(
                resolved_attribute(attr, &found.raw, &base.join(&found.raw)),
            ),
        },
    }
}

fn count_of(nodes: &Vec<usize>, limit: Option<usize>) -> (r: usize)
    ensures
        r <= nodes@.len(),
        nodes@.take(r as int) == capped(nodes@, limit),
{
    let n = nodes.len();
    assert(nodes@.take(n as int) =~= nodes@);
    match limit {
        Some(cap) => if cap < n {
            cap
        } else {
            n
        },
        None => n,
    }
}

fn nodes_matching(sel: &Selected, scope: usize, selector: &str) -> (r: Vec<usize>)
    ensures
        r@ == matched(*sel, scope, selector@),
{
    let mut out: Vec<usize> = Vec::new();
    if let Some(nodes) = matches(sel, scope, selector) {
        let mut i: usize = 0;
        while i < nodes.len()
            invariant
                i <= nodes.len(),
                out@ == nodes@.take(i as int),
            decreases nodes.len() - i,
        {
            out.push(nodes[i]);
            i += 1;
        }
    }
    out
}

/// Reads a field at a node.
pub fn eval(sel: &Selected, base: &Url, scope: usize, field: &Field) -> (r: Json)
    ensures
        json_view(r) == evaluated(*sel, base.href@, scope, field_view(*field)),
    decreases *field,
{
    match field {
        Field::Text(selector) => match first(sel, scope, selector) {
            Some(node) => Json::Text(text_of(sel, node)),
            None => Json::Null,
        },
        Field::TextAll(selector) => {
            let nodes = nodes_matching(sel, scope, selector);
            let ghost shown = |id: usize| JsonView::Text(text_shown(*sel, id));
            let mut out: Vec<Json> = Vec::new();
            let mut i: usize = 0;
            while i < nodes.len()
                invariant
                    i <= nodes.len(),
                    shown == (|id: usize| JsonView::Text(text_shown(*sel, id))),
                    list_view(out@) == nodes@.take(i as int).map_values(shown),
                decreases nodes.len() - i,
            {
                let ghost before = out@;
                let item = Json::Text(text_of(sel, nodes[i]));
                proof {
                    lemma_list_push(before, item);
                }
                out.push(item);
                assert(nodes@.take(i + 1).map_values(shown) =~= nodes@.take(
                    i as int,
                ).map_values(shown).push(shown(nodes@[i as int])));
                i += 1;
            }
            assert(nodes@.take(i as int) =~= nodes@);
            Json::List(out)
        },
        Field::Attr { selector, attr } => {
            let node = if same(selector, ":scope") {
                Some(scope)
            } else {
                first(sel, scope, selector)
            };
            match node {
                Some(id) => attribute(sel, base, id, attr),
                None => Json::Null,
            }
        },
        Field::AttrAll { selector, attr, limit } => {
            let nodes = nodes_matching(sel, scope, selector);
            let n = count_of(&nodes, *limit);
            let ghost shown = |id: usize| attr_shown(*sel, base.href@, id, attr@);
            let mut out: Vec<Json> = Vec::new();
            let mut i: usize = 0;
            while i < n
                invariant
                    i <= n <= nodes.len(),
                    shown == (|id: usize| attr_shown(*sel, base.href@, id, attr@)),
                    list_view(out@) == nodes@.take(i as int).map_values(shown),
                decreases n - i,
            {
                let ghost before = out@;
                let item = attribute(sel, base, nodes[i], attr);
                proof {
                    lemma_list_push(before, item);
                }
                out.push(item);
                assert(nodes@.take(i + 1).map_values(shown) =~= nodes@.take(
                    i as int,
                ).map_values(shown).push(shown(nodes@[i as int])));
                i += 1;
            }
            Json::List(out)
        },
        Field::Objects { selector, limit, fields } => {
            let nodes = nodes_matching(sel, scope, selector);
            let n = count_of(&nodes, *limit);
            let ghost views = fields_view(fields@);
            let mut out: Vec<Json> = Vec::new();
            let mut i: usize = 0;
            proof {
                lemma_fields_view(fields@);
            }
            while i < n
                invariant
                    i <= n <= nodes.len(),
                    *field matches Field::Objects { fields: fs, .. } && fs == *fields,
                    views == fields_view(fields@),
                    views.len() == fields@.len(),
                    forall|k: int|
                        0 <= k < views.len() ==> #[trigger] views[k] == (
                            fields@[k].0@,
                            field_view(fields@[k].1),
                        ),
                    list_view(out@) == rows(*sel, base.href@, nodes@.take(i as int), views),
                decreases n - i,
            {
                let mut entries: Vec<(String, Json)> = Vec::new();
                let mut k: usize = 0;
                let id = nodes[i];
                while k < fields.len()
                    invariant
                        k <= fields.len(),
                        *field matches Field::Objects { fields: fs, .. } && fs == *fields,
                        views.len() == fields@.len(),
                        forall|k: int|
                            0 <= k < views.len() ==> #[trigger] views[k] == (
                                fields@[k].0@,
                                field_view(fields@[k].1),
                            ),
                        object_view(entries@) == row(*sel, base.href@, id, views.take(k as int)),
                    decreases fields.len() - k,
                {
                    assert(decreases_to!(*field => field->fields));
                    assert(decreases_to!(*fields => fields@));
                    assert(decreases_to!(fields@ => fields@[k as int]));
                    assert(decreases_to!(fields@[k as int] => fields@[k as int].1));
                    let ghost before = entries@;
                    let value = eval(sel, base, id, &fields[k].1);
                    let item = (fields[k].0.clone(), value);
                    proof {
                        lemma_object_push(before, item);
                        assert(views.take(k + 1).drop_last() =~= views.take(k as int));
                        assert(views.take(k + 1).last() == views[k as int]);
                    }
                    entries.push(item);
                    k += 1;
                }
                assert(views.take(k as int) =~= views);
                let ghost before = out@;
                let item = Json::Object(entries);
                proof {
                    lemma_list_push(before, item);
                    assert(nodes@.take(i + 1).drop_last() =~= nodes@.take(i as int));
                }
                out.push(item);
                i += 1;
            }
            Json::List(out)
        },
    }
}

/// Whether any of the entries says something.
pub open spec fn says_something(entries: Seq<(Seq<char>, JsonView)>) -> bool {
    exists|i: int| 0 <= i < entries.len() && !((#[trigger] entries[i]).1 is Null)
}

/// The complaint about a schema that nothing on the page answers.
pub open spec fn nothing_matched() -> Seq<char> {
    "no selector in this schema matched anything on the page. Look at what is actually there with `snapshot` or `markdown`, then retry with corrected selectors \u{2014} an object of nulls would look like an answer."@
}

/// Runs a schema against what the document answered.
///
/// An empty array counts as an answer: "there are no rows" is something the
/// page genuinely said. Only null means nothing matched.
pub fn run(sel: &Selected, base: &Url, schema: &Vec<(String, Field)>) -> (r: Result<
    Json,
    VerbError,
>)
    ensures
        ({
            let entries = row(*sel, base.href@, ROOT, fields_view(schema@));
            match r {
                Ok(j) => says_something(entries) && json_view(j) == JsonView::Object(entries),
                Err(e) => !says_something(entries) && e.code == Code::NoMatch && e.message@
                    == nothing_matched(),
            }
        }),
{
    let ghost views = fields_view(schema@);
    let ghost all = row(*sel, base.href@, ROOT, views);
    let mut entries: Vec<(String, Json)> = Vec::new();
    let mut any = false;
    let mut k: usize = 0;
    proof {
        lemma_fields_view(schema@);
    }
    while k < schema.len()
        invariant
            k <= schema.len(),
            views.len() == schema@.len(),
            forall|k: int|
                0 <= k < views.len() ==> #[trigger] views[k] == (
                    schema@[k].0@,
                    field_view(schema@[k].1),
                ),
            object_view(entries@) == row(*sel, base.href@, ROOT, views.take(k as int)),
            any == says_something(object_view(entries@)),
        decreases schema.len() - k,
    {
        let ghost before = entries@;
        let value = eval(sel, base, ROOT, &schema[k].1);
        let ghost shown = json_view(value);
        let says = match &value {
            Json::Null => false,
            _ => true,
        };
        let item = (schema[k].0.clone(), value);
        proof {
            lemma_object_push(before, item);
            assert(views.take(k + 1).drop_last() =~= views.take(k as int));
            assert(views.take(k + 1).last() == views[k as int]);
            let was = object_view(before);
            let is = was.push((item.0@, shown));
            if says_something(was) {
                let i = choose|i: int| 0 <= i < was.len() && !((#[trigger] was[i]).1 is Null);
                assert(!(is[i].1 is Null));
            }
            if says {
                assert(!(is[was.len() as int].1 is Null));
            }
            if says_something(is) {
                let i = choose|i: int| 0 <= i < is.len() && !((#[trigger] is[i]).1 is Null);
                if i < was.len() {
                    assert(was[i] == is[i]);
                }
            }
        }
        entries.push(item);
        any = any || says;
        k += 1;
    }
    assert(views.take(k as int) =~= views);
    if !any {
        return Err(
            VerbError::new(
                Code::NoMatch,
                "no selector in this schema matched anything on the page. Look at what is actually there with `snapshot` or `markdown`, then retry with corrected selectors \u{2014} an object of nulls would look like an answer.".to_owned(),
            ),
        );
    }
    Ok(Json::Object(entries))
}


// ----------------------------------------------------- what is left to ask

/// A query that the document has not answered.
#[derive(Debug, Clone, PartialEq, Eq)]
pub struct Query {
    pub scope: usize,
    pub selector: String,
}

pub open spec fn queries_view(v: Seq<Query>) -> Seq<(usize, Seq<char>)> {
    v.map_values(|q: Query| (q.scope, q.selector@))
}

/// The query, unless it is answered.
pub open spec fn unless_answered(sel: Selected, scope: usize, selector: Seq<char>) -> Seq<
    (usize, Seq<char>),
> {
    match answer_to(sel.answers@, scope, selector) {
        Some(_) => Seq::empty(),
        None => seq![(scope, selector)],
    }
}

/// The queries that reading a field at a node makes and that are not answered.
pub open spec fn unanswered(sel: Selected, scope: usize, f: FieldView) -> Seq<(usize, Seq<char>)>
    decreases f, 2int, 0nat,
{
    match f {
        FieldView::Text(selector) => unless_answered(sel, scope, selector),
        FieldView::TextAll(selector) => unless_answered(sel, scope, selector),
        FieldView::Attr { selector, .. } => if selector == ":scope"@ {
            Seq::empty()
        } else {
            unless_answered(sel, scope, selector)
        },
        FieldView::AttrAll { selector, .. } => unless_answered(sel, scope, selector),
        FieldView::Objects { selector, limit, fields } => unless_answered(sel, scope, selector)
            + unanswered_rows(sel, capped(matched(sel, scope, selector), limit), fields),
    }
}

pub open spec fn unanswered_rows(
    sel: Selected,
    nodes: Seq<usize>,
    fields: Seq<(Seq<char>, FieldView)>,
) -> Seq<(usize, Seq<char>)>
    decreases fields, 1int, nodes.len(),
{
    if nodes.len() == 0 {
        Seq::empty()
    } else {
        unanswered_rows(sel, nodes.drop_last(), fields) + unanswered_all(sel, nodes.last(), fields)
    }
}

pub open spec fn unanswered_all(
    sel: Selected,
    scope: usize,
    fields: Seq<(Seq<char>, FieldView)>,
) -> Seq<(usize, Seq<char>)>
    decreases fields, 0int, 0nat,
{
    if fields.len() == 0 {
        Seq::empty()
    } else {
        unanswered_all(sel, scope, fields.drop_last()) + unanswered(sel, scope, fields.last().1)
    }
}

fn ask(sel: &Selected, scope: usize, selector: &str, out: &mut Vec<Query>)
    ensures
        queries_view(final(out)@) == queries_view(old(out)@) + unless_answered(
            *sel,
            scope,
            selector@,
        ),
{
    match matches(sel, scope, selector) {
        Some(_) => {
            assert(queries_view(out@) =~= queries_view(old(out)@) + Seq::<
                (usize, Seq<char>),
            >::empty());
        },
        None => {
            out.push(Query { scope, selector: selector.to_owned() });
            assert(queries_view(out@) =~= queries_view(old(out)@) + seq![(scope, selector@)]);
        },
    }
}

fn ask_field(sel: &Selected, scope: usize, field: &Field, out: &mut Vec<Query>)
    ensures
        queries_view(final(out)@) == queries_view(old(out)@) + unanswered(
            *sel,
            scope,
            field_view(*field),
        ),
    decreases *field, 2int, 0nat,
{
    match field {
        Field::Text(selector) => ask(sel, scope, selector, out),
        Field::TextAll(selector) => ask(sel, scope, selector, out),
        Field::Attr { selector, .. } => if !same(selector, ":scope") {
            ask(sel, scope, selector, out);
        } else {
            assert(queries_view(out@) =~= queries_view(old(out)@) + Seq::<
                (usize, Seq<char>),
            >::empty());
        },
        Field::AttrAll { selector, .. } => ask(sel, scope, selector, out),
        Field::Objects { selector, limit, fields } => {
            ask(sel, scope, selector, out);
            let ghost asked = queries_view(out@);
            let nodes = nodes_matching(sel, scope, selector);
            let n = count_of(&nodes, *limit);
            let ghost views = fields_view(fields@);
            let mut i: usize = 0;
            assert(asked =~= asked + unanswered_rows(*sel, nodes@.take(0), views));
            while i < n
                invariant
                    i <= n <= nodes.len(),
                    *field matches Field::Objects { fields: fs, .. } && fs == *fields,
                    views == fields_view(fields@),
                    queries_view(out@) == asked + unanswered_rows(
                        *sel,
                        nodes@.take(i as int),
                        views,
                    ),
                decreases n - i,
            {
                assert(decreases_to!(*field => field->fields));
                assert(decreases_to!(*fields => fields@));
                ask_all(sel, nodes[i], fields, out);
                assert(nodes@.take(i + 1).drop_last() =~= nodes@.take(i as int));
                assert(queries_view(out@) =~= asked + unanswered_rows(
                    *sel,
                    nodes@.take(i + 1),
                    views,
                ));
                i += 1;
            }
            assert(queries_view(out@) =~= queries_view(old(out)@) + unanswered(
                *sel,
                scope,
                field_view(*field),
            ));
        },
    }
}

fn ask_all(sel: &Selected, scope: usize, fields: &Vec<(String, Field)>, out: &mut Vec<Query>)
    ensures
        queries_view(final(out)@) == queries_view(old(out)@) + unanswered_all(
            *sel,
            scope,
            fields_view(fields@),
        ),
    decreases fields@, 0int, 0nat,
{
    let ghost views = fields_view(fields@);
    let ghost before = queries_view(out@);
    let mut k: usize = 0;
    proof {
        lemma_fields_view(fields@);
        assert(before =~= before + unanswered_all(*sel, scope, views.take(0)));
    }
    while k < fields.len()
        invariant
            k <= fields.len(),
            views.len() == fields@.len(),
            forall|k: int|
                0 <= k < views.len() ==> #[trigger] views[k] == (
                    fields@[k].0@,
                    field_view(fields@[k].1),
                ),
            queries_view(out@) == before + unanswered_all(*sel, scope, views.take(k as int)),
        decreases fields.len() - k,
    {
        assert(decreases_to!(fields@ => fields@[k as int]));
        assert(decreases_to!(fields@[k as int] => fields@[k as int].1));
        ask_field(sel, scope, &fields[k].1, out);
        assert(views.take(k + 1).drop_last() =~= views.take(k as int));
        assert(views.take(k + 1).last() == views[k as int]);
        assert(queries_view(out@) =~= before + unanswered_all(*sel, scope, views.take(k + 1)));
        k += 1;
    }
    assert(views.take(k as int) =~= views);
}

/// The queries that [`run`] still needs answered. With each batch answered and
/// added there may be more, one level further in; with none left, the
/// extraction is what the document says.
pub fn queries_left(sel: &Selected, schema: &Vec<(String, Field)>) -> (r: Vec<Query>)
    ensures
        queries_view(r@) == unanswered_all(*sel, ROOT, fields_view(schema@)),
{
    let mut out: Vec<Query> = Vec::new();
    assert(queries_view(out@) =~= Seq::<(usize, Seq<char>)>::empty());
    ask_all(sel, ROOT, schema, &mut out);
    assert(queries_view(out@) =~= unanswered_all(*sel, ROOT, fields_view(schema@)));
    out
}

// --------------------------------------------------------------------- laws

/// The values of a row, one by one.
pub proof fn lemma_row(
    sel: Selected,
    base: Seq<char>,
    node: usize,
    fields: Seq<(Seq<char>, FieldView)>,
)
    ensures
        row(sel, base, node, fields).len() == fields.len(),
        forall|i: int|
            0 <= i < fields.len() ==> #[trigger] row(sel, base, node, fields)[i] == (
                fields[i].0,
                evaluated(sel, base, node, fields[i].1),
            ),
    decreases fields.len(),
{
    if fields.len() > 0 {
        lemma_row(sel, base, node, fields.drop_last());
    }
}

/// Rows come one for each node.
proof fn lemma_rows(
    sel: Selected,
    base: Seq<char>,
    nodes: Seq<usize>,
    fields: Seq<(Seq<char>, FieldView)>,
)
    ensures
        rows(sel, base, nodes, fields).len() == nodes.len(),
        forall|i: int|
            0 <= i < nodes.len() ==> #[trigger] rows(sel, base, nodes, fields)[i]
                == JsonView::Object(row(sel, base, nodes[i], fields)),
    decreases nodes.len(),
{
    if nodes.len() > 0 {
        lemma_rows(sel, base, nodes.drop_last(), fields);
    }
}

/// Whether a field asks for every match.
pub open spec fn asks_for_all(f: FieldView) -> bool {
    f is TextAll || f is AttrAll || f is Objects
}

/// No rows is an answer: a schema that asks for every match of something
/// never fails for want of a match.
pub proof fn law_no_rows_is_an_answer(
    sel: Selected,
    base: Seq<char>,
    fields: Seq<(Seq<char>, FieldView)>,
    i: int,
)
    requires
        0 <= i < fields.len(),
        asks_for_all(fields[i].1),
    ensures
        says_something(row(sel, base, ROOT, fields)),
{
    lemma_row(sel, base, ROOT, fields);
    assert(!(row(sel, base, ROOT, fields)[i].1 is Null));
}

/// A schema none of whose selectors matches anything is refused, unless it
/// asks for every match of something.
pub proof fn law_nothing_matched_is_no_answer(
    sel: Selected,
    base: Seq<char>,
    fields: Seq<(Seq<char>, FieldView)>,
)
    requires
        forall|i: int| 0 <= i < fields.len() ==> !asks_for_all((#[trigger] fields[i]).1),
        forall|selector: Seq<char>| (#[trigger] matched(sel, ROOT, selector)).len() == 0,
        node_of(sel.nodes@, ROOT) matches Some(root) ==> root.attrs@.len() == 0,
    ensures
        !says_something(row(sel, base, ROOT, fields)),
{
    lemma_row(sel, base, ROOT, fields);
    assert forall|i: int| 0 <= i < fields.len() implies (#[trigger] row(
        sel,
        base,
        ROOT,
        fields,
    )[i]).1 is Null by {
        assert(!asks_for_all(fields[i].1));
    }
}

/// A limit caps the answer, and what it lets through are the first matches.
pub proof fn law_a_limit_takes_the_first(
    sel: Selected,
    base: Seq<char>,
    scope: usize,
    selector: Seq<char>,
    cap: usize,
    fields: Seq<(Seq<char>, FieldView)>,
)
    ensures
        ({
            let all = evaluated(
                sel,
                base,
                scope,
                FieldView::Objects { selector, limit: None, fields },
            )->List_0;
            let some = evaluated(
                sel,
                base,
                scope,
                FieldView::Objects { selector, limit: Some(cap), fields },
            )->List_0;
            &&& some.len() <= cap
            &&& some == all.take(some.len() as int)
            &&& all.len() > cap ==> some.len() == cap
            &&& all.len() <= cap ==> some == all
        }),
{
    let nodes = matched(sel, scope, selector);
    lemma_rows(sel, base, nodes, fields);
    lemma_rows(sel, base, capped(nodes, Some(cap)), fields);
    let all = rows(sel, base, nodes, fields);
    let some = rows(sel, base, capped(nodes, Some(cap)), fields);
    assert(some =~= all.take(some.len() as int));
}

/// The array form of an attribute differs from the scalar form in arity and in
/// nothing else: every match keeps its place, and the first says what the
/// scalar form says.
pub proof fn law_the_array_form_differs_in_arity(
    sel: Selected,
    base: Seq<char>,
    scope: usize,
    selector: Seq<char>,
    attr: Seq<char>,
)
    requires
        selector != ":scope"@,
    ensures
        ({
            let one = evaluated(sel, base, scope, FieldView::Attr { selector, attr });
            let all = evaluated(
                sel,
                base,
                scope,
                FieldView::AttrAll { selector, attr, limit: None },
            )->List_0;
            &&& all.len() == matched(sel, scope, selector).len()
            &&& all.len() > 0 ==> all[0] == one
            &&& all.len() == 0 ==> one is Null
        }),
{
}

/// A schema's fields come in the order of their names, each name once.
pub proof fn law_fields_stand_in_order(entries: Seq<(String, Json)>)
    ensures
        parsed_all(entries) matches Ok(fs) ==> ascending(names(fs)),
    decreases entries.len(),
{
    if entries.len() > 0 {
        law_fields_stand_in_order(entries.drop_last());
        if let Ok(before) = parsed_all(entries.drop_last()) {
            if let Ok(f) = parsed(entries.last().0@, entries.last().1) {
                lemma_with_field_ascends(before, entries.last().0@, f);
            }
        }
    }
}

pub open spec fn names(fs: Seq<(Seq<char>, FieldView)>) -> Seq<Seq<char>> {
    fs.map_values(|p: (Seq<char>, FieldView)| p.0)
}

proof fn lemma_with_field_ascends(
    fs: Seq<(Seq<char>, FieldView)>,
    name: Seq<char>,
    f: FieldView,
)
    requires
        ascending(names(fs)),
    ensures
        ascending(names(with_field(fs, name, f))),
        forall|i: int|
            0 <= i < with_field(fs, name, f).len() ==> (#[trigger] with_field(fs, name, f)[i]).0
                == name || exists|j: int|
                0 <= j < fs.len() && (#[trigger] fs[j]).0 == with_field(fs, name, f)[i].0,
    decreases fs.len(),
{
    let out = with_field(fs, name, f);
    if fs.len() == 0 {
    } else if fs[0].0 == name {
        assert(names(out) =~= names(fs));
        assert forall|i: int| 0 <= i < out.len() implies exists|j: int|
            0 <= j < fs.len() && (#[trigger] fs[j]).0 == (#[trigger] out[i]).0 by {
            assert(names(out)[i] == names(fs)[i]);
            assert(fs[i].0 == out[i].0);
        }
    } else if text_less(name, fs[0].0) {
        assert forall|i: int, j: int| 0 <= i < j < names(out).len() implies text_less(
            names(out)[i],
            names(out)[j],
        ) by {
            assert(names(out)[j] == names(fs)[j - 1]);
            if i > 0 {
                assert(names(out)[i] == names(fs)[i - 1]);
            } else if j > 1 {
                assert(text_less(names(fs)[0], names(fs)[j - 1]));
                lemma_text_less_transitive(name, fs[0].0, names(fs)[j - 1]);
            }
        }
        assert forall|i: int| 0 < i < out.len() implies exists|j: int|
            0 <= j < fs.len() && (#[trigger] fs[j]).0 == (#[trigger] out[i]).0 by {
            assert(fs[i - 1] == out[i]);
        }
    } else {
        let rest = fs.drop_first();
        assert forall|i: int, j: int| 0 <= i < j < names(rest).len() implies text_less(
            names(rest)[i],
            names(rest)[j],
        ) by {
            assert(names(rest)[i] == names(fs)[i + 1]);
            assert(names(rest)[j] == names(fs)[j + 1]);
        }
        lemma_with_field_ascends(rest, name, f);
        let tail = with_field(rest, name, f);
        lemma_text_less_total(name, fs[0].0);
        assert forall|j: int| 0 <= j < tail.len() implies text_less(
            fs[0].0,
            (#[trigger] tail[j]).0,
        ) by {
            let n = tail[j].0;
            if n != name {
                let k = choose|k: int| 0 <= k < rest.len() && (#[trigger] rest[k]).0 == n;
                assert(names(fs)[k + 1] == n);
                assert(text_less(names(fs)[0], names(fs)[k + 1]));
            }
        }
        assert forall|i: int, j: int| 0 <= i < j < names(out).len() implies text_less(
            names(out)[i],
            names(out)[j],
        ) by {
            assert(out[j] == tail[j - 1]);
            assert(names(out)[j] == names(tail)[j - 1]);
            if i > 0 {
                assert(names(out)[i] == names(tail)[i - 1]);
            }
        }
        assert forall|i: int| 0 <= i < out.len() implies (#[trigger] out[i]).0 == name || exists|
            j: int,
        |
            0 <= j < fs.len() && (#[trigger] fs[j]).0 == out[i].0 by {
            if i == 0 {
                assert(fs[0].0 == out[0].0);
            } else {
                assert(out[i] == tail[i - 1]);
                if out[i].0 != name {
                    let k = choose|k: int|
                        0 <= k < rest.len() && (#[trigger] rest[k]).0 == out[i].0;
                    assert(fs[k + 1].0 == out[i].0);
                }
            }
        }
    }
}

/// Every text in the value spans no line and does not hold the end of the
/// fence.
pub open spec fn presentable(j: JsonView) -> bool
    decreases j,
{
    match j {
        JsonView::Text(t) => is_presentable(t),
        JsonView::List(items) => list_presentable(items),
        JsonView::Object(entries) => entries_presentable(entries),
        _ => true,
    }
}

pub open spec fn list_presentable(items: Seq<JsonView>) -> bool
    decreases items,
{
    items.len() == 0 || (list_presentable(items.drop_last()) && presentable(items.last()))
}

pub open spec fn entries_presentable(entries: Seq<(Seq<char>, JsonView)>) -> bool
    decreases entries,
{
    entries.len() == 0 || (entries_presentable(entries.drop_last()) && presentable(
        entries.last().1,
    ))
}

proof fn lemma_list_presentable(items: Seq<JsonView>)
    requires
        forall|i: int| 0 <= i < items.len() ==> presentable(#[trigger] items[i]),
    ensures
        list_presentable(items),
    decreases items.len(),
{
    if items.len() > 0 {
        let before = items.drop_last();
        assert forall|i: int| 0 <= i < before.len() implies presentable(#[trigger] before[i]) by {
            assert(before[i] == items[i]);
        }
        lemma_list_presentable(before);
    }
}

proof fn lemma_shown_is_presentable(sel: Selected, base: Seq<char>, id: usize, attr: Seq<char>)
    ensures
        is_presentable(text_shown(sel, id)),
        presentable(attr_shown(sel, base, id, attr)),
{
    reveal_strlit("--- END UNTRUSTED PAGE CONTENT ---");
    if let Some(node) = node_of(sel.nodes@, id) {
        lemma_presentable(node.text@);
        if let Some(found) = attr_named(node.attrs@, attr) {
            lemma_presentable(found.raw@);
            if let Ok(absolute) = url_joined(base, found.raw@) {
                lemma_presentable(absolute.href);
            }
        }
    }
}

/// No extracted value spans a line or holds the end of the fence, whatever the
/// page wrote and however deep in the answer it stands.
pub proof fn law_no_extracted_value_spans_a_line(
    sel: Selected,
    base: Seq<char>,
    scope: usize,
    f: FieldView,
)
    ensures
        presentable(evaluated(sel, base, scope, f)),
    decreases f, 2int, 0nat,
{
    match f {
        FieldView::Text(selector) => {
            if matched(sel, scope, selector).len() > 0 {
                lemma_shown_is_presentable(
                    sel,
                    base,
                    matched(sel, scope, selector)[0],
                    Seq::empty(),
                );
            }
        },
        FieldView::TextAll(selector) => {
            let items = evaluated(sel, base, scope, f)->List_0;
            assert forall|i: int| 0 <= i < items.len() implies presentable(#[trigger] items[i]) by {
                lemma_shown_is_presentable(
                    sel,
                    base,
                    matched(sel, scope, selector)[i],
                    Seq::empty(),
                );
            }
            lemma_list_presentable(items);
        },
        FieldView::Attr { selector, attr } => {
            if let Some(id) = attr_node(sel, scope, selector) {
                lemma_shown_is_presentable(sel, base, id, attr);
            }
        },
        FieldView::AttrAll { selector, attr, limit } => {
            let items = evaluated(sel, base, scope, f)->List_0;
            assert forall|i: int| 0 <= i < items.len() implies presentable(#[trigger] items[i]) by {
                lemma_shown_is_presentable(
                    sel,
                    base,
                    capped(matched(sel, scope, selector), limit)[i],
                    attr,
                );
            }
            lemma_list_presentable(items);
        },
        FieldView::Objects { selector, limit, fields } => {
            lemma_rows_are_presentable(
                sel,
                base,
                capped(matched(sel, scope, selector), limit),
                fields,
            );
        },
    }
}

proof fn lemma_rows_are_presentable(
    sel: Selected,
    base: Seq<char>,
    nodes: Seq<usize>,
    fields: Seq<(Seq<char>, FieldView)>,
)
    ensures
        list_presentable(rows(sel, base, nodes, fields)),
    decreases fields, 1int, nodes.len(),
{
    if nodes.len() > 0 {
        lemma_rows_are_presentable(sel, base, nodes.drop_last(), fields);
        law_no_extracted_row_spans_a_line(sel, base, nodes.last(), fields);
        assert(rows(sel, base, nodes, fields).drop_last() =~= rows(
            sel,
            base,
            nodes.drop_last(),
            fields,
        ));
    }
}

/// The same of all the fields that are read at one node.
pub proof fn law_no_extracted_row_spans_a_line(
    sel: Selected,
    base: Seq<char>,
    node: usize,
    fields: Seq<(Seq<char>, FieldView)>,
)
    ensures
        presentable(JsonView::Object(row(sel, base, node, fields))),
    decreases fields, 0int, 0nat,
{
    if fields.len() > 0 {
        law_no_extracted_row_spans_a_line(sel, base, node, fields.drop_last());
        law_no_extracted_value_spans_a_line(sel, base, node, fields.last().1);
        assert(row(sel, base, node, fields).drop_last() =~= row(
            sel,
            base,
            node,
            fields.drop_last(),
        ));
    }
}

// ------------------------------------------------------ what a field comes to

proof fn lemma_node_of_first(nodes: Seq<FoundNode>, i: int)
    requires
        0 <= i < nodes.len(),
        forall|j: int| 0 <= j < i ==> (#[trigger] nodes[j]).id != nodes[i].id,
    ensures
        node_of(nodes, nodes[i].id) == Some(nodes[i]),
    decreases nodes.len(),
{
    if i > 0 {
        assert(nodes[0].id != nodes[i].id);
        let rest = nodes.drop_first();
        assert forall|j: int| 0 <= j < i - 1 implies (#[trigger] rest[j]).id != rest[i - 1].id by {
            assert(nodes[j + 1].id != nodes[i].id);
        }
        lemma_node_of_first(rest, i - 1);
    }
}

proof fn lemma_attr_named_first(attrs: Seq<FoundAttr>, i: int)
    requires
        0 <= i < attrs.len(),
        forall|j: int| 0 <= j < i ==> (#[trigger] attrs[j]).name@ != attrs[i].name@,
    ensures
        attr_named(attrs, attrs[i].name@) == Some(attrs[i]),
    decreases attrs.len(),
{
    if i > 0 {
        assert(attrs[0].name@ != attrs[i].name@);
        let rest = attrs.drop_first();
        assert forall|j: int| 0 <= j < i - 1 implies (#[trigger] rest[j]).name@ != rest[i
            - 1].name@ by {
            assert(attrs[j + 1].name@ != attrs[i].name@);
        }
        lemma_attr_named_first(rest, i - 1);
    }
}

proof fn lemma_attr_named_none(attrs: Seq<FoundAttr>, name: Seq<char>)
    requires
        forall|j: int| 0 <= j < attrs.len() ==> (#[trigger] attrs[j]).name@ != name,
    ensures
        attr_named(attrs, name) is None,
    decreases attrs.len(),
{
    if attrs.len() > 0 {
        assert(attrs[0].name@ != name);
        let rest = attrs.drop_first();
        assert forall|j: int| 0 <= j < rest.len() implies (#[trigger] rest[j]).name@ != name by {
            assert(attrs[j + 1].name@ != name);
        }
        lemma_attr_named_none(rest, name);
    }
}

/// `href` and `src`, and no other attribute, come back as the address that
/// the page's own completes them to, wherever it does complete them. All else
/// comes back as it was written. Either way it is on one line. The node is the
/// first of its number and the attribute the node's first of its name.
pub proof fn law_an_address_comes_back_whole(
    sel: Selected,
    base: Seq<char>,
    at: int,
    which: int,
)
    requires
        0 <= at < sel.nodes@.len(),
        forall|j: int| 0 <= j < at ==> (#[trigger] sel.nodes@[j]).id != sel.nodes@[at].id,
        0 <= which < sel.nodes@[at].attrs@.len(),
        forall|j: int|
            0 <= j < which ==> (#[trigger] sel.nodes@[at].attrs@[j]).name@
                != sel.nodes@[at].attrs@[which].name@,
    ensures
        ({
            let node = sel.nodes@[at];
            let attr = node.attrs@[which].name@;
            let raw = node.attrs@[which].raw@;
            let shown = evaluated(
                sel,
                base,
                node.id,
                FieldView::Attr { selector: ":scope"@, attr },
            );
            &&& (attr == "href"@ || attr == "src"@) && url_joined(base, raw) is Ok ==> shown
                == JsonView::Text(collapsed(url_joined(base, raw)->Ok_0.href))
            &&& attr != "href"@ && attr != "src"@ || url_joined(base, raw) is Err ==> shown
                == JsonView::Text(collapsed(raw))
        }),
{
    lemma_node_of_first(sel.nodes@, at);
    lemma_attr_named_first(sel.nodes@[at].attrs@, which);
}

/// The same of an attribute whose completed address is given: for `href` and
/// `src` it is the address, for every other it is what was written.
pub proof fn law_only_href_and_src_are_addresses(
    attr: Seq<char>,
    raw: Seq<char>,
    completed: Result<UrlView, Seq<char>>,
)
    ensures
        completed is Ok && (attr == "href"@ || attr == "src"@) ==> shown_with(attr, raw, completed)
            == collapsed(completed->Ok_0.href),
        completed is Err ==> shown_with(attr, raw, completed) == collapsed(raw),
        attr != "href"@ && attr != "src"@ ==> shown_with(attr, raw, completed) == collapsed(raw),
{
}

/// A node without the attribute has null for it.
pub proof fn law_an_absent_attribute_is_null(
    sel: Selected,
    base: Seq<char>,
    at: int,
    attr: Seq<char>,
)
    requires
        0 <= at < sel.nodes@.len(),
        forall|j: int| 0 <= j < at ==> (#[trigger] sel.nodes@[j]).id != sel.nodes@[at].id,
        forall|j: int|
            0 <= j < sel.nodes@[at].attrs@.len() ==> (#[trigger] sel.nodes@[at].attrs@[j]).name@
                != attr,
    ensures
        evaluated(sel, base, sel.nodes@[at].id, FieldView::Attr { selector: ":scope"@, attr })
            is Null,
{
    lemma_node_of_first(sel.nodes@, at);
    lemma_attr_named_none(sel.nodes@[at].attrs@, attr);
}

proof fn lemma_answer_to_first(answers: Seq<Answered>, i: int)
    requires
        0 <= i < answers.len(),
        forall|j: int|
            0 <= j < i ==> (#[trigger] answers[j]).scope != answers[i].scope
                || answers[j].selector@ != answers[i].selector@,
    ensures
        answer_to(answers, answers[i].scope, answers[i].selector@) == Some(answers[i].nodes@),
    decreases answers.len(),
{
    if i > 0 {
        assert(answers[0].scope != answers[i].scope || answers[0].selector@
            != answers[i].selector@);
        let rest = answers.drop_first();
        assert forall|j: int| 0 <= j < i - 1 implies (#[trigger] rest[j]).scope != rest[i - 1].scope
            || rest[j].selector@ != rest[i - 1].selector@ by {
            assert(answers[j + 1].scope != answers[i].scope || answers[j + 1].selector@
                != answers[i].selector@);
        }
        lemma_answer_to_first(rest, i - 1);
    }
}

/// A selector says what the document answered to it inside the scope: one
/// value where it stands alone, that of the first match, or null without one;
/// and in a list one value for each match, in order, as many as the limit lets
/// through. An attribute of a match is what the match itself has for it.
pub proof fn law_a_field_reads_the_matches(
    sel: Selected,
    base: Seq<char>,
    i: int,
    attr: Seq<char>,
    limit: Option<usize>,
    fields: Seq<(Seq<char>, FieldView)>,
)
    requires
        0 <= i < sel.answers@.len(),
        forall|j: int|
            0 <= j < i ==> (#[trigger] sel.answers@[j]).scope != sel.answers@[i].scope
                || sel.answers@[j].selector@ != sel.answers@[i].selector@,
        sel.answers@[i].selector@ != ":scope"@,
    ensures
        ({
            let scope = sel.answers@[i].scope;
            let selector = sel.answers@[i].selector@;
            let nodes = sel.answers@[i].nodes@;
            let own = FieldView::Attr { selector: ":scope"@, attr };
            let texts_all = evaluated(sel, base, scope, FieldView::TextAll(selector));
            let attrs_all = evaluated(
                sel,
                base,
                scope,
                FieldView::AttrAll { selector, attr, limit },
            );
            let objects = evaluated(
                sel,
                base,
                scope,
                FieldView::Objects { selector, limit, fields },
            );
            let most = match limit {
                Some(cap) => if cap < nodes.len() {
                    cap as nat
                } else {
                    nodes.len()
                },
                None => nodes.len(),
            };
            &&& texts_all is List && texts_all->List_0.len() == nodes.len()
            &&& nodes.len() == 0 ==> evaluated(sel, base, scope, FieldView::Text(selector)) is Null
            &&& nodes.len() > 0 ==> evaluated(sel, base, scope, FieldView::Text(selector))
                == texts_all->List_0[0]
            &&& nodes.len() == 0 ==> evaluated(
                sel,
                base,
                scope,
                FieldView::Attr { selector, attr },
            ) is Null
            &&& nodes.len() > 0 ==> evaluated(sel, base, scope, FieldView::Attr { selector, attr })
                == evaluated(sel, base, nodes[0], own)
            &&& attrs_all is List && attrs_all->List_0.len() == most
            &&& forall|k: int|
                0 <= k < most ==> #[trigger] attrs_all->List_0[k] == evaluated(
                    sel,
                    base,
                    nodes[k],
                    own,
                )
            &&& objects is List && objects->List_0.len() == most
            &&& forall|k: int|
                0 <= k < most ==> {
                    &&& (#[trigger] objects->List_0[k]) is Object
                    &&& objects->List_0[k]->Object_0.len() == fields.len()
                    &&& forall|f: int|
                        0 <= f < fields.len() ==> #[trigger] objects->List_0[k]->Object_0[f] == (
                            fields[f].0,
                            evaluated(sel, base, nodes[k], fields[f].1),
                        )
                }
        }),
{
    lemma_answer_to_first(sel.answers@, i);
    let scope = sel.answers@[i].scope;
    let selector = sel.answers@[i].selector@;
    let nodes = sel.answers@[i].nodes@;
    assert(matched(sel, scope, selector) == nodes);
    let own = FieldView::Attr { selector: ":scope"@, attr };
    assert forall|id: usize| #[trigger] evaluated(sel, base, id, own) == attr_shown(
        sel,
        base,
        id,
        attr,
    ) by {}
    lemma_rows(sel, base, capped(nodes, limit), fields);
    let objects = evaluated(sel, base, scope, FieldView::Objects { selector, limit, fields });
    assert forall|k: int| 0 <= k < capped(nodes, limit).len() implies {
        &&& (#[trigger] objects->List_0[k]) is Object
        &&& objects->List_0[k]->Object_0 == row(sel, base, nodes[k], fields)
    } by {
        lemma_row(sel, base, nodes[k], fields);
    }
    assert forall|k: int, f: int|
        0 <= k < capped(nodes, limit).len() && 0 <= f < fields.len() implies #[trigger] row(
        sel,
        base,
        nodes[k],
        fields,
    )[f] == (fields[f].0, evaluated(sel, base, nodes[k], fields[f].1)) by {
        lemma_row(sel, base, nodes[k], fields);
    }
    assert forall|k: int| 0 <= k < capped(nodes, limit).len() implies #[trigger] row(
        sel,
        base,
        nodes[k],
        fields,
    ).len() == fields.len() by {
        lemma_row(sel, base, nodes[k], fields);
    }
}

/// A match's text is the node's own, on one line.
pub proof fn law_text_is_the_nodes_own(sel: Selected, base: Seq<char>, i: int, k: int, at: int)
    requires
        0 <= i < sel.answers@.len(),
        forall|j: int|
            0 <= j < i ==> (#[trigger] sel.answers@[j]).scope != sel.answers@[i].scope
                || sel.answers@[j].selector@ != sel.answers@[i].selector@,
        0 <= k < sel.answers@[i].nodes@.len(),
        0 <= at < sel.nodes@.len(),
        sel.nodes@[at].id == sel.answers@[i].nodes@[k],
        forall|j: int| 0 <= j < at ==> (#[trigger] sel.nodes@[j]).id != sel.nodes@[at].id,
    ensures
        evaluated(
            sel,
            base,
            sel.answers@[i].scope,
            FieldView::TextAll(sel.answers@[i].selector@),
        )->List_0[k] == JsonView::Text(collapsed(sel.nodes@[at].text@)),
{
    lemma_answer_to_first(sel.answers@, i);
    lemma_node_of_first(sel.nodes@, at);
}

/// Text on one line that does not hold the end of the fence is shown as it is.
/// One that does hold it has every hyphen, and nothing else, replaced.
pub proof fn law_only_the_fence_is_disarmed(s: Seq<char>)
    ensures
        ({
            let line = on_one_line(s);
            let shown = collapsed(s);
            let held = exists|i: int|
                0 <= i <= line.len() - 34 && #[trigger] line.subrange(i, i + 34)
                    == "--- END UNTRUSTED PAGE CONTENT ---"@;
            &&& !held ==> shown == line
            &&& shown.len() == line.len()
            &&& held ==> forall|i: int|
                0 <= i < line.len() ==> #[trigger] shown[i] == if line[i] == '-' {
                    '\u{2010}'
                } else {
                    line[i]
                }
        }),
{
    reveal_strlit("--- END UNTRUSTED PAGE CONTENT ---");
    let line = on_one_line(s);
    let end = "--- END UNTRUSTED PAGE CONTENT ---"@;
    assert(end.len() == 34);
    if exists|i: int| 0 <= i <= line.len() - 34 && #[trigger] line.subrange(i, i + 34) == end {
        let i = choose|i: int| 0 <= i <= line.len() - 34 && #[trigger] line.subrange(i, i + 34) == end;
        assert(occurs_at(line, FENCE_END@, i));
    }
    if contains(line, FENCE_END@) {
        let i = choose|i: int| occurs_at(line, FENCE_END@, i);
        assert(line.subrange(i, i + 34) == end);
    }
}

/// What an attribute comes back as, of the function that decides it.
pub proof fn law_what_an_attribute_comes_back_as(
    attr: &str,
    raw: &str,
    completed: Result<Url, String>,
    r: String,
)
    requires
        call_ensures(resolved_attribute, (attr, raw, &completed), r),
    ensures
        completed is Ok && (attr@ == "href"@ || attr@ == "src"@) ==> r@ == collapsed(
            completed->Ok_0@.href,
        ),
        completed is Err ==> r@ == collapsed(raw@),
        attr@ != "href"@ && attr@ != "src"@ ==> r@ == collapsed(raw@),
{
}

// -------------------------------------------------------- what a schema says

/// A field of a schema is what its shape says. A selector on its own is the
/// first match's text, and in an array every match's. An object with a
/// `selector` and an `attr` is that attribute, of the first match or, in an
/// array, of every one up to its `limit`. In an array an object without an
/// `attr` needs `fields`. A selector or an `attr` that is empty, or is not
/// text, is none. Any other shape is refused.
pub proof fn law_what_a_field_asks(name: &str, spec: &Json, r: Result<Field, VerbError>)
    requires
        call_ensures(parse_field, (name, spec), r),
    ensures
        r matches Err(e) ==> e.code is BadRequest,
        *spec matches Json::Text(s) ==> r is Ok && field_view(r->Ok_0) == FieldView::Text(s@),
        *spec matches Json::Object(map) ==> {
            let selector = entry_of(map@, "selector"@);
            let attr = entry_of(map@, "attr"@);
            let named = selector is Some && selector->Some_0 is Text
                && selector->Some_0->Text_0@.len() > 0;
            let read = attr is Some && attr->Some_0 is Text && attr->Some_0->Text_0@.len() > 0;
            &&& r is Ok <==> named && read
            &&& r is Ok ==> field_view(r->Ok_0) == (FieldView::Attr {
                selector: selector->Some_0->Text_0@,
                attr: attr->Some_0->Text_0@,
            })
        },
        *spec matches Json::List(items) ==> {
            &&& items@.len() != 1 ==> r is Err
            &&& items@.len() == 1 && !(items@[0] is Text) && !(items@[0] is Object) ==> r is Err
            &&& items@.len() == 1 && items@[0] is Text ==> r is Ok && field_view(r->Ok_0)
                == FieldView::TextAll(items@[0]->Text_0@)
            &&& items@.len() == 1 && items@[0] is Object ==> {
                let map = items@[0]->Object_0@;
                let selector = entry_of(map, "selector"@);
                let attr = entry_of(map, "attr"@);
                let fields = entry_of(map, "fields"@);
                let named = selector is Some && selector->Some_0 is Text
                    && selector->Some_0->Text_0@.len() > 0;
                let read = attr is Some && attr->Some_0 is Text && attr->Some_0->Text_0@.len() > 0;
                let limit = match entry_of(map, "limit"@) {
                    Some(Json::Number { whole: Some(n), .. }) => Some(n as usize),
                    _ => None,
                };
                &&& !named ==> r is Err
                &&& named && read ==> r is Ok && field_view(r->Ok_0) == (FieldView::AttrAll {
                    selector: selector->Some_0->Text_0@,
                    attr: attr->Some_0->Text_0@,
                    limit,
                })
                &&& named && !read && !(fields is Some && fields->Some_0 is Object) ==> r is Err
                &&& named && !read && r is Ok ==> (field_view(r->Ok_0) matches FieldView::Objects {
                    selector: s,
                    limit: l,
                    ..
                } && s == selector->Some_0->Text_0@ && l == limit)
            }
        },
        *spec is Null || *spec is Bool || *spec is Number ==> r is Err,
{
}

/// A schema is an object with at least one field, each of which reads, and
/// nothing else. The last of two fields of one name is the one that counts, and
/// every other field is as it was read.
pub proof fn law_what_a_schema_asks(value: &Json, r: Result<Vec<(String, Field)>, VerbError>)
    requires
        call_ensures(parse, (value,), r),
    ensures
        !(*value is Object) ==> r is Err,
        *value matches Json::Object(entries) ==> {
            &&& r is Ok <==> entries@.len() > 0 && forall|i: int|
                0 <= i < entries@.len() ==> parsed(
                    (#[trigger] entries@[i]).0@,
                    entries@[i].1,
                ) is Ok
            &&& r is Ok ==> forall|i: int|
                0 <= i < entries@.len() && (forall|j: int|
                    i < j < entries@.len() ==> (#[trigger] entries@[j]).0@ != entries@[i].0@)
                    ==> fields_view(r->Ok_0@).contains(
                    ((#[trigger] entries@[i]).0@, parsed(entries@[i].0@, entries@[i].1)->Ok_0),
                )
        },
        r matches Err(e) ==> e.code is BadRequest,
{
    if let Json::Object(entries) = *value {
        lemma_parsed_all(entries@);
    }
}

proof fn lemma_with_field(
    fs: Seq<(Seq<char>, FieldView)>,
    name: Seq<char>,
    f: FieldView,
    g: (Seq<char>, FieldView),
)
    ensures
        with_field(fs, name, f).contains((name, f)),
        fs.contains(g) && g.0 != name ==> with_field(fs, name, f).contains(g),
    decreases fs.len(),
{
    let all = with_field(fs, name, f);
    if fs.len() == 0 {
        assert(all[0] == (name, f));
    } else if fs[0].0 == name {
        assert(all[0] == (name, f));
        if fs.contains(g) && g.0 != name {
            let k = choose|k: int| 0 <= k < fs.len() && fs[k] == g;
            assert(all[k] == fs.drop_first()[k - 1]);
            assert(all[k] == g);
        }
    } else if text_less(name, fs[0].0) {
        assert(all[0] == (name, f));
        if fs.contains(g) {
            let k = choose|k: int| 0 <= k < fs.len() && fs[k] == g;
            assert(all[k + 1] == g);
        }
    } else {
        let rest = fs.drop_first();
        lemma_with_field(rest, name, f, g);
        let more = with_field(rest, name, f);
        assert forall|x: (Seq<char>, FieldView)| #[trigger] more.contains(x) implies all.contains(
            x,
        ) by {
            let k = choose|k: int| 0 <= k < more.len() && more[k] == x;
            assert(all[k + 1] == x);
        }
        if fs.contains(g) && g.0 != name {
            let k = choose|k: int| 0 <= k < fs.len() && fs[k] == g;
            if k == 0 {
                assert(all[0] == g);
            } else {
                assert(rest[k - 1] == g);
                assert(rest.contains(g));
            }
        }
    }
}

proof fn lemma_parsed_all(entries: Seq<(String, Json)>)
    ensures
        parsed_all(entries) is Ok <==> forall|i: int|
            0 <= i < entries.len() ==> parsed((#[trigger] entries[i]).0@, entries[i].1) is Ok,
        parsed_all(entries) is Ok ==> forall|i: int|
            0 <= i < entries.len() && (forall|j: int|
                i < j < entries.len() ==> (#[trigger] entries[j]).0@ != entries[i].0@)
                ==> parsed_all(entries)->Ok_0.contains(
                ((#[trigger] entries[i]).0@, parsed(entries[i].0@, entries[i].1)->Ok_0),
            ),
    decreases entries.len(),
{
    if entries.len() > 0 {
        let front = entries.drop_last();
        let n = entries.len() - 1;
        lemma_parsed_all(front);
        assert(entries[n] == entries.last());
        assert forall|i: int| 0 <= i < n implies #[trigger] front[i] == entries[i] by {}
        if forall|i: int| 0 <= i < entries.len() ==> parsed((#[trigger] entries[i]).0@, entries[i].1)
            is Ok {
            assert forall|i: int| 0 <= i < front.len() implies parsed(
                (#[trigger] front[i]).0@,
                front[i].1,
            ) is Ok by {
                assert(parsed(entries[i].0@, entries[i].1) is Ok);
            }
        }
        if parsed_all(entries) is Ok {
            let before = parsed_all(front)->Ok_0;
            let name = entries.last().0@;
            let f = parsed(name, entries.last().1)->Ok_0;
            assert forall|i: int| 0 <= i < entries.len() implies parsed(
                (#[trigger] entries[i]).0@,
                entries[i].1,
            ) is Ok by {
                if i < n {
                    assert(parsed(front[i].0@, front[i].1) is Ok);
                }
            }
            assert forall|i: int|
                0 <= i < entries.len() && (forall|j: int|
                    i < j < entries.len() ==> (#[trigger] entries[j]).0@ != entries[i].0@)
                implies parsed_all(entries)->Ok_0.contains(
                ((#[trigger] entries[i]).0@, parsed(entries[i].0@, entries[i].1)->Ok_0),
            ) by {
                let g = (entries[i].0@, parsed(entries[i].0@, entries[i].1)->Ok_0);
                lemma_with_field(before, name, f, g);
                if i < n {
                    assert(entries[n].0@ != entries[i].0@);
                    assert forall|j: int| i < j < front.len() implies (#[trigger] front[j]).0@
                        != front[i].0@ by {
                        assert(entries[j].0@ != entries[i].0@);
                    }
                    assert(front[i] == entries[i]);
                    assert(before.contains(g));
                }
            }
        }
    }
}

/// A schema is answered exactly where one of its fields came to something, and
/// every field stands in the answer under its own name, as it came out.
pub proof fn law_when_a_schema_is_answered(
    sel: &Selected,
    base: &Url,
    schema: &Vec<(String, Field)>,
    r: Result<Json, VerbError>,
)
    requires
        call_ensures(run, (sel, base, schema), r),
    ensures
        ({
            let fields = fields_view(schema@);
            &&& r is Ok <==> exists|i: int|
                0 <= i < fields.len() && !(evaluated(
                    *sel,
                    base.href@,
                    0,
                    (#[trigger] fields[i]).1,
                ) is Null)
            &&& r is Ok ==> json_view(r->Ok_0) is Object && json_view(r->Ok_0)->Object_0.len()
                == fields.len() && forall|i: int|
                0 <= i < fields.len() ==> json_view(r->Ok_0)->Object_0[i] == (
                    (#[trigger] fields[i]).0,
                    evaluated(*sel, base.href@, 0, fields[i].1),
                )
            &&& r matches Err(e) ==> e.code is NoMatch
        }),
{
    let fields = fields_view(schema@);
    let entries = row(*sel, base.href@, ROOT, fields);
    lemma_row(*sel, base.href@, ROOT, fields);
    if exists|i: int|
        0 <= i < fields.len() && !(evaluated(*sel, base.href@, 0, (#[trigger] fields[i]).1)
            is Null) {
        let i = choose|i: int|
            0 <= i < fields.len() && !(evaluated(*sel, base.href@, 0, (#[trigger] fields[i]).1)
                is Null);
        assert(!(entries[i].1 is Null));
    }
    if says_something(entries) {
        let i = choose|i: int| 0 <= i < entries.len() && !((#[trigger] entries[i]).1 is Null);
        assert(!(evaluated(*sel, base.href@, 0, fields[i].1) is Null));
    }
    assert forall|i: int| 0 <= i < fields.len() implies entries[i] == (
        (#[trigger] fields[i]).0,
        evaluated(*sel, base.href@, 0, fields[i].1),
    ) by {}
}

proof fn lemma_answers_stay(
    answers: Seq<Answered>,
    extra: Seq<Answered>,
    scope: usize,
    selector: Seq<char>,
)
    requires
        answer_to(answers, scope, selector) is Some,
    ensures
        answer_to(answers + extra, scope, selector) == answer_to(answers, scope, selector),
    decreases answers.len(),
{
    let all = answers + extra;
    assert(all[0] == answers[0]);
    if !(answers[0].scope == scope && answers[0].selector@ == selector) {
        assert(all.drop_first() =~= answers.drop_first() + extra);
        lemma_answers_stay(answers.drop_first(), extra, scope, selector);
    }
}

/// With no query left a field is what it is: no further answer changes it.
pub proof fn law_with_nothing_left_to_ask_a_field_is_final(
    sel: Selected,
    more: Selected,
    extra: Seq<Answered>,
    base: Seq<char>,
    scope: usize,
    f: FieldView,
)
    requires
        unanswered(sel, scope, f).len() == 0,
        more.answers@ == sel.answers@ + extra,
        more.nodes@ == sel.nodes@,
    ensures
        evaluated(more, base, scope, f) == evaluated(sel, base, scope, f),
    decreases f, 2int, 0nat,
{
    match f {
        FieldView::Text(selector) => {
            lemma_answers_stay(sel.answers@, extra, scope, selector);
        },
        FieldView::TextAll(selector) => {
            lemma_answers_stay(sel.answers@, extra, scope, selector);
            assert(evaluated(more, base, scope, f)->List_0 =~= evaluated(
                sel,
                base,
                scope,
                f,
            )->List_0);
        },
        FieldView::Attr { selector, attr } => {
            if selector != ":scope"@ {
                lemma_answers_stay(sel.answers@, extra, scope, selector);
            }
        },
        FieldView::AttrAll { selector, attr, limit } => {
            lemma_answers_stay(sel.answers@, extra, scope, selector);
            assert(evaluated(more, base, scope, f)->List_0 =~= evaluated(
                sel,
                base,
                scope,
                f,
            )->List_0);
        },
        FieldView::Objects { selector, limit, fields } => {
            lemma_answers_stay(sel.answers@, extra, scope, selector);
            lemma_rows_are_final(
                sel,
                more,
                extra,
                base,
                capped(matched(sel, scope, selector), limit),
                fields,
            );
        },
    }
}

proof fn lemma_rows_are_final(
    sel: Selected,
    more: Selected,
    extra: Seq<Answered>,
    base: Seq<char>,
    nodes: Seq<usize>,
    fields: Seq<(Seq<char>, FieldView)>,
)
    requires
        unanswered_rows(sel, nodes, fields).len() == 0,
        more.answers@ == sel.answers@ + extra,
        more.nodes@ == sel.nodes@,
    ensures
        rows(more, base, nodes, fields) == rows(sel, base, nodes, fields),
    decreases fields, 1int, nodes.len(),
{
    if nodes.len() > 0 {
        lemma_rows_are_final(sel, more, extra, base, nodes.drop_last(), fields);
        lemma_row_is_final(sel, more, extra, base, nodes.last(), fields);
    }
}

proof fn lemma_row_is_final(
    sel: Selected,
    more: Selected,
    extra: Seq<Answered>,
    base: Seq<char>,
    node: usize,
    fields: Seq<(Seq<char>, FieldView)>,
)
    requires
        unanswered_all(sel, node, fields).len() == 0,
        more.answers@ == sel.answers@ + extra,
        more.nodes@ == sel.nodes@,
    ensures
        row(more, base, node, fields) == row(sel, base, node, fields),
    decreases fields, 0int, 0nat,
{
    if fields.len() > 0 {
        lemma_row_is_final(sel, more, extra, base, node, fields.drop_last());
        law_with_nothing_left_to_ask_a_field_is_final(
            sel,
            more,
            extra,
            base,
            node,
            fields.last().1,
        );
    }
}

/// With no query left a schema's answer is final: no further answer of the
/// document changes what comes of it.
pub proof fn law_with_nothing_left_to_ask_the_answer_is_final(
    sel: &Selected,
    more: &Selected,
    extra: Seq<Answered>,
    base: &Url,
    schema: &Vec<(String, Field)>,
    left: Vec<Query>,
    a: Result<Json, VerbError>,
    b: Result<Json, VerbError>,
)
    requires
        call_ensures(queries_left, (sel, schema), left),
        left@.len() == 0,
        more.answers@ == sel.answers@ + extra,
        more.nodes@ == sel.nodes@,
        call_ensures(run, (sel, base, schema), a),
        call_ensures(run, (more, base, schema), b),
    ensures
        a is Ok <==> b is Ok,
        a is Ok ==> json_view(a->Ok_0) == json_view(b->Ok_0),
{
    assert(queries_view(left@).len() == 0);
    lemma_row_is_final(*sel, *more, extra, base.href@, ROOT, fields_view(schema@));
}

/// What is still asked was not answered yet.
pub proof fn law_no_question_is_asked_twice(
    sel: &Selected,
    schema: &Vec<(String, Field)>,
    left: Vec<Query>,
    i: int,
)
    requires
        call_ensures(queries_left, (sel, schema), left),
        0 <= i < left@.len(),
    ensures
        forall|k: int|
            0 <= k < sel.answers@.len() ==> (#[trigger] sel.answers@[k]).scope != left@[i].scope
                || sel.answers@[k].selector@ != left@[i].selector@,
{
    lemma_all_are_open(*sel, ROOT, fields_view(schema@));
    let q = queries_view(left@)[i];
    assert(q == (left@[i].scope, left@[i].selector@));
    assert(answer_to(sel.answers@, q.0, q.1) is None);
    lemma_no_answer(sel.answers@, q.0, q.1);
}

proof fn lemma_no_answer(answers: Seq<Answered>, scope: usize, selector: Seq<char>)
    requires
        answer_to(answers, scope, selector) is None,
    ensures
        forall|k: int|
            0 <= k < answers.len() ==> (#[trigger] answers[k]).scope != scope
                || answers[k].selector@ != selector,
    decreases answers.len(),
{
    if answers.len() > 0 {
        let rest = answers.drop_first();
        lemma_no_answer(rest, scope, selector);
        assert forall|k: int| 0 <= k < answers.len() implies (#[trigger] answers[k]).scope != scope
            || answers[k].selector@ != selector by {
            if k > 0 {
                assert(rest[k - 1] == answers[k]);
            }
        }
    }
}

proof fn lemma_field_is_open(sel: Selected, scope: usize, f: FieldView)
    ensures
        forall|i: int|
            0 <= i < unanswered(sel, scope, f).len() ==> answer_to(
                sel.answers@,
                (#[trigger] unanswered(sel, scope, f)[i]).0,
                unanswered(sel, scope, f)[i].1,
            ) is None,
    decreases f, 2int, 0nat,
{
    if let FieldView::Objects { selector, limit, fields } = f {
        lemma_rows_are_open(sel, capped(matched(sel, scope, selector), limit), fields);
    }
}

proof fn lemma_rows_are_open(
    sel: Selected,
    nodes: Seq<usize>,
    fields: Seq<(Seq<char>, FieldView)>,
)
    ensures
        forall|i: int|
            0 <= i < unanswered_rows(sel, nodes, fields).len() ==> answer_to(
                sel.answers@,
                (#[trigger] unanswered_rows(sel, nodes, fields)[i]).0,
                unanswered_rows(sel, nodes, fields)[i].1,
            ) is None,
    decreases fields, 1int, nodes.len(),
{
    if nodes.len() > 0 {
        lemma_rows_are_open(sel, nodes.drop_last(), fields);
        lemma_all_are_open(sel, nodes.last(), fields);
    }
}

proof fn lemma_all_are_open(sel: Selected, scope: usize, fields: Seq<(Seq<char>, FieldView)>)
    ensures
        forall|i: int|
            0 <= i < unanswered_all(sel, scope, fields).len() ==> answer_to(
                sel.answers@,
                (#[trigger] unanswered_all(sel, scope, fields)[i]).0,
                unanswered_all(sel, scope, fields)[i].1,
            ) is None,
    decreases fields, 0int, 0nat,
{
    if fields.len() > 0 {
        lemma_all_are_open(sel, scope, fields.drop_last());
        lemma_field_is_open(sel, scope, fields.last().1);
    }
}

} // verus!
