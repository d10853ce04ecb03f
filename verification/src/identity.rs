//! Whether a browser identity can be stood behind, and what to say of it.
//!
//! What is reported is neither a score nor a promise: which layers the
//! identity reaches, which it does not, and what is missing where the engine
//! cannot back it.
use vstd::prelude::*;

use crate::json::{json_view, lemma_list_push, list_view, object_view, Json, JsonView};
use crate::session::{put, put_flag, put_text, put_texts, text_json, texts_json};
use crate::text::{chars_of, join, joined, texts};

verus! {

/// A way in which an identity contradicts itself.
#[derive(Debug, Clone, PartialEq, Eq)]
pub struct Incoherence {
    pub field: String,
    pub says: String,
    /// Both, in a sentence.
    pub line: String,
}

/// A requirement that the engine does not meet.
#[derive(Debug, Clone, PartialEq, Eq)]
pub struct Unmet {
    pub requires: String,
    pub why: String,
}

/// An identity held against the engine.
#[derive(Debug, PartialEq, Eq)]
pub struct IdentityCheck {
    pub name: String,
    pub mode: String,
    pub digest: String,
    pub user_agent: String,
    pub accept_language: String,
    /// The browser that the agent string claims to be.
    pub family: String,
    pub script: bool,
    pub incoherences: Vec<Incoherence>,
    pub unmet: Vec<Unmet>,
    pub covers: Vec<String>,
    pub does_not_cover: Vec<String>,
}

/// Whether the engine can present the identity: it agrees with itself, and
/// nothing that it needs is missing. It is never applied in part.
pub open spec fn admitted(c: IdentityCheck) -> bool {
    c.incoherences@.len() == 0 && c.unmet@.len() == 0
}

pub open spec fn found_lines(v: Seq<Incoherence>) -> Seq<Seq<char>> {
    v.map_values(|f: Incoherence| f.line@)
}

/// What is said of an identity that contradicts itself.
pub open spec fn contradiction(name: Seq<char>, found: Seq<Seq<char>>) -> Seq<char> {
    "the browser identity `"@ + name + "` contradicts itself:\n"@ + joined(
        found.map_values(|l: Seq<char>| "  "@ + l),
        "\n"@,
    )
}

/// Whether an identity agrees with itself.
pub fn check_coherent(name: &str, found: &Vec<Incoherence>) -> (r: Result<(), String>)
    ensures
        match r {
            Ok(_) => found@.len() == 0,
            Err(e) => found@.len() > 0 && e@ == contradiction(name@, found_lines(found@)),
        },
{
    if found.len() == 0 {
        return Ok(());
    }
    let ghost indent = |l: Seq<char>| "  "@ + l;
    let mut lines: Vec<String> = Vec::new();
    let mut i: usize = 0;
    while i < found.len()
        invariant
            i <= found.len(),
            indent == (|l: Seq<char>| "  "@ + l),
            texts(lines@) == found_lines(found@).take(i as int).map_values(indent),
        decreases found.len() - i,
    {
        let mut l = "  ".to_owned();
        l.append(&found[i].line);
        let ghost before = texts(lines@);
        lines.push(l);
        assert(texts(lines@) =~= before.push(l@));
        assert(found_lines(found@).take(i + 1).map_values(indent) =~= found_lines(found@).take(
            i as int,
        ).map_values(indent).push(indent(found@[i as int].line@)));
        i += 1;
    }
    assert(found_lines(found@).take(i as int) =~= found_lines(found@));
    let mut e = "the browser identity `".to_owned();
    e.append(name);
    e.append("` contradicts itself:\n");
    e.append(&join(&lines, "\n"));
    Err(e)
}

/// What is said where a window would be larger than the screen that the
/// identity says it is on.
pub fn wrong_size(name: &str, over: &str) -> (r: String)
    ensures
        r@ == "the browser identity `"@ + name@ + "` cannot be used at this size:\n  "@ + over@,
{
    let mut e = "the browser identity `".to_owned();
    e.append(name);
    e.append("` cannot be used at this size:\n  ");
    e.append(over);
    e
}

/// A text at the left of so many columns.
pub open spec fn padded(s: Seq<char>, width: nat) -> Seq<char>
    decreases width - s.len(),
{
    if s.len() >= width {
        s
    } else {
        padded(s.push(' '), width)
    }
}

fn pad(s: &str, width: usize) -> (r: String)
    ensures
        r@ == padded(s@, width as nat),
{
    let mut n: usize = chars_of(s).len();
    let mut out = s.to_owned();
    while n < width
        invariant
            n == out@.len(),
            padded(s@, width as nat) == padded(out@, width as nat),
        decreases width - n,
    {
        out.push(' ');
        n += 1;
    }
    out
}

/// One identity as a row of the list.
pub fn identity_row(name: &str, mode: &str, user_agent: &str) -> (r: String)
    ensures
        r@ == padded(name@, 20) + " "@ + padded(mode@, 11) + " "@ + user_agent@,
{
    let mut out = pad(name, 20);
    out.append(" ");
    out.append(&pad(mode, 11));
    out.append(" ");
    out.append(user_agent);
    out
}

/// What a check says, line by line.
pub open spec fn check_lines(c: IdentityCheck) -> Seq<Seq<char>> {
    seq![
        c.name@ + "  ("@ + c.mode@ + ", "@ + c.digest@ + ")"@,
        "  agent   "@ + c.user_agent@,
        "  accepts "@ + c.accept_language@,
        ""@,
    ] + (if admitted(c) {
        seq![
            "\u{2713} this engine can present it"@ + (if c.script {
                ""@
            } else {
                " with script off"@
            }),
        ]
    } else {
        seq!["\u{2717} refused"@] + c.incoherences@.map_values(
            |f: Incoherence| "    contradicts itself: "@ + f.line@,
        ) + c.unmet@.map_values(|u: Unmet| "    needs "@ + u.requires@ + ": "@ + u.why@) + (if c.unmet@.len()
            > 0 {
            seq![
                "    Not applied in part: an agent string claiming "@ + c.family@ + " in front"@,
                "    of an engine missing these is louder than no claim at all."@,
            ]
        } else {
            Seq::empty()
        })
    }) + seq![""@, "  covers"@] + texts(c.covers@).map_values(|l: Seq<char>| "    "@ + l) + seq![
        "  does not cover"@,
    ] + texts(c.does_not_cover@).map_values(|l: Seq<char>| "    "@ + l)
}

fn say(out: &mut Vec<String>, line: String)
    ensures
        texts(final(out)@) == texts(old(out)@).push(line@),
{
    out.push(line);
    assert(texts(out@) =~= texts(old(out)@).push(line@));
}

fn say_indented(out: &mut Vec<String>, lines: &Vec<String>)
    ensures
        texts(final(out)@) == texts(old(out)@) + texts(lines@).map_values(
            |l: Seq<char>| "    "@ + l,
        ),
{
    let ghost indent = |l: Seq<char>| "    "@ + l;
    let ghost start = texts(out@);
    let mut i: usize = 0;
    assert(start =~= start + texts(lines@).take(0).map_values(indent));
    while i < lines.len()
        invariant
            i <= lines.len(),
            indent == (|l: Seq<char>| "    "@ + l),
            texts(out@) == start + texts(lines@).take(i as int).map_values(indent),
        decreases lines.len() - i,
    {
        let mut l = "    ".to_owned();
        l.append(&lines[i]);
        say(out, l);
        assert(texts(out@) =~= start + texts(lines@).take(i + 1).map_values(indent));
        i += 1;
    }
    assert(texts(lines@).take(i as int) =~= texts(lines@));
}

fn say_found(out: &mut Vec<String>, found: &Vec<Incoherence>)
    ensures
        texts(final(out)@) == texts(old(out)@) + found@.map_values(
            |f: Incoherence| "    contradicts itself: "@ + f.line@,
        ),
{
    let ghost shown = |f: Incoherence| "    contradicts itself: "@ + f.line@;
    let ghost start = texts(out@);
    let mut i: usize = 0;
    assert(start =~= start + found@.take(0).map_values(shown));
    while i < found.len()
        invariant
            i <= found.len(),
            shown == (|f: Incoherence| "    contradicts itself: "@ + f.line@),
            texts(out@) == start + found@.take(i as int).map_values(shown),
        decreases found.len() - i,
    {
        let mut l = "    contradicts itself: ".to_owned();
        l.append(&found[i].line);
        say(out, l);
        assert(texts(out@) =~= start + found@.take(i + 1).map_values(shown));
        i += 1;
    }
    assert(found@.take(i as int) =~= found@);
}

fn say_unmet(out: &mut Vec<String>, unmet: &Vec<Unmet>)
    ensures
        texts(final(out)@) == texts(old(out)@) + unmet@.map_values(
            |u: Unmet| "    needs "@ + u.requires@ + ": "@ + u.why@,
        ),
{
    let ghost shown = |u: Unmet| "    needs "@ + u.requires@ + ": "@ + u.why@;
    let ghost start = texts(out@);
    let mut i: usize = 0;
    assert(start =~= start + unmet@.take(0).map_values(shown));
    while i < unmet.len()
        invariant
            i <= unmet.len(),
            shown == (|u: Unmet| "    needs "@ + u.requires@ + ": "@ + u.why@),
            texts(out@) == start + unmet@.take(i as int).map_values(shown),
        decreases unmet.len() - i,
    {
        let mut l = "    needs ".to_owned();
        l.append(&unmet[i].requires);
        l.append(": ");
        l.append(&unmet[i].why);
        say(out, l);
        assert(texts(out@) =~= start + unmet@.take(i + 1).map_values(shown));
        i += 1;
    }
    assert(unmet@.take(i as int) =~= unmet@);
}

/// What a check says, for a person.
pub fn check_text(c: &IdentityCheck) -> (r: Vec<String>)
    ensures
        texts(r@) == check_lines(*c),
{
    let mut out: Vec<String> = Vec::new();
    assert(texts(out@) =~= Seq::<Seq<char>>::empty());
    let mut head = c.name.clone();
    head.append("  (");
    head.append(&c.mode);
    head.append(", ");
    head.append(&c.digest);
    head.append(")");
    say(&mut out, head);
    let mut agent = "  agent   ".to_owned();
    agent.append(&c.user_agent);
    say(&mut out, agent);
    let mut accepts = "  accepts ".to_owned();
    accepts.append(&c.accept_language);
    say(&mut out, accepts);
    say(&mut out, "".to_owned());
    if c.incoherences.len() == 0 && c.unmet.len() == 0 {
        let mut l = "\u{2713} this engine can present it".to_owned();
        if c.script {
            l.append("");
        } else {
            l.append(" with script off");
        }
        say(&mut out, l);
    } else {
        say(&mut out, "\u{2717} refused".to_owned());
        say_found(&mut out, &c.incoherences);
        say_unmet(&mut out, &c.unmet);
        if c.unmet.len() > 0 {
            let mut l = "    Not applied in part: an agent string claiming ".to_owned();
            l.append(&c.family);
            l.append(" in front");
            say(&mut out, l);
            say(
                &mut out,
                "    of an engine missing these is louder than no claim at all.".to_owned(),
            );
        }
    }
    say(&mut out, "".to_owned());
    say(&mut out, "  covers".to_owned());
    say_indented(&mut out, &c.covers);
    say(&mut out, "  does not cover".to_owned());
    say_indented(&mut out, &c.does_not_cover);
    assert(texts(out@) =~= check_lines(*c));
    out
}

pub open spec fn incoherence_json(f: Incoherence) -> JsonView {
    JsonView::Object(seq![("field"@, text_json(f.field@)), ("says"@, text_json(f.says@))])
}

pub open spec fn unmet_json(u: Unmet) -> JsonView {
    JsonView::Object(seq![("requires"@, text_json(u.requires@)), ("why"@, text_json(u.why@))])
}

/// What a check says, as JSON.
pub open spec fn check_entries(c: IdentityCheck) -> Seq<(Seq<char>, JsonView)> {
    seq![
        ("name"@, text_json(c.name@)),
        ("mode"@, text_json(c.mode@)),
        ("digest"@, text_json(c.digest@)),
        ("admitted"@, JsonView::Bool(admitted(c))),
        (
            "contradicts"@,
            JsonView::List(c.incoherences@.map_values(|f: Incoherence| incoherence_json(f))),
        ),
        ("unmet"@, JsonView::List(c.unmet@.map_values(|u: Unmet| unmet_json(u)))),
        ("covers"@, texts_json(c.covers@)),
        ("does_not_cover"@, texts_json(c.does_not_cover@)),
    ]
}

fn pair_json(a: &str, x: &str, b: &str, y: &str) -> (r: Json)
    ensures
        json_view(r) == JsonView::Object(seq![(a@, text_json(x@)), (b@, text_json(y@))]),
{
    let mut entries: Vec<(String, Json)> = Vec::new();
    assert(object_view(entries@) =~= Seq::<(Seq<char>, JsonView)>::empty());
    put_text(&mut entries, a, x);
    put_text(&mut entries, b, y);
    assert(object_view(entries@) =~= seq![(a@, text_json(x@)), (b@, text_json(y@))]);
    Json::Object(entries)
}

/// What a check says, for a program. Refused is not an error to *ask* about:
/// the caller reads `admitted`.
pub fn check_report(c: &IdentityCheck) -> (r: Json)
    ensures
        json_view(r) == JsonView::Object(check_entries(*c)),
{
    let mut out: Vec<(String, Json)> = Vec::new();
    assert(object_view(out@) =~= Seq::<(Seq<char>, JsonView)>::empty());
    put_text(&mut out, "name", &c.name);
    put_text(&mut out, "mode", &c.mode);
    put_text(&mut out, "digest", &c.digest);
    put_flag(&mut out, "admitted", c.incoherences.len() == 0 && c.unmet.len() == 0);
    let ghost shown = |f: Incoherence| incoherence_json(f);
    let mut found: Vec<Json> = Vec::new();
    let mut i: usize = 0;
    while i < c.incoherences.len()
        invariant
            i <= c.incoherences.len(),
            shown == (|f: Incoherence| incoherence_json(f)),
            list_view(found@) == c.incoherences@.take(i as int).map_values(shown),
        decreases c.incoherences.len() - i,
    {
        let item = pair_json(
            "field",
            &c.incoherences[i].field,
            "says",
            &c.incoherences[i].says,
        );
        proof {
            lemma_list_push(found@, item);
            assert(c.incoherences@.take(i + 1).map_values(shown) =~= c.incoherences@.take(
                i as int,
            ).map_values(shown).push(shown(c.incoherences@[i as int])));
        }
        found.push(item);
        i += 1;
    }
    assert(c.incoherences@.take(i as int) =~= c.incoherences@);
    put(&mut out, "contradicts", Json::List(found));
    let ghost needs = |u: Unmet| unmet_json(u);
    let mut missing: Vec<Json> = Vec::new();
    let mut k: usize = 0;
    while k < c.unmet.len()
        invariant
            k <= c.unmet.len(),
            needs == (|u: Unmet| unmet_json(u)),
            list_view(missing@) == c.unmet@.take(k as int).map_values(needs),
        decreases c.unmet.len() - k,
    {
        let item = pair_json("requires", &c.unmet[k].requires, "why", &c.unmet[k].why);
        proof {
            lemma_list_push(missing@, item);
            assert(c.unmet@.take(k + 1).map_values(needs) =~= c.unmet@.take(k as int).map_values(
                needs,
            ).push(needs(c.unmet@[k as int])));
        }
        missing.push(item);
        k += 1;
    }
    assert(c.unmet@.take(k as int) =~= c.unmet@);
    put(&mut out, "unmet", Json::List(missing));
    put_texts(&mut out, "covers", &c.covers);
    put_texts(&mut out, "does_not_cover", &c.does_not_cover);
    assert(object_view(out@) =~= check_entries(*c));
    Json::Object(out)
}

/// A column is filled up with blanks to its width, and what is wider is not
/// cut.
pub proof fn law_a_column_is_filled_up(s: Seq<char>, width: nat)
    ensures
        padded(s, width).len() == (if s.len() > width {
            s.len()
        } else {
            width
        }),
        padded(s, width).take(s.len() as int) == s,
        forall|i: int| s.len() <= i < padded(s, width).len() ==> #[trigger] padded(s, width)[i]
            == ' ',
    decreases width - s.len(),
{
    if s.len() < width {
        law_a_column_is_filled_up(s.push(' '), width);
        let all = padded(s, width);
        let more = s.push(' ');
        assert(all.take(more.len() as int) == more);
        assert(all.take(s.len() as int) =~= s) by {
            assert forall|i: int| 0 <= i < s.len() implies all[i] == s[i] by {
                assert(all.take(more.len() as int)[i] == more[i]);
            }
        }
        assert forall|i: int| s.len() <= i < all.len() implies #[trigger] all[i] == ' ' by {
            if i == s.len() {
                assert(all.take(more.len() as int)[i] == more[i]);
            }
        }
    } else {
        assert(s.take(s.len() as int) =~= s);
    }
}

/// A row names an identity in twenty columns, its mode in eleven, and then its
/// agent.
pub proof fn law_what_a_row_shows(name: &str, mode: &str, user_agent: &str, r: String)
    requires
        call_ensures(identity_row, (name, mode, user_agent), r),
        name@.len() <= 20,
        mode@.len() <= 11,
    ensures
        r@.len() == 33 + user_agent@.len(),
        r@.take(name@.len() as int) == name@,
        r@.subrange(21, 21int + mode@.len()) == mode@,
        r@.skip(33) == user_agent@,
{
    reveal_strlit(" ");
    law_a_column_is_filled_up(name@, 20);
    law_a_column_is_filled_up(mode@, 11);
    let a = padded(name@, 20);
    let b = padded(mode@, 11);
    assert(r@ == a + " "@ + b + " "@ + user_agent@);
    assert(r@.take(name@.len() as int) =~= name@) by {
        assert(r@.take(name@.len() as int) =~= a.take(name@.len() as int));
    }
    assert(r@.subrange(21, 21int + mode@.len()) =~= mode@) by {
        assert(r@.subrange(21, 21int + mode@.len()) =~= b.take(mode@.len() as int));
    }
    assert(r@.skip(33) =~= user_agent@);
}

/// An identity is coherent exactly where nothing about it contradicts itself.
pub proof fn law_when_an_identity_is_coherent(
    name: &str,
    found: &Vec<Incoherence>,
    r: Result<(), String>,
)
    requires
        call_ensures(check_coherent, (name, found), r),
    ensures
        r is Ok <==> found@.len() == 0,
{
}

/// A report says that an identity is admitted exactly where nothing
/// contradicts itself and nothing is unmet, and lists each of both.
pub proof fn law_what_a_report_says_of_an_identity(c: &IdentityCheck, r: Json)
    requires
        call_ensures(check_report, (c,), r),
    ensures
        json_view(r) is Object,
        ({
            let e = json_view(r)->Object_0;
            &&& e.len() == 8
            &&& e[0] == ("name"@, JsonView::Text(c.name@))
            &&& e[1] == ("mode"@, JsonView::Text(c.mode@))
            &&& e[2] == ("digest"@, JsonView::Text(c.digest@))
            &&& e[3] == (
                "admitted"@,
                JsonView::Bool(c.incoherences@.len() == 0 && c.unmet@.len() == 0),
            )
            &&& e[4].0 == "contradicts"@ && e[4].1 is List && e[4].1->List_0.len()
                == c.incoherences@.len()
            &&& e[5].0 == "unmet"@ && e[5].1 is List && e[5].1->List_0.len() == c.unmet@.len()
            &&& e[6].0 == "covers"@
            &&& e[7].0 == "does_not_cover"@
        }),
{
}

/// What a check says begins with the identity, says whether it can be
/// presented, and where it cannot says each reason.
pub proof fn law_what_a_check_says(c: &IdentityCheck, r: Vec<String>)
    requires
        call_ensures(check_text, (c,), r),
    ensures
        ({
            let can = c.incoherences@.len() == 0 && c.unmet@.len() == 0;
            let lines = texts(r@);
            &&& lines[0] == c.name@ + "  ("@ + c.mode@ + ", "@ + c.digest@ + ")"@
            &&& lines[1] == "  agent   "@ + c.user_agent@
            &&& lines[2] == "  accepts "@ + c.accept_language@
            &&& can && c.script ==> lines[4] == "\u{2713} this engine can present it"@ + ""@
            &&& can && !c.script ==> lines[4] == "\u{2713} this engine can present it"@
                + " with script off"@
            &&& !can ==> lines[4] == "\u{2717} refused"@
            &&& !can ==> forall|i: int|
                0 <= i < c.incoherences@.len() ==> lines[5 + i] == "    contradicts itself: "@ + (
                #[trigger] c.incoherences@[i]).line@
            &&& !can ==> forall|i: int|
                0 <= i < c.unmet@.len() ==> lines[5 + c.incoherences@.len() + i] == "    needs "@ + (
                #[trigger] c.unmet@[i]).requires@ + ": "@ + c.unmet@[i].why@
        }),
{
}

} // verus!
