//! JSON as plain data: what is asked of a session and what it answers.
use vstd::prelude::*;

use crate::text::same;

verus! {

/// A JSON value. An object is its entries, in the order they are read in.
#[derive(Debug, PartialEq, Eq)]
pub enum Json {
    Null,
    Bool(bool),
    /// A number: its text, and what it is where it is a natural number.
    Number { whole: Option<u64>, text: String },
    Text(String),
    List(Vec<Json>),
    Object(Vec<(String, Json)>),
}

/// What a [`Json`] says.
pub enum JsonView {
    Null,
    Bool(bool),
    Number { whole: Option<u64>, text: Seq<char> },
    Text(Seq<char>),
    List(Seq<JsonView>),
    Object(Seq<(Seq<char>, JsonView)>),
}

/// What a value says.
pub open spec fn json_view(j: Json) -> JsonView
    decreases j,
{
    match j {
        Json::Null => JsonView::Null,
        Json::Bool(b) => JsonView::Bool(b),
        Json::Number { whole, text } => JsonView::Number { whole, text: text@ },
        Json::Text(t) => JsonView::Text(t@),
        Json::List(items) => JsonView::List(list_view(items@)),
        Json::Object(entries) => JsonView::Object(object_view(entries@)),
    }
}

pub open spec fn list_view(items: Seq<Json>) -> Seq<JsonView>
    decreases items,
{
    if items.len() == 0 {
        Seq::empty()
    } else {
        list_view(items.drop_last()).push(json_view(items.last()))
    }
}

pub open spec fn object_view(entries: Seq<(String, Json)>) -> Seq<(Seq<char>, JsonView)>
    decreases entries,
{
    if entries.len() == 0 {
        Seq::empty()
    } else {
        object_view(entries.drop_last()).push((entries.last().0@, json_view(entries.last().1)))
    }
}

/// The value of the first entry of that name.
pub open spec fn entry_of(entries: Seq<(String, Json)>, name: Seq<char>) -> Option<Json>
    decreases entries.len(),
{
    if entries.len() == 0 {
        None
    } else if entries[0].0@ == name {
        Some(entries[0].1)
    } else {
        entry_of(entries.drop_first(), name)
    }
}

pub open spec fn json_ref(j: Option<&Json>) -> Option<Json> {
    match j {
        Some(x) => Some(*x),
        None => None,
    }
}

/// The value of the first entry of that name.
pub fn entry<'a>(entries: &'a Vec<(String, Json)>, name: &str) -> (r: Option<&'a Json>)
    ensures
        json_ref(r) == entry_of(entries@, name@),
        r matches Some(j) ==> exists|i: int|
            0 <= i < entries@.len() && (#[trigger] entries@[i]).1 == *j,
{
    let ghost all = entries@;
    let mut i: usize = 0;
    assert(all.skip(0) =~= all);
    while i < entries.len()
        invariant
            i <= entries.len(),
            all == entries@,
            entry_of(all, name@) == entry_of(all.skip(i as int), name@),
        decreases entries.len() - i,
    {
        assert(all.skip(i as int)[0] == entries@[i as int]);
        assert(all.skip(i as int).drop_first() =~= all.skip(i + 1));
        if same(&entries[i].0, name) {
            return Some(&entries[i].1);
        }
        i += 1;
    }
    None
}

/// An entry's value stands inside the entries.
pub proof fn lemma_entry_within(entries: Seq<(String, Json)>, name: Seq<char>)
    ensures
        entry_of(entries, name) matches Some(j) ==> decreases_to!(entries => j),
    decreases entries.len(),
{
    if entries.len() > 0 && entries[0].0@ != name {
        lemma_entry_within(entries.drop_first(), name);
        assert(decreases_to!(entries => entries.drop_first()));
    } else if entries.len() > 0 {
        assert(decreases_to!(entries => entries[0]));
        assert(decreases_to!(entries[0] => entries[0].1));
    }
}

pub proof fn lemma_list_push(items: Seq<Json>, j: Json)
    ensures
        list_view(items.push(j)) == list_view(items).push(json_view(j)),
{
    assert(items.push(j).drop_last() =~= items);
}

pub proof fn lemma_object_push(entries: Seq<(String, Json)>, e: (String, Json))
    ensures
        object_view(entries.push(e)) == object_view(entries).push((e.0@, json_view(e.1))),
{
    assert(entries.push(e).drop_last() =~= entries);
}

/// An object says of a name what its first entry of that name says, and nothing
/// where it has none.
pub proof fn law_an_entry_is_the_first_of_its_name(entries: Seq<(String, Json)>, name: Seq<char>)
    ensures
        entry_of(entries, name) is None <==> forall|j: int|
            0 <= j < entries.len() ==> (#[trigger] entries[j]).0@ != name,
        forall|i: int|
            0 <= i < entries.len() && (#[trigger] entries[i]).0@ == name && (forall|j: int|
                0 <= j < i ==> (#[trigger] entries[j]).0@ != name) ==> entry_of(entries, name)
                == Some(entries[i].1),
    decreases entries.len(),
{
    if entries.len() > 0 {
        let rest = entries.drop_first();
        law_an_entry_is_the_first_of_its_name(rest, name);
        assert forall|j: int| 0 <= j < rest.len() implies #[trigger] rest[j] == entries[j + 1] by {}
        if entries[0].0@ != name {
            assert forall|i: int|
                0 <= i < entries.len() && (#[trigger] entries[i]).0@ == name && (forall|j: int|
                    0 <= j < i ==> (#[trigger] entries[j]).0@ != name) implies entry_of(
                entries,
                name,
            ) == Some(entries[i].1) by {
                assert(i > 0);
                assert(rest[i - 1] == entries[i]);
                assert forall|j: int| 0 <= j < i - 1 implies (#[trigger] rest[j]).0@ != name by {
                    assert(entries[j + 1].0@ != name);
                }
            }
            if entry_of(rest, name) is None {
                assert forall|j: int| 0 <= j < entries.len() implies (#[trigger] entries[j]).0@
                    != name by {
                    if j > 0 {
                        assert(rest[j - 1].0@ != name);
                    }
                }
            } else {
                let k = choose|k: int| 0 <= k < rest.len() && (#[trigger] rest[k]).0@ == name;
                assert(entries[k + 1].0@ == name);
            }
        }
    }
}

} // verus!
