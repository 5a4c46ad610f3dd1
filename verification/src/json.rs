//! JSON documents: the tree that the rest of the library works on, and its
//! mathematical model.

use vstd::prelude::*;

verus! {

/// A JSON number, carried as it was read. What the library reads of it is
/// given by [`crate::value::number_as_u64`].
#[verifier::external_type_specification]
#[verifier::external_body]
pub struct ExNumber(serde_json::Number);

/// A JSON document.
///
/// An object is the list of its members. Where a key occurs more than once, the
/// last occurrence is the one that counts, and the order of the members means
/// nothing: [`Json::view`] is a map from keys to values.
///
/// `==` compares the trees as they are written, with the order of the members and
/// those that do not count, so two documents that say the same may be unequal.
#[derive(Debug, PartialEq)]
pub enum Json {
    Null,
    Bool(bool),
    Number(serde_json::Number),
    String(String),
    Array(Vec<Json>),
    Object(Vec<(String, Json)>),
}

/// What a JSON document says.
#[verifier::ext_equal]
pub enum JsonView {
    Null,
    Bool(bool),
    Number(serde_json::Number),
    String(Seq<char>),
    Array(Seq<JsonView>),
    Object(Map<Seq<char>, JsonView>),
}

impl JsonView {
    /// The value that an object has under `key`. Only objects have members.
    pub open spec fn get(self, key: Seq<char>) -> Option<JsonView> {
        match self {
            JsonView::Object(members) => if members.contains_key(key) {
                Some(members[key])
            } else {
                None
            },
            _ => None,
        }
    }
}

/// What `json` says.
pub open spec fn json_view(json: Json) -> JsonView
    decreases json,
{
    match json {
        Json::Null => JsonView::Null,
        Json::Bool(b) => JsonView::Bool(b),
        Json::Number(n) => JsonView::Number(n),
        Json::String(s) => JsonView::String(s@),
        Json::Array(items) => JsonView::Array(
            Seq::new(
                items@.len(),
                |i: int|
                    if 0 <= i < items@.len() {
                        json_view(items@[i])
                    } else {
                        arbitrary()
                    },
            ),
        ),
        Json::Object(entries) => JsonView::Object(entries_view(entries@)),
    }
}

/// The map that a list of members stands for: of two members with the same key,
/// the later one counts.
pub open spec fn entries_view(entries: Seq<(String, Json)>) -> Map<Seq<char>, JsonView>
    decreases entries,
{
    if entries.len() == 0 {
        Map::empty()
    } else {
        entries_view(entries.drop_last()).insert(entries.last().0@, json_view(entries.last().1))
    }
}

impl View for Json {
    type V = JsonView;

    open spec fn view(&self) -> JsonView {
        json_view(*self)
    }
}

/// An array without items says that it has none.
pub(crate) proof fn lemma_empty_array(items: Vec<Json>)
    requires
        items@.len() == 0,
    ensures
        Json::Array(items)@ == JsonView::Array(Seq::empty()),
{
    assert(Json::Array(items)@->Array_0 =~= Seq::<JsonView>::empty());
}

/// `i` is the place in `entries` at which `key` has its value.
pub open spec fn is_place_of(entries: Seq<(String, Json)>, key: Seq<char>, i: int) -> bool {
    &&& 0 <= i < entries.len()
    &&& entries[i].0@ == key
    &&& forall|j: int| i < j < entries.len() ==> (#[trigger] entries[j]).0@ != key
}

/// A key has in the map the value that stands at its place in the list.
pub(crate) proof fn lemma_place_gives_value(entries: Seq<(String, Json)>, key: Seq<char>, i: int)
    requires
        is_place_of(entries, key, i),
    ensures
        entries_view(entries).contains_key(key),
        entries_view(entries)[key] == entries[i].1@,
    decreases entries.len(),
{
    if i < entries.len() - 1 {
        assert(entries[entries.len() - 1].0@ != key);
        lemma_place_gives_value(entries.drop_last(), key, i);
    }
}

/// A key that no member has is not in the map.
pub(crate) proof fn lemma_no_place_no_value(entries: Seq<(String, Json)>, key: Seq<char>)
    requires
        forall|j: int| 0 <= j < entries.len() ==> (#[trigger] entries[j]).0@ != key,
    ensures
        !entries_view(entries).contains_key(key),
    decreases entries.len(),
{
    if entries.len() > 0 {
        assert(entries[entries.len() - 1].0@ != key);
        lemma_no_place_no_value(entries.drop_last(), key);
    }
}

/// The key of every member is in the map.
pub(crate) proof fn lemma_key_is_in(entries: Seq<(String, Json)>, i: int)
    requires
        0 <= i < entries.len(),
    ensures
        entries_view(entries).contains_key(entries[i].0@),
    decreases entries.len(),
{
    if i < entries.len() - 1 {
        lemma_key_is_in(entries.drop_last(), i);
    }
}

/// A key that is in the map has a place in the list.
pub(crate) proof fn lemma_value_has_place(entries: Seq<(String, Json)>, key: Seq<char>) -> (i: int)
    requires
        entries_view(entries).contains_key(key),
    ensures
        is_place_of(entries, key, i),
    decreases entries.len(),
{
    if entries.last().0@ == key {
        entries.len() - 1
    } else {
        let i = lemma_value_has_place(entries.drop_last(), key);
        assert forall|j: int| i < j < entries.len() implies (#[trigger] entries[j]).0@ != key by {
            if j < entries.len() - 1 {
                assert(entries[j] == entries.drop_last()[j]);
            }
        }
        i
    }
}

/// A list of members stands for the map `members` if each of them is a member of
/// the map and each key of the map is among theirs.
pub(crate) proof fn lemma_entries_are(
    entries: Seq<(String, Json)>,
    members: Map<Seq<char>, JsonView>,
)
    requires
        forall|i: int|
            0 <= i < entries.len() ==> {
                &&& members.contains_key((#[trigger] entries[i]).0@)
                &&& members[entries[i].0@] == entries[i].1@
            },
        forall|key: Seq<char>| #[trigger]
            members.contains_key(key) ==> exists|i: int|
                0 <= i < entries.len() && (#[trigger] entries[i]).0@ == key,
    ensures
        entries_view(entries) == members,
{
    let view = entries_view(entries);
    assert forall|key: Seq<char>| #[trigger] view.dom().contains(key) implies {
        &&& members.dom().contains(key)
        &&& view[key] == members[key]
    } by {
        let i = lemma_value_has_place(entries, key);
        lemma_place_gives_value(entries, key, i);
    }
    assert forall|key: Seq<char>| #[trigger]
        members.dom().contains(key) implies view.dom().contains(key) by {
        assert(members.contains_key(key));
        let i = choose|i: int| 0 <= i < entries.len() && (#[trigger] entries[i]).0@ == key;
        lemma_key_is_in(entries, i);
    }
    assert(view =~= members);
}

/// A new value at the place of a key is what the map gets for that key.
pub(crate) proof fn lemma_update_at_place(
    entries: Seq<(String, Json)>,
    key: Seq<char>,
    i: int,
    entry: (String, Json),
)
    requires
        is_place_of(entries, key, i),
        entry.0@ == key,
    ensures
        entries_view(entries.update(i, entry)) == entries_view(entries).insert(key, entry.1@),
    decreases entries.len(),
{
    let updated = entries.update(i, entry);
    if i < entries.len() - 1 {
        assert(entries[entries.len() - 1].0@ != key);
        assert(updated.drop_last() =~= entries.drop_last().update(i, entry));
        lemma_update_at_place(entries.drop_last(), key, i, entry);
    } else {
        assert(updated.drop_last() =~= entries.drop_last());
    }
    assert(entries_view(updated) =~= entries_view(entries).insert(key, entry.1@));
}

/// A member at the end of the list is what the map gets for its key.
pub(crate) proof fn lemma_push_inserts(entries: Seq<(String, Json)>, entry: (String, Json))
    ensures
        entries_view(entries.push(entry)) == entries_view(entries).insert(entry.0@, entry.1@),
{
    assert(entries.push(entry).drop_last() =~= entries);
}

/// A change of each member's value, by a rule on its key and what its value
/// says, is the same change of the map.
pub(crate) proof fn lemma_entries_map(
    before: Seq<(String, Json)>,
    after: Seq<(String, Json)>,
    change: spec_fn(Seq<char>, JsonView) -> JsonView,
)
    requires
        before.len() == after.len(),
        forall|i: int|
            #![trigger after[i]]
            0 <= i < before.len() ==> {
                &&& after[i].0@ == before[i].0@
                &&& after[i].1@ == change(before[i].0@, before[i].1@)
            },
    ensures
        entries_view(after) == entries_view(before).map_entries(change),
    decreases before.len(),
{
    if before.len() > 0 {
        let last = before.len() - 1;
        assert(after[last].0@ == before[last].0@);
        assert forall|i: int| #![trigger after.drop_last()[i]] 0 <= i < last implies {
            &&& after.drop_last()[i].0@ == before.drop_last()[i].0@
            &&& after.drop_last()[i].1@ == change(
                before.drop_last()[i].0@,
                before.drop_last()[i].1@,
            )
        } by {
            assert(after.drop_last()[i] == after[i]);
        }
        lemma_entries_map(before.drop_last(), after.drop_last(), change);
    }
    assert(entries_view(after) =~= entries_view(before).map_entries(change));
}

/// The place of `key` in `entries`, if it has one.
pub(crate) fn find(entries: &Vec<(String, Json)>, key: &str) -> (place: Option<usize>)
    ensures
        match place {
            Some(i) => {
                &&& is_place_of(entries@, key@, i as int)
                &&& entries_view(entries@).contains_key(key@)
                &&& entries_view(entries@)[key@] == entries@[i as int].1@
            },
            None => !entries_view(entries@).contains_key(key@),
        },
{
    let wanted: String = key.to_owned();
    let mut i: usize = entries.len();
    while i > 0
        invariant
            wanted@ == key@,
            i <= entries@.len(),
            forall|j: int| i <= j < entries@.len() ==> (#[trigger] entries@[j]).0@ != key@,
        decreases i,
    {
        i = i - 1;
        if entries[i].0 == wanted {
            proof {
                lemma_place_gives_value(entries@, key@, i as int);
            }
            return Some(i);
        }
    }
    proof {
        lemma_no_place_no_value(entries@, key@);
    }
    None
}

impl Json {
    /// The value that an object has under `key`; nothing where it has none, and
    /// nothing where this is not an object.
    pub fn get(&self, key: &str) -> (value: Option<&Json>)
        ensures
            match value {
                Some(json) => self@.get(key@) == Some(json@),
                None => self@.get(key@) is None,
            },
    {
        match self {
            Json::Object(entries) => match find(entries, key) {
                Some(i) => Some(&entries[i].1),
                None => None,
            },
            _ => None,
        }
    }
}

} // verus!
