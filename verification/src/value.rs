//! The bridge between [`Json`] and `serde_json::Value`.
//!
//! `serde_json` parses text into its own tree and reads typed values out of that
//! tree. This module takes such a tree apart into a [`Json`], one level at a
//! time, and puts it together again. What a `serde_json` tree says is given by
//! [`value_view`], in the same terms as what a [`Json`] says.

use vstd::prelude::*;

use crate::json::{Json, JsonView};
use crate::json::{entries_view, lemma_entries_are};

verus! {

/// A JSON tree of `serde_json`. [`value_view`] is what it says.
#[verifier::external_type_specification]
#[verifier::external_body]
pub struct ExValue(serde_json::Value);

/// The members of an object of `serde_json`. [`map_view`] is what they say.
#[verifier::external_type_specification]
#[verifier::external_body]
#[verifier::reject_recursive_types(K)]
#[verifier::reject_recursive_types(V)]
pub struct ExMap<K, V>(serde_json::Map<K, V>);

/// What a `serde_json` tree says.
pub uninterp spec fn value_view(value: serde_json::Value) -> JsonView;

/// What the members of a `serde_json` object say.
pub uninterp spec fn map_view(
    map: serde_json::Map<String, serde_json::Value>,
) -> Map<Seq<char>, JsonView>;

/// The number as an unsigned integer, if it is one: what
/// `serde_json::Number::as_u64` returns.
pub uninterp spec fn number_as_u64(number: serde_json::Number) -> Option<u64>;

/// The top of a `serde_json` tree: its variants, with `serde_json`'s own trees
/// below.
enum Node {
    Null,
    Bool(bool),
    Number(serde_json::Number),
    String(String),
    Array(Vec<serde_json::Value>),
    Object(serde_json::Map<String, serde_json::Value>),
}

impl View for Node {
    type V = JsonView;

    closed spec fn view(&self) -> JsonView {
        match *self {
            Node::Null => JsonView::Null,
            Node::Bool(b) => JsonView::Bool(b),
            Node::Number(n) => JsonView::Number(n),
            Node::String(s) => JsonView::String(s@),
            Node::Array(items) => JsonView::Array(
                Seq::new(items@.len(), |i: int| value_view(items@[i])),
            ),
            Node::Object(map) => JsonView::Object(map_view(map)),
        }
    }
}

/// A node says what its variant holds: an array the items, each at its place, and
/// an object the members.
proof fn law_nodes_say_what_they_hold(
    b: bool,
    number: serde_json::Number,
    text: String,
    items: Vec<serde_json::Value>,
    i: int,
    map: serde_json::Map<String, serde_json::Value>,
)
    ensures
        Node::Null@ == JsonView::Null,
        Node::Bool(b)@ == JsonView::Bool(b),
        Node::Number(number)@ == JsonView::Number(number),
        Node::String(text)@ == JsonView::String(text@),
        Node::Array(items)@ is Array,
        Node::Array(items)@->Array_0.len() == items@.len(),
        0 <= i < items@.len() ==> Node::Array(items)@->Array_0[i] == value_view(items@[i]),
        Node::Object(map)@ == JsonView::Object(map_view(map)),
{
}

/// Tells the variants of `serde_json::Value` apart. The node says what the tree
/// said.
#[verifier::external_body]
fn open_value(value: serde_json::Value) -> (node: Node)
    ensures
        node@ == value_view(value),
{
    match value {
        serde_json::Value::Null => Node::Null,
        serde_json::Value::Bool(b) => Node::Bool(b),
        serde_json::Value::Number(n) => Node::Number(n),
        serde_json::Value::String(s) => Node::String(s),
        serde_json::Value::Array(items) => Node::Array(items),
        serde_json::Value::Object(map) => Node::Object(map),
    }
}

/// Builds the variant of `serde_json::Value` that the node names. The tree says
/// what the node said.
#[verifier::external_body]
fn close_value(node: Node) -> (value: serde_json::Value)
    ensures
        value_view(value) == node@,
{
    match node {
        Node::Null => serde_json::Value::Null,
        Node::Bool(b) => serde_json::Value::Bool(b),
        Node::Number(n) => serde_json::Value::Number(n),
        Node::String(s) => serde_json::Value::String(s),
        Node::Array(items) => serde_json::Value::Array(items),
        Node::Object(map) => serde_json::Value::Object(map),
    }
}

/// Hands out the members of a `serde_json::Map`, by its `into_iter`: each member
/// of the map, and each once. In which order they come is left open.
#[verifier::external_body]
fn map_into_entries(
    map: serde_json::Map<String, serde_json::Value>,
) -> (entries: Vec<(String, serde_json::Value)>)
    ensures
        forall|i: int|
            0 <= i < entries@.len() ==> {
                &&& map_view(map).contains_key((#[trigger] entries@[i]).0@)
                &&& map_view(map)[entries@[i].0@] == value_view(entries@[i].1)
            },
        forall|key: Seq<char>| #[trigger]
            map_view(map).contains_key(key) ==> exists|i: int|
                0 <= i < entries@.len() && (#[trigger] entries@[i]).0@ == key,
        forall|i: int, j: int|
            0 <= i < j < entries@.len() ==> (#[trigger] entries@[i]).0@ != (
            #[trigger] entries@[j]).0@,
{
    map.into_iter().collect()
}

/// `serde_json::Map::new` makes a map without members.
#[verifier::external_body]
fn map_new() -> (map: serde_json::Map<String, serde_json::Value>)
    ensures
        (map_view(map) == Map::<Seq<char>, JsonView>::empty()),
{
    serde_json::Map::new()
}

/// `serde_json::Map::insert` gives the key the value, whether or not the map had
/// the key, and returns the value that the key had before.
#[verifier::external_body]
fn map_insert(
    map: &mut serde_json::Map<String, serde_json::Value>,
    key: String,
    value: serde_json::Value,
) -> (previous: Option<serde_json::Value>)
    ensures
        map_view(*final(map)) == map_view(*old(map)).insert(key@, value_view(value)),
        match previous {
            Some(before) => {
                &&& map_view(*old(map)).contains_key(key@)
                &&& map_view(*old(map))[key@] == value_view(before)
            },
            None => !map_view(*old(map)).contains_key(key@),
        },
{
    map.insert(key, value)
}

/// `serde_json::Number::as_u64`. Its result is named [`number_as_u64`].
#[verifier::external_body]
pub(crate) fn number_to_u64(number: &serde_json::Number) -> (integer: Option<u64>)
    ensures
        integer == number_as_u64(*number),
{
    number.as_u64()
}

impl Json {
    /// The document that a `serde_json` tree holds.
    pub fn from_value(value: serde_json::Value) -> (json: Json)
        ensures
            json@ == value_view(value),
        decreases value_view(value),
    {
        match open_value(value) {
            Node::Null => Json::Null,
            Node::Bool(b) => Json::Bool(b),
            Node::Number(n) => Json::Number(n),
            Node::String(s) => Json::String(s),
            Node::Array(values) => {
                let mut items: Vec<Json> = Vec::new();
                for item in it: values
                    invariant
                        items@.len() == it.index(),
                        it.seq() == values@,
                        value_view(value) == Node::Array(values)@,
                        forall|j: int|
                            0 <= j < items@.len() ==> (#[trigger] items@[j])@ == value_view(
                                values@[j],
                            ),
                {
                    assert(value_view(value)->Array_0[it.index()] == value_view(item));
                    items.push(Json::from_value(item));
                }
                assert(Json::Array(items)@->Array_0 =~= value_view(value)->Array_0);
                Json::Array(items)
            },
            Node::Object(map) => {
                let pairs = map_into_entries(map);
                let mut entries: Vec<(String, Json)> = Vec::new();
                for pair in it: pairs
                    invariant
                        entries@.len() == it.index(),
                        it.seq() == pairs@,
                        value_view(value) == JsonView::Object(map_view(map)),
                        forall|i: int|
                            0 <= i < pairs@.len() ==> {
                                &&& map_view(map).contains_key((#[trigger] pairs@[i]).0@)
                                &&& map_view(map)[pairs@[i].0@] == value_view(pairs@[i].1)
                            },
                        forall|j: int|
                            0 <= j < entries@.len() ==> {
                                &&& (#[trigger] entries@[j]).0@ == pairs@[j].0@
                                &&& entries@[j].1@ == value_view(pairs@[j].1)
                            },
                {
                    assert(pair == pairs@[it.index()]);
                    assert(value_view(value)->Object_0[pair.0@] == value_view(pair.1));
                    entries.push((pair.0, Json::from_value(pair.1)));
                }
                proof {
                    assert forall|key: Seq<char>| #[trigger]
                        map_view(map).contains_key(key) implies exists|i: int|
                        0 <= i < entries@.len() && (#[trigger] entries@[i]).0@ == key by {
                        let i = choose|i: int|
                            0 <= i < pairs@.len() && (#[trigger] pairs@[i]).0@ == key;
                        assert(entries@[i].0@ == key);
                    }
                    lemma_entries_are(entries@, map_view(map));
                }
                Json::Object(entries)
            },
        }
    }

    /// The `serde_json` tree that holds this document.
    pub fn into_value(self) -> (value: serde_json::Value)
        ensures
            value_view(value) == self@,
        decreases self,
    {
        match self {
            Json::Null => close_value(Node::Null),
            Json::Bool(b) => close_value(Node::Bool(b)),
            Json::Number(n) => close_value(Node::Number(n)),
            Json::String(s) => close_value(Node::String(s)),
            Json::Array(items) => {
                let mut values: Vec<serde_json::Value> = Vec::new();
                for item in it: items
                    invariant
                        values@.len() == it.index(),
                        it.seq() == items@,
                        self == Json::Array(items),
                        forall|j: int|
                            0 <= j < values@.len() ==> value_view(#[trigger] values@[j])
                                == items@[j]@,
                {
                    assert(decreases_to!(self => self->Array_0));
                    assert(decreases_to!(items => items@));
                    assert(item == items@[it.index()]);
                    values.push(item.into_value());
                }
                assert(Node::Array(values)@->Array_0 =~= self@->Array_0);
                close_value(Node::Array(values))
            },
            Json::Object(entries) => {
                let mut map = map_new();
                for entry in it: entries
                    invariant
                        it.seq() == entries@,
                        self == Json::Object(entries),
                        map_view(map) == entries_view(entries@.take(it.index())),
                {
                    assert(decreases_to!(self => self->Object_0));
                    assert(decreases_to!(entries => entries@));
                    assert(entry == entries@[it.index()]);
                    assert(entries@.take(it.index() + 1).drop_last() =~= entries@.take(
                        it.index(),
                    ));
                    let _ = map_insert(&mut map, entry.0, entry.1.into_value());
                }
                assert(entries@.take(entries@.len() as int) =~= entries@);
                close_value(Node::Object(map))
            },
        }
    }
}

} // verus!
