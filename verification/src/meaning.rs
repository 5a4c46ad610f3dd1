//! What the operations do, said of the values that go in and come out.
//!
//! The functions of this library are specified by functions on what a document
//! says. The laws here say what those functions give, in terms of members, items
//! and paths, and of what zstd and `serde_json` gave.

use vstd::prelude::*;

use crate::decode::{
    crate_read, crate_says, is_decoding_of, is_decoding_of_raw, is_parse_of, is_parse_of_raw,
    is_reading_of, json_parsed, zstd_decoded,
};
use crate::error::{io_error_text, json_error_text, DocsError};
use crate::fetch::rustdoc_json_url_of;
use crate::json::{
    lemma_key_is_in, lemma_no_place_no_value, lemma_place_gives_value, Json, JsonView,
};
use crate::laws::{value_at, Step};
use crate::normalize::{
    format_version_of, normalized, stripped, with_external_crate_paths, with_path, with_paths,
    with_target,
};
use crate::value::number_as_u64;

verus! {

// ========== Documents ==========

/// A document that is neither an array nor an object says what it holds.
pub proof fn law_scalars_say_what_they_hold(b: bool, number: serde_json::Number, text: String)
    ensures
        Json::Null@ == JsonView::Null,
        Json::Bool(b)@ == JsonView::Bool(b),
        Json::Number(number)@ == JsonView::Number(number),
        Json::String(text)@ == JsonView::String(text@),
{
}

/// An array says what its items say, each at its place.
pub proof fn law_array_says_its_items(items: Vec<Json>, i: int)
    ensures
        Json::Array(items)@ is Array,
        Json::Array(items)@->Array_0.len() == items@.len(),
        0 <= i < items@.len() ==> Json::Array(items)@->Array_0[i] == items@[i]@,
{
}

/// An object has the keys of its members, and under each key what the last of the
/// members with that key says.
pub proof fn law_object_says_its_members(entries: Vec<(String, Json)>, key: Seq<char>, i: int)
    ensures
        Json::Object(entries)@ is Object,
        Json::Object(entries)@->Object_0.contains_key(key) <==> exists|j: int|
            0 <= j < entries@.len() && (#[trigger] entries@[j]).0@ == key,
        0 <= i < entries@.len() && entries@[i].0@ == key && (forall|j: int|
            i < j < entries@.len() ==> (#[trigger] entries@[j]).0@ != key)
            ==> Json::Object(entries)@->Object_0[key] == entries@[i].1@,
{
    if exists|j: int| 0 <= j < entries@.len() && (#[trigger] entries@[j]).0@ == key {
        let j = choose|j: int| 0 <= j < entries@.len() && (#[trigger] entries@[j]).0@ == key;
        lemma_key_is_in(entries@, j);
    } else {
        lemma_no_place_no_value(entries@, key);
    }
    if 0 <= i < entries@.len() && entries@[i].0@ == key && (forall|j: int|
        i < j < entries@.len() ==> (#[trigger] entries@[j]).0@ != key) {
        lemma_place_gives_value(entries@, key, i);
    }
}

/// Looking up a key gives the member that an object has under it, and nothing
/// where there is no such member or no object.
pub proof fn law_get_finds_members(
    json: JsonView,
    members: Map<Seq<char>, JsonView>,
    key: Seq<char>,
)
    ensures
        members.contains_key(key) ==> JsonView::Object(members).get(key) == Some(members[key]),
        !members.contains_key(key) ==> JsonView::Object(members).get(key) is None,
        json !is Object ==> json.get(key) is None,
{
}

/// A path is followed step by step: a key leads to the member of an object that has
/// it, an index to the item of an array that is long enough, and nothing else leads
/// anywhere.
pub proof fn law_paths_are_followed_step_by_step(json: JsonView, path: Seq<Step>)
    ensures
        path.len() == 0 ==> value_at(json, path) == Some(json),
        path.len() > 0 ==> value_at(json, path) == match (path[0], json) {
            (Step::Key(key), JsonView::Object(members)) => if members.contains_key(key) {
                value_at(members[key], path.drop_first())
            } else {
                None
            },
            (Step::Index(i), JsonView::Array(items)) => if 0 <= i < items.len() {
                value_at(items[i], path.drop_first())
            } else {
                None
            },
            _ => None,
        },
{
}

// ========== strip_attrs ==========

/// Stripping an object keeps its keys. An array under `attrs` becomes the empty
/// array, however long it was, and every other member is stripped.
pub proof fn law_strip_object(members: Map<Seq<char>, JsonView>, key: Seq<char>)
    ensures
        stripped(JsonView::Object(members)) is Object,
        stripped(JsonView::Object(members))->Object_0.dom() == members.dom(),
        members.contains_key(key) && key == "attrs"@ && members[key] is Array ==> stripped(
            JsonView::Object(members),
        )->Object_0[key] == JsonView::Array(Seq::empty()),
        members.contains_key(key) && (key != "attrs"@ || members[key] !is Array) ==> stripped(
            JsonView::Object(members),
        )->Object_0[key] == stripped(members[key]),
{
    assert(stripped(JsonView::Object(members))->Object_0.dom() =~= members.dom());
}

/// Stripping an array strips each of its items.
pub proof fn law_strip_array(items: Seq<JsonView>, i: int)
    ensures
        stripped(JsonView::Array(items)) is Array,
        stripped(JsonView::Array(items))->Array_0.len() == items.len(),
        0 <= i < items.len() ==> stripped(JsonView::Array(items))->Array_0[i] == stripped(
            items[i],
        ),
{
}

/// Stripping changes nothing that is neither an array nor an object.
pub proof fn law_strip_scalar(json: JsonView)
    requires
        json !is Array,
        json !is Object,
    ensures
        stripped(json) == json,
{
}

/// What stripping leaves at the end of a path that does not lead into an array of
/// `attrs`: where there was nothing, nothing; of an array of `attrs`, the empty
/// array; of another array, one of the same length; of an object, one with the
/// same keys; of anything else, the same.
pub proof fn law_strip_along_paths(json: JsonView, path: Seq<Step>)
    requires
        forall|k: int|
            0 < k < path.len() && path[k - 1] == Step::Key("attrs"@) ==> !(#[trigger] value_at(
                json,
                path.take(k),
            ) matches Some(JsonView::Array(_))),
    ensures
        match value_at(json, path) {
            None => value_at(stripped(json), path) is None,
            Some(JsonView::Array(items)) => if path.len() > 0 && path.last() == Step::Key(
                "attrs"@,
            ) {
                value_at(stripped(json), path) == Some(JsonView::Array(Seq::empty()))
            } else {
                value_at(stripped(json), path) matches Some(JsonView::Array(after)) && after.len()
                    == items.len()
            },
            Some(JsonView::Object(members)) => value_at(stripped(json), path) matches Some(
                JsonView::Object(after),
            ) && after.dom() == members.dom(),
            Some(value) => value_at(stripped(json), path) == Some(value),
        },
    decreases path.len(),
{
    if path.len() == 0 {
        if let JsonView::Object(members) = json {
            law_strip_object(members, "attrs"@);
        }
    } else {
        let rest = path.drop_first();
        match (path[0], json) {
            (Step::Key(key), JsonView::Object(members)) => if members.contains_key(key) {
                law_strip_object(members, key);
                lemma_value_at_take(json, path, members[key]);
                if key == "attrs"@ && members[key] is Array {
                    if path.len() > 1 {
                        assert(path[1 - 1] == Step::Key("attrs"@));
                        assert(value_at(json, path.take(1)) == value_at(
                            members[key],
                            rest.take(0),
                        ));
                        assert(false);
                    }
                    let after = stripped(json)->Object_0[key];
                    assert(value_at(members[key], rest) == Some(members[key]));
                    assert(value_at(after, rest) == Some(after));
                    assert(value_at(stripped(json), path) == Some(after));
                    assert(path.last() == Step::Key(key));
                } else {
                    lemma_paths_below(json, path, members[key]);
                    law_strip_along_paths(members[key], rest);
                    assert(value_at(stripped(json), path) == value_at(
                        stripped(members[key]),
                        rest,
                    ));
                    assert(rest.len() > 0 ==> rest.last() == path.last());
                    if rest.len() == 0 {
                        assert(path.last() == Step::Key(key));
                    }
                }
            } else {
                law_strip_object(members, key);
                assert(value_at(json, path) is None);
                assert(value_at(stripped(json), path) is None);
            },
            (Step::Index(i), JsonView::Array(items)) => if 0 <= i < items.len() {
                law_strip_array(items, i);
                lemma_value_at_take(json, path, items[i]);
                lemma_paths_below(json, path, items[i]);
                law_strip_along_paths(items[i], rest);
                assert(value_at(stripped(json), path) == value_at(stripped(items[i]), rest));
                if rest.len() == 0 {
                    assert(path.last() == Step::Index(i));
                }
                assert(rest.len() > 0 ==> rest.last() == path.last());
            },
            _ => {},
        }
    }
}

/// `step` leads from `json` to `below`.
spec fn leads_to(json: JsonView, step: Step, below: JsonView) -> bool {
    match (step, json) {
        (Step::Key(key), JsonView::Object(members)) => members.contains_key(key) && members[key]
            == below,
        (Step::Index(i), JsonView::Array(items)) => 0 <= i < items.len() && items[i] == below,
        _ => false,
    }
}

/// After one step, the places along a path are those along the rest of it.
proof fn lemma_value_at_take(json: JsonView, path: Seq<Step>, below: JsonView)
    requires
        path.len() > 0,
        leads_to(json, path[0], below),
    ensures
        value_at(json, path) == value_at(below, path.drop_first()),
        forall|k: int|
            0 < k <= path.len() ==> #[trigger] value_at(json, path.take(k)) == value_at(
                below,
                path.drop_first().take(k - 1),
            ),
{
    assert forall|k: int| 0 < k <= path.len() implies #[trigger] value_at(json, path.take(k))
        == value_at(below, path.drop_first().take(k - 1)) by {
        assert(path.take(k)[0] == path[0]);
        assert(path.take(k).drop_first() =~= path.drop_first().take(k - 1));
    }
}

/// A path that does not lead into an array of `attrs` does not do so after its
/// first step.
proof fn lemma_paths_below(json: JsonView, path: Seq<Step>, below: JsonView)
    requires
        path.len() > 0,
        leads_to(json, path[0], below),
        forall|k: int|
            0 < k < path.len() && path[k - 1] == Step::Key("attrs"@) ==> !(#[trigger] value_at(
                json,
                path.take(k),
            ) matches Some(JsonView::Array(_))),
    ensures
        forall|k: int|
            0 < k < path.drop_first().len() && path.drop_first()[k - 1] == Step::Key("attrs"@)
                ==> !(#[trigger] value_at(below, path.drop_first().take(k)) matches Some(
                JsonView::Array(_),
            )),
{
    lemma_value_at_take(json, path, below);
    let rest = path.drop_first();
    assert forall|k: int|
        0 < k < rest.len() && rest[k - 1] == Step::Key("attrs"@) implies !(#[trigger] value_at(
        below,
        rest.take(k),
    ) matches Some(JsonView::Array(_))) by {
        assert(path[(k + 1) - 1] == rest[k - 1]);
        assert(value_at(json, path.take(k + 1)) == value_at(below, rest.take(k)));
    }
}

/// Nothing is left inside an array of `attrs`: a path that leads into one leads
/// nowhere once the document is stripped.
pub proof fn law_strip_leaves_nothing_in_attrs(json: JsonView, path: Seq<Step>, k: int)
    requires
        0 < k < path.len(),
        path[k - 1] == Step::Key("attrs"@),
        value_at(json, path.take(k)) matches Some(JsonView::Array(_)),
    ensures
        value_at(stripped(json), path) is None,
    decreases k,
{
    let rest = path.drop_first();
    assert(path.take(k)[0] == path[0]);
    match (path[0], json) {
        (Step::Key(key), JsonView::Object(members)) => {
            assert(members.contains_key(key));
            law_strip_object(members, key);
            lemma_value_at_take(json, path, members[key]);
            let after = stripped(json)->Object_0[key];
            if key == "attrs"@ && members[key] is Array {
                assert(value_at(after, rest) is None);
            } else {
                assert(k > 1) by {
                    if k == 1 {
                        assert(value_at(json, path.take(1)) == value_at(
                            members[key],
                            rest.take(0),
                        ));
                    }
                }
                assert(rest[(k - 1) - 1] == path[k - 1]);
                law_strip_leaves_nothing_in_attrs(members[key], rest, k - 1);
            }
        },
        (Step::Index(i), JsonView::Array(items)) => {
            assert(0 <= i < items.len());
            lemma_value_at_take(json, path, items[i]);
            assert(k > 1);
            assert(rest[(k - 1) - 1] == path[k - 1]);
            law_strip_leaves_nothing_in_attrs(items[i], rest, k - 1);
        },
        _ => {},
    }
}

// ========== inject_dummy_target ==========

/// An object without a `target` gets one, whose `triple` is "unknown" and whose
/// `target_features` are none, and has nothing else in it. Its other members stay
/// as they are.
pub proof fn law_missing_target_is_added(members: Map<Seq<char>, JsonView>, key: Seq<char>)
    requires
        !members.contains_key("target"@),
    ensures
        with_target(JsonView::Object(members)) is Object,
        with_target(JsonView::Object(members))->Object_0.dom() == members.dom().insert("target"@),
        members.contains_key(key) ==> with_target(JsonView::Object(members))->Object_0[key]
            == members[key],
        with_target(JsonView::Object(members))->Object_0["target"@] matches JsonView::Object(target)
            && target.dom() == set!["triple"@, "target_features"@] && target["triple"@]
            == JsonView::String("unknown"@) && target["target_features"@] == JsonView::Array(
            Seq::empty(),
        ),
{
    lemma_placeholder(with_target(JsonView::Object(members))->Object_0["target"@]);
}

proof fn lemma_placeholder(target: JsonView)
    requires
        target == crate::normalize::dummy_target(),
    ensures
        target matches JsonView::Object(fields) && fields.dom() == set![
            "triple"@,
            "target_features"@,
        ] && fields["triple"@] == JsonView::String("unknown"@) && fields["target_features"@]
            == JsonView::Array(Seq::empty()),
{
    reveal_strlit("triple");
    reveal_strlit("target_features");
    assert("triple"@.len() != "target_features"@.len());
    assert(target->Object_0.dom() =~= set!["triple"@, "target_features"@]);
}

/// An object with a `target`, and a document that is not an object, stay as they
/// are.
pub proof fn law_given_target_is_kept(json: JsonView)
    requires
        json matches JsonView::Object(members) ==> members.contains_key("target"@),
    ensures
        with_target(json) == json,
{
}

// ========== inject_dummy_external_crate_paths ==========

/// Where the `external_crates` are an object, they keep their ids. Each of them
/// that is an object gets an empty `path` if it has none, and keeps all that it
/// has; each that is not stays as it is. The other members of the root stay as they
/// are.
pub proof fn law_missing_paths_are_added(
    members: Map<Seq<char>, JsonView>,
    crates: Map<Seq<char>, JsonView>,
    key: Seq<char>,
    id: Seq<char>,
    field: Seq<char>,
)
    requires
        members.contains_key("external_crates"@),
        members["external_crates"@] == JsonView::Object(crates),
    ensures
        with_external_crate_paths(JsonView::Object(members)) is Object,
        with_external_crate_paths(JsonView::Object(members))->Object_0.dom() == members.dom(),
        members.contains_key(key) && key != "external_crates"@ ==> with_external_crate_paths(
            JsonView::Object(members),
        )->Object_0[key] == members[key],
        with_external_crate_paths(JsonView::Object(members))->Object_0["external_crates"@] matches
            JsonView::Object(after) && after.dom() == crates.dom() && (crates.contains_key(id)
            ==> match crates[id] {
            JsonView::Object(fields) => {
                &&& after[id] is Object
                &&& after[id]->Object_0.dom() == fields.dom().insert("path"@)
                &&& fields.contains_key(field) ==> after[id]->Object_0[field] == fields[field]
                &&& !fields.contains_key("path"@) ==> after[id]->Object_0["path"@]
                    == JsonView::String(Seq::empty())
            },
            other => after[id] == other,
        }),
{
    let json = JsonView::Object(members);
    let after = with_external_crate_paths(json)->Object_0;
    assert(json.get("external_crates"@) == Some(JsonView::Object(crates)));
    assert(after.dom() =~= members.dom());
    assert(after["external_crates"@]->Object_0.dom() =~= crates.dom());
    if crates.contains_key(id) {
        if let JsonView::Object(fields) = crates[id] {
            assert(after["external_crates"@]->Object_0[id]->Object_0.dom() =~= fields.dom().insert(
                "path"@,
            ));
        }
    }
}

/// A document that is not an object, one without `external_crates`, and one whose
/// `external_crates` are not an object stay as they are.
pub proof fn law_other_external_crates_are_kept(json: JsonView)
    requires
        json matches JsonView::Object(members) ==> members.contains_key("external_crates"@)
            ==> members["external_crates"@] !is Object,
    ensures
        with_external_crate_paths(json) == json,
{
}

// ========== format_version ==========

/// An object whose `format_version` is an unsigned integer has that format
/// version, whatever it is.
pub proof fn law_format_version_is_the_number_given(
    members: Map<Seq<char>, JsonView>,
    number: serde_json::Number,
    version: u64,
)
    requires
        members.contains_key("format_version"@),
        members["format_version"@] == JsonView::Number(number),
        number_as_u64(number) == Some(version),
    ensures
        format_version_of(JsonView::Object(members)) == version,
{
}

/// A document whose `format_version` is missing or is not an unsigned integer, and
/// one that is not an object, has format version zero.
pub proof fn law_format_version_is_zero_otherwise(json: JsonView)
    requires
        match json {
            JsonView::Object(members) => members.contains_key("format_version"@) ==> match members[
                "format_version"@
            ] {
                JsonView::Number(number) => number_as_u64(number) is None,
                _ => true,
            },
            _ => true,
        },
    ensures
        format_version_of(json) == 0,
{
}

// ========== normalize_for_v61 ==========

/// The keys that normalization puts in differ.
proof fn lemma_target_is_not_external_crates()
    ensures
        "target"@ != "external_crates"@,
{
    reveal_strlit("target");
    reveal_strlit("external_crates");
    assert("target"@.len() != "external_crates"@.len());
}

/// A document that is not an object is stripped, and that is all.
pub proof fn law_normalize_other_documents(json: JsonView, format_version: u64)
    requires
        json !is Object,
    ensures
        normalized(json, format_version) == stripped(json),
{
}

/// Of the root, the members other than `target` and `external_crates` are stripped,
/// in every format: none is added and none is lost.
pub proof fn law_normalize_root_members(
    members: Map<Seq<char>, JsonView>,
    format_version: u64,
    key: Seq<char>,
)
    requires
        key != "target"@,
        key != "external_crates"@,
    ensures
        normalized(JsonView::Object(members), format_version) is Object,
        normalized(JsonView::Object(members), format_version)->Object_0.contains_key(key)
            <==> members.contains_key(key),
        members.contains_key(key) ==> normalized(
            JsonView::Object(members),
            format_version,
        )->Object_0[key] == stripped(JsonView::Object(members))->Object_0[key],
{
}

/// Before format 56 a missing `target` becomes the placeholder. A `target` that is
/// there is stripped, and from format 56 on a missing one stays missing.
pub proof fn law_normalize_target(members: Map<Seq<char>, JsonView>, format_version: u64)
    ensures
        normalized(JsonView::Object(members), format_version) is Object,
        members.contains_key("target"@) ==> {
            let after = normalized(JsonView::Object(members), format_version)->Object_0;
            &&& after.contains_key("target"@)
            &&& after["target"@] == stripped(members["target"@])
        },
        !members.contains_key("target"@) && format_version >= 56 ==> !normalized(
            JsonView::Object(members),
            format_version,
        )->Object_0.contains_key("target"@),
        !members.contains_key("target"@) && format_version < 56 ==> {
            let after = normalized(JsonView::Object(members), format_version)->Object_0;
            &&& after.contains_key("target"@)
            &&& after["target"@] matches JsonView::Object(target) && target.dom() == set![
                "triple"@,
                "target_features"@,
            ] && target["triple"@] == JsonView::String("unknown"@) && target["target_features"@]
                == JsonView::Array(Seq::empty())
        },
{
    lemma_target_is_not_external_crates();
    reveal_strlit("attrs");
    reveal_strlit("target");
    assert("attrs"@.len() != "target"@.len());
    law_strip_object(members, "target"@);
    lemma_placeholder(crate::normalize::dummy_target());
}

/// Before format 57 the external crates keep their ids, and each keeps every field
/// that it has after stripping and gets an empty `path` if it has none.
pub proof fn law_normalize_external_crates(
    members: Map<Seq<char>, JsonView>,
    crates: Map<Seq<char>, JsonView>,
    format_version: u64,
    id: Seq<char>,
    field: Seq<char>,
)
    requires
        format_version < 57,
        members.contains_key("external_crates"@),
        stripped(members["external_crates"@]) == JsonView::Object(crates),
    ensures
        normalized(JsonView::Object(members), format_version) is Object,
        normalized(JsonView::Object(members), format_version)->Object_0.contains_key(
            "external_crates"@,
        ),
        normalized(JsonView::Object(members), format_version)->Object_0["external_crates"@] matches
            JsonView::Object(after) && after.dom() == crates.dom() && (crates.contains_key(id)
            ==> match crates[id] {
            JsonView::Object(fields) => {
                &&& after[id] is Object
                &&& after[id]->Object_0.dom() == fields.dom().insert("path"@)
                &&& fields.contains_key(field) ==> after[id]->Object_0[field] == fields[field]
                &&& !fields.contains_key("path"@) ==> after[id]->Object_0["path"@]
                    == JsonView::String(Seq::empty())
            },
            other => after[id] == other,
        }),
{
    lemma_target_is_not_external_crates();
    reveal_strlit("attrs");
    reveal_strlit("external_crates");
    assert("attrs"@.len() != "external_crates"@.len());
    law_strip_object(members, "external_crates"@);
    let clean = stripped(JsonView::Object(members));
    let targeted = if format_version < 56 {
        with_target(clean)
    } else {
        clean
    };
    law_missing_paths_are_added(targeted->Object_0, crates, "external_crates"@, id, field);
}

/// From format 57 on, and where they are not an object, the `external_crates` are
/// stripped, and that is all. Where there are none, none are added.
pub proof fn law_normalize_other_external_crates(
    members: Map<Seq<char>, JsonView>,
    format_version: u64,
)
    ensures
        normalized(JsonView::Object(members), format_version) is Object,
        normalized(JsonView::Object(members), format_version)->Object_0.contains_key(
            "external_crates"@,
        ) <==> members.contains_key("external_crates"@),
        members.contains_key("external_crates"@) && (format_version >= 57
            || members["external_crates"@] !is Object) ==> normalized(
            JsonView::Object(members),
            format_version,
        )->Object_0["external_crates"@] == stripped(members["external_crates"@]),
{
    lemma_target_is_not_external_crates();
    reveal_strlit("attrs");
    reveal_strlit("external_crates");
    assert("attrs"@.len() != "external_crates"@.len());
    law_strip_object(members, "external_crates"@);
    if members.contains_key("external_crates"@) && members["external_crates"@] !is Object {
        assert(stripped(members["external_crates"@]) !is Object);
    }
}

/// `after` is `before`, or an object that has at least its keys.
spec fn is_kept_in(before: JsonView, after: JsonView) -> bool {
    match before {
        JsonView::Object(members) => after matches JsonView::Object(others)
            && members.dom().subset_of(others.dom()),
        _ => after == before,
    }
}

/// What is in a document is in it with a `target`.
proof fn lemma_target_keeps_paths(json: JsonView, path: Seq<Step>)
    ensures
        match value_at(json, path) {
            Some(before) => value_at(with_target(json), path) matches Some(after) && is_kept_in(
                before,
                after,
            ),
            None => value_at(with_target(json), path) is Some ==> {
                &&& json is Object
                &&& !json->Object_0.contains_key("target"@)
                &&& path.len() > 0
                &&& path[0] == Step::Key("target"@)
            },
        },
{
}

/// What is in an external crate is in it with a `path`.
proof fn lemma_path_keeps_paths(krate: JsonView, path: Seq<Step>)
    ensures
        match value_at(krate, path) {
            Some(before) => value_at(with_path(krate), path) matches Some(after) && is_kept_in(
                before,
                after,
            ),
            None => value_at(with_path(krate), path) is Some ==> {
                &&& path.len() == 1
                &&& path[0] == Step::Key("path"@)
                &&& value_at(with_path(krate), path) == Some(JsonView::String(Seq::empty()))
            },
        },
{
    if path.len() > 0 {
        let rest = path.drop_first();
        if rest.len() > 0 {
            assert(value_at(JsonView::String(Seq::empty()), rest) is None);
        }
    }
}

/// What is in a document is in it with the paths of its external crates.
proof fn lemma_paths_keep_paths(json: JsonView, path: Seq<Step>)
    ensures
        match value_at(json, path) {
            Some(before) => value_at(with_external_crate_paths(json), path) matches Some(after)
                && is_kept_in(before, after),
            None => value_at(with_external_crate_paths(json), path) is Some ==> {
                &&& path.len() == 3
                &&& path[0] == Step::Key("external_crates"@)
                &&& path[2] == Step::Key("path"@)
                &&& value_at(with_external_crate_paths(json), path) == Some(
                    JsonView::String(Seq::empty()),
                )
            },
        },
{
    if let JsonView::Object(members) = json {
        if let Some(JsonView::Object(crates)) = json.get("external_crates"@) {
            law_missing_paths_are_added(
                members,
                crates,
                "external_crates"@,
                "external_crates"@,
                "path"@,
            );
            if path.len() > 0 && path[0] == Step::Key("external_crates"@) {
                let below = path.drop_first();
                let before = JsonView::Object(crates);
                let after = JsonView::Object(with_paths(crates));
                assert(value_at(json, path) == value_at(before, below));
                assert(value_at(with_external_crate_paths(json), path) == value_at(after, below));
                if below.len() > 0 {
                    match below[0] {
                        Step::Key(id) => {
                            let rest = below.drop_first();
                            assert(path[1] == below[0]);
                            if crates.contains_key(id) {
                                assert(value_at(before, below) == value_at(crates[id], rest));
                                assert(value_at(after, below) == value_at(
                                    with_path(crates[id]),
                                    rest,
                                ));
                                lemma_path_keeps_paths(crates[id], rest);
                                if rest.len() > 0 {
                                    assert(path[2] == rest[0]);
                                }
                            } else {
                                assert(value_at(after, below) is None);
                            }
                        },
                        _ => {},
                    }
                } else {
                    assert(with_paths(crates).dom() =~= crates.dom());
                }
            }
        }
    }
}

/// Normalization loses nothing outside of arrays of `attrs`: at the end of a path
/// that leads to something and not into such an array there is after it, of an
/// array of `attrs`, the empty array; of another array, one of the same length; of
/// an object, one with at least its keys; of anything else, the same.
pub proof fn law_normalize_loses_nothing(json: JsonView, format_version: u64, path: Seq<Step>)
    requires
        value_at(json, path) is Some,
        forall|k: int|
            0 < k < path.len() && path[k - 1] == Step::Key("attrs"@) ==> !(#[trigger] value_at(
                json,
                path.take(k),
            ) matches Some(JsonView::Array(_))),
    ensures
        match value_at(json, path)->0 {
            JsonView::Array(items) => if path.len() > 0 && path.last() == Step::Key("attrs"@) {
                value_at(normalized(json, format_version), path) == Some(
                    JsonView::Array(Seq::empty()),
                )
            } else {
                value_at(normalized(json, format_version), path) matches Some(
                    JsonView::Array(after),
                ) && after.len() == items.len()
            },
            JsonView::Object(members) => value_at(normalized(json, format_version), path) matches
                Some(JsonView::Object(after)) && members.dom().subset_of(after.dom()),
            value => value_at(normalized(json, format_version), path) == Some(value),
        },
{
    law_strip_along_paths(json, path);
    let clean = stripped(json);
    let targeted = if format_version < 56 {
        with_target(clean)
    } else {
        clean
    };
    lemma_target_keeps_paths(clean, path);
    lemma_paths_keep_paths(targeted, path);
}

/// Normalization adds nothing but the placeholders: what is at the end of a path
/// that led nowhere before is in a `target` that the root lacked, before format 56,
/// or is the empty `path` of an external crate, before format 57.
pub proof fn law_normalize_adds_only_placeholders(
    json: JsonView,
    format_version: u64,
    path: Seq<Step>,
)
    requires
        value_at(json, path) is None,
        value_at(normalized(json, format_version), path) is Some,
    ensures
        ({
            ||| {
                &&& format_version < 56
                &&& path[0] == Step::Key("target"@)
                &&& value_at(json, path.take(1)) is None
            }
            ||| {
                &&& format_version < 57
                &&& path.len() == 3
                &&& path[0] == Step::Key("external_crates"@)
                &&& path[2] == Step::Key("path"@)
                &&& value_at(normalized(json, format_version), path) == Some(
                    JsonView::String(Seq::empty()),
                )
            }
        }),
{
    let clean = stripped(json);
    assert(value_at(clean, path) is None) by {
        if exists|k: int|
            0 < k < path.len() && path[k - 1] == Step::Key("attrs"@) && (#[trigger] value_at(
                json,
                path.take(k),
            ) matches Some(JsonView::Array(_))) {
            let k: int = choose|k: int|
                0 < k < path.len() && path[k - 1] == Step::Key("attrs"@) && (#[trigger] value_at(
                    json,
                    path.take(k),
                ) matches Some(JsonView::Array(_)));
            law_strip_leaves_nothing_in_attrs(json, path, k);
        } else {
            law_strip_along_paths(json, path);
        }
    }
    let targeted = if format_version < 56 {
        with_target(clean)
    } else {
        clean
    };
    lemma_target_keeps_paths(clean, path);
    lemma_paths_keep_paths(targeted, path);
    if value_at(targeted, path) is Some {
        assert(path.take(1)[0] == path[0]);
        law_strip_object(json->Object_0, "target"@);
    }
}

// ========== Parsing and decoding ==========

/// Parsing fails with the error of the parser if the parser fails, and gives what
/// the parser read if it does not.
pub proof fn law_parse_outcome(text: Seq<u8>, result: Result<Json, DocsError>)
    ensures
        is_parse_of(text, result) <==> match (json_parsed(text), result) {
            (Ok(json), Ok(document)) => document@ == json,
            (Err(message), Err(DocsError::Json(error))) => json_error_text(error) == message,
            _ => false,
        },
{
}

/// Parsing compressed bytes fails with the error of zstd if zstd fails, else with
/// that of the parser if the parser fails on the decompressed text, and else gives
/// what the parser read from that text.
pub proof fn law_raw_parse_outcome(bytes: Seq<u8>, result: Result<Json, DocsError>)
    ensures
        zstd_decoded(bytes) matches Err(message) ==> (is_parse_of_raw(bytes, result) <==> (
        result matches Err(DocsError::Zstd(error)) && io_error_text(error) == message)),
        zstd_decoded(bytes) matches Ok(text) ==> (json_parsed(text) matches Err(message) ==> (
        is_parse_of_raw(bytes, result) <==> (result matches Err(DocsError::Json(error))
            && json_error_text(error) == message))),
        zstd_decoded(bytes) matches Ok(text) ==> (json_parsed(text) matches Ok(json) ==> (
        is_parse_of_raw(bytes, result) <==> (result matches Ok(document) && document@ == json))),
{
}

/// Reading gives the crate that `serde_json` reads out of this very document, or
/// the error that it gives on it.
pub proof fn law_reading_outcome(json: JsonView, result: Result<rustdoc_types::Crate, DocsError>)
    ensures
        is_reading_of(json, result) <==> match (crate_read(json), result) {
            (Ok(says), Ok(krate)) => crate_says(krate) == says,
            (Err(message), Err(DocsError::Json(error))) => json_error_text(error) == message,
            _ => false,
        },
{
}

/// The crate that a document is decoded to, or the error, is the one that
/// `serde_json` gives on the document as it is normalized for the format version
/// that it gives, and on nothing else.
pub proof fn law_decoding_outcome(
    json: JsonView,
    version: u64,
    result: Result<rustdoc_types::Crate, DocsError>,
)
    requires
        version == format_version_of(json),
    ensures
        is_decoding_of(json, result) <==> match (crate_read(normalized(json, version)), result) {
            (Ok(says), Ok(krate)) => crate_says(krate) == says,
            (Err(message), Err(DocsError::Json(error))) => json_error_text(error) == message,
            _ => false,
        },
{
}

/// A document of format 57 or later is read as it stands, but for its arrays of
/// `attrs`, which are empty.
pub proof fn law_current_documents_are_read_as_they_stand(
    members: Map<Seq<char>, JsonView>,
    number: serde_json::Number,
    version: u64,
    result: Result<rustdoc_types::Crate, DocsError>,
)
    requires
        members.contains_key("format_version"@),
        members["format_version"@] == JsonView::Number(number),
        number_as_u64(number) == Some(version),
        version >= 57,
    ensures
        is_decoding_of(JsonView::Object(members), result) <==> is_reading_of(
            stripped(JsonView::Object(members)),
            result,
        ),
        is_decoding_of(JsonView::Object(members), result) <==> match (
            crate_read(stripped(JsonView::Object(members))),
            result,
        ) {
            (Ok(says), Ok(krate)) => crate_says(krate) == says,
            (Err(message), Err(DocsError::Json(error))) => json_error_text(error) == message,
            _ => false,
        },
{
    law_format_version_is_the_number_given(members, number, version);
}

/// The crate of a document is read from a root with these members and no others:
/// - each member of the document's root, stripped, but for what follows;
/// - before format 56, the placeholder under `target` if the root has no `target`;
/// - before format 57, the external crates with their ids and, if they are objects,
///   all their fields, and with an empty `path` in each of them that has none.
pub proof fn law_decoding_reads_these_members(
    members: Map<Seq<char>, JsonView>,
    read: Map<Seq<char>, JsonView>,
    version: u64,
    result: Result<rustdoc_types::Crate, DocsError>,
)
    requires
        version == format_version_of(JsonView::Object(members)),
        forall|key: Seq<char>|
            key != "target"@ && key != "external_crates"@ ==> (#[trigger] read.contains_key(key)
                <==> members.contains_key(key)),
        forall|key: Seq<char>|
            key != "target"@ && key != "external_crates"@ && members.contains_key(key)
                ==> #[trigger] read[key] == stripped(JsonView::Object(members))->Object_0[key],
        read.contains_key("target"@) <==> members.contains_key("target"@) || version < 56,
        members.contains_key("target"@) ==> read["target"@] == stripped(members["target"@]),
        !members.contains_key("target"@) && version < 56 ==> {
            &&& read["target"@] is Object
            &&& read["target"@]->Object_0.dom() == set!["triple"@, "target_features"@]
            &&& read["target"@]->Object_0["triple"@] == JsonView::String("unknown"@)
            &&& read["target"@]->Object_0["target_features"@] == JsonView::Array(Seq::empty())
        },
        read.contains_key("external_crates"@) <==> members.contains_key("external_crates"@),
        members.contains_key("external_crates"@) ==> match stripped(members["external_crates"@]) {
            JsonView::Object(crates) if version < 57 => {
                &&& read["external_crates"@] is Object
                &&& read["external_crates"@]->Object_0.dom() == crates.dom()
                &&& forall|id: Seq<char>|
                    crates.contains_key(id) ==> match #[trigger] crates[id] {
                        JsonView::Object(fields) => {
                            let krate = read["external_crates"@]->Object_0[id];
                            &&& krate is Object
                            &&& krate->Object_0.dom() == fields.dom().insert("path"@)
                            &&& forall|field: Seq<char>| #[trigger]
                                fields.contains_key(field) ==> krate->Object_0[field]
                                    == fields[field]
                            &&& !fields.contains_key("path"@) ==> krate->Object_0["path"@]
                                == JsonView::String(Seq::empty())
                        },
                        other => read["external_crates"@]->Object_0[id] == other,
                    }
            },
            other => read["external_crates"@] == other,
        },
    ensures
        is_decoding_of(JsonView::Object(members), result) <==> match (
            crate_read(JsonView::Object(read)),
            result,
        ) {
            (Ok(says), Ok(krate)) => crate_says(krate) == says,
            (Err(message), Err(DocsError::Json(error))) => json_error_text(error) == message,
            _ => false,
        },
{
    let json = JsonView::Object(members);
    let after = normalized(json, version)->Object_0;
    law_normalize_target(members, version);
    law_normalize_other_external_crates(members, version);
    if !members.contains_key("target"@) && version < 56 {
        reveal_strlit("triple");
        reveal_strlit("target_features");
        assert("triple"@.len() != "target_features"@.len());
        assert(read["target"@]->Object_0 =~= after["target"@]->Object_0);
    }
    if members.contains_key("external_crates"@) {
        match stripped(members["external_crates"@]) {
            JsonView::Object(crates) if version < 57 => {
                let from = read["external_crates"@]->Object_0;
                law_normalize_external_crates(members, crates, version, "path"@, "path"@);
                let to = after["external_crates"@]->Object_0;
                assert forall|id: Seq<char>| crates.contains_key(id) implies #[trigger] from[id]
                    == to[id] by {
                    law_normalize_external_crates(members, crates, version, id, "path"@);
                    if let JsonView::Object(fields) = crates[id] {
                        assert forall|field: Seq<char>| #[trigger]
                            fields.contains_key(field) implies to[id]->Object_0[field]
                            == fields[field] by {
                            law_normalize_external_crates(members, crates, version, id, field);
                        }
                        assert(from[id]->Object_0 =~= to[id]->Object_0);
                    }
                }
                assert(from =~= to);
            },
            _ => {},
        }
    }
    assert forall|key: Seq<char>| #[trigger] read.contains_key(key) <==> after.contains_key(
        key,
    ) by {
        if key != "target"@ && key != "external_crates"@ {
            law_normalize_root_members(members, version, key);
        }
    }
    assert forall|key: Seq<char>| read.contains_key(key) implies #[trigger] read[key]
        == after[key] by {
        if key != "target"@ && key != "external_crates"@ {
            law_normalize_root_members(members, version, key);
        }
    }
    assert(read =~= after);
    law_decoding_outcome(json, version, result);
}

/// A document that is not an object is stripped and read.
pub proof fn law_decoding_other_documents(
    json: JsonView,
    result: Result<rustdoc_types::Crate, DocsError>,
)
    requires
        json !is Object,
    ensures
        is_decoding_of(json, result) <==> match (crate_read(stripped(json)), result) {
            (Ok(says), Ok(krate)) => crate_says(krate) == says,
            (Err(message), Err(DocsError::Json(error))) => json_error_text(error) == message,
            _ => false,
        },
{
}

/// Whatever the format version of a document is, what its crate is read from has
/// every value of the document that is not in an array of `attrs`.
pub proof fn law_decoding_loses_nothing(
    json: JsonView,
    result: Result<rustdoc_types::Crate, DocsError>,
)
    requires
        is_decoding_of(json, result),
    ensures
        exists|read: JsonView|
            {
                &&& match (#[trigger] crate_read(read), result) {
                    (Ok(says), Ok(krate)) => crate_says(krate) == says,
                    (Err(message), Err(DocsError::Json(error))) => json_error_text(error)
                        == message,
                    _ => false,
                }
                &&& forall|path: Seq<Step>|
                    (forall|k: int|
                        0 < k < path.len() && path[k - 1] == Step::Key("attrs"@) ==> !(
                        #[trigger] value_at(json, path.take(k)) matches Some(JsonView::Array(_))))
                        ==> match #[trigger] value_at(json, path) {
                        None => true,
                        Some(JsonView::Array(items)) => if path.len() > 0 && path.last()
                            == Step::Key("attrs"@) {
                            value_at(read, path) == Some(JsonView::Array(Seq::empty()))
                        } else {
                            value_at(read, path) matches Some(JsonView::Array(after))
                                && after.len() == items.len()
                        },
                        Some(JsonView::Object(members)) => value_at(read, path) matches Some(
                            JsonView::Object(after),
                        ) && members.dom().subset_of(after.dom()),
                        Some(value) => value_at(read, path) == Some(value),
                    }
            },
{
    let version: u64 = format_version_of(json);
    let read = normalized(json, version);
    assert forall|path: Seq<Step>|
        (forall|k: int|
            0 < k < path.len() && path[k - 1] == Step::Key("attrs"@) ==> !(#[trigger] value_at(
                json,
                path.take(k),
            ) matches Some(JsonView::Array(_)))) implies match #[trigger] value_at(json, path) {
        None => true,
        Some(JsonView::Array(items)) => if path.len() > 0 && path.last() == Step::Key("attrs"@) {
            value_at(read, path) == Some(JsonView::Array(Seq::empty()))
        } else {
            value_at(read, path) matches Some(JsonView::Array(after)) && after.len() == items.len()
        },
        Some(JsonView::Object(members)) => value_at(read, path) matches Some(
            JsonView::Object(after),
        ) && members.dom().subset_of(after.dom()),
        Some(value) => value_at(read, path) == Some(value),
    } by {
        if value_at(json, path) is Some {
            law_normalize_loses_nothing(json, version, path);
        }
    }
    assert(match (crate_read(read), result) {
        (Ok(says), Ok(krate)) => crate_says(krate) == says,
        (Err(message), Err(DocsError::Json(error))) => json_error_text(error) == message,
        _ => false,
    });
}

/// Decoding compressed bytes fails with the error of zstd if zstd fails, else with
/// that of the parser if the parser fails on the decompressed text, and else gives
/// what `serde_json` gives on the document in that text once it is normalized.
pub proof fn law_raw_decoding_outcome(
    bytes: Seq<u8>,
    result: Result<rustdoc_types::Crate, DocsError>,
)
    ensures
        zstd_decoded(bytes) matches Err(message) ==> (is_decoding_of_raw(bytes, result) <==> (
        result matches Err(DocsError::Zstd(error)) && io_error_text(error) == message)),
        zstd_decoded(bytes) matches Ok(text) ==> (json_parsed(text) matches Err(message) ==> (
        is_decoding_of_raw(bytes, result) <==> (result matches Err(DocsError::Json(error))
            && json_error_text(error) == message))),
        zstd_decoded(bytes) matches Ok(text) ==> (json_parsed(text) matches Ok(json) ==> (
        is_decoding_of_raw(bytes, result) <==> match (
            crate_read(normalized(json, format_version_of(json))),
            result,
        ) {
            (Ok(says), Ok(krate)) => crate_says(krate) == says,
            (Err(message), Err(DocsError::Json(error))) => json_error_text(error) == message,
            _ => false,
        })),
{
}

// ========== rustdoc_json_url ==========

/// A URL is as long as its parts are together. It begins with
/// "https://docs.rs/crate/", the name and a slash, and ends with the version and
/// "/json".
pub proof fn law_url_is_made_of_its_parts(name: Seq<char>, version: Seq<char>)
    ensures
        ({
            let url = rustdoc_json_url_of(name, version);
            let start = "https://docs.rs/crate/"@;
            let end = "/json"@;
            let slash: int = start.len() + name.len() as int;
            let rest: int = slash + 1 + version.len();
            &&& url.len() == rest + end.len()
            &&& url.take(start.len() as int) == start
            &&& url.subrange(start.len() as int, slash) == name
            &&& url[slash] == '/'
            &&& url.subrange(slash + 1, rest) == version
            &&& url.skip(rest) == end
        }),
{
    reveal_strlit("/");
    let url = rustdoc_json_url_of(name, version);
    let start = "https://docs.rs/crate/"@;
    let end = "/json"@;
    let slash: int = start.len() + name.len() as int;
    let rest: int = slash + 1 + version.len();
    assert(url.take(start.len() as int) =~= start);
    assert(url.subrange(start.len() as int, slash) =~= name);
    assert(url.subrange(slash + 1, rest) =~= version);
    assert(url.skip(rest) =~= end);
}

} // verus!
