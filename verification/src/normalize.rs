//! Documents of older formats in the form of the current one.
//!
//! Each step is given twice: as what it makes of what a document says, and as the
//! function that does it in place.

use vstd::prelude::*;

use crate::json::{
    entries_view, find, lemma_empty_array, lemma_entries_map, lemma_push_inserts,
    lemma_update_at_place, Json, JsonView,
};
use crate::value::{number_as_u64, number_to_u64};

verus! {

/// `value` is an array that stands under the key `attrs`.
pub open spec fn is_attrs(key: Seq<char>, value: JsonView) -> bool {
    key == "attrs"@ && value is Array
}

/// `json` with every array under a key `attrs` emptied, at every depth.
pub open spec fn stripped(json: JsonView) -> JsonView
    decreases json,
{
    match json {
        JsonView::Array(items) => JsonView::Array(
            Seq::new(
                items.len(),
                |i: int|
                    if 0 <= i < items.len() {
                        stripped(items[i])
                    } else {
                        arbitrary()
                    },
            ),
        ),
        JsonView::Object(members) => JsonView::Object(
            Map::new(
                |key: Seq<char>| members.contains_key(key),
                |key: Seq<char>|
                    if !members.contains_key(key) {
                        arbitrary()
                    } else if is_attrs(key, members[key]) {
                        JsonView::Array(Seq::empty())
                    } else {
                        stripped(members[key])
                    },
            ),
        ),
        _ => json,
    }
}

/// What [`stripped`] leaves of `value` where it stands under `key` in an object.
pub open spec fn stripped_member(key: Seq<char>, value: JsonView) -> JsonView {
    if is_attrs(key, value) {
        JsonView::Array(Seq::empty())
    } else {
        stripped(value)
    }
}

/// Empties every array under a key `attrs`, at every depth.
///
/// Up to format 53 these arrays held strings, since format 54 they hold tagged
/// values. Nothing here uses them, and an empty array reads the same in every
/// format. `attrs` that are not an array are entered like any other value.
pub fn strip_attrs(value: &mut Json)
    ensures
        final(value)@ == stripped(old(value)@),
    decreases *old(value),
{
    match value {
        Json::Object(entries) => strip_members(entries),
        Json::Array(items) => strip_items(items),
        _ => {},
    }
}

/// [`strip_attrs`] for the items of an array.
fn strip_items(items: &mut Vec<Json>)
    ensures
        Json::Array(*final(items))@ == stripped(Json::Array(*old(items))@),
    decreases *old(items),
{
    let mut i: usize = 0;
    while i < items.len()
        invariant
            i <= items@.len(),
            items@.len() == old(items)@.len(),
            forall|j: int| 0 <= j < i ==> (#[trigger] items@[j])@ == stripped(old(items)@[j]@),
            forall|j: int| i <= j < items@.len() ==> #[trigger] items@[j] == old(items)@[j],
        decreases items@.len() - i,
    {
        strip_attrs(&mut items[i]);
        i = i + 1;
    }
    assert(Json::Array(*items)@->Array_0 =~= stripped(Json::Array(*old(items))@)->Array_0);
}

/// [`strip_attrs`] for the members of an object.
fn strip_members(entries: &mut Vec<(String, Json)>)
    ensures
        Json::Object(*final(entries))@ == stripped(Json::Object(*old(entries))@),
    decreases *old(entries),
{
    let attrs: String = "attrs".to_owned();
    let mut i: usize = 0;
    while i < entries.len()
        invariant
            attrs@ == "attrs"@,
            i <= entries@.len(),
            entries@.len() == old(entries)@.len(),
            forall|j: int|
                0 <= j < i ==> {
                    &&& (#[trigger] entries@[j]).0@ == old(entries)@[j].0@
                    &&& entries@[j].1@ == stripped_member(
                        old(entries)@[j].0@,
                        old(entries)@[j].1@,
                    )
                },
            forall|j: int| i <= j < entries@.len() ==> #[trigger] entries@[j] == old(entries)@[j],
        decreases entries@.len() - i,
    {
        let under_attrs: bool = entries[i].0 == attrs;
        if under_attrs && matches!(entries[i].1, Json::Array(_)) {
            let none: Vec<Json> = Vec::new();
            proof {
                lemma_empty_array(none);
            }
            entries[i].1 = Json::Array(none);
        } else {
            strip_attrs(&mut entries[i].1);
        }
        i = i + 1;
    }
    proof {
        let change = |key: Seq<char>, value: JsonView| stripped_member(key, value);
        lemma_entries_map(old(entries)@, entries@, change);
        assert(entries_view(entries@) =~= stripped(Json::Object(*old(entries))@)->Object_0);
    }
}

/// The `target` that a document of a format without one is given.
pub open spec fn dummy_target() -> JsonView {
    JsonView::Object(
        Map::empty().insert("triple"@, JsonView::String("unknown"@)).insert(
            "target_features"@,
            JsonView::Array(Seq::empty()),
        ),
    )
}

/// `json` with a `target`: its own, or else [`dummy_target`].
pub open spec fn with_target(json: JsonView) -> JsonView {
    match json {
        JsonView::Object(members) => if members.contains_key("target"@) {
            json
        } else {
            JsonView::Object(members.insert("target"@, dummy_target()))
        },
        _ => json,
    }
}

/// Makes [`dummy_target`].
fn make_dummy_target() -> (target: Json)
    ensures
        target@ == dummy_target(),
{
    let features: Vec<Json> = Vec::new();
    proof {
        lemma_empty_array(features);
    }
    let mut entries: Vec<(String, Json)> = Vec::new();
    entries.push(("triple".to_owned(), Json::String("unknown".to_owned())));
    entries.push(("target_features".to_owned(), Json::Array(features)));
    proof {
        let empty = Seq::<(String, Json)>::empty();
        assert(entries@ =~= empty.push(entries@[0]).push(entries@[1]));
        lemma_push_inserts(empty, entries@[0]);
        lemma_push_inserts(empty.push(entries@[0]), entries@[1]);
    }
    Json::Object(entries)
}

/// Gives the root a placeholder `target` where it has none.
///
/// A document that is not an object is left as it is.
pub fn inject_dummy_target(value: &mut Json)
    ensures
        final(value)@ == with_target(old(value)@),
{
    if let Json::Object(entries) = value {
        if find(entries, "target").is_none() {
            let entry = ("target".to_owned(), make_dummy_target());
            proof {
                lemma_push_inserts(entries@, entry);
            }
            entries.push(entry);
        }
    }
}

/// `krate` with a `path`: its own, or else the empty one.
pub open spec fn with_path(krate: JsonView) -> JsonView {
    match krate {
        JsonView::Object(members) => if members.contains_key("path"@) {
            krate
        } else {
            JsonView::Object(members.insert("path"@, JsonView::String(Seq::empty())))
        },
        _ => krate,
    }
}

/// `crates` with a `path` in each of them.
pub open spec fn with_paths(crates: Map<Seq<char>, JsonView>) -> Map<Seq<char>, JsonView> {
    crates.map_values(|krate: JsonView| with_path(krate))
}

/// `json` with a `path` in each of its `external_crates`.
pub open spec fn with_external_crate_paths(json: JsonView) -> JsonView {
    match (json, json.get("external_crates"@)) {
        (JsonView::Object(members), Some(JsonView::Object(crates))) => JsonView::Object(
            members.insert("external_crates"@, JsonView::Object(with_paths(crates))),
        ),
        _ => json,
    }
}

/// Gives an external crate an empty `path` where it has none.
fn inject_path(krate: &mut Json)
    ensures
        final(krate)@ == with_path(old(krate)@),
{
    if let Json::Object(entries) = krate {
        if find(entries, "path").is_none() {
            let entry = ("path".to_owned(), Json::String(String::new()));
            proof {
                lemma_push_inserts(entries@, entry);
            }
            entries.push(entry);
        }
    }
}

/// Gives each of the external crates an empty `path` where it has none.
fn inject_paths(crates: &mut Vec<(String, Json)>)
    ensures
        entries_view(final(crates)@) == with_paths(entries_view(old(crates)@)),
{
    let mut i: usize = 0;
    while i < crates.len()
        invariant
            i <= crates@.len(),
            crates@.len() == old(crates)@.len(),
            forall|j: int|
                0 <= j < i ==> {
                    &&& (#[trigger] crates@[j]).0@ == old(crates)@[j].0@
                    &&& crates@[j].1@ == with_path(old(crates)@[j].1@)
                },
            forall|j: int| i <= j < crates@.len() ==> #[trigger] crates@[j] == old(crates)@[j],
        decreases crates@.len() - i,
    {
        inject_path(&mut crates[i].1);
        i = i + 1;
    }
    proof {
        let change = |key: Seq<char>, krate: JsonView| with_path(krate);
        lemma_entries_map(old(crates)@, crates@, change);
        assert(entries_view(crates@) =~= with_paths(entries_view(old(crates)@)));
    }
}

/// Gives each of the root's `external_crates` an empty `path` where it has none.
///
/// A document without `external_crates`, one whose `external_crates` are not an
/// object, and an external crate that is not an object are left as they are.
pub fn inject_dummy_external_crate_paths(value: &mut Json)
    ensures
        final(value)@ == with_external_crate_paths(old(value)@),
{
    if let Json::Object(entries) = value {
        if let Some(i) = find(entries, "external_crates") {
            let ghost before = entries@;
            if let Json::Object(crates) = &mut entries[i].1 {
                inject_paths(crates);
                proof {
                    lemma_update_at_place(
                        before,
                        "external_crates"@,
                        i as int,
                        entries@[i as int],
                    );
                    assert(entries@ =~= before.update(i as int, entries@[i as int]));
                }
            } else {
                assert(entries@ =~= before);
            }
        }
    }
}

/// The `format_version` of a document, or zero where it gives none that is an
/// unsigned integer.
pub open spec fn format_version_of(json: JsonView) -> u64 {
    match json.get("format_version"@) {
        Some(JsonView::Number(number)) => match number_as_u64(number) {
            Some(version) => version,
            None => 0,
        },
        _ => 0,
    }
}

/// The format version that the root gives; zero where it gives none.
pub fn format_version(value: &Json) -> (version: u64)
    ensures
        version == format_version_of(value@),
{
    match value.get("format_version") {
        Some(Json::Number(number)) => match number_to_u64(number) {
            Some(version) => version,
            None => 0,
        },
        _ => 0,
    }
}

/// `json`, written in format `format_version`, in the form of format 61.
pub open spec fn normalized(json: JsonView, format_version: u64) -> JsonView {
    let clean = stripped(json);
    let targeted = if format_version < 56 {
        with_target(clean)
    } else {
        clean
    };
    if format_version < 57 {
        with_external_crate_paths(targeted)
    } else {
        targeted
    }
}

/// Brings a document of format `format_version` into the form that the types of
/// format 61 are read from:
/// - in every format, `attrs` changed shape at 54 and are not used, so they are
///   emptied;
/// - before format 56 there was no `target`, so the root gets a placeholder;
/// - before format 57 an external crate had no `path`, so each gets an empty one.
pub fn normalize_for_v61(value: &mut Json, format_version: u64)
    ensures
        final(value)@ == normalized(old(value)@, format_version),
{
    strip_attrs(value);
    if format_version < 56 {
        inject_dummy_target(value);
    }
    if format_version < 57 {
        inject_dummy_external_crate_paths(value);
    }
}

} // verus!
