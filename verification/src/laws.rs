//! What holds of the library as a whole.

use vstd::prelude::*;

use crate::decode::{crate_says, is_decoding_of, is_decoding_of_raw, is_parse_of_raw};
use crate::error::{io_error_text, json_error_text, DocsError};
use crate::fetch::rustdoc_json_url_of;
use crate::json::{Json, JsonView};
use crate::normalize::{
    dummy_target, format_version_of, is_attrs, normalized, stripped, stripped_member,
    with_external_crate_paths, with_path, with_paths, with_target,
};

verus! {

/// No array under a key `attrs` holds anything, at any depth.
pub open spec fn attrs_are_empty(json: JsonView) -> bool
    decreases json,
{
    match json {
        JsonView::Array(items) => forall|i: int|
            0 <= i < items.len() ==> attrs_are_empty(#[trigger] items[i]),
        JsonView::Object(members) => forall|key: Seq<char>| #[trigger]
            members.contains_key(key) ==> if is_attrs(key, members[key]) {
                members[key] == JsonView::Array(Seq::empty())
            } else {
                attrs_are_empty(members[key])
            },
        _ => true,
    }
}

/// Stripping a document leaves every array of `attrs` in it empty.
pub proof fn law_strip_empties_all_attrs(json: JsonView)
    ensures
        attrs_are_empty(stripped(json)),
    decreases json,
{
    match json {
        JsonView::Array(items) => {
            assert forall|i: int| 0 <= i < items.len() implies attrs_are_empty(
                #[trigger] stripped(json)->Array_0[i],
            ) by {
                law_strip_empties_all_attrs(items[i]);
            }
        },
        JsonView::Object(members) => {
            let after = stripped(json)->Object_0;
            assert forall|key: Seq<char>| #[trigger] after.contains_key(key) implies {
                if is_attrs(key, after[key]) {
                    after[key] == JsonView::Array(Seq::empty())
                } else {
                    attrs_are_empty(after[key])
                }
            } by {
                law_strip_empties_all_attrs(members[key]);
            }
        },
        _ => {},
    }
}

/// Stripping changes nothing in a document whose arrays of `attrs` are empty.
pub proof fn law_strip_keeps_stripped(json: JsonView)
    requires
        attrs_are_empty(json),
    ensures
        stripped(json) == json,
    decreases json,
{
    match json {
        JsonView::Array(items) => {
            assert forall|i: int| 0 <= i < items.len() implies stripped(
                #[trigger] items[i],
            ) == items[i] by {
                law_strip_keeps_stripped(items[i]);
            }
            assert(stripped(json)->Array_0 =~= items);
        },
        JsonView::Object(members) => {
            assert forall|key: Seq<char>| #[trigger]
                members.contains_key(key) implies stripped_member(key, members[key])
                == members[key] by {
                if !is_attrs(key, members[key]) {
                    law_strip_keeps_stripped(members[key]);
                }
            }
            assert(stripped(json)->Object_0 =~= members);
        },
        _ => {},
    }
}

/// Stripping twice is stripping once.
pub proof fn law_strip_is_idempotent(json: JsonView)
    ensures
        stripped(stripped(json)) == stripped(json),
{
    law_strip_empties_all_attrs(json);
    law_strip_keeps_stripped(stripped(json));
}

/// A step from a value to one of the values in it.
pub enum Step {
    /// To the member of an object under this key.
    Key(Seq<char>),
    /// To the item of an array at this index.
    Index(int),
}

/// The value in `json` to which `path` leads, if it leads to one.
pub open spec fn value_at(json: JsonView, path: Seq<Step>) -> Option<JsonView>
    decreases path.len(),
{
    if path.len() == 0 {
        Some(json)
    } else {
        match (path[0], json) {
            (Step::Key(key), JsonView::Object(members)) => if members.contains_key(key) {
                value_at(members[key], path.drop_first())
            } else {
                None
            },
            (Step::Index(i), JsonView::Array(items)) => if 0 <= i < items.len() {
                value_at(items[i], path.drop_first())
            } else {
                None
            },
            _ => None,
        }
    }
}

/// Outside of `attrs`, stripping a document changes none of its values: a path
/// that passes no key `attrs` leads to a value after stripping if and only if it
/// did before, and to the same one, stripped.
pub proof fn law_strip_keeps_other_values(json: JsonView, path: Seq<Step>)
    requires
        forall|i: int| 0 <= i < path.len() ==> #[trigger] path[i] != Step::Key("attrs"@),
    ensures
        value_at(stripped(json), path) == match value_at(json, path) {
            Some(value) => Some(stripped(value)),
            None => None,
        },
    decreases path.len(),
{
    if path.len() > 0 {
        let rest = path.drop_first();
        assert forall|i: int| 0 <= i < rest.len() implies #[trigger] rest[i] != Step::Key(
            "attrs"@,
        ) by {
            assert(rest[i] == path[i + 1]);
        }
        match (path[0], json) {
            (Step::Key(key), JsonView::Object(members)) => if members.contains_key(key) {
                law_strip_keeps_other_values(members[key], rest);
            },
            (Step::Index(i), JsonView::Array(items)) => if 0 <= i < items.len() {
                law_strip_keeps_other_values(items[i], rest);
            },
            _ => {},
        }
    }
}

/// The placeholder goes under `target`, in an object that had no `target`, and
/// nothing else changes.
pub proof fn law_target_is_all_that_is_added(json: JsonView, key: Seq<char>)
    ensures
        json is Object <==> with_target(json) is Object,
        json !is Object || json.get("target"@) is Some ==> with_target(json) == json,
        json is Object && json.get("target"@) is None ==> with_target(json).get("target"@) == Some(
            dummy_target(),
        ),
        key != "target"@ ==> with_target(json).get(key) == json.get(key),
{
}

/// The placeholder goes under `path`, in an external crate that is an object
/// without a `path`, and nothing else changes, in that crate or elsewhere.
pub proof fn law_paths_are_all_that_is_added(
    json: JsonView,
    key: Seq<char>,
    crate_id: Seq<char>,
    field: Seq<char>,
)
    ensures
        json is Object <==> with_external_crate_paths(json) is Object,
        key != "external_crates"@ ==> with_external_crate_paths(json).get(key) == json.get(key),
        match json.get("external_crates"@) {
            Some(JsonView::Object(crates)) => {
                let after = with_external_crate_paths(json).get("external_crates"@);
                &&& after is Some
                &&& after->0 is Object
                &&& after->0->Object_0.dom() == crates.dom()
                &&& crates.contains_key(crate_id) ==> {
                    let krate = crates[crate_id];
                    let krate_after = after->0->Object_0[crate_id];
                    &&& krate !is Object || krate.get("path"@) is Some ==> krate_after == krate
                    &&& krate is Object && krate.get("path"@) is None ==> krate_after.get("path"@)
                        == Some(JsonView::String(Seq::empty()))
                    &&& field != "path"@ ==> krate_after.get(field) == krate.get(field)
                }
            },
            _ => with_external_crate_paths(json) == json,
        },
{
    match json.get("external_crates"@) {
        Some(JsonView::Object(crates)) => {
            assert(with_paths(crates).dom() =~= crates.dom());
        },
        _ => {},
    }
}

/// `json` lacks nothing that a document of the current format has and one of
/// format `format_version` may lack, and its `attrs` are empty.
pub open spec fn is_current(json: JsonView, format_version: u64) -> bool {
    &&& attrs_are_empty(json)
    &&& format_version < 56 && json is Object ==> json.get("target"@) is Some
    &&& format_version < 57 ==> match json.get("external_crates"@) {
        Some(JsonView::Object(crates)) => forall|id: Seq<char>| #[trigger]
            crates.contains_key(id) && crates[id] is Object ==> crates[id].get("path"@) is Some,
        _ => true,
    }
}

/// The keys that normalization looks at are told apart by their lengths.
proof fn lemma_keys_differ()
    ensures
        "path"@.len() == 4,
        "attrs"@.len() == 5,
        "target"@.len() == 6,
        "triple"@.len() == 6,
        "format_version"@.len() == 14,
        "external_crates"@.len() == 15,
        "target_features"@.len() == 15,
{
    reveal_strlit("path");
    reveal_strlit("attrs");
    reveal_strlit("target");
    reveal_strlit("triple");
    reveal_strlit("format_version");
    reveal_strlit("external_crates");
    reveal_strlit("target_features");
}

proof fn lemma_insert_keeps_attrs_empty(
    members: Map<Seq<char>, JsonView>,
    key: Seq<char>,
    value: JsonView,
)
    requires
        attrs_are_empty(JsonView::Object(members)),
        attrs_are_empty(value),
        key != "attrs"@,
    ensures
        attrs_are_empty(JsonView::Object(members.insert(key, value))),
{
    let after = members.insert(key, value);
    assert forall|k: Seq<char>| #[trigger] after.contains_key(k) implies {
        if is_attrs(k, after[k]) {
            after[k] == JsonView::Array(Seq::empty())
        } else {
            attrs_are_empty(after[k])
        }
    } by {
        assert(k == key || members.contains_key(k));
    }
}

proof fn lemma_target_keeps_attrs_empty(json: JsonView)
    requires
        attrs_are_empty(json),
    ensures
        attrs_are_empty(with_target(json)),
{
    lemma_keys_differ();
    let none = Map::<Seq<char>, JsonView>::empty();
    let triple = JsonView::String("unknown"@);
    assert(attrs_are_empty(JsonView::Object(none)));
    lemma_insert_keeps_attrs_empty(none, "triple"@, triple);
    lemma_insert_keeps_attrs_empty(
        none.insert("triple"@, triple),
        "target_features"@,
        JsonView::Array(Seq::empty()),
    );
    if let JsonView::Object(members) = json {
        lemma_insert_keeps_attrs_empty(members, "target"@, dummy_target());
    }
}

proof fn lemma_path_keeps_attrs_empty(krate: JsonView)
    requires
        attrs_are_empty(krate),
    ensures
        attrs_are_empty(with_path(krate)),
{
    lemma_keys_differ();
    if let JsonView::Object(members) = krate {
        lemma_insert_keeps_attrs_empty(members, "path"@, JsonView::String(Seq::empty()));
    }
}

proof fn lemma_paths_keep_attrs_empty(json: JsonView)
    requires
        attrs_are_empty(json),
    ensures
        attrs_are_empty(with_external_crate_paths(json)),
{
    lemma_keys_differ();
    match (json, json.get("external_crates"@)) {
        (JsonView::Object(members), Some(JsonView::Object(crates))) => {
            let after = with_paths(crates);
            assert(attrs_are_empty(JsonView::Object(crates)));
            assert forall|id: Seq<char>| #[trigger] after.contains_key(id) implies {
                if is_attrs(id, after[id]) {
                    after[id] == JsonView::Array(Seq::empty())
                } else {
                    attrs_are_empty(after[id])
                }
            } by {
                assert(crates.contains_key(id));
                if !is_attrs(id, crates[id]) {
                    lemma_path_keeps_attrs_empty(crates[id]);
                }
            }
            lemma_insert_keeps_attrs_empty(members, "external_crates"@, JsonView::Object(after));
        },
        _ => {},
    }
}

/// Normalization leaves a document current.
pub proof fn law_normalized_is_current(json: JsonView, format_version: u64)
    ensures
        is_current(normalized(json, format_version), format_version),
{
    lemma_keys_differ();
    let clean = stripped(json);
    law_strip_empties_all_attrs(json);
    let targeted = if format_version < 56 {
        lemma_target_keeps_attrs_empty(clean);
        with_target(clean)
    } else {
        clean
    };
    if format_version < 57 {
        lemma_paths_keep_attrs_empty(targeted);
    }
}

/// Normalization changes nothing in a document that is current.
pub proof fn law_normalize_keeps_current(json: JsonView, format_version: u64)
    requires
        is_current(json, format_version),
    ensures
        normalized(json, format_version) == json,
{
    law_strip_keeps_stripped(json);
    match (json, json.get("external_crates"@)) {
        (JsonView::Object(members), Some(JsonView::Object(crates))) => if format_version < 57 {
            assert(with_paths(crates) =~= crates);
            assert(members.insert("external_crates"@, JsonView::Object(crates)) =~= members);
        },
        _ => {},
    }
}

/// Normalizing twice is normalizing once.
pub proof fn law_normalize_is_idempotent(json: JsonView, format_version: u64)
    ensures
        normalized(normalized(json, format_version), format_version) == normalized(
            json,
            format_version,
        ),
{
    law_normalized_is_current(json, format_version);
    law_normalize_keeps_current(normalized(json, format_version), format_version);
}

/// Normalization does not change the format version that a document gives.
pub proof fn law_normalize_keeps_format_version(json: JsonView, format_version: u64)
    ensures
        format_version_of(normalized(json, format_version)) == format_version_of(json),
{
    lemma_keys_differ();
    lemma_strip_keeps_format_version(json);
}

proof fn lemma_strip_keeps_format_version(json: JsonView)
    ensures
        format_version_of(stripped(json)) == format_version_of(json),
{
    lemma_keys_differ();
    if let Some(value) = json.get("format_version"@) {
        assert(stripped(json).get("format_version"@) == Some(stripped(value)));
        assert(value is Number ==> stripped(value) == value);
        assert(stripped(value) is Number ==> value is Number);
    }
}

/// A document that was normalized by its own format version is left as it is when
/// that is done again, so it reads as the document that it came from.
pub proof fn law_normalized_document_reads_the_same(json: JsonView)
    ensures
        ({
            let document = normalized(json, format_version_of(json));
            normalized(document, format_version_of(document)) == document
        }),
{
    law_normalize_keeps_format_version(json, format_version_of(json));
    law_normalize_is_idempotent(json, format_version_of(json));
}

/// The members of the root other than `target` and `external_crates` are only
/// stripped.
pub proof fn law_normalize_keeps_other_members(json: JsonView, format_version: u64, key: Seq<char>)
    requires
        key != "target"@,
        key != "external_crates"@,
    ensures
        normalized(json, format_version).get(key) == stripped(json).get(key),
{
}

/// In a document of format 57 or later only `attrs` change.
pub proof fn law_later_formats_are_only_stripped(json: JsonView, format_version: u64)
    requires
        format_version >= 57,
    ensures
        normalized(json, format_version) == stripped(json),
{
}

/// A document of format 56 or later gets no `target` that it did not have.
pub proof fn law_target_is_kept_from_format_56(json: JsonView, format_version: u64)
    requires
        format_version >= 56,
    ensures
        normalized(json, format_version).get("target"@) == stripped(json).get("target"@),
{
    lemma_keys_differ();
}

/// What stands in arrays of `attrs` has no part in what a document is normalized
/// to.
pub proof fn law_attrs_do_not_matter(a: JsonView, b: JsonView)
    requires
        stripped(a) == stripped(b),
    ensures
        normalized(a, format_version_of(a)) == normalized(b, format_version_of(b)),
{
    lemma_strip_keeps_format_version(a);
    lemma_strip_keeps_format_version(b);
}

/// Two results of decoding are the same: crates that say the same, or errors of
/// the same kind with the same text.
pub open spec fn same_outcome(
    a: Result<rustdoc_types::Crate, DocsError>,
    b: Result<rustdoc_types::Crate, DocsError>,
) -> bool {
    match (a, b) {
        (Ok(x), Ok(y)) => crate_says(x) == crate_says(y),
        (Err(DocsError::Zstd(x)), Err(DocsError::Zstd(y))) => io_error_text(x) == io_error_text(y),
        (Err(DocsError::Json(x)), Err(DocsError::Json(y))) => json_error_text(x)
            == json_error_text(y),
        _ => false,
    }
}

/// The result of decoding is up to the bytes alone: two calls on the same bytes,
/// under whatever names and versions, both succeed, with crates that say the same,
/// or both fail, with errors of the same kind and the same text.
pub proof fn law_bytes_alone_decide(
    bytes: Seq<u8>,
    a: Result<rustdoc_types::Crate, DocsError>,
    b: Result<rustdoc_types::Crate, DocsError>,
)
    requires
        is_decoding_of_raw(bytes, a),
        is_decoding_of_raw(bytes, b),
    ensures
        a is Ok <==> b is Ok,
        same_outcome(a, b),
{
}

/// Decoding in one go is parsing followed by decoding the document, and what
/// fails first gives the error.
pub proof fn law_decoding_is_parsing_then_decoding(
    bytes: Seq<u8>,
    parsed: Result<Json, DocsError>,
    result: Result<rustdoc_types::Crate, DocsError>,
)
    requires
        is_parse_of_raw(bytes, parsed),
        match parsed {
            Ok(document) => is_decoding_of(document@, result),
            Err(error) => result == Err::<rustdoc_types::Crate, DocsError>(error),
        },
    ensures
        is_decoding_of_raw(bytes, result),
{
}

/// Documents that differ only in their arrays of `attrs` are decoded to the same.
pub proof fn law_attrs_do_not_change_the_crate(
    json: JsonView,
    other: JsonView,
    a: Result<rustdoc_types::Crate, DocsError>,
    b: Result<rustdoc_types::Crate, DocsError>,
)
    requires
        stripped(json) == stripped(other),
        is_decoding_of(json, a),
        is_decoding_of(other, b),
    ensures
        same_outcome(a, b),
{
    law_attrs_do_not_matter(json, other);
}

/// Different crates, and different versions of a crate, have different URLs. No
/// crate name has a slash in it.
pub proof fn law_urls_tell_crates_apart(
    name: Seq<char>,
    version: Seq<char>,
    other_name: Seq<char>,
    other_version: Seq<char>,
)
    requires
        !name.contains('/'),
        !other_name.contains('/'),
        rustdoc_json_url_of(name, version) == rustdoc_json_url_of(other_name, other_version),
    ensures
        name == other_name,
        version == other_version,
{
    reveal_strlit("https://docs.rs/crate/");
    reveal_strlit("/");
    reveal_strlit("/json");
    let url = rustdoc_json_url_of(name, version);
    let start = "https://docs.rs/crate/"@.len() as int;
    let end = "/json"@.len() as int;
    assert forall|i: int| 0 <= i < name.len() implies #[trigger] name[i] == url[start + i] by {}
    assert forall|i: int| 0 <= i < other_name.len() implies #[trigger] other_name[i] == url[start
        + i] by {}
    assert(url[start + name.len()] == '/');
    assert(url[start + other_name.len()] == '/');
    if name.len() < other_name.len() {
        assert(other_name[name.len() as int] == '/');
    }
    if other_name.len() < name.len() {
        assert(name[other_name.len() as int] == '/');
    }
    assert(name =~= other_name);
    let middle = start + name.len() + 1;
    assert(version =~= url.subrange(middle, url.len() - end));
    assert(other_version =~= url.subrange(middle, url.len() - end));
}

} // verus!
