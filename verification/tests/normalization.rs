use docs_fetcher::json::Json;
use docs_fetcher::normalize::{
    format_version, inject_dummy_external_crate_paths, inject_dummy_target, normalize_for_v61,
    strip_attrs,
};
use serde_json::Value;

fn parse(text: &str) -> Value {
    serde_json::from_str(text).unwrap()
}

fn document(text: &str) -> Json {
    Json::from_value(parse(text))
}

fn stripped(text: &str) -> Value {
    let mut json = document(text);
    strip_attrs(&mut json);
    json.into_value()
}

fn normalized(text: &str, version: u64) -> Value {
    let mut json = document(text);
    normalize_for_v61(&mut json, version);
    json.into_value()
}

#[test]
fn value_survives_the_way_there_and_back() {
    let value = parse(
        r#"{"null": null, "yes": true, "no": false, "int": 18446744073709551615,
            "negative": -7, "float": 0.1, "zero": -0.0, "text": "café",
            "list": [1, [2, []], {}], "map": {"b": 1, "a": {"": []}}}"#,
    );
    assert_eq!(Json::from_value(value.clone()).into_value(), value);
}

#[test]
fn value_is_taken_apart_into_its_parts() {
    assert_eq!(document("null"), Json::Null);
    assert_eq!(document("true"), Json::Bool(true));
    assert_eq!(document("12"), Json::Number(12u64.into()));
    assert_eq!(document("\"a\""), Json::String("a".to_string()));
    assert_eq!(
        document("[null, false]"),
        Json::Array(vec![Json::Null, Json::Bool(false)])
    );
    assert_eq!(
        document(r#"{"k": "v"}"#),
        Json::Object(vec![("k".to_string(), Json::String("v".to_string()))])
    );
}

#[test]
fn last_of_two_members_with_one_key_counts() {
    let json = Json::Object(vec![
        ("k".to_string(), Json::Bool(false)),
        ("other".to_string(), Json::Null),
        ("k".to_string(), Json::Bool(true)),
    ]);
    assert_eq!(json.get("k"), Some(&Json::Bool(true)));
    assert_eq!(json.into_value(), parse(r#"{"k": true, "other": null}"#));
}

#[test]
fn get_finds_members_of_objects_only() {
    let json = document(r#"{"a": 1, "b": {"c": 2}}"#);
    assert_eq!(json.get("a"), Some(&Json::Number(1u64.into())));
    assert_eq!(json.get("c"), None);
    assert_eq!(document("[1]").get("a"), None);
    assert_eq!(Json::Null.get("a"), None);
}

#[test]
fn strip_reaches_every_depth() {
    assert_eq!(
        stripped(r#"{"a": [{"b": {"attrs": [1], "c": [[{"attrs": ["x"]}]]}}], "attrs": [{"attrs": [2]}]}"#),
        parse(r#"{"a": [{"b": {"attrs": [], "c": [[{"attrs": []}]]}}], "attrs": []}"#)
    );
}

#[test]
fn strip_enters_attrs_that_are_no_array() {
    assert_eq!(
        stripped(r#"{"attrs": {"attrs": [1], "kept": [2]}}"#),
        parse(r#"{"attrs": {"attrs": [], "kept": [2]}}"#)
    );
    assert_eq!(stripped(r#"{"attrs": 7}"#), parse(r#"{"attrs": 7}"#));
}

#[test]
fn strip_keeps_scalars_and_plain_arrays() {
    for text in ["null", "true", "3", "-3", "2.5", "\"attrs\"", "[\"attrs\", [1]]", "[]", "{}"] {
        assert_eq!(stripped(text), parse(text));
    }
}

#[test]
fn strip_twice_is_strip_once() {
    let mut json = document(r#"{"index": {"0": {"attrs": ["a"], "inner": [{"attrs": [1]}]}}}"#);
    strip_attrs(&mut json);
    strip_attrs(&mut json);
    assert_eq!(
        json.into_value(),
        parse(r#"{"index": {"0": {"attrs": [], "inner": [{"attrs": []}]}}}"#)
    );
}

#[test]
fn strip_keeps_values_outside_attrs() {
    let value = stripped(r#"{"index": {"0": {"attrs": ["a"], "name": "N", "links": [{"to": 4}]}}}"#);
    assert_eq!(value["index"]["0"]["name"], parse("\"N\""));
    assert_eq!(value["index"]["0"]["links"][0]["to"], parse("4"));
}

#[test]
fn target_is_added_to_objects_without_one() {
    let mut json = document(r#"{"root": 0}"#);
    inject_dummy_target(&mut json);
    inject_dummy_target(&mut json);
    assert_eq!(
        json.into_value(),
        parse(r#"{"root": 0, "target": {"triple": "unknown", "target_features": []}}"#)
    );
}

#[test]
fn target_of_any_kind_is_kept() {
    for text in [r#"{"target": null}"#, r#"{"target": "t"}"#, "[1]", "null", "\"target\""] {
        let mut json = document(text);
        inject_dummy_target(&mut json);
        assert_eq!(json.into_value(), parse(text));
    }
}

#[test]
fn paths_are_added_to_crates_without_one() {
    let mut json = document(
        r#"{"external_crates": {"1": {"name": "a"}, "2": {"path": null}, "3": "no object"},
            "paths": {"1": {}}}"#,
    );
    inject_dummy_external_crate_paths(&mut json);
    inject_dummy_external_crate_paths(&mut json);
    assert_eq!(
        json.into_value(),
        parse(
            r#"{"external_crates": {"1": {"name": "a", "path": ""}, "2": {"path": null},
                "3": "no object"}, "paths": {"1": {}}}"#
        )
    );
}

#[test]
fn external_crates_that_are_no_object_are_kept() {
    for text in [r#"{"external_crates": [{"name": "a"}]}"#, r#"{"external_crates": null}"#, "[{}]"] {
        let mut json = document(text);
        inject_dummy_external_crate_paths(&mut json);
        assert_eq!(json.into_value(), parse(text));
    }
}

#[test]
fn format_version_is_an_unsigned_member_of_the_root() {
    assert_eq!(format_version(&document(r#"{"format_version": 53}"#)), 53);
    assert_eq!(
        format_version(&document(r#"{"format_version": 18446744073709551615}"#)),
        u64::MAX
    );
    for text in [
        r#"{"format_version": -1}"#,
        r#"{"format_version": 57.0}"#,
        r#"{"format_version": "57"}"#,
        r#"{"format_version": null}"#,
        r#"{"inner": {"format_version": 57}}"#,
        "{}",
        "[57]",
        "57",
    ] {
        assert_eq!(format_version(&document(text)), 0);
    }
}

const DOCUMENT: &str = r#"{"format_version": 55, "name": "n", "attrs": ["a"],
    "external_crates": {"1": {"name": "std"}}}"#;

#[test]
fn each_format_gets_what_it_lacks() {
    let old = parse(
        r#"{"format_version": 55, "name": "n", "attrs": [],
            "target": {"triple": "unknown", "target_features": []},
            "external_crates": {"1": {"name": "std", "path": ""}}}"#,
    );
    let v56 = parse(
        r#"{"format_version": 55, "name": "n", "attrs": [],
            "external_crates": {"1": {"name": "std", "path": ""}}}"#,
    );
    let v57 = parse(
        r#"{"format_version": 55, "name": "n", "attrs": [],
            "external_crates": {"1": {"name": "std"}}}"#,
    );
    assert_eq!(normalized(DOCUMENT, 0), old);
    assert_eq!(normalized(DOCUMENT, 55), old);
    assert_eq!(normalized(DOCUMENT, 56), v56);
    assert_eq!(normalized(DOCUMENT, 57), v57);
    assert_eq!(normalized(DOCUMENT, u64::MAX), v57);
}

#[test]
fn normalize_twice_is_normalize_once() {
    for version in [0, 55, 56, 57, 61] {
        let once = normalized(DOCUMENT, version);
        let mut json = Json::from_value(once.clone());
        assert_eq!(format_version(&json), 55);
        normalize_for_v61(&mut json, version);
        assert_eq!(json.into_value(), once);
    }
}

#[test]
fn current_document_is_kept() {
    let text = r#"{"format_version": 53, "attrs": [], "target": {"triple": "t"},
        "external_crates": {"1": {"path": "/p"}, "2": 5}}"#;
    assert_eq!(normalized(text, 53), parse(text));
}

#[test]
fn attrs_do_not_matter() {
    let with_strings = r#"{"format_version": 53, "index": {"0": {"attrs": ["a", "b"]}}}"#;
    let with_tags = r#"{"format_version": 53, "index": {"0": {"attrs": [{"Other": "a"}]}}}"#;
    assert_eq!(normalized(with_strings, 53), normalized(with_tags, 53));
}
