use docs_fetcher::decode::decode_raw_bytes;
use docs_fetcher::json::Json;
use docs_fetcher::normalize;
use serde_json::Value;

fn object(members: Vec<(&str, Value)>) -> Value {
    Value::Object(members.into_iter().map(|(k, v)| (k.to_string(), v)).collect())
}

fn array(items: Vec<Value>) -> Value {
    Value::Array(items)
}

fn text(s: &str) -> Value {
    Value::String(s.to_string())
}

fn number(n: u64) -> Value {
    Value::from(n)
}

fn strip_attrs(value: &mut Value) {
    let mut document = Json::from_value(value.take());
    normalize::strip_attrs(&mut document);
    *value = document.into_value();
}

fn inject_dummy_target(value: &mut Value) {
    let mut document = Json::from_value(value.take());
    normalize::inject_dummy_target(&mut document);
    *value = document.into_value();
}

fn inject_dummy_external_crate_paths(value: &mut Value) {
    let mut document = Json::from_value(value.take());
    normalize::inject_dummy_external_crate_paths(&mut document);
    *value = document.into_value();
}

fn normalize_for_v61(value: &mut Value, format_version: u64) {
    let mut document = Json::from_value(value.take());
    normalize::normalize_for_v61(&mut document, format_version);
    *value = document.into_value();
}

// ========== strip_attrs ==========

#[test]
fn strip_attrs_empties_top_level_array() {
    let mut value = object(vec![(
        "attrs",
        array(vec![text("#[derive(Debug)]"), text("#[allow(unused)]")]),
    )]);
    strip_attrs(&mut value);
    assert_eq!(value["attrs"], array(vec![]));
}

#[test]
fn strip_attrs_empties_nested_in_items() {
    // The structure of rustdoc JSON: items inside the index have attrs
    let mut value = object(vec![(
        "index",
        object(vec![
            (
                "0:3",
                object(vec![
                    ("name", text("MyStruct")),
                    ("attrs", array(vec![text("#[derive(Debug)]")])),
                    ("inner", object(vec![("kind", text("struct"))])),
                ]),
            ),
            (
                "0:5",
                object(vec![
                    ("name", text("my_fn")),
                    ("attrs", array(vec![text("#[inline]")])),
                    ("inner", object(vec![("kind", text("function"))])),
                ]),
            ),
        ]),
    )]);
    strip_attrs(&mut value);
    assert_eq!(value["index"]["0:3"]["attrs"], array(vec![]));
    assert_eq!(value["index"]["0:5"]["attrs"], array(vec![]));
}

#[test]
fn strip_attrs_handles_format_54_tagged_enum_attrs() {
    // Format 54 and later tag their attrs, in arrays still
    let mut value = object(vec![(
        "attrs",
        array(vec![
            object(vec![("Derive", text("Debug"))]),
            object(vec![("Other", object(vec![("value", text("#[serde(rename)]"))]))]),
        ]),
    )]);
    strip_attrs(&mut value);
    assert_eq!(value["attrs"], array(vec![]));
}

#[test]
fn strip_attrs_leaves_non_array_attrs_alone() {
    let mut value = object(vec![("attrs", text("not-an-array"))]);
    strip_attrs(&mut value);
    assert_eq!(value["attrs"], text("not-an-array"));
}

#[test]
fn strip_attrs_recurses_into_arrays() {
    let mut value = array(vec![
        object(vec![("attrs", array(vec![text("a")]))]),
        object(vec![("attrs", array(vec![text("b"), text("c")]))]),
    ]);
    strip_attrs(&mut value);
    assert_eq!(value[0]["attrs"], array(vec![]));
    assert_eq!(value[1]["attrs"], array(vec![]));
}

#[test]
fn strip_attrs_no_attrs_key_is_noop() {
    let mut value = object(vec![("name", text("foo")), ("inner", object(vec![]))]);
    let original = value.clone();
    strip_attrs(&mut value);
    assert_eq!(value, original);
}

// ========== inject_dummy_external_crate_paths ==========

#[test]
fn inject_dummy_external_crate_paths_adds_missing_path_field() {
    let mut value = object(vec![(
        "external_crates",
        object(vec![
            ("0", object(vec![("name", text("std"))])),
            (
                "1",
                object(vec![
                    ("name", text("core")),
                    ("html_root_url", text("https://docs.rs/core")),
                ]),
            ),
        ]),
    )]);
    inject_dummy_external_crate_paths(&mut value);

    let crate_0 = &value["external_crates"]["0"];
    assert_eq!(crate_0["name"], text("std"));
    assert_eq!(crate_0["path"], text(""));

    let crate_1 = &value["external_crates"]["1"];
    assert_eq!(crate_1["name"], text("core"));
    assert_eq!(crate_1["path"], text(""));
    assert_eq!(crate_1["html_root_url"], text("https://docs.rs/core"));
}

#[test]
fn inject_dummy_external_crate_paths_noop_when_present() {
    let mut value = object(vec![(
        "external_crates",
        object(vec![(
            "0",
            object(vec![("name", text("serde")), ("path", text("/some/path"))]),
        )]),
    )]);
    let original = value.clone();
    inject_dummy_external_crate_paths(&mut value);
    assert_eq!(value, original);
}

#[test]
fn inject_dummy_external_crate_paths_noop_when_no_external_crates() {
    let mut value = object(vec![("index", object(vec![])), ("paths", object(vec![]))]);
    let original = value.clone();
    inject_dummy_external_crate_paths(&mut value);
    assert_eq!(value, original);
}

// ========== inject_dummy_target ==========

#[test]
fn inject_dummy_target_adds_when_missing() {
    let mut value = object(vec![("root", number(0))]);
    inject_dummy_target(&mut value);
    assert!(value.get("target").is_some());
    assert_eq!(value["target"]["triple"], text("unknown"));
    assert_eq!(value["target"]["target_features"], array(vec![]));
}

#[test]
fn inject_dummy_target_noop_when_present() {
    let mut value = object(vec![(
        "target",
        object(vec![
            ("triple", text("x86_64-unknown-linux-gnu")),
            ("target_features", array(vec![])),
        ]),
    )]);
    let original = value.clone();
    inject_dummy_target(&mut value);
    assert_eq!(value, original);
}

// ========== normalize_for_v61 ==========

#[test]
fn normalize_v53_strips_attrs_and_injects_target() {
    let mut value = object(vec![
        ("format_version", number(53)),
        (
            "index",
            object(vec![(
                "0",
                object(vec![
                    ("attrs", array(vec![text("#[derive(Debug)]")])),
                    ("name", text("Foo")),
                ]),
            )]),
        ),
        (
            "external_crates",
            object(vec![("1", object(vec![("name", text("std"))]))]),
        ),
    ]);
    normalize_for_v61(&mut value, 53);

    assert_eq!(value["index"]["0"]["attrs"], array(vec![]));
    assert_eq!(value["external_crates"]["1"]["name"], text("std"));
    assert_eq!(value["target"]["triple"], text("unknown"));
}

#[test]
fn normalize_v56_strips_attrs_only() {
    let mut value = object(vec![
        ("format_version", number(56)),
        (
            "index",
            object(vec![(
                "0:1",
                object(vec![
                    ("attrs", array(vec![object(vec![("Other", text("#[cfg(test)]"))])])),
                    ("name", text("Bar")),
                ]),
            )]),
        ),
        (
            "external_crates",
            object(vec![("1", object(vec![("name", text("core"))]))]),
        ),
    ]);
    normalize_for_v61(&mut value, 56);

    assert_eq!(value["index"]["0:1"]["attrs"], array(vec![]));
    assert_eq!(value["external_crates"]["1"]["name"], text("core"));
}

#[test]
fn normalize_v57_keeps_external_crate_paths() {
    let mut value = object(vec![
        ("format_version", number(57)),
        (
            "index",
            object(vec![(
                "0:1",
                object(vec![
                    ("attrs", array(vec![object(vec![("MacroExport", Value::Null)])])),
                    ("name", text("Baz")),
                ]),
            )]),
        ),
        (
            "external_crates",
            object(vec![
                (
                    "1",
                    object(vec![("name", text("std")), ("path", text("/rustc/library/std"))]),
                ),
                (
                    "2",
                    object(vec![
                        ("name", text("alloc")),
                        ("path", text("/rustc/library/alloc")),
                    ]),
                ),
            ]),
        ),
    ]);
    normalize_for_v61(&mut value, 57);

    assert_eq!(value["index"]["0:1"]["attrs"], array(vec![]));
    assert_eq!(
        value["external_crates"]["1"]["path"],
        text("/rustc/library/std")
    );
    assert_eq!(
        value["external_crates"]["2"]["path"],
        text("/rustc/library/alloc")
    );
}

#[test]
fn normalize_v58_keeps_external_crate_paths() {
    let mut value = object(vec![
        ("format_version", number(58)),
        (
            "external_crates",
            object(vec![(
                "0",
                object(vec![("name", text("foo")), ("path", text("/some/path"))]),
            )]),
        ),
    ]);
    normalize_for_v61(&mut value, 58);
    assert_eq!(value["external_crates"]["0"]["path"], text("/some/path"));
}

// ========== Reading crates ==========

fn item(id: u64, name: &str, docs: &str, inner: Value) -> Value {
    object(vec![
        ("id", number(id)),
        ("crate_id", number(0)),
        ("name", text(name)),
        ("span", Value::Null),
        ("visibility", text("public")),
        ("docs", text(docs)),
        ("links", object(vec![])),
        ("attrs", array(vec![])),
        ("deprecation", Value::Null),
        ("inner", inner),
    ])
}

/// A minimal rustdoc JSON document of a crate with two items. From format 56 on
/// it has a `target`, as such documents do.
fn minimal_rustdoc_json(format_version: u64) -> Value {
    let mut value = object(vec![
        ("root", number(0)),
        ("crate_version", text("1.0.0")),
        ("includes_private", Value::Bool(false)),
        (
            "index",
            object(vec![
                (
                    "0",
                    item(
                        0,
                        "test_crate",
                        "A test crate",
                        object(vec![(
                            "module",
                            object(vec![
                                ("is_crate", Value::Bool(true)),
                                ("items", array(vec![number(1)])),
                                ("is_stripped", Value::Bool(false)),
                            ]),
                        )]),
                    ),
                ),
                (
                    "1",
                    item(
                        1,
                        "MyStruct",
                        "A test struct",
                        object(vec![(
                            "struct",
                            object(vec![
                                ("kind", text("unit")),
                                (
                                    "generics",
                                    object(vec![
                                        ("params", array(vec![])),
                                        ("where_predicates", array(vec![])),
                                    ]),
                                ),
                                ("impls", array(vec![])),
                            ]),
                        )]),
                    ),
                ),
            ]),
        ),
        (
            "paths",
            object(vec![
                (
                    "0",
                    object(vec![
                        ("crate_id", number(0)),
                        ("path", array(vec![text("test_crate")])),
                        ("kind", text("module")),
                    ]),
                ),
                (
                    "1",
                    object(vec![
                        ("crate_id", number(0)),
                        ("path", array(vec![text("test_crate"), text("MyStruct")])),
                        ("kind", text("struct")),
                    ]),
                ),
            ]),
        ),
        (
            "external_crates",
            object(vec![(
                "2",
                object(vec![("name", text("std")), ("html_root_url", Value::Null)]),
            )]),
        ),
        ("format_version", number(format_version)),
    ]);

    if format_version >= 56 {
        value.as_object_mut().unwrap().insert(
            "target".to_string(),
            object(vec![
                ("triple", text("x86_64-unknown-linux-gnu")),
                ("target_features", array(vec![])),
            ]),
        );
    }

    value
}

#[test]
fn roundtrip_v56_deserializes_successfully() {
    let mut value = minimal_rustdoc_json(56);
    normalize_for_v61(&mut value, 56);
    let krate: rustdoc_types::Crate =
        serde_json::from_value(value).expect("v56 JSON should deserialize after normalization");
    assert_eq!(krate.index.len(), 2);
}

#[test]
fn roundtrip_v53_with_string_attrs_deserializes() {
    let mut value = minimal_rustdoc_json(53);
    value["index"]["1"]["attrs"] =
        array(vec![text("#[derive(Debug)]"), text("#[allow(unused)]")]);

    normalize_for_v61(&mut value, 53);
    let krate: rustdoc_types::Crate = serde_json::from_value(value)
        .expect("v53 JSON with string attrs should deserialize after normalization");
    assert_eq!(krate.index.len(), 2);
}

#[test]
fn roundtrip_v57_with_external_crate_path_deserializes() {
    let mut value = minimal_rustdoc_json(57);
    value["external_crates"]["2"]
        .as_object_mut()
        .unwrap()
        .insert("path".to_string(), text("/rustc/library/std"));

    normalize_for_v61(&mut value, 57);
    let krate: rustdoc_types::Crate = serde_json::from_value(value)
        .expect("v57 JSON with ExternalCrate.path should deserialize after normalization");
    assert_eq!(krate.index.len(), 2);
    assert!(krate.external_crates.values().any(|c| c.name == "std"));
}

#[test]
fn roundtrip_v53_without_normalization_fails() {
    let mut value = minimal_rustdoc_json(53);
    value["index"]["1"]["attrs"] = array(vec![text("#[derive(Debug)]")]);

    let result: Result<rustdoc_types::Crate, _> = serde_json::from_value(value);
    assert!(
        result.is_err(),
        "v53 JSON should fail without normalization (missing target, string attrs)"
    );
}

#[test]
fn roundtrip_v57_extra_fields_ignored_by_serde() {
    let mut value = minimal_rustdoc_json(57);
    value["external_crates"]["2"]
        .as_object_mut()
        .unwrap()
        .insert("path".to_string(), text("/rustc/library/std"));

    let result: Result<rustdoc_types::Crate, _> = serde_json::from_value(value);
    assert!(result.is_ok(), "serde ignores unknown fields by default");
}

// ========== decode_raw_bytes ==========

fn zstd_compress_json(value: &Value) -> Vec<u8> {
    let json_bytes = serde_json::to_vec(value).unwrap();
    zstd::stream::encode_all(json_bytes.as_slice(), 3).unwrap()
}

#[test]
fn decode_raw_bytes_roundtrip_v56() {
    let value = minimal_rustdoc_json(56);
    let compressed = zstd_compress_json(&value);

    let krate = decode_raw_bytes(&compressed, "test_crate", "1.0.0")
        .expect("should decode valid zstd-compressed rustdoc JSON");
    assert_eq!(krate.index.len(), 2);
}

#[test]
fn decode_raw_bytes_normalizes_v53() {
    let mut value = minimal_rustdoc_json(53);
    value["index"]["1"]["attrs"] = array(vec![text("#[derive(Debug)]")]);
    let compressed = zstd_compress_json(&value);

    let krate = decode_raw_bytes(&compressed, "test_crate", "1.0.0")
        .expect("should normalize and decode v53 JSON");
    assert_eq!(krate.index.len(), 2);
}

#[test]
fn decode_raw_bytes_rejects_invalid_zstd() {
    let result = decode_raw_bytes(b"not valid zstd", "test_crate", "1.0.0");
    assert!(result.is_err());
}

#[test]
fn decode_raw_bytes_rejects_invalid_json() {
    let compressed = zstd::stream::encode_all(b"not json".as_slice(), 3).unwrap();
    let result = decode_raw_bytes(&compressed, "test_crate", "1.0.0");
    assert!(result.is_err());
}
