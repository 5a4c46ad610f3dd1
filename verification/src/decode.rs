//! From the compressed bytes to the crate that they describe.

use vstd::prelude::*;

use crate::error::{io_error_text, json_error_text, DocsError};
use crate::json::{Json, JsonView};
use crate::normalize::{format_version, format_version_of, normalize_for_v61, normalized};
use crate::value::value_view;

verus! {

/// The root type of rustdoc JSON. [`crate_says`] is what a crate says.
#[verifier::external_type_specification]
#[verifier::external_body]
pub struct ExCrate(rustdoc_types::Crate);

/// What a crate says: the JSON that its `Serialize` shows, which leaves out none
/// of its fields. Crates that say the same are equal, whatever hashers their hash
/// maps have.
pub uninterp spec fn crate_says(krate: rustdoc_types::Crate) -> JsonView;

/// The data that `bytes` is the zstd compression of, as
/// `zstd::stream::decode_all` gives it, or the text of the error that it gives.
pub uninterp spec fn zstd_decoded(bytes: Seq<u8>) -> Result<Seq<u8>, Seq<char>>;

/// What the JSON text `text` says, as `serde_json::from_slice` reads it, or the
/// text of the error that it gives.
pub uninterp spec fn json_parsed(text: Seq<u8>) -> Result<JsonView, Seq<char>>;

/// What the crate says that `serde_json::from_value` reads out of a document that
/// says `json`, or the text of the error that it gives.
pub uninterp spec fn crate_read(json: JsonView) -> Result<JsonView, Seq<char>>;

/// `zstd::stream::decode_all`. Its result is named [`zstd_decoded`]: the data, or
/// the text of the error. The memory that it needs is taken for granted, as it is
/// for every `Vec`.
#[verifier::external_body]
fn decompress(bytes: &[u8]) -> (result: Result<Vec<u8>, std::io::Error>)
    ensures
        match result {
            Ok(data) => zstd_decoded(bytes@) == Ok::<Seq<u8>, Seq<char>>(data@),
            Err(error) => zstd_decoded(bytes@) == Err::<Seq<u8>, Seq<char>>(io_error_text(error)),
        },
{
    zstd::stream::decode_all(bytes)
}

/// `serde_json::from_slice`, into a `serde_json::Value`. Its result is named
/// [`json_parsed`]: what the tree says, or the text of the error.
#[verifier::external_body]
fn parse_json(text: &[u8]) -> (result: Result<serde_json::Value, serde_json::Error>)
    ensures
        match result {
            Ok(value) => json_parsed(text@) == Ok::<JsonView, Seq<char>>(value_view(value)),
            Err(error) => json_parsed(text@) == Err::<JsonView, Seq<char>>(json_error_text(error)),
        },
{
    serde_json::from_slice(text)
}

/// `serde_json::from_value`, into a `rustdoc_types::Crate`. Its result is named
/// [`crate_read`]: what the crate says, or the text of the error. Both are up to
/// what the tree says alone.
#[verifier::external_body]
fn read_crate(value: serde_json::Value) -> (result: Result<rustdoc_types::Crate, serde_json::Error>)
    ensures
        match result {
            Ok(krate) => crate_read(value_view(value)) == Ok::<JsonView, Seq<char>>(
                crate_says(krate),
            ),
            Err(error) => crate_read(value_view(value)) == Err::<JsonView, Seq<char>>(
                json_error_text(error),
            ),
        },
{
    serde_json::from_value(value)
}

/// `result` is what comes of parsing the JSON text `text`: the document, or the
/// error of the parser.
pub open spec fn is_parse_of(text: Seq<u8>, result: Result<Json, DocsError>) -> bool {
    match json_parsed(text) {
        Ok(json) => result matches Ok(document) && document@ == json,
        Err(message) => result matches Err(DocsError::Json(error)) && json_error_text(error)
            == message,
    }
}

/// `result` is what comes of parsing the JSON text that `bytes` is the zstd
/// compression of: the document, the error of the parser, or the error of zstd.
pub open spec fn is_parse_of_raw(bytes: Seq<u8>, result: Result<Json, DocsError>) -> bool {
    match zstd_decoded(bytes) {
        Ok(text) => is_parse_of(text, result),
        Err(message) => result matches Err(DocsError::Zstd(error)) && io_error_text(error)
            == message,
    }
}

/// `result` is what comes of reading a crate out of a document that says `json`,
/// as it stands: the crate, or the error of the reader.
pub open spec fn is_reading_of(
    json: JsonView,
    result: Result<rustdoc_types::Crate, DocsError>,
) -> bool {
    match crate_read(json) {
        Ok(says) => result matches Ok(krate) && crate_says(krate) == says,
        Err(message) => result matches Err(DocsError::Json(error)) && json_error_text(error)
            == message,
    }
}

/// `result` is what comes of decoding a document that says `json`: of reading a
/// crate out of it once it is normalized by its own format version.
pub open spec fn is_decoding_of(
    json: JsonView,
    result: Result<rustdoc_types::Crate, DocsError>,
) -> bool {
    is_reading_of(normalized(json, format_version_of(json)), result)
}

/// `result` is what comes of decoding `bytes`: of decompressing them, parsing the
/// text and decoding the document. The first of these that fails gives the error.
pub open spec fn is_decoding_of_raw(
    bytes: Seq<u8>,
    result: Result<rustdoc_types::Crate, DocsError>,
) -> bool {
    match zstd_decoded(bytes) {
        Ok(text) => match json_parsed(text) {
            Ok(json) => is_decoding_of(json, result),
            Err(message) => result matches Err(DocsError::Json(error)) && json_error_text(error)
                == message,
        },
        Err(message) => result matches Err(DocsError::Zstd(error)) && io_error_text(error)
            == message,
    }
}

/// Parses a JSON text into a document.
pub fn parse_document(text: &[u8]) -> (result: Result<Json, DocsError>)
    ensures
        is_parse_of(text@, result),
{
    match parse_json(text) {
        Ok(value) => Ok(Json::from_value(value)),
        Err(error) => Err(DocsError::Json(error)),
    }
}

/// Parses zstd-compressed JSON into a document, which is left as it was written.
pub fn parse_raw_bytes(bytes: &[u8]) -> (result: Result<Json, DocsError>)
    ensures
        is_parse_of_raw(bytes@, result),
{
    match decompress(bytes) {
        Ok(text) => parse_document(text.as_slice()),
        Err(error) => Err(DocsError::Zstd(error)),
    }
}

/// Reads the crate that a document describes, whatever its format version.
pub fn decode_document(document: Json) -> (result: Result<rustdoc_types::Crate, DocsError>)
    ensures
        is_decoding_of(document@, result),
{
    let mut document = document;
    let version = format_version(&document);
    normalize_for_v61(&mut document, version);
    match read_crate(document.into_value()) {
        Ok(krate) => Ok(krate),
        Err(error) => Err(DocsError::Json(error)),
    }
}

/// Decodes zstd-compressed rustdoc JSON, as docs.rs serves it: decompresses it,
/// normalizes it across format versions, and reads the crate out of it.
///
/// The name and the version say whose JSON it is. They have no part in the
/// result.
pub fn decode_raw_bytes(bytes: &[u8], _crate_name: &str, _version: &str) -> (result: Result<
    rustdoc_types::Crate,
    DocsError,
>)
    ensures
        is_decoding_of_raw(bytes@, result),
{
    match parse_raw_bytes(bytes) {
        Ok(document) => decode_document(document),
        Err(error) => Err(error),
    }
}

} // verus!
