//! What can go wrong between a request and a decoded crate.

use vstd::prelude::*;

verus! {

/// The error of `zstd`, carried as it came. [`io_error_text`] is what it says.
#[verifier::external_type_specification]
#[verifier::external_body]
pub struct ExIoError(std::io::Error);

/// The error of `serde_json`, carried as it came. [`json_error_text`] is what it
/// says.
#[verifier::external_type_specification]
#[verifier::external_body]
pub struct ExJsonError(serde_json::Error);

/// What the error says: the text that its `Display` shows.
pub uninterp spec fn io_error_text(error: std::io::Error) -> Seq<char>;

/// What the error says: the text that its `Display` shows.
pub uninterp spec fn json_error_text(error: serde_json::Error) -> Seq<char>;

/// Why a request or a decoding gave nothing. An error of another crate is carried
/// as that crate gave it.
#[derive(Debug)]
pub enum DocsError {
    /// docs.rs has no rustdoc JSON for this version of this crate.
    JsonNotAvailable { crate_name: String, version: String },
    /// The bytes are not zstd-compressed data.
    Zstd(std::io::Error),
    /// The decompressed bytes are not JSON, or not the JSON of a crate.
    Json(serde_json::Error),
}

} // verus!
