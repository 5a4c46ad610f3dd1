# docs_fetcher

Reads the rustdoc JSON that docs.rs serves, in whatever format version it was
written, with the types of `rustdoc-types` 0.61.

- `src/fetch.rs`: the URL to ask, and what to do with the status of the answer
- `src/decode.rs`: from compressed bytes to a `rustdoc_types::Crate`
- `src/normalize.rs`: documents of older formats in the form of the current one
- `src/json.rs`, `src/value.rs`: the JSON tree, its model, and the bridge to
  `serde_json`
- `src/laws.rs`: what holds of the library as a whole
- `src/error.rs`: the errors
- `app/`: the download itself, with `reqwest`, and the logging

The library is verified with Verus. What it takes from `zstd` and `serde_json`
without proof is stated in `src/decode.rs`, `src/value.rs` and
`src/error.rs`.
