//! Rustdoc JSON from docs.rs: where to ask for it, what to make of the answer,
//! and how to read documents of older formats with the types of the current one.

pub mod decode;
pub mod error;
pub mod fetch;
pub mod json;
pub mod laws;
pub mod meaning;
pub mod normalize;
pub mod value;
