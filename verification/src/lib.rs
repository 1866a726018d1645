//! Columnar flattening of JSON documents.

pub mod balance;
pub mod codec;
pub mod decoding;
pub mod flatten;
pub mod flattened;
pub mod format;
pub mod json_text;
pub mod laws;
pub mod reconstruct;
pub mod tag;
pub mod value;
