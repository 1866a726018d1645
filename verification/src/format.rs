//! The storage formats.

pub mod formats;
pub mod jsonb;
pub mod jsonc;
pub mod plain_json;
pub mod variant;
