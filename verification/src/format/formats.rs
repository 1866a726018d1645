//! The storage formats under one type, chosen by name.

use crate::codec::{Columns, Decoded, EncodeError, FlushError, JsonCodec, LoadError};
use crate::format::jsonb::JsonbVector;
use crate::format::jsonc::{streams_decoded, texts_encoded, JsoncVector};
use crate::format::plain_json::PlainJsonVector;
use crate::format::variant::VariantVector;
use crate::reconstruct::CodecError;
use vstd::prelude::*;
use vstd::string::StringExecFns;

verus! {

/// A batch of documents in one of the storage formats.
#[derive(Debug, PartialEq, Eq)]
pub enum Format {
    Jsonb(JsonbVector),
    PlainJson(PlainJsonVector),
    Jsonc(JsoncVector),
    Variant(VariantVector),
}

impl Format {
    /// `name` is the name of a format.
    pub open spec fn known(name: Seq<char>) -> bool {
        name == "jsonb"@ || name == "plain_json"@ || name == "jsonc"@ || name == "variant"@
    }

    /// An empty batch in the format that `name` names.
    pub fn get_format(name: &str) -> (r: Format)
        requires
            Self::known(name@),
        ensures
            match r {
                Format::Jsonb(v) => name@ == "jsonb"@ && v@.len() == 0,
                Format::PlainJson(v) => name@ == "plain_json"@ && v@.len() == 0,
                Format::Jsonc(v) => name@ == "jsonc"@ && v@.len() == 0,
                Format::Variant(v) => name@ == "variant"@ && v@.len() == 0,
            },
    {
        let wanted = String::from_str(name);
        if wanted == String::from_str("jsonb") {
            Format::Jsonb(JsonbVector::new())
        } else if wanted == String::from_str("plain_json") {
            Format::PlainJson(PlainJsonVector::new())
        } else if wanted == String::from_str("jsonc") {
            Format::Jsonc(JsoncVector::new())
        } else {
            Format::Variant(VariantVector::new())
        }
    }

    /// Takes a batch of documents into the format's representation, as
    /// the format of `self` does it.
    pub fn encode(&mut self, json_strs: &[&[u8]]) -> (r: Result<(), EncodeError>)
        ensures
            match (*old(self), *final(self)) {
                (Format::Jsonb(a), Format::Jsonb(b)) => JsonbVector::encoded(
                    a@,
                    b@,
                    json_strs@,
                    r,
                ),
                (Format::PlainJson(a), Format::PlainJson(b)) => PlainJsonVector::encoded(
                    a@,
                    b@,
                    json_strs@,
                    r,
                ),
                (Format::Jsonc(a), Format::Jsonc(b)) => texts_encoded(a@, b@, json_strs@, r),
                (Format::Variant(a), Format::Variant(b)) => texts_encoded(a@, b@, json_strs@, r),
                _ => false,
            },
    {
        match self {
            Format::Jsonb(jsonb) => jsonb.encode(json_strs),
            Format::PlainJson(plain_json) => plain_json.encode(json_strs),
            Format::Jsonc(jsonc) => jsonc.encode(json_strs),
            Format::Variant(variant) => variant.encode(json_strs),
        }
    }

    /// Hands the stored documents out to be rendered as JSON text, as the
    /// format of `self` does it.
    pub fn decode(&self) -> (r: Result<Decoded, CodecError>)
        ensures
            match *self {
                Format::Jsonb(v) => JsonbVector::decoded(v@, r),
                Format::PlainJson(v) => PlainJsonVector::decoded(v@, r),
                Format::Jsonc(v) => streams_decoded(v@, r),
                Format::Variant(v) => streams_decoded(v@, r),
            },
    {
        match self {
            Format::Jsonb(jsonb) => jsonb.decode(),
            Format::PlainJson(plain_json) => plain_json.decode(),
            Format::Jsonc(jsonc) => jsonc.decode(),
            Format::Variant(variant) => variant.decode(),
        }
    }

    /// Lays the stored documents out in columns, as the format of `self`
    /// does it.
    pub fn flush(&self) -> (r: Result<Columns, FlushError>)
        ensures
            match *self {
                Format::Jsonb(v) => JsonbVector::flushed(v@, r),
                Format::PlainJson(v) => PlainJsonVector::flushed(v@, r),
                Format::Jsonc(v) => JsoncVector::flushed(v@, r),
                Format::Variant(v) => VariantVector::flushed(v@, r),
            },
    {
        match self {
            Format::Jsonb(jsonb) => jsonb.flush(),
            Format::PlainJson(plain_json) => plain_json.flush(),
            Format::Jsonc(jsonc) => jsonc.flush(),
            Format::Variant(variant) => variant.flush(),
        }
    }

    /// Takes the stored documents from columns, as the format of `self`
    /// does it.
    pub fn load(&mut self, columns: Columns) -> (r: Result<(), LoadError>)
        ensures
            match (*old(self), *final(self)) {
                (Format::Jsonb(a), Format::Jsonb(b)) => JsonbVector::loaded(a@, b@, columns, r),
                (Format::PlainJson(a), Format::PlainJson(b)) => PlainJsonVector::loaded(
                    a@,
                    b@,
                    columns,
                    r,
                ),
                (Format::Jsonc(a), Format::Jsonc(b)) => JsoncVector::loaded(a@, b@, columns, r),
                (Format::Variant(a), Format::Variant(b)) => VariantVector::loaded(
                    a@,
                    b@,
                    columns,
                    r,
                ),
                _ => false,
            },
    {
        match self {
            Format::Jsonb(jsonb) => jsonb.load(columns),
            Format::PlainJson(plain_json) => plain_json.load(columns),
            Format::Jsonc(jsonc) => jsonc.load(columns),
            Format::Variant(variant) => variant.load(columns),
        }
    }
}

} // verus!
