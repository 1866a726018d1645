//! What the storage formats have in common: the trait they implement, the
//! columns they are stored in and the errors they report.

use crate::flattened::texts;
use crate::reconstruct::CodecError;
use crate::value::{items_model, JsonTree, JsonValue};
use vstd::prelude::*;

verus! {

/// Why a batch of documents could not be encoded.
#[derive(Clone, Copy, Debug, PartialEq, Eq, Structural)]
pub enum EncodeError {
    /// A document is not UTF-8 text.
    InvalidUtf8,
    /// A document is not JSON text.
    Syntax,
    /// A number of a document has no finite 64-bit float.
    NumberOutOfRange,
}

/// Why a format could not be laid out in columns.
#[derive(Clone, Copy, Debug, PartialEq, Eq, Structural)]
pub enum FlushError {
    /// A stored document cannot be read back.
    Corrupt,
    /// A stored document lacks a field that has a column of its own, or
    /// holds there a value of another kind.
    MissingField,
}

/// Why columns could not be loaded into a format.
#[derive(Clone, Copy, Debug, PartialEq, Eq, Structural)]
pub enum LoadError {
    /// The columns are those of another format.
    WrongColumns,
    /// A byte of the tag column is the code of no tag.
    UnknownTag,
    /// The format cannot be loaded from its columns.
    Unsupported,
}

/// The three list columns of flattened documents: row by row the tags by
/// their codes, the strings and the numbers.
#[derive(Debug, PartialEq, Eq)]
pub struct FlatColumns {
    pub tags: Vec<Vec<u8>>,
    pub strings: Vec<Vec<String>>,
    pub numbers: Vec<Vec<u64>>,
}

/// The columns of documents with a known schema: of each document its
/// name, its timestamp and the bit pattern of its event attribute.
#[derive(Debug, PartialEq, Eq)]
pub struct VariantColumns {
    pub names: Vec<String>,
    pub timestamps: Vec<String>,
    pub event_attributes: Vec<u64>,
}

/// The columns in which a format is stored.
#[derive(Debug, PartialEq, Eq)]
pub enum Columns {
    /// One column of binary documents.
    Binary(Vec<Vec<u8>>),
    /// One column of texts.
    Text(Vec<String>),
    /// Three list columns of flattened documents.
    Flat(FlatColumns),
    /// One column for each field of a known schema.
    Variant(VariantColumns),
}

/// What a format hands out to be rendered as JSON text.
#[derive(Debug, PartialEq, Eq)]
pub enum Decoded {
    /// Binary documents, for the binary format's own renderer.
    Binary(Vec<Vec<u8>>),
    /// The JSON texts themselves.
    Text(Vec<String>),
    /// Documents, for a JSON serializer.
    Documents(Vec<JsonValue>),
}

/// The byte sequences that `rows` hold.
pub open spec fn byte_rows(rows: Seq<Vec<u8>>) -> Seq<Seq<u8>> {
    rows.map_values(|r: Vec<u8>| r@)
}

/// The byte sequences that the slices of `rows` hold.
pub open spec fn slice_rows(rows: Seq<&[u8]>) -> Seq<Seq<u8>> {
    rows.map_values(|r: &[u8]| r@)
}

/// The texts that `rows` hold, row by row.
pub open spec fn text_rows(rows: Seq<Vec<String>>) -> Seq<Seq<Seq<char>>> {
    rows.map_values(|r: Vec<String>| texts(r@))
}

/// The numbers that `rows` hold, row by row.
pub open spec fn number_rows(rows: Seq<Vec<u64>>) -> Seq<Seq<u64>> {
    rows.map_values(|r: Vec<u64>| r@)
}

/// The mathematical model of `Columns`.
pub enum ColumnsModel {
    Binary(Seq<Seq<u8>>),
    Text(Seq<Seq<char>>),
    Flat { tags: Seq<Seq<u8>>, strings: Seq<Seq<Seq<char>>>, numbers: Seq<Seq<u64>> },
    Variant { names: Seq<Seq<char>>, timestamps: Seq<Seq<char>>, event_attributes: Seq<u64> },
}

impl View for Columns {
    type V = ColumnsModel;

    open spec fn view(&self) -> ColumnsModel {
        match self {
            Columns::Binary(rows) => ColumnsModel::Binary(byte_rows(rows@)),
            Columns::Text(rows) => ColumnsModel::Text(texts(rows@)),
            Columns::Flat(c) => ColumnsModel::Flat {
                tags: byte_rows(c.tags@),
                strings: text_rows(c.strings@),
                numbers: number_rows(c.numbers@),
            },
            Columns::Variant(c) => ColumnsModel::Variant {
                names: texts(c.names@),
                timestamps: texts(c.timestamps@),
                event_attributes: c.event_attributes@,
            },
        }
    }
}

/// The mathematical model of `Decoded`.
pub enum DecodedModel {
    Binary(Seq<Seq<u8>>),
    Text(Seq<Seq<char>>),
    Documents(Seq<JsonTree>),
}

impl View for Decoded {
    type V = DecodedModel;

    open spec fn view(&self) -> DecodedModel {
        match self {
            Decoded::Binary(rows) => DecodedModel::Binary(byte_rows(rows@)),
            Decoded::Text(rows) => DecodedModel::Text(texts(rows@)),
            Decoded::Documents(values) => DecodedModel::Documents(items_model(values@)),
        }
    }
}

/// A storage format for a batch of JSON documents.
pub trait JsonCodec: Sized {
    /// Takes a batch of documents into the format's representation.
    fn encode(&mut self, json_strs: &[&[u8]]) -> Result<(), EncodeError>;

    /// Hands the stored documents out to be rendered as JSON text.
    fn decode(&self) -> Result<Decoded, CodecError>;

    /// Lays the stored documents out in the format's columns.
    fn flush(&self) -> Result<Columns, FlushError>;

    /// Takes the stored documents from the format's columns.
    fn load(&mut self, columns: Columns) -> Result<(), LoadError>;

    /// The name of the format.
    fn name() -> String;
}

/// A copy of `src`.
pub fn copy_bytes(src: &Vec<u8>) -> (r: Vec<u8>)
    ensures
        r@ == src@,
{
    let mut out: Vec<u8> = Vec::new();
    let mut i: usize = 0;
    while i < src.len()
        invariant
            i <= src.len(),
            out@ == src@.take(i as int),
        decreases src.len() - i,
    {
        out.push(src[i]);
        assert(src@.take(i + 1) =~= src@.take(i as int).push(src@[i as int]));
        i += 1;
    }
    assert(src@.take(src.len() as int) =~= src@);
    out
}

/// A copy of `src`.
pub fn copy_numbers(src: &Vec<u64>) -> (r: Vec<u64>)
    ensures
        r@ == src@,
{
    let mut out: Vec<u64> = Vec::new();
    let mut i: usize = 0;
    while i < src.len()
        invariant
            i <= src.len(),
            out@ == src@.take(i as int),
        decreases src.len() - i,
    {
        out.push(src[i]);
        assert(src@.take(i + 1) =~= src@.take(i as int).push(src@[i as int]));
        i += 1;
    }
    assert(src@.take(src.len() as int) =~= src@);
    out
}

/// A copy of `src`, text by text.
pub fn copy_texts(src: &Vec<String>) -> (r: Vec<String>)
    ensures
        texts(r@) == texts(src@),
{
    let mut out: Vec<String> = Vec::new();
    let mut i: usize = 0;
    while i < src.len()
        invariant
            i <= src.len(),
            texts(out@) == texts(src@).take(i as int),
        decreases src.len() - i,
    {
        let s = src[i].clone();
        assert(texts(out@.push(s)) =~= texts(out@).push(s@));
        assert(texts(src@).take(i + 1) =~= texts(src@).take(i as int).push(src@[i as int]@));
        out.push(s);
        i += 1;
    }
    assert(texts(src@).take(src.len() as int) =~= texts(src@));
    out
}

/// A copy of `src`, row by row.
pub fn copy_byte_rows(src: &Vec<Vec<u8>>) -> (r: Vec<Vec<u8>>)
    ensures
        byte_rows(r@) == byte_rows(src@),
{
    let mut out: Vec<Vec<u8>> = Vec::new();
    let mut i: usize = 0;
    while i < src.len()
        invariant
            i <= src.len(),
            byte_rows(out@) == byte_rows(src@).take(i as int),
        decreases src.len() - i,
    {
        let row = copy_bytes(&src[i]);
        assert(byte_rows(out@.push(row)) =~= byte_rows(out@).push(row@));
        assert(byte_rows(src@).take(i + 1) =~= byte_rows(src@).take(i as int).push(
            src@[i as int]@,
        ));
        out.push(row);
        i += 1;
    }
    assert(byte_rows(src@).take(src.len() as int) =~= byte_rows(src@));
    out
}

} // verus!
