//! The columnar format: every document is stored flattened.

use crate::codec::{
    byte_rows, copy_numbers, copy_texts, number_rows, text_rows, Columns, ColumnsModel, Decoded,
    DecodedModel, EncodeError, FlatColumns, FlushError, JsonCodec, LoadError,
};
use crate::decoding::{leading, reads_as};
use crate::flatten::flatten;
use crate::flattened::{texts, Flattened, Streams};
use crate::json_text::{lowered, parse_document, parsed, ParseError};
use crate::laws::lemma_round_trip;
use crate::reconstruct::CodecError;
use crate::tag::Tag;
use crate::value::{items_model, JsonTree, JsonValue};
use vstd::prelude::*;
use vstd::string::StringExecFns;

verus! {

/// The document that a JSON text stands for: `Syntax` where the parser
/// refuses the text, `NumberOutOfRange` where one of its numbers has no
/// finite 64-bit float.
pub open spec fn text_document(text: Seq<u8>) -> Result<JsonTree, EncodeError> {
    match parsed(text) {
        None => Err(EncodeError::Syntax),
        Some(p) => match lowered(p) {
            None => Err(EncodeError::NumberOutOfRange),
            Some(tree) => Ok(tree),
        },
    }
}

/// `stored` is the walk of the document that `text` stands for, and that
/// document is well-formed.
pub open spec fn encodes(text: Seq<u8>, stored: Streams) -> bool {
    text_document(text) matches Ok(tree) && tree.well_formed() && stored == tree.flattened()
}

/// What was encoded is read back: a walk that encodes a text reads as the
/// document that the text stands for.
pub proof fn lemma_encoded_reads_back(text: Seq<u8>, stored: Streams)
    requires
        encodes(text, stored),
    ensures
        text_document(text) matches Ok(tree) && reads_as(stored, tree),
{
    lemma_round_trip(text_document(text)->Ok_0);
}

/// The models of the flattened documents of `data`.
pub open spec fn streams_all(data: Seq<Flattened>) -> Seq<Streams> {
    data.map_values(|f: Flattened| f@)
}

/// The codes of `tags`.
pub open spec fn codes_of(tags: Seq<Tag>) -> Seq<u8> {
    tags.map_values(|t: Tag| t.code())
}

/// The tags that `codes` stand for, `None` where one of them is the code
/// of no tag.
pub open spec fn tags_of(codes: Seq<u8>) -> Option<Seq<Tag>> {
    if forall|i: int| 0 <= i < codes.len() ==> (#[trigger] Tag::of_code(codes[i])) is Some {
        Some(codes.map_values(|b: u8| Tag::of_code(b).unwrap()))
    } else {
        None
    }
}

/// The number of rows that three list columns have in common.
pub open spec fn common_rows(c: FlatColumns) -> nat {
    let a = c.tags@.len();
    let b = c.strings@.len();
    let d = c.numbers@.len();
    if a <= b && a <= d {
        a
    } else if b <= d {
        b
    } else {
        d
    }
}

/// The flattened document in row `i` of three list columns, `None` where
/// a byte of its tags is the code of no tag.
pub open spec fn row_streams(c: FlatColumns, i: int) -> Option<Streams> {
    match tags_of(c.tags@[i]@) {
        Some(tags) => Some(
            Streams { tags, strings: texts(c.strings@[i]@), numbers: c.numbers@[i]@ },
        ),
        None => None,
    }
}

/// Flattens the documents of `json_strs`, each parsed from its JSON text.
/// Fails with the error of the first text that gives no document.
pub fn flatten_texts(json_strs: &[&[u8]]) -> (r: Result<Vec<Flattened>, EncodeError>)
    ensures
        match r {
            Ok(data) => {
                &&& data@.len() == json_strs@.len()
                &&& forall|i: int|
                    0 <= i < data@.len() ==> encodes(json_strs@[i]@, (#[trigger] data@[i])@)
            },
            Err(e) => exists|i: int|
                {
                    &&& 0 <= i < json_strs@.len()
                    &&& #[trigger] text_document(json_strs@[i]@) == Err::<JsonTree, EncodeError>(e)
                    &&& forall|j: int|
                        0 <= j < i ==> (#[trigger] text_document(json_strs@[j]@)) is Ok
                },
        },
{
    let mut data: Vec<Flattened> = Vec::new();
    let mut i: usize = 0;
    while i < json_strs.len()
        invariant
            i <= json_strs.len(),
            data@.len() == i,
            forall|j: int| 0 <= j < i ==> encodes(json_strs@[j]@, (#[trigger] data@[j])@),
        decreases json_strs.len() - i,
    {
        match parse_document(json_strs[i]) {
            Ok(doc) => {
                data.push(flatten(&doc));
            },
            Err(e) => {
                let error = match e {
                    ParseError::Syntax => EncodeError::Syntax,
                    ParseError::NumberOutOfRange => EncodeError::NumberOutOfRange,
                };
                proof {
                    assert forall|j: int| 0 <= j < i implies (#[trigger] text_document(
                        json_strs@[j]@,
                    )) is Ok by {
                        assert(encodes(json_strs@[j]@, data@[j]@));
                    }
                    assert(text_document(json_strs@[i as int]@) == Err::<JsonTree, EncodeError>(
                        error,
                    ));
                }
                return Err(error);
            },
        }
        i += 1;
    }
    Ok(data)
}

/// Reconstructs the document at the head of each flattened document of
/// `data`. Fails where one of them has none at its head.
pub fn reconstruct_all(data: &Vec<Flattened>) -> (r: Result<Vec<JsonValue>, CodecError>)
    ensures
        match r {
            Ok(values) => {
                &&& values@.len() == data@.len()
                &&& forall|i: int|
                    0 <= i < data@.len() ==> reads_as((#[trigger] data@[i])@, values@[i]@)
            },
            Err(e) => {
                &&& e == CodecError::StructuralCorruption
                &&& exists|i: int| 0 <= i < data@.len() && leading((#[trigger] data@[i])@) is None
            },
        },
{
    let mut values: Vec<JsonValue> = Vec::new();
    let mut i: usize = 0;
    while i < data.len()
        invariant
            i <= data.len(),
            values@.len() == i,
            forall|j: int|
                0 <= j < i ==> reads_as((#[trigger] data@[j])@, values@[j]@),
        decreases data.len() - i,
    {
        match data[i].reconstruct() {
            Ok(done) => values.push(done.value),
            Err(e) => {
                return Err(e);
            },
        }
        i += 1;
    }
    Ok(values)
}

/// The codes of `tags`, tag by tag.
pub fn tag_codes(tags: &Vec<Tag>) -> (r: Vec<u8>)
    ensures
        r@ == codes_of(tags@),
{
    let mut out: Vec<u8> = Vec::new();
    let mut i: usize = 0;
    while i < tags.len()
        invariant
            i <= tags.len(),
            out@ == codes_of(tags@).take(i as int),
        decreases tags.len() - i,
    {
        out.push(tags[i].to_byte());
        assert(codes_of(tags@).take(i + 1) =~= codes_of(tags@).take(i as int).push(
            tags@[i as int].code(),
        ));
        i += 1;
    }
    assert(codes_of(tags@).take(i as int) =~= codes_of(tags@));
    out
}

/// The tags that `codes` stand for, `None` where one of them is the code
/// of no tag.
pub fn tags_from_codes(codes: &Vec<u8>) -> (r: Option<Vec<Tag>>)
    ensures
        match r {
            Some(tags) => tags_of(codes@) == Some(tags@),
            None => tags_of(codes@) is None,
        },
{
    let mut out: Vec<Tag> = Vec::new();
    let mut i: usize = 0;
    while i < codes.len()
        invariant
            i <= codes.len(),
            out@.len() == i,
            forall|j: int|
                0 <= j < i ==> (#[trigger] Tag::of_code(codes@[j])) == Some(out@[j]),
        decreases codes.len() - i,
    {
        match Tag::from_byte(codes[i]) {
            Some(tag) => out.push(tag),
            None => {
                assert(Tag::of_code(codes@[i as int]) is None);
                return None;
            },
        }
        i += 1;
    }
    assert(out@ =~= codes@.map_values(|b: u8| Tag::of_code(b).unwrap()));
    Some(out)
}

/// A batch of documents, each stored flattened.
#[derive(Debug, PartialEq, Eq)]
pub struct JsoncVector {
    data: Vec<Flattened>,
}

impl View for JsoncVector {
    type V = Seq<Streams>;

    closed spec fn view(&self) -> Seq<Streams> {
        streams_all(self.data@)
    }
}

/// What encoding a batch of JSON texts owes: the walks of their documents,
/// well-formed ones, in place of the batch, or, where a text gives no
/// document, the error of the first such text and nothing changed.
pub open spec fn texts_encoded(
    before: Seq<Streams>,
    after: Seq<Streams>,
    docs: Seq<&[u8]>,
    r: Result<(), EncodeError>,
) -> bool {
    match r {
        Ok(_) => {
            &&& after.len() == docs.len()
            &&& forall|i: int| 0 <= i < docs.len() ==> encodes((#[trigger] docs[i])@, after[i])
        },
        Err(e) => {
            &&& after == before
            &&& exists|i: int|
                {
                    &&& 0 <= i < docs.len()
                    &&& #[trigger] text_document(docs[i]@) == Err::<JsonTree, EncodeError>(e)
                    &&& forall|j: int| 0 <= j < i ==> (#[trigger] text_document(docs[j]@)) is Ok
                }
        },
    }
}

/// What decoding flattened documents owes: what reconstruction makes of
/// each, or, where one of them has no document at its head, the error.
pub open spec fn streams_decoded(stored: Seq<Streams>, r: Result<Decoded, CodecError>) -> bool {
    match r {
        Ok(d) => {
            &&& d@ matches DecodedModel::Documents(trees)
            &&& trees.len() == stored.len()
            &&& forall|i: int| 0 <= i < stored.len() ==> reads_as(#[trigger] stored[i], trees[i])
        },
        Err(e) => {
            &&& e == CodecError::StructuralCorruption
            &&& exists|i: int| 0 <= i < stored.len() && leading(#[trigger] stored[i]) is None
        },
    }
}

impl JsoncVector {
    /// What `flush` owes: three list columns that hold, row by row, the
    /// codes of the tags, the strings and the numbers.
    pub open spec fn flushed(stored: Seq<Streams>, r: Result<Columns, FlushError>) -> bool {
        r matches Ok(c) && c@ == (ColumnsModel::Flat {
            tags: stored.map_values(|s: Streams| codes_of(s.tags)),
            strings: stored.map_values(|s: Streams| s.strings),
            numbers: stored.map_values(|s: Streams| s.numbers),
        })
    }

    /// What `load` owes: one flattened document appended for each row that
    /// the three columns have in common, or an error and nothing changed.
    pub open spec fn loaded(
        before: Seq<Streams>,
        after: Seq<Streams>,
        columns: Columns,
        r: Result<(), LoadError>,
    ) -> bool {
        match r {
            Ok(_) => {
                &&& columns matches Columns::Flat(c)
                &&& after.len() == before.len() + common_rows(c)
                &&& forall|i: int| 0 <= i < before.len() ==> after[i] == before[i]
                &&& forall|i: int|
                    0 <= i < common_rows(c) ==> #[trigger] row_streams(c, i) == Some(
                        after[before.len() + i],
                    )
            },
            Err(LoadError::WrongColumns) => !(columns is Flat) && after == before,
            Err(LoadError::UnknownTag) => {
                &&& columns matches Columns::Flat(c)
                &&& exists|i: int| 0 <= i < common_rows(c) && (#[trigger] row_streams(c, i)) is None
                &&& after == before
            },
            Err(LoadError::Unsupported) => false,
        }
    }

    /// An empty batch.
    pub fn new() -> (r: JsoncVector)
        ensures
            r@ == Seq::<Streams>::empty(),
    {
        let r = JsoncVector { data: Vec::new() };
        assert(r@ =~= Seq::<Streams>::empty());
        r
    }

    /// The batch of the given flattened documents.
    pub fn from(data: Vec<Flattened>) -> (r: JsoncVector)
        ensures
            r@ == streams_all(data@),
    {
        JsoncVector { data }
    }
}

impl Default for JsoncVector {
    fn default() -> (r: JsoncVector)
        ensures
            r@ == Seq::<Streams>::empty(),
    {
        JsoncVector::new()
    }
}

impl JsonCodec for JsoncVector {
    /// Replaces the batch by the documents of `json_strs`, each parsed from
    /// its JSON text and flattened. Where a text gives no document, fails
    /// with the error of the first such text and leaves the batch as it was.
    fn encode(&mut self, json_strs: &[&[u8]]) -> (r: Result<(), EncodeError>)
        ensures
            texts_encoded(old(self)@, final(self)@, json_strs@, r),
    {
        match flatten_texts(json_strs) {
            Ok(data) => {
                self.data = data;
                Ok(())
            },
            Err(e) => Err(e),
        }
    }

    /// Reconstructs the stored documents. Fails where one of them cannot
    /// be read back.
    fn decode(&self) -> (r: Result<Decoded, CodecError>)
        ensures
            streams_decoded(self@, r),
    {
        match reconstruct_all(&self.data) {
            Ok(values) => {
                proof {
                    assert forall|i: int| 0 <= i < self@.len() implies reads_as(
                        #[trigger] self@[i],
                        items_model(values@)[i],
                    ) by {
                        assert(reads_as(self.data@[i]@, values@[i]@));
                    }
                }
                Ok(Decoded::Documents(values))
            },
            Err(e) => {
                proof {
                    let i = choose|i: int|
                        0 <= i < self.data@.len() && leading((#[trigger] self.data@[i])@) is None;
                    assert(leading(self@[i]) is None);
                }
                Err(e)
            },
        }
    }

    /// Lays the stored documents out in three list columns: row by row the
    /// codes of the tags, the strings and the numbers.
    fn flush(&self) -> (r: Result<Columns, FlushError>)
        ensures
            Self::flushed(self@, r),
    {
        let mut tags: Vec<Vec<u8>> = Vec::new();
        let mut strings: Vec<Vec<String>> = Vec::new();
        let mut numbers: Vec<Vec<u64>> = Vec::new();
        let mut i: usize = 0;
        while i < self.data.len()
            invariant
                i <= self.data.len(),
                tags@.len() == i,
                strings@.len() == i,
                numbers@.len() == i,
                forall|j: int| 0 <= j < i ==> (#[trigger] tags@[j])@ == codes_of(self.data@[j]@.tags),
                forall|j: int|
                    0 <= j < i ==> texts((#[trigger] strings@[j])@) == self.data@[j]@.strings,
                forall|j: int| 0 <= j < i ==> (#[trigger] numbers@[j])@ == self.data@[j]@.numbers,
            decreases self.data.len() - i,
        {
            tags.push(tag_codes(&self.data[i].tags));
            strings.push(copy_texts(&self.data[i].strings));
            numbers.push(copy_numbers(&self.data[i].numbers));
            i += 1;
        }
        let columns = Columns::Flat(FlatColumns { tags, strings, numbers });
        proof {
            assert(byte_rows(tags@) =~= self@.map_values(|s: Streams| codes_of(s.tags)));
            assert(text_rows(strings@) =~= self@.map_values(|s: Streams| s.strings));
            assert(number_rows(numbers@) =~= self@.map_values(|s: Streams| s.numbers));
        }
        Ok(columns)
    }

    /// Appends to the batch the flattened documents of three list columns,
    /// one for each row that the three have in common. Fails with
    /// `WrongColumns` on columns of another format and with `UnknownTag`
    /// where a byte of the tags of such a row is the code of no tag; the
    /// batch then stays as it was.
    fn load(&mut self, columns: Columns) -> (r: Result<(), LoadError>)
        ensures
            Self::loaded(old(self)@, final(self)@, columns, r),
    {
        let c = match &columns {
            Columns::Flat(c) => c,
            _ => {
                return Err(LoadError::WrongColumns);
            },
        };
        let mut rows = c.tags.len();
        if c.strings.len() < rows {
            rows = c.strings.len();
        }
        if c.numbers.len() < rows {
            rows = c.numbers.len();
        }
        let mut added: Vec<Flattened> = Vec::new();
        let mut i: usize = 0;
        while i < rows
            invariant
                i <= rows,
                rows == common_rows(*c),
                *self == *old(self),
                columns == Columns::Flat(*c),
                added@.len() == i,
                forall|j: int| 0 <= j < i ==> #[trigger] row_streams(*c, j) == Some(added@[j]@),
            decreases rows - i,
        {
            match tags_from_codes(&c.tags[i]) {
                Some(tags) => {
                    let row = Flattened::new_with_values(
                        tags,
                        copy_texts(&c.strings[i]),
                        copy_numbers(&c.numbers[i]),
                    );
                    added.push(row);
                },
                None => {
                    assert(row_streams(*c, i as int) is None);
                    return Err(LoadError::UnknownTag);
                },
            }
            i += 1;
        }
        let ghost before = self.data@;
        let ghost rows_added = added@;
        self.data.append(&mut added);
        proof {
            assert forall|k: int| 0 <= k < before.len() implies self@[k] == old(self)@[k] by {
                assert(self.data@[k] == before[k]);
            }
            assert forall|k: int| 0 <= k < common_rows(*c) implies #[trigger] row_streams(*c, k)
                == Some(self@[old(self)@.len() + k]) by {
                assert(self.data@[before.len() + k] == rows_added[k]);
            }
        }
        Ok(())
    }

    /// The name of the format.
    fn name() -> (r: String)
        ensures
            r@ == "jsonc"@,
    {
        String::from_str("jsonc")
    }
}

} // verus!
