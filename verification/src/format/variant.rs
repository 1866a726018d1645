//! The schema format: documents of one known schema, stored flattened and
//! laid out with a column for each field of the schema.

use crate::codec::{
    Columns, ColumnsModel, Decoded, EncodeError, FlushError, JsonCodec, LoadError,
    VariantColumns,
};
use crate::decoding::{leading, reads_as};
use crate::flattened::{texts, Flattened, Streams};
use crate::format::jsonc::{
    flatten_texts, reconstruct_all, streams_all, streams_decoded, texts_encoded,
};
use crate::reconstruct::CodecError;
use crate::value::{items_model, JsonTree, JsonValue};
use vstd::prelude::*;
use vstd::string::StringExecFns;

verus! {

/// The fields of a document of the schema: its name, its timestamp and the
/// bit pattern of its event attribute.
pub struct VariantRow {
    pub name: Seq<char>,
    pub timestamp: Seq<char>,
    pub event_attributes: u64,
}

/// The fields of `tree`, where it is of the schema: an object with a string
/// `name`, a string `timestamp` and an object `attributes` that holds a
/// number `event_attributes`.
pub open spec fn variant_row(tree: JsonTree) -> Option<VariantRow> {
    match (tree.get("name"@), tree.get("timestamp"@), tree.get("attributes"@)) {
        (Some(JsonTree::String(name)), Some(JsonTree::String(timestamp)), Some(attributes)) => {
            match attributes.get("event_attributes"@) {
                Some(JsonTree::Number(bits)) => Some(
                    VariantRow { name, timestamp, event_attributes: bits },
                ),
                _ => None,
            }
        },
        _ => None,
    }
}

/// The row that a stored document gives: `Corrupt` where it cannot be read
/// back, `MissingField` where what is read back is not of the schema.
pub open spec fn stored_row(stored: Streams) -> Result<VariantRow, FlushError> {
    match leading(stored) {
        None => Err(FlushError::Corrupt),
        Some(tree) => match variant_row(tree.normalized()) {
            Some(row) => Ok(row),
            None => Err(FlushError::MissingField),
        },
    }
}

/// The fields of `value`, where it is of the schema.
pub fn row_of(value: &JsonValue) -> (r: Option<(String, String, u64)>)
    ensures
        match r {
            Some(row) => variant_row(value@) == Some(
                VariantRow { name: row.0@, timestamp: row.1@, event_attributes: row.2 },
            ),
            None => variant_row(value@) is None,
        },
{
    let name = match value.get("name") {
        Some(JsonValue::String(s)) => s.clone(),
        _ => {
            return None;
        },
    };
    let timestamp = match value.get("timestamp") {
        Some(JsonValue::String(s)) => s.clone(),
        _ => {
            return None;
        },
    };
    let attributes = match value.get("attributes") {
        Some(v) => v,
        None => {
            return None;
        },
    };
    match attributes.get("event_attributes") {
        Some(JsonValue::Number(bits)) => Some((name, timestamp, *bits)),
        _ => None,
    }
}

/// A batch of documents of the schema, each stored flattened.
#[derive(Debug, PartialEq, Eq)]
pub struct VariantVector {
    data: Vec<Flattened>,
}

impl View for VariantVector {
    type V = Seq<Streams>;

    closed spec fn view(&self) -> Seq<Streams> {
        streams_all(self.data@)
    }
}

impl VariantVector {
    /// What `flush` owes: a row of fields for each stored document, or the
    /// error of the first stored document that gives none.
    pub open spec fn flushed(stored: Seq<Streams>, r: Result<Columns, FlushError>) -> bool {
        match r {
            Ok(c) => {
                &&& c@ matches ColumnsModel::Variant { names, timestamps, event_attributes }
                &&& names.len() == stored.len()
                &&& timestamps.len() == stored.len()
                &&& event_attributes.len() == stored.len()
                &&& forall|i: int|
                    0 <= i < stored.len() ==> #[trigger] stored_row(stored[i]) == Ok::<
                        VariantRow,
                        FlushError,
                    >(
                        VariantRow {
                            name: names[i],
                            timestamp: timestamps[i],
                            event_attributes: event_attributes[i],
                        },
                    )
            },
            Err(e) => exists|i: int|
                {
                    &&& 0 <= i < stored.len()
                    &&& #[trigger] stored_row(stored[i]) == Err::<VariantRow, FlushError>(e)
                    &&& forall|j: int| 0 <= j < i ==> (#[trigger] stored_row(stored[j])) is Ok
                },
        }
    }

    /// What `load` owes: the format is written only, so nothing changes.
    pub open spec fn loaded(
        before: Seq<Streams>,
        after: Seq<Streams>,
        columns: Columns,
        r: Result<(), LoadError>,
    ) -> bool {
        r == Err::<(), LoadError>(LoadError::Unsupported) && after == before
    }

    /// An empty batch.
    pub fn new() -> (r: VariantVector)
        ensures
            r@ == Seq::<Streams>::empty(),
    {
        let r = VariantVector { data: Vec::new() };
        assert(r@ =~= Seq::<Streams>::empty());
        r
    }

    /// The batch of the given flattened documents.
    pub fn from(data: Vec<Flattened>) -> (r: VariantVector)
        ensures
            r@ == streams_all(data@),
    {
        VariantVector { data }
    }
}

impl Default for VariantVector {
    fn default() -> (r: VariantVector)
        ensures
            r@ == Seq::<Streams>::empty(),
    {
        VariantVector::new()
    }
}

impl JsonCodec for VariantVector {
    /// Replaces the batch by the documents of `json_strs`, each parsed from
    /// its JSON text and flattened. Where a text gives no document, fails
    /// with the error of the first such text and leaves the batch as it was.
    fn encode(&mut self, json_strs: &[&[u8]]) -> (r: Result<(), EncodeError>)
        ensures
            texts_encoded(old(self)@, final(self)@, json_strs@, r),
    {
        match flatten_texts(json_strs) {
            Ok(data) => {
                self.data = data;
                Ok(())
            },
            Err(e) => Err(e),
        }
    }

    /// Reconstructs the stored documents. Fails where one of them cannot
    /// be read back.
    fn decode(&self) -> (r: Result<Decoded, CodecError>)
        ensures
            streams_decoded(self@, r),
    {
        match reconstruct_all(&self.data) {
            Ok(values) => {
                proof {
                    assert forall|i: int| 0 <= i < self@.len() implies reads_as(
                        #[trigger] self@[i],
                        items_model(values@)[i],
                    ) by {
                        assert(reads_as(self.data@[i]@, values@[i]@));
                    }
                }
                Ok(Decoded::Documents(values))
            },
            Err(e) => {
                proof {
                    let i = choose|i: int|
                        0 <= i < self.data@.len() && leading((#[trigger] self.data@[i])@) is None;
                    assert(leading(self@[i]) is None);
                }
                Err(e)
            },
        }
    }

    /// Lays the stored documents out with a column for each field of the
    /// schema. Fails with the error of the first stored document that
    /// cannot be read back or is not of the schema.
    fn flush(&self) -> (r: Result<Columns, FlushError>)
        ensures
            Self::flushed(self@, r),
    {
        let mut names: Vec<String> = Vec::new();
        let mut timestamps: Vec<String> = Vec::new();
        let mut event_attributes: Vec<u64> = Vec::new();
        let mut i: usize = 0;
        while i < self.data.len()
            invariant
                i <= self.data.len(),
                names@.len() == i,
                timestamps@.len() == i,
                event_attributes@.len() == i,
                forall|j: int|
                    0 <= j < i ==> #[trigger] stored_row(self@[j]) == Ok::<VariantRow, FlushError>(
                        VariantRow {
                            name: names@[j]@,
                            timestamp: timestamps@[j]@,
                            event_attributes: event_attributes@[j],
                        },
                    ),
            decreases self.data.len() - i,
        {
            assert(self@[i as int] == self.data@[i as int]@);
            let done = match self.data[i].reconstruct() {
                Ok(done) => done,
                Err(_) => {
                    assert(stored_row(self@[i as int]) == Err::<VariantRow, FlushError>(
                        FlushError::Corrupt,
                    ));
                    return Err(FlushError::Corrupt);
                },
            };
            match row_of(&done.value) {
                Some(row) => {
                    names.push(row.0);
                    timestamps.push(row.1);
                    event_attributes.push(row.2);
                },
                None => {
                    assert(stored_row(self@[i as int]) == Err::<VariantRow, FlushError>(
                        FlushError::MissingField,
                    ));
                    return Err(FlushError::MissingField);
                },
            }
            i += 1;
        }
        let columns = Columns::Variant(VariantColumns { names, timestamps, event_attributes });
        proof {
            assert forall|k: int| 0 <= k < self@.len() implies #[trigger] stored_row(self@[k])
                == Ok::<VariantRow, FlushError>(
                VariantRow {
                    name: texts(names@)[k],
                    timestamp: texts(timestamps@)[k],
                    event_attributes: event_attributes@[k],
                },
            ) by {
                assert(texts(names@)[k] == names@[k]@);
                assert(texts(timestamps@)[k] == timestamps@[k]@);
            }
        }
        Ok(columns)
    }

    /// The format is written only: fails with `Unsupported` and leaves the
    /// batch as it was.
    fn load(&mut self, columns: Columns) -> (r: Result<(), LoadError>)
        ensures
            Self::loaded(old(self)@, final(self)@, columns, r),
    {
        Err(LoadError::Unsupported)
    }

    /// The name of the format.
    fn name() -> (r: String)
        ensures
            r@ == "variant"@,
    {
        String::from_str("variant")
    }
}

} // verus!
