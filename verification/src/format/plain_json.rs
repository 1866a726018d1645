//! The plain format: every document is stored as its JSON text.

use crate::codec::{
    copy_texts, slice_rows, Columns, ColumnsModel, Decoded, DecodedModel, EncodeError,
    FlushError, JsonCodec, LoadError,
};
use crate::flattened::texts;
use crate::reconstruct::CodecError;
use vstd::prelude::*;
use vstd::slice::slice_to_vec;
use vstd::string::StringExecFns;
use vstd::utf8::{decode_utf8, valid_utf8};

verus! {

/// `String::from_utf8`: the text that the bytes encode in UTF-8, `None`
/// where they are no UTF-8.
#[verifier::external_body]
fn text_from_utf8(bytes: Vec<u8>) -> (r: Option<String>)
    ensures
        match r {
            Some(s) => valid_utf8(bytes@) && s@ == decode_utf8(bytes@),
            None => !valid_utf8(bytes@),
        },
{
    String::from_utf8(bytes).ok()
}

/// A batch of documents, each stored as its JSON text.
#[derive(Debug, PartialEq, Eq)]
pub struct PlainJsonVector {
    data: Vec<String>,
}

impl View for PlainJsonVector {
    type V = Seq<Seq<char>>;

    closed spec fn view(&self) -> Seq<Seq<char>> {
        texts(self.data@)
    }
}

/// The texts that the documents of `docs` encode in UTF-8.
pub open spec fn utf8_texts(docs: Seq<Seq<u8>>) -> Seq<Seq<char>> {
    docs.map_values(|d: Seq<u8>| decode_utf8(d))
}

impl PlainJsonVector {
    /// What `encode` owes: all documents appended as the texts that they
    /// encode in UTF-8, or, where one of them is no UTF-8, nothing changed.
    pub open spec fn encoded(
        before: Seq<Seq<char>>,
        after: Seq<Seq<char>>,
        docs: Seq<&[u8]>,
        r: Result<(), EncodeError>,
    ) -> bool {
        match r {
            Ok(_) => {
                &&& forall|i: int| 0 <= i < docs.len() ==> valid_utf8((#[trigger] docs[i])@)
                &&& after == before + utf8_texts(slice_rows(docs))
            },
            Err(e) => {
                &&& e == EncodeError::InvalidUtf8
                &&& exists|i: int| 0 <= i < docs.len() && !valid_utf8((#[trigger] docs[i])@)
                &&& after == before
            },
        }
    }

    /// What `decode` owes: the stored texts.
    pub open spec fn decoded(stored: Seq<Seq<char>>, r: Result<Decoded, CodecError>) -> bool {
        r matches Ok(d) && d@ == DecodedModel::Text(stored)
    }

    /// What `flush` owes: one column with the stored texts.
    pub open spec fn flushed(stored: Seq<Seq<char>>, r: Result<Columns, FlushError>) -> bool {
        r matches Ok(c) && c@ == ColumnsModel::Text(stored)
    }

    /// What `load` owes: the texts of the column in place of the batch, or,
    /// for columns of another format, nothing changed.
    pub open spec fn loaded(
        before: Seq<Seq<char>>,
        after: Seq<Seq<char>>,
        columns: Columns,
        r: Result<(), LoadError>,
    ) -> bool {
        match r {
            Ok(_) => columns@ == ColumnsModel::Text(after),
            Err(e) => e == LoadError::WrongColumns && !(columns@ is Text) && after == before,
        }
    }

    /// An empty batch.
    pub fn new() -> (r: PlainJsonVector)
        ensures
            r@ == Seq::<Seq<char>>::empty(),
    {
        let r = PlainJsonVector { data: Vec::new() };
        assert(r@ =~= Seq::<Seq<char>>::empty());
        r
    }
}

impl Default for PlainJsonVector {
    fn default() -> (r: PlainJsonVector)
        ensures
            r@ == Seq::<Seq<char>>::empty(),
    {
        PlainJsonVector::new()
    }
}

impl JsonCodec for PlainJsonVector {
    /// Appends the documents of `json_strs` to the batch, each as the text
    /// that it encodes in UTF-8. Where one of them is no UTF-8, the batch
    /// stays as it was.
    fn encode(&mut self, json_strs: &[&[u8]]) -> (r: Result<(), EncodeError>)
        ensures
            Self::encoded(old(self)@, final(self)@, json_strs@, r),
    {
        let mut added: Vec<String> = Vec::new();
        let mut i: usize = 0;
        while i < json_strs.len()
            invariant
                i <= json_strs.len(),
                forall|j: int| 0 <= j < i ==> valid_utf8((#[trigger] json_strs@[j])@),
                texts(added@) == utf8_texts(slice_rows(json_strs@)).take(i as int),
            decreases json_strs.len() - i,
        {
            match text_from_utf8(slice_to_vec(json_strs[i])) {
                Some(s) => {
                    assert(texts(added@.push(s)) =~= texts(added@).push(s@));
                    assert(utf8_texts(slice_rows(json_strs@)).take(i + 1) =~= utf8_texts(
                        slice_rows(json_strs@),
                    ).take(i as int).push(decode_utf8(json_strs@[i as int]@)));
                    added.push(s);
                },
                None => {
                    return Err(EncodeError::InvalidUtf8);
                },
            }
            i += 1;
        }
        assert(utf8_texts(slice_rows(json_strs@)).take(i as int) =~= utf8_texts(
            slice_rows(json_strs@),
        ));
        let ghost before = self.data@;
        self.data.append(&mut added);
        assert(texts(self.data@) =~= texts(before) + utf8_texts(slice_rows(json_strs@)));
        Ok(())
    }

    /// Hands out the stored texts.
    fn decode(&self) -> (r: Result<Decoded, CodecError>)
        ensures
            Self::decoded(self@, r),
    {
        Ok(Decoded::Text(copy_texts(&self.data)))
    }

    /// Lays the stored texts out as one column of texts.
    fn flush(&self) -> (r: Result<Columns, FlushError>)
        ensures
            Self::flushed(self@, r),
    {
        Ok(Columns::Text(copy_texts(&self.data)))
    }

    /// Replaces the batch by the texts of a column of texts. Columns of
    /// another format leave the batch as it was.
    fn load(&mut self, columns: Columns) -> (r: Result<(), LoadError>)
        ensures
            Self::loaded(old(self)@, final(self)@, columns, r),
    {
        match columns {
            Columns::Text(rows) => {
                self.data = rows;
                Ok(())
            },
            _ => Err(LoadError::WrongColumns),
        }
    }

    /// The name of the format.
    fn name() -> (r: String)
        ensures
            r@ == "plain json str"@,
    {
        String::from_str("plain json str")
    }
}

} // verus!
