//! The binary format: every document is stored in a binary encoding that is
//! made and read outside this library.

use crate::codec::{
    byte_rows, copy_byte_rows, slice_rows, Columns, ColumnsModel, Decoded, DecodedModel,
    EncodeError, FlushError, JsonCodec, LoadError,
};
use crate::reconstruct::CodecError;
use vstd::prelude::*;
use vstd::slice::slice_to_vec;
use vstd::string::StringExecFns;

verus! {

/// A batch of documents, each stored as a binary document.
#[derive(Debug, PartialEq, Eq)]
pub struct JsonbVector {
    data: Vec<Vec<u8>>,
}

impl View for JsonbVector {
    type V = Seq<Seq<u8>>;

    closed spec fn view(&self) -> Seq<Seq<u8>> {
        byte_rows(self.data@)
    }
}

impl JsonbVector {
    /// What `encode` owes: the documents in place of the batch.
    pub open spec fn encoded(
        before: Seq<Seq<u8>>,
        after: Seq<Seq<u8>>,
        docs: Seq<&[u8]>,
        r: Result<(), EncodeError>,
    ) -> bool {
        r is Ok && after == slice_rows(docs)
    }

    /// What `decode` owes: the stored documents.
    pub open spec fn decoded(stored: Seq<Seq<u8>>, r: Result<Decoded, CodecError>) -> bool {
        r matches Ok(d) && d@ == DecodedModel::Binary(stored)
    }

    /// What `flush` owes: one column with the stored documents.
    pub open spec fn flushed(stored: Seq<Seq<u8>>, r: Result<Columns, FlushError>) -> bool {
        r matches Ok(c) && c@ == ColumnsModel::Binary(stored)
    }

    /// What `load` owes: the documents of the column in place of the batch,
    /// or, for columns of another format, nothing changed.
    pub open spec fn loaded(
        before: Seq<Seq<u8>>,
        after: Seq<Seq<u8>>,
        columns: Columns,
        r: Result<(), LoadError>,
    ) -> bool {
        match r {
            Ok(_) => columns@ == ColumnsModel::Binary(after),
            Err(e) => e == LoadError::WrongColumns && !(columns@ is Binary) && after == before,
        }
    }

    /// An empty batch.
    pub fn new() -> (r: JsonbVector)
        ensures
            r@ == Seq::<Seq<u8>>::empty(),
    {
        let r = JsonbVector { data: Vec::new() };
        assert(r@ =~= Seq::<Seq<u8>>::empty());
        r
    }

    /// The batch of the given binary documents.
    pub fn from(data: Vec<Vec<u8>>) -> (r: JsonbVector)
        ensures
            r@ == byte_rows(data@),
    {
        JsonbVector { data }
    }
}

impl Default for JsonbVector {
    fn default() -> (r: JsonbVector)
        ensures
            r@ == Seq::<Seq<u8>>::empty(),
    {
        JsonbVector::new()
    }
}

impl JsonCodec for JsonbVector {
    /// Replaces the batch by the documents of `json_strs`, taken as they
    /// are: each is a binary document already.
    fn encode(&mut self, json_strs: &[&[u8]]) -> (r: Result<(), EncodeError>)
        ensures
            Self::encoded(old(self)@, final(self)@, json_strs@, r),
    {
        let mut data: Vec<Vec<u8>> = Vec::new();
        let mut i: usize = 0;
        while i < json_strs.len()
            invariant
                i <= json_strs.len(),
                byte_rows(data@) == slice_rows(json_strs@).take(i as int),
            decreases json_strs.len() - i,
        {
            let row = slice_to_vec(json_strs[i]);
            assert(byte_rows(data@.push(row)) =~= byte_rows(data@).push(row@));
            assert(slice_rows(json_strs@).take(i + 1) =~= slice_rows(json_strs@).take(
                i as int,
            ).push(json_strs@[i as int]@));
            data.push(row);
            i += 1;
        }
        assert(slice_rows(json_strs@).take(i as int) =~= slice_rows(json_strs@));
        self.data = data;
        Ok(())
    }

    /// Hands out the stored binary documents.
    fn decode(&self) -> (r: Result<Decoded, CodecError>)
        ensures
            Self::decoded(self@, r),
    {
        Ok(Decoded::Binary(copy_byte_rows(&self.data)))
    }

    /// Lays the stored documents out as one column of binary documents.
    fn flush(&self) -> (r: Result<Columns, FlushError>)
        ensures
            Self::flushed(self@, r),
    {
        Ok(Columns::Binary(copy_byte_rows(&self.data)))
    }

    /// Replaces the batch by the documents of a column of binary documents.
    /// Columns of another format leave the batch as it was.
    fn load(&mut self, columns: Columns) -> (r: Result<(), LoadError>)
        ensures
            Self::loaded(old(self)@, final(self)@, columns, r),
    {
        match columns {
            Columns::Binary(rows) => {
                self.data = rows;
                Ok(())
            },
            _ => Err(LoadError::WrongColumns),
        }
    }

    /// The name of the format.
    fn name() -> (r: String)
        ensures
            r@ == "jsonb"@,
    {
        String::from_str("jsonb")
    }
}

} // verus!
