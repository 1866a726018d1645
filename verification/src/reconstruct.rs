//! The reconstructor: from a flattened representation back to the document.

use crate::decoding::{
    heads, leading, lemma_array_stuck, lemma_leading_is, lemma_object_stuck, lemma_scalar_stuck,
};
use crate::flattened::{lemma_concat_laws, lemma_streams_equal, texts, Flattened, Streams};
use crate::tag::Tag;
use crate::value::{
    items_model, lemma_view_of_array, lemma_view_of_object, members_model, set_member, JsonTree,
    JsonValue,
};
use vstd::prelude::*;

verus! {

/// Why a flattened representation could not be read back.
#[derive(Clone, Copy, Debug, PartialEq, Eq, Structural)]
pub enum CodecError {
    /// No document is at the head of the three sequences: a tag finds its
    /// pool empty, a bracket is not matched, or a tag stands where none of
    /// its kind may.
    StructuralCorruption,
}

/// A document read back, and how much of each sequence it took.
#[derive(Debug, PartialEq, Eq)]
pub struct Reconstructed {
    /// The document.
    pub value: JsonValue,
    /// The number of tags consumed.
    pub tags: usize,
    /// The number of strings consumed.
    pub strings: usize,
    /// The number of numbers consumed.
    pub numbers: usize,
}

/// The model of three sequences taken together.
pub open spec fn streams_of(tags: Seq<Tag>, strings: Seq<String>, numbers: Seq<u64>) -> Streams {
    Streams { tags, strings: texts(strings), numbers }
}

/// The three sequences and a position in each: what has been consumed lies
/// before the positions, what is still to read behind them.
struct Cursor<'a> {
    tags: &'a [Tag],
    strings: &'a [String],
    numbers: &'a [u64],
    tag_pos: usize,
    string_pos: usize,
    number_pos: usize,
}

impl<'a> Cursor<'a> {
    /// The positions lie within the sequences.
    spec fn wf(&self) -> bool {
        &&& self.tag_pos <= self.tags@.len()
        &&& self.string_pos <= self.strings@.len()
        &&& self.number_pos <= self.numbers@.len()
    }

    /// What is still to read.
    spec fn rest(&self) -> Streams {
        Streams {
            tags: self.tags@.skip(self.tag_pos as int),
            strings: texts(self.strings@).skip(self.string_pos as int),
            numbers: self.numbers@.skip(self.number_pos as int),
        }
    }

    /// `self` is `before` moved over `consumed`, which `before` had still to
    /// read.
    spec fn advanced(&self, before: Cursor<'a>, consumed: Streams) -> bool {
        &&& self.tags@ == before.tags@
        &&& self.strings@ == before.strings@
        &&& self.numbers@ == before.numbers@
        &&& before.wf()
        &&& consumed.is_prefix_of(before.rest())
        &&& self.tag_pos == before.tag_pos + consumed.tags.len()
        &&& self.string_pos == before.string_pos + consumed.strings.len()
        &&& self.number_pos == before.number_pos + consumed.numbers.len()
    }

    /// A cursor that has advanced is within the sequences and has still to
    /// read what was left behind the consumed part.
    proof fn lemma_advanced(&self, before: Cursor<'a>, consumed: Streams)
        requires
            self.advanced(before, consumed),
        ensures
            self.wf(),
            self.rest() == before.rest().after(consumed),
    {
        lemma_streams_equal(self.rest(), before.rest().after(consumed));
    }

    /// Advancing twice is advancing over the two parts one after the other.
    proof fn lemma_chain(&self, mid: Cursor<'a>, before: Cursor<'a>, a: Streams, b: Streams)
        requires
            mid.advanced(before, a),
            self.advanced(mid, b),
        ensures
            self.advanced(before, a.concat(b)),
    {
        mid.lemma_advanced(before, a);
        before.rest().lemma_prefix_split(a, b);
    }

    /// A cursor at the start of the three sequences.
    fn new(tags: &'a [Tag], strings: &'a [String], numbers: &'a [u64]) -> (r: Cursor<'a>)
        ensures
            r.wf(),
            r.rest() == streams_of(tags@, strings@, numbers@),
            r.tag_pos == 0,
            r.string_pos == 0,
            r.number_pos == 0,
            r.tags@ == tags@,
            r.strings@ == strings@,
            r.numbers@ == numbers@,
    {
        let r = Cursor { tags, strings, numbers, tag_pos: 0, string_pos: 0, number_pos: 0 };
        proof {
            lemma_streams_equal(r.rest(), streams_of(tags@, strings@, numbers@));
        }
        r
    }

    /// The next tag, if one is left.
    fn peek(&self) -> (r: Option<Tag>)
        requires
            self.wf(),
        ensures
            match r {
                Some(tag) => self.rest().tags.len() > 0 && self.rest().tags[0] == tag,
                None => self.rest().tags.len() == 0,
            },
    {
        if self.tag_pos < self.tags.len() {
            Some(self.tags[self.tag_pos])
        } else {
            None
        }
    }

    /// Moves over the next tag, which carries no payload.
    fn skip_marker(&mut self)
        requires
            old(self).wf(),
            old(self).rest().tags.len() > 0,
        ensures
            final(self).advanced(*old(self), Streams::marker(old(self).rest().tags[0])),
    {
        assert(self.rest().tags.len() == self.tags.len() - self.tag_pos);
        self.tag_pos = self.tag_pos + 1;
        proof {
            let m = Streams::marker(old(self).rest().tags[0]);
            assert(m.tags =~= old(self).rest().tags.subrange(0, 1));
            assert(m.strings =~= old(self).rest().strings.subrange(0, 0));
            assert(m.numbers =~= old(self).rest().numbers.subrange(0, 0));
        }
    }

    /// Moves over the next tag and its payload in the string pool, if the
    /// pool has one left.
    fn take_text(&mut self) -> (r: Option<String>)
        requires
            old(self).wf(),
            old(self).rest().tags.len() > 0,
        ensures
            match r {
                Some(s) => {
                    &&& old(self).rest().strings.len() > 0
                    &&& s@ == old(self).rest().strings[0]
                    &&& final(self).advanced(
                        *old(self),
                        Streams::text(old(self).rest().tags[0], s@),
                    )
                },
                None => old(self).rest().strings.len() == 0 && *final(self) == *old(self),
            },
    {
        if self.string_pos < self.strings.len() {
            let s = self.strings[self.string_pos].clone();
            assert(self.rest().tags.len() == self.tags.len() - self.tag_pos);
            self.tag_pos = self.tag_pos + 1;
            self.string_pos = self.string_pos + 1;
            proof {
                let m = Streams::text(old(self).rest().tags[0], s@);
                assert(m.tags =~= old(self).rest().tags.subrange(0, 1));
                assert(m.strings =~= old(self).rest().strings.subrange(0, 1));
                assert(m.numbers =~= old(self).rest().numbers.subrange(0, 0));
            }
            Some(s)
        } else {
            None
        }
    }

    /// Moves over a `Number` tag and its payload in the number pool, if the
    /// pool has one left.
    fn take_number(&mut self) -> (r: Option<u64>)
        requires
            old(self).wf(),
            old(self).rest().tags.len() > 0,
            old(self).rest().tags[0] == Tag::Number,
        ensures
            match r {
                Some(bits) => final(self).advanced(*old(self), Streams::number(bits)),
                None => old(self).rest().numbers.len() == 0 && *final(self) == *old(self),
            },
    {
        if self.number_pos < self.numbers.len() {
            let bits = self.numbers[self.number_pos];
            assert(self.rest().tags.len() == self.tags.len() - self.tag_pos);
            self.tag_pos = self.tag_pos + 1;
            self.number_pos = self.number_pos + 1;
            proof {
                let m = Streams::number(bits);
                assert(m.tags =~= old(self).rest().tags.subrange(0, 1));
                assert(m.strings =~= old(self).rest().strings.subrange(0, 0));
                assert(m.numbers =~= old(self).rest().numbers.subrange(0, 1));
            }
            Some(bits)
        } else {
            None
        }
    }
}

/// Reads the document at the cursor and moves the cursor behind it.
fn read_value<'a>(cur: &mut Cursor<'a>) -> (r: Result<(JsonValue, Ghost<JsonTree>), CodecError>)
    requires
        old(cur).wf(),
    ensures
        match r {
            Ok((value, tree)) => {
                &&& final(cur).advanced(*old(cur), tree@.flattened())
                &&& value@ == tree@.normalized()
            },
            Err(_) => forall|t: JsonTree| !heads(t, old(cur).rest()),
        },
    decreases old(cur).rest().tags.len(), 1nat,
{
    let ghost start = *cur;
    let tag = match cur.peek() {
        Some(tag) => tag,
        None => {
            proof {
                lemma_scalar_stuck(start.rest());
            }
            return Err(CodecError::StructuralCorruption);
        },
    };
    match tag {
        Tag::Null => {
            cur.skip_marker();
            Ok((JsonValue::Null, Ghost(JsonTree::Null)))
        },
        Tag::True => {
            cur.skip_marker();
            Ok((JsonValue::Bool(true), Ghost(JsonTree::Bool(true))))
        },
        Tag::False => {
            cur.skip_marker();
            Ok((JsonValue::Bool(false), Ghost(JsonTree::Bool(false))))
        },
        Tag::Number => match cur.take_number() {
            Some(bits) => Ok((JsonValue::Number(bits), Ghost(JsonTree::Number(bits)))),
            None => {
                proof {
                    lemma_scalar_stuck(start.rest());
                }
                Err(CodecError::StructuralCorruption)
            },
        },
        Tag::String => match cur.take_text() {
            Some(s) => {
                let ghost tree = JsonTree::String(s@);
                Ok((JsonValue::String(s), Ghost(tree)))
            },
            None => {
                proof {
                    lemma_scalar_stuck(start.rest());
                }
                Err(CodecError::StructuralCorruption)
            },
        },
        Tag::StartArray => read_array(cur),
        Tag::StartObject => read_object(cur),
        Tag::Key | Tag::EndArray | Tag::EndObject => {
            proof {
                lemma_scalar_stuck(start.rest());
            }
            Err(CodecError::StructuralCorruption)
        },
    }
}

/// Reads the array whose opening tag is at the cursor.
fn read_array<'a>(cur: &mut Cursor<'a>) -> (r: Result<(JsonValue, Ghost<JsonTree>), CodecError>)
    requires
        old(cur).wf(),
        old(cur).rest().tags.len() > 0,
        old(cur).rest().tags[0] == Tag::StartArray,
    ensures
        match r {
            Ok((value, tree)) => {
                &&& final(cur).advanced(*old(cur), tree@.flattened())
                &&& value@ == tree@.normalized()
            },
            Err(_) => forall|t: JsonTree| !heads(t, old(cur).rest()),
        },
    decreases old(cur).rest().tags.len(), 0nat,
{
    let ghost start = *cur;
    let ghost open = Streams::marker(Tag::StartArray);
    let ghost close = Streams::marker(Tag::EndArray);
    cur.skip_marker();
    let mut items: Vec<JsonValue> = Vec::new();
    let ghost mut raw: Seq<JsonTree> = Seq::empty();
    proof {
        lemma_concat_laws(open, Streams::empty(), Streams::empty());
    }
    proof {
        cur.lemma_advanced(start, open);
    }
    loop
        invariant
            start.wf(),
            start == *old(cur),
            cur.rest().tags.len() < start.rest().tags.len(),
            cur.advanced(start, open.concat(JsonTree::flattened_items(raw, raw.len()))),
            open == Streams::marker(Tag::StartArray),
            close == Streams::marker(Tag::EndArray),
            items@.len() == raw.len(),
            forall|j: int| 0 <= j < raw.len() ==> (#[trigger] items@[j])@ == raw[j].normalized(),
        decreases cur.rest().tags.len(),
    {
        let ghost mid = *cur;
        let ghost done = open.concat(JsonTree::flattened_items(raw, raw.len()));
        proof {
            mid.lemma_advanced(start, done);
        }
        match cur.peek() {
            None => {
                proof {
                    lemma_array_stuck(raw, start.rest(), mid.rest());
                }
                return Err(CodecError::StructuralCorruption);
            },
            Some(Tag::EndArray) => {
                cur.skip_marker();
                let ghost tree = JsonTree::Array(raw);
                proof {
                    cur.lemma_chain(mid, start, done, close);
                    lemma_view_of_array(items);
                    assert(items_model(items@) =~= tree.normalized()->Array_0);
                }
                return Ok((JsonValue::Array(items), Ghost(tree)));
            },
            Some(_) => {
                match read_value(cur) {
                    Ok((value, tree)) => {
                        items.push(value);
                        proof {
                            let grown = raw.push(tree@);
                            JsonTree::lemma_items_local(raw, grown, raw.len());
                            cur.lemma_chain(mid, start, done, tree@.flattened());
                            lemma_concat_laws(
                                open,
                                JsonTree::flattened_items(raw, raw.len()),
                                tree@.flattened(),
                            );
                            tree@.lemma_opening();
                            cur.lemma_advanced(mid, tree@.flattened());
                            raw = grown;
                        }
                    },
                    Err(e) => {
                        proof {
                            lemma_array_stuck(raw, start.rest(), mid.rest());
                        }
                        return Err(e);
                    },
                }
            },
        }
    }
}

/// Reads the object whose opening tag is at the cursor.
fn read_object<'a>(cur: &mut Cursor<'a>) -> (r: Result<(JsonValue, Ghost<JsonTree>), CodecError>)
    requires
        old(cur).wf(),
        old(cur).rest().tags.len() > 0,
        old(cur).rest().tags[0] == Tag::StartObject,
    ensures
        match r {
            Ok((value, tree)) => {
                &&& final(cur).advanced(*old(cur), tree@.flattened())
                &&& value@ == tree@.normalized()
            },
            Err(_) => forall|t: JsonTree| !heads(t, old(cur).rest()),
        },
    decreases old(cur).rest().tags.len(), 0nat,
{
    let ghost start = *cur;
    let ghost open = Streams::marker(Tag::StartObject);
    let ghost close = Streams::marker(Tag::EndObject);
    cur.skip_marker();
    let mut members: Vec<(String, JsonValue)> = Vec::new();
    let ghost mut raw: Seq<(Seq<char>, JsonTree)> = Seq::empty();
    proof {
        lemma_concat_laws(open, Streams::empty(), Streams::empty());
        assert(members_model(members@) =~= JsonTree::collected(raw, raw.len()));
    }
    proof {
        cur.lemma_advanced(start, open);
    }
    loop
        invariant
            start.wf(),
            start == *old(cur),
            cur.rest().tags.len() < start.rest().tags.len(),
            cur.advanced(start, open.concat(JsonTree::flattened_members(raw, raw.len()))),
            open == Streams::marker(Tag::StartObject),
            close == Streams::marker(Tag::EndObject),
            members_model(members@) == JsonTree::collected(raw, raw.len()),
        decreases cur.rest().tags.len(),
    {
        let ghost mid = *cur;
        let ghost done = open.concat(JsonTree::flattened_members(raw, raw.len()));
        proof {
            mid.lemma_advanced(start, done);
        }
        match cur.peek() {
            Some(Tag::EndObject) => {
                cur.skip_marker();
                let ghost tree = JsonTree::Object(raw);
                proof {
                    cur.lemma_chain(mid, start, done, close);
                    lemma_view_of_object(members);
                }
                return Ok((JsonValue::Object(members), Ghost(tree)));
            },
            Some(Tag::Key) => {
                let key = match cur.take_text() {
                    Some(key) => key,
                    None => {
                        proof {
                            lemma_object_stuck(raw, start.rest(), mid.rest());
                        }
                        return Err(CodecError::StructuralCorruption);
                    },
                };
                let ghost keyed = *cur;
                let ghost key_part = Streams::text(Tag::Key, key@);
                proof {
                    keyed.lemma_advanced(mid, key_part);
                }
                match read_value(cur) {
                    Ok((value, tree)) => {
                        set_member(&mut members, key, value);
                        proof {
                            let grown = raw.push((key@, tree@));
                            JsonTree::lemma_members_local(raw, grown, raw.len());
                            JsonTree::lemma_collected_local(raw, grown, raw.len());
                            keyed.lemma_chain(mid, start, done, key_part);
                            cur.lemma_chain(keyed, start, done.concat(key_part), tree@.flattened());
                            lemma_concat_laws(
                                open,
                                JsonTree::flattened_members(raw, raw.len()),
                                key_part,
                            );
                            lemma_concat_laws(
                                open,
                                JsonTree::flattened_members(raw, raw.len()).concat(key_part),
                                tree@.flattened(),
                            );
                            cur.lemma_advanced(keyed, tree@.flattened());
                            raw = grown;
                        }
                    },
                    Err(e) => {
                        proof {
                            lemma_object_stuck(raw, start.rest(), mid.rest());
                        }
                        return Err(e);
                    },
                }
            },
            _ => {
                proof {
                    lemma_object_stuck(raw, start.rest(), mid.rest());
                }
                return Err(CodecError::StructuralCorruption);
            },
        }
    }
}

/// Reconstructs the document at the head of the three sequences and reports
/// how many elements of each it consumed.
///
/// The members of an object are inserted into an insertion-ordered mapping
/// as they come: a key that comes again keeps its place and takes the later
/// value. Fails with `StructuralCorruption` exactly when no document is at
/// the head of the sequences.
///
/// The reading is a recursive descent: the call stack grows with the depth
/// to which the tags open arrays and objects.
pub fn reconstruct(tags: &[Tag], strings: &[String], numbers: &[u64]) -> (r: Result<
    Reconstructed,
    CodecError,
>)
    ensures
        match r {
            Ok(done) => {
                &&& leading(streams_of(tags@, strings@, numbers@)) matches Some(tree)
                &&& done.value@ == tree.normalized()
                &&& done.value@.well_formed()
                &&& done.tags == tree.flattened().tags.len()
                &&& done.strings == tree.flattened().strings.len()
                &&& done.numbers == tree.flattened().numbers.len()
            },
            Err(e) => {
                &&& e == CodecError::StructuralCorruption
                &&& leading(streams_of(tags@, strings@, numbers@)) is None
            },
        },
{
    let mut cur = Cursor::new(tags, strings, numbers);
    let ghost start = cur;
    match read_value(&mut cur) {
        Ok((value, tree)) => {
            proof {
                lemma_leading_is(tree@, start.rest());
                tree@.lemma_normalized_well_formed();
            }
            Ok(
                Reconstructed {
                    value,
                    tags: cur.tag_pos,
                    strings: cur.string_pos,
                    numbers: cur.number_pos,
                },
            )
        },
        Err(e) => Err(e),
    }
}

impl Flattened {
    /// Reconstructs the document at the head of `self`.
    pub fn reconstruct(&self) -> (r: Result<Reconstructed, CodecError>)
        ensures
            match r {
                Ok(done) => {
                    &&& leading(self@) matches Some(tree)
                    &&& done.value@ == tree.normalized()
                    &&& done.value@.well_formed()
                    &&& done.tags == tree.flattened().tags.len()
                    &&& done.strings == tree.flattened().strings.len()
                    &&& done.numbers == tree.flattened().numbers.len()
                },
                Err(e) => e == CodecError::StructuralCorruption && leading(self@) is None,
            },
    {
        reconstruct(self.tags.as_slice(), self.strings.as_slice(), self.numbers.as_slice())
    }
}

} // verus!
