//! Traversal-event markers of the flattened representation.

use vstd::prelude::*;

verus! {

/// One traversal event of a pre-order walk over a JSON document.
#[derive(Clone, Copy, Debug, PartialEq, Eq, Structural, Hash)]
pub enum Tag {
    Null,
    True,
    False,
    Number,
    String,
    Key,
    StartArray,
    EndArray,
    StartObject,
    EndObject,
}

impl Tag {
    /// The byte under which a tag is stored in a byte column.
    pub open spec fn code(self) -> u8 {
        match self {
            Tag::Null => 0,
            Tag::True => 1,
            Tag::False => 2,
            Tag::Number => 3,
            Tag::String => 4,
            Tag::Key => 5,
            Tag::StartArray => 6,
            Tag::EndArray => 7,
            Tag::StartObject => 8,
            Tag::EndObject => 9,
        }
    }

    /// The tag that a byte stands for, if it stands for one.
    pub open spec fn of_code(b: u8) -> Option<Tag> {
        if b == 0 {
            Some(Tag::Null)
        } else if b == 1 {
            Some(Tag::True)
        } else if b == 2 {
            Some(Tag::False)
        } else if b == 3 {
            Some(Tag::Number)
        } else if b == 4 {
            Some(Tag::String)
        } else if b == 5 {
            Some(Tag::Key)
        } else if b == 6 {
            Some(Tag::StartArray)
        } else if b == 7 {
            Some(Tag::EndArray)
        } else if b == 8 {
            Some(Tag::StartObject)
        } else if b == 9 {
            Some(Tag::EndObject)
        } else {
            None
        }
    }

    /// A tag is found again from its code, and a byte that stands for a tag
    /// is the code of that tag.
    pub proof fn lemma_code_round_trip(self, b: u8)
        ensures
            Tag::of_code(self.code()) == Some(self),
            Tag::of_code(b) matches Some(tag) ==> tag.code() == b,
    {
    }

    /// Decodes a one-byte code; `None` for a byte that is the code of no
    /// tag.
    pub fn from_byte(b: u8) -> (r: Option<Tag>)
        ensures
            r == Tag::of_code(b),
    {
        match b {
            0 => Some(Tag::Null),
            1 => Some(Tag::True),
            2 => Some(Tag::False),
            3 => Some(Tag::Number),
            4 => Some(Tag::String),
            5 => Some(Tag::Key),
            6 => Some(Tag::StartArray),
            7 => Some(Tag::EndArray),
            8 => Some(Tag::StartObject),
            9 => Some(Tag::EndObject),
            _ => None,
        }
    }

    /// Encodes the tag as its one-byte code.
    pub fn to_byte(self) -> (b: u8)
        ensures
            b == self.code(),
    {
        match self {
            Tag::Null => 0,
            Tag::True => 1,
            Tag::False => 2,
            Tag::Number => 3,
            Tag::String => 4,
            Tag::Key => 5,
            Tag::StartArray => 6,
            Tag::EndArray => 7,
            Tag::StartObject => 8,
            Tag::EndObject => 9,
        }
    }
}

} // verus!
