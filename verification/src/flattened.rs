//! The flattened representation: three parallel sequences.

use crate::tag::Tag;
use crate::value::JsonTree;
use vstd::prelude::*;

verus! {

/// The mathematical model of a flattened representation: the tag sequence,
/// the string pool and the number pool.
pub struct Streams {
    pub tags: Seq<Tag>,
    pub strings: Seq<Seq<char>>,
    pub numbers: Seq<u64>,
}

impl Streams {
    /// Three empty sequences.
    pub open spec fn empty() -> Streams {
        Streams { tags: Seq::empty(), strings: Seq::empty(), numbers: Seq::empty() }
    }

    /// One tag that carries no payload.
    pub open spec fn marker(tag: Tag) -> Streams {
        Streams { tags: seq![tag], strings: Seq::empty(), numbers: Seq::empty() }
    }

    /// One tag with its payload in the string pool.
    pub open spec fn text(tag: Tag, s: Seq<char>) -> Streams {
        Streams { tags: seq![tag], strings: seq![s], numbers: Seq::empty() }
    }

    /// A `Number` tag with its payload in the number pool.
    pub open spec fn number(bits: u64) -> Streams {
        Streams { tags: seq![Tag::Number], strings: Seq::empty(), numbers: seq![bits] }
    }

    /// `self` followed by `other`, sequence by sequence.
    pub open spec fn concat(self, other: Streams) -> Streams {
        Streams {
            tags: self.tags + other.tags,
            strings: self.strings + other.strings,
            numbers: self.numbers + other.numbers,
        }
    }

    /// Each sequence of `self` heads the matching sequence of `other`.
    pub open spec fn is_prefix_of(self, other: Streams) -> bool {
        &&& self.tags.is_prefix_of(other.tags)
        &&& self.strings.is_prefix_of(other.strings)
        &&& self.numbers.is_prefix_of(other.numbers)
    }

    /// What is left of `self` behind a prefix as long as `head`.
    pub open spec fn after(self, head: Streams) -> Streams {
        Streams {
            tags: self.tags.skip(head.tags.len() as int),
            strings: self.strings.skip(head.strings.len() as int),
            numbers: self.numbers.skip(head.numbers.len() as int),
        }
    }

    /// The number of tags that carry a payload in the string pool.
    pub open spec fn string_demand(tags: Seq<Tag>) -> nat {
        tags.filter(|t: Tag| t == Tag::String || t == Tag::Key).len()
    }

    /// The number of tags that carry a payload in the number pool.
    pub open spec fn number_demand(tags: Seq<Tag>) -> nat {
        tags.filter(|t: Tag| t == Tag::Number).len()
    }

    /// Each pool holds one entry for each tag that carries a payload in it.
    pub open spec fn payloads_match(self) -> bool {
        &&& Self::string_demand(self.tags) == self.strings.len()
        &&& Self::number_demand(self.tags) == self.numbers.len()
    }
}

/// The texts that `strings` hold, in their order.
pub open spec fn texts(strings: Seq<String>) -> Seq<Seq<char>> {
    strings.map_values(|s: String| s@)
}

/// Two models with equal sequences are equal.
pub proof fn lemma_streams_equal(a: Streams, b: Streams)
    requires
        a.tags =~= b.tags,
        a.strings =~= b.strings,
        a.numbers =~= b.numbers,
    ensures
        a == b,
{
}

/// Concatenation is associative and has the empty model as its unit.
pub proof fn lemma_concat_laws(a: Streams, b: Streams, c: Streams)
    ensures
        a.concat(b).concat(c) == a.concat(b.concat(c)),
        Streams::empty().concat(a) == a,
        a.concat(Streams::empty()) == a,
{
    lemma_streams_equal(a.concat(b).concat(c), a.concat(b.concat(c)));
    lemma_streams_equal(Streams::empty().concat(a), a);
    lemma_streams_equal(a.concat(Streams::empty()), a);
}

impl JsonTree {
    /// The flattened representation of the tree: its pre-order walk.
    pub open spec fn flattened(self) -> Streams
        decreases self, 0nat,
    {
        match self {
            JsonTree::Null => Streams::marker(Tag::Null),
            JsonTree::Bool(b) => Streams::marker(
                if b {
                    Tag::True
                } else {
                    Tag::False
                },
            ),
            JsonTree::Number(bits) => Streams::number(bits),
            JsonTree::String(s) => Streams::text(Tag::String, s),
            JsonTree::Array(items) => Streams::marker(Tag::StartArray).concat(
                Self::flattened_items(items, items.len()),
            ).concat(Streams::marker(Tag::EndArray)),
            JsonTree::Object(members) => Streams::marker(Tag::StartObject).concat(
                Self::flattened_members(members, members.len()),
            ).concat(Streams::marker(Tag::EndObject)),
        }
    }

    /// The walks of the first `n` trees of `items`, one after the other.
    pub open spec fn flattened_items(items: Seq<JsonTree>, n: nat) -> Streams
        decreases items, n,
    {
        if n == 0 || n > items.len() {
            Streams::empty()
        } else {
            Self::flattened_items(items, (n - 1) as nat).concat(items[n - 1].flattened())
        }
    }

    /// The walks of the first `n` members of `members`, one after the other:
    /// of each its key, then the walk of its value.
    pub open spec fn flattened_members(members: Seq<(Seq<char>, JsonTree)>, n: nat) -> Streams
        decreases members, n,
    {
        if n == 0 || n > members.len() {
            Streams::empty()
        } else {
            Self::flattened_members(members, (n - 1) as nat).concat(
                Streams::text(Tag::Key, members[n - 1].0),
            ).concat(members[n - 1].1.flattened())
        }
    }
}

/// A flattened document, or the concatenation of several.
#[derive(Debug, PartialEq, Eq)]
pub struct Flattened {
    /// The traversal events, in pre-order.
    pub tags: Vec<Tag>,
    /// The payloads of the `String` and `Key` tags, in the order of the tags.
    pub strings: Vec<String>,
    /// The payloads of the `Number` tags, in the order of the tags.
    pub numbers: Vec<u64>,
}

impl View for Flattened {
    type V = Streams;

    open spec fn view(&self) -> Streams {
        Streams { tags: self.tags@, strings: texts(self.strings@), numbers: self.numbers@ }
    }
}

impl Flattened {
    /// Three empty sequences.
    pub fn new() -> (r: Flattened)
        ensures
            r@ == Streams::empty(),
    {
        let r = Flattened { tags: Vec::new(), strings: Vec::new(), numbers: Vec::new() };
        assert(texts(r.strings@) =~= Seq::empty());
        r
    }

    /// The flattened representation made of the three given sequences.
    pub fn new_with_values(tags: Vec<Tag>, strings: Vec<String>, numbers: Vec<u64>) -> (r:
        Flattened)
        ensures
            r.tags == tags,
            r.strings == strings,
            r.numbers == numbers,
    {
        Flattened { tags, strings, numbers }
    }

    /// Appends a tag that carries no payload.
    pub fn push_marker(&mut self, tag: Tag)
        ensures
            final(self)@ == old(self)@.concat(Streams::marker(tag)),
    {
        self.tags.push(tag);
        proof {
            let expected = old(self)@.concat(Streams::marker(tag));
            assert(self@.tags =~= expected.tags);
            assert(self@.strings =~= expected.strings);
            assert(self@.numbers =~= expected.numbers);
        }
    }

    /// Appends a tag and its payload in the string pool.
    pub fn push_text(&mut self, tag: Tag, s: String)
        ensures
            final(self)@ == old(self)@.concat(Streams::text(tag, s@)),
    {
        self.tags.push(tag);
        self.strings.push(s);
        proof {
            let expected = old(self)@.concat(Streams::text(tag, s@));
            assert(self@.tags =~= expected.tags);
            assert(self@.strings =~= expected.strings);
            assert(self@.numbers =~= expected.numbers);
        }
    }

    /// Appends a `Number` tag and its payload in the number pool.
    pub fn push_number(&mut self, bits: u64)
        ensures
            final(self)@ == old(self)@.concat(Streams::number(bits)),
    {
        self.tags.push(Tag::Number);
        self.numbers.push(bits);
        proof {
            let expected = old(self)@.concat(Streams::number(bits));
            assert(self@.tags =~= expected.tags);
            assert(self@.strings =~= expected.strings);
            assert(self@.numbers =~= expected.numbers);
        }
    }
}

} // verus!
