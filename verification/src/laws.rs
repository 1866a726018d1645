//! What holds of flattening and reconstruction taken together.

use crate::decoding::{leading, lemma_leading_is, opening_tag, reads_as};
use crate::flattened::{lemma_streams_equal, Streams};
use crate::reconstruct::streams_of;
use crate::tag::Tag;
use crate::value::JsonTree;
use vstd::prelude::*;

verus! {

/// Round trip: the document at the head of the walk of a tree is that tree,
/// and a well-formed tree read back as nested mappings is itself. So
/// reconstruction of what flattening gave returns the document that was
/// flattened.
pub proof fn lemma_round_trip(tree: JsonTree)
    requires
        tree.well_formed(),
    ensures
        leading(tree.flattened()) == Some(tree),
        tree.normalized() == tree,
        reads_as(tree.flattened(), tree),
{
    tree.flattened().lemma_prefix_order(Streams::empty(), Streams::empty());
    lemma_leading_is(tree, tree.flattened());
    tree.lemma_well_formed_fixed();
}

/// Consumption count: the document at the head of the walk of a tree takes
/// the whole of each of the three sequences, no more and no less.
pub proof fn lemma_consumes_all(tree: JsonTree)
    ensures
        leading(tree.flattened()) matches Some(t) && t.flattened().tags.len()
            == tree.flattened().tags.len() && t.flattened().strings.len()
            == tree.flattened().strings.len() && t.flattened().numbers.len()
            == tree.flattened().numbers.len(),
{
    tree.flattened().lemma_prefix_order(Streams::empty(), Streams::empty());
    lemma_leading_is(tree, tree.flattened());
}

/// Batch independence: where the walk of `first` is followed by anything,
/// the document at the head is `first`, and what lies behind as many
/// elements as its walk has is what followed. So the walks of several
/// documents, one after the other, are read back one by one.
pub proof fn lemma_batch(first: JsonTree, rest: Streams)
    ensures
        leading(first.flattened().concat(rest)) == Some(first),
        first.flattened().concat(rest).after(first.flattened()) == rest,
{
    let walk = first.flattened();
    walk.lemma_prefix_order(rest, Streams::empty());
    lemma_leading_is(first, walk.concat(rest));
    lemma_streams_equal(walk.concat(rest).after(walk), rest);
}

/// Batch independence for two documents: from the walk of `a` followed by
/// the walk of `b`, `a` is read first and `b` from what is left.
pub proof fn lemma_batch_of_two(a: JsonTree, b: JsonTree)
    ensures
        leading(a.flattened().concat(b.flattened())) == Some(a),
        leading(a.flattened().concat(b.flattened()).after(a.flattened())) == Some(b),
{
    lemma_batch(a, b.flattened());
    b.flattened().lemma_prefix_order(Streams::empty(), Streams::empty());
    lemma_leading_is(b, b.flattened());
}

/// The remainder by counts: three sequences, each without as many of its
/// first elements as a walk at their head has, are what is left behind
/// that walk.
pub proof fn lemma_remainder(tags: Seq<Tag>, strings: Seq<String>, numbers: Seq<u64>, head: Streams)
    requires
        head.is_prefix_of(streams_of(tags, strings, numbers)),
    ensures
        streams_of(
            tags.skip(head.tags.len() as int),
            strings.skip(head.strings.len() as int),
            numbers.skip(head.numbers.len() as int),
        ) == streams_of(tags, strings, numbers).after(head),
{
    lemma_streams_equal(
        streams_of(
            tags.skip(head.tags.len() as int),
            strings.skip(head.strings.len() as int),
            numbers.skip(head.numbers.len() as int),
        ),
        streams_of(tags, strings, numbers).after(head),
    );
}

/// The demand of tags for payloads adds up over concatenation.
pub proof fn lemma_demand_adds(a: Seq<Tag>, b: Seq<Tag>)
    ensures
        Streams::string_demand(a + b) == Streams::string_demand(a) + Streams::string_demand(b),
        Streams::number_demand(a + b) == Streams::number_demand(a) + Streams::number_demand(b),
{
    Seq::filter_distributes_over_add(a, b, |t: Tag| t == Tag::String || t == Tag::Key);
    Seq::filter_distributes_over_add(a, b, |t: Tag| t == Tag::Number);
}

/// The demand of a single tag.
pub proof fn lemma_demand_of_one(tag: Tag)
    ensures
        Streams::string_demand(seq![tag]) == (if tag == Tag::String || tag == Tag::Key {
            1nat
        } else {
            0nat
        }),
        Streams::number_demand(seq![tag]) == (if tag == Tag::Number {
            1nat
        } else {
            0nat
        }),
{
    reveal_with_fuel(Seq::filter, 2);
    assert(seq![tag].drop_last() =~= Seq::<Tag>::empty());
}

/// Where two models have matching payloads, so has their concatenation.
pub proof fn lemma_payloads_concat(a: Streams, b: Streams)
    requires
        a.payloads_match(),
        b.payloads_match(),
    ensures
        a.concat(b).payloads_match(),
{
    lemma_demand_adds(a.tags, b.tags);
}

impl JsonTree {
    /// Payload invariant: in the walk of a tree the string pool holds one
    /// entry for each `String` and `Key` tag, and the number pool one for
    /// each `Number` tag.
    pub proof fn lemma_payloads_match(self)
        ensures
            self.flattened().payloads_match(),
        decreases self, 0nat,
    {
        lemma_demand_of_one(opening_tag(self));
        match self {
            JsonTree::Array(items) => {
                lemma_demand_of_one(Tag::EndArray);
                Self::lemma_items_payloads_match(items, items.len());
                lemma_payloads_concat(
                    Streams::marker(Tag::StartArray),
                    Self::flattened_items(items, items.len()),
                );
                lemma_payloads_concat(
                    Streams::marker(Tag::StartArray).concat(
                        Self::flattened_items(items, items.len()),
                    ),
                    Streams::marker(Tag::EndArray),
                );
            },
            JsonTree::Object(members) => {
                lemma_demand_of_one(Tag::EndObject);
                Self::lemma_members_payloads_match(members, members.len());
                lemma_payloads_concat(
                    Streams::marker(Tag::StartObject),
                    Self::flattened_members(members, members.len()),
                );
                lemma_payloads_concat(
                    Streams::marker(Tag::StartObject).concat(
                        Self::flattened_members(members, members.len()),
                    ),
                    Streams::marker(Tag::EndObject),
                );
            },
            _ => {},
        }
    }

    /// The payload invariant for the walks of some items.
    pub proof fn lemma_items_payloads_match(items: Seq<JsonTree>, n: nat)
        requires
            n <= items.len(),
        ensures
            Self::flattened_items(items, n).payloads_match(),
        decreases items, n,
    {
        if n > 0 {
            Self::lemma_items_payloads_match(items, (n - 1) as nat);
            items[n - 1].lemma_payloads_match();
            lemma_payloads_concat(
                Self::flattened_items(items, (n - 1) as nat),
                items[n - 1].flattened(),
            );
        } else {
            assert(Seq::<Tag>::empty().filter(|t: Tag| t == Tag::String || t == Tag::Key).len()
                == 0);
            assert(Seq::<Tag>::empty().filter(|t: Tag| t == Tag::Number).len() == 0);
        }
    }

    /// The payload invariant for the walks of some members.
    pub proof fn lemma_members_payloads_match(members: Seq<(Seq<char>, JsonTree)>, n: nat)
        requires
            n <= members.len(),
        ensures
            Self::flattened_members(members, n).payloads_match(),
        decreases members, n,
    {
        if n > 0 {
            let key = Streams::text(Tag::Key, members[n - 1].0);
            Self::lemma_members_payloads_match(members, (n - 1) as nat);
            members[n - 1].1.lemma_payloads_match();
            lemma_demand_of_one(Tag::Key);
            lemma_payloads_concat(Self::flattened_members(members, (n - 1) as nat), key);
            lemma_payloads_concat(
                Self::flattened_members(members, (n - 1) as nat).concat(key),
                members[n - 1].1.flattened(),
            );
        } else {
            assert(Seq::<Tag>::empty().filter(|t: Tag| t == Tag::String || t == Tag::Key).len()
                == 0);
            assert(Seq::<Tag>::empty().filter(|t: Tag| t == Tag::Number).len() == 0);
        }
    }
}

} // verus!
