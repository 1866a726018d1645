//! The flattener: from a document tree to its flattened representation.

use crate::flattened::{lemma_concat_laws, Flattened, Streams};
use crate::tag::Tag;
use crate::value::{JsonTree, JsonValue};
use vstd::prelude::*;

verus! {

/// Flattens `value`: walks it in pre-order and returns the tags, strings and
/// numbers of the walk.
///
/// The walk is recursive: the call stack grows with the depth of nesting of
/// `value`.
pub fn flatten(value: &JsonValue) -> (r: Flattened)
    ensures
        r@ == value@.flattened(),
{
    let mut out = Flattened::new();
    flatten_into(value, &mut out);
    proof {
        lemma_concat_laws(value@.flattened(), Streams::empty(), Streams::empty());
    }
    out
}

/// Appends the flattened representation of `value` to `out`.
pub fn flatten_into(value: &JsonValue, out: &mut Flattened)
    ensures
        final(out)@ == old(out)@.concat(value@.flattened()),
    decreases value,
{
    let ghost start = out@;
    proof {
        value.lemma_view_children();
    }
    match value {
        JsonValue::Null => out.push_marker(Tag::Null),
        JsonValue::Bool(b) => out.push_marker(
            if *b {
                Tag::True
            } else {
                Tag::False
            },
        ),
        JsonValue::Number(bits) => out.push_number(*bits),
        JsonValue::String(s) => out.push_text(Tag::String, s.clone()),
        JsonValue::Array(items) => {
            out.push_marker(Tag::StartArray);
            let ghost trees = value@->Array_0;
            let mut i: usize = 0;
            while i < items.len()
                invariant
                    i <= items.len(),
                    *value == JsonValue::Array(*items),
                    trees == value@->Array_0,
                    trees.len() == items.len(),
                    forall|j: int| 0 <= j < items.len() ==> trees[j] == (#[trigger] items[j])@,
                    out@ == start.concat(Streams::marker(Tag::StartArray)).concat(
                        JsonTree::flattened_items(trees, i as nat),
                    ),
                decreases items.len() - i,
            {
                let ghost before = out@;
                flatten_into(&items[i], out);
                proof {
                    lemma_concat_laws(
                        start.concat(Streams::marker(Tag::StartArray)),
                        JsonTree::flattened_items(trees, i as nat),
                        items[i as int]@.flattened(),
                    );
                }
                i += 1;
            }
            out.push_marker(Tag::EndArray);
            proof {
                lemma_concat_laws(
                    start,
                    Streams::marker(Tag::StartArray),
                    JsonTree::flattened_items(trees, trees.len()),
                );
                lemma_concat_laws(
                    start,
                    Streams::marker(Tag::StartArray).concat(
                        JsonTree::flattened_items(trees, trees.len()),
                    ),
                    Streams::marker(Tag::EndArray),
                );
            }
        },
        JsonValue::Object(members) => {
            out.push_marker(Tag::StartObject);
            let ghost pairs = value@->Object_0;
            let mut i: usize = 0;
            while i < members.len()
                invariant
                    i <= members.len(),
                    *value == JsonValue::Object(*members),
                    pairs == value@->Object_0,
                    pairs.len() == members.len(),
                    forall|j: int|
                        0 <= j < members.len() ==> pairs[j] == (
                            (#[trigger] members[j]).0@,
                            members[j].1@,
                        ),
                    out@ == start.concat(Streams::marker(Tag::StartObject)).concat(
                        JsonTree::flattened_members(pairs, i as nat),
                    ),
                decreases members.len() - i,
            {
                out.push_text(Tag::Key, members[i].0.clone());
                flatten_into(&members[i].1, out);
                proof {
                    let head = start.concat(Streams::marker(Tag::StartObject));
                    let done = JsonTree::flattened_members(pairs, i as nat);
                    let key = Streams::text(Tag::Key, pairs[i as int].0);
                    lemma_concat_laws(head, done, key);
                    lemma_concat_laws(head, done.concat(key), pairs[i as int].1.flattened());
                }
                i += 1;
            }
            out.push_marker(Tag::EndObject);
            proof {
                lemma_concat_laws(
                    start,
                    Streams::marker(Tag::StartObject),
                    JsonTree::flattened_members(pairs, pairs.len()),
                );
                lemma_concat_laws(
                    start,
                    Streams::marker(Tag::StartObject).concat(
                        JsonTree::flattened_members(pairs, pairs.len()),
                    ),
                    Streams::marker(Tag::EndObject),
                );
            }
        },
    }
}

} // verus!
