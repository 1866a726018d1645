//! Structural balance of a tag sequence: every opening tag is matched by a
//! closing tag of its kind at the same depth.

use crate::tag::Tag;
use crate::value::JsonTree;
use vstd::prelude::*;

verus! {

/// The brackets left open by a scan of `tags` that begins with the brackets
/// of `open` open, the innermost last; `None` where a closing tag does not
/// match the innermost open bracket.
pub open spec fn scan(tags: Seq<Tag>, open: Seq<Tag>) -> Option<Seq<Tag>>
    decreases tags.len(),
{
    if tags.len() == 0 {
        Some(open)
    } else {
        match step(tags[0], open) {
            Some(next) => scan(tags.skip(1), next),
            None => None,
        }
    }
}

/// The open brackets after `tag`, or `None` where `tag` closes what is not
/// open.
pub open spec fn step(tag: Tag, open: Seq<Tag>) -> Option<Seq<Tag>> {
    match tag {
        Tag::StartArray | Tag::StartObject => Some(open.push(tag)),
        Tag::EndArray => if open.len() > 0 && open.last() == Tag::StartArray {
            Some(open.drop_last())
        } else {
            None
        },
        Tag::EndObject => if open.len() > 0 && open.last() == Tag::StartObject {
            Some(open.drop_last())
        } else {
            None
        },
        _ => Some(open),
    }
}

/// Every opening tag of `tags` has its closing tag at the same depth, and
/// every closing tag its opening tag.
pub open spec fn balanced(tags: Seq<Tag>) -> bool {
    scan(tags, Seq::empty()) == Some(Seq::<Tag>::empty())
}

/// A scan of `a + b` is a scan of `a` followed by a scan of `b`.
pub proof fn lemma_scan_concat(a: Seq<Tag>, b: Seq<Tag>, open: Seq<Tag>)
    ensures
        scan(a + b, open) == match scan(a, open) {
            Some(mid) => scan(b, mid),
            None => None,
        },
    decreases a.len(),
{
    if a.len() == 0 {
        assert(a + b =~= b);
    } else {
        assert((a + b).skip(1) =~= a.skip(1) + b);
        match step(a[0], open) {
            Some(next) => lemma_scan_concat(a.skip(1), b, next),
            None => {},
        }
    }
}

/// A scan of a single tag is one step.
pub proof fn lemma_scan_one(tag: Tag, open: Seq<Tag>)
    ensures
        scan(seq![tag], open) == step(tag, open),
{
    reveal_with_fuel(scan, 2);
    assert(seq![tag].skip(1).len() == 0);
}

impl JsonTree {
    /// A scan of the walk of a tree leaves the open brackets as it found
    /// them.
    pub proof fn lemma_scan_walk(self, open: Seq<Tag>)
        ensures
            scan(self.flattened().tags, open) == Some(open),
        decreases self, 0nat,
    {
        match self {
            JsonTree::Array(items) => {
                let inner = Self::flattened_items(items, items.len()).tags;
                let inside = open.push(Tag::StartArray);
                lemma_scan_one(Tag::StartArray, open);
                lemma_scan_one(Tag::EndArray, inside);
                Self::lemma_scan_items(items, items.len(), inside);
                lemma_scan_concat(seq![Tag::StartArray], inner, open);
                lemma_scan_concat(seq![Tag::StartArray] + inner, seq![Tag::EndArray], open);
                assert(inside.drop_last() =~= open);
            },
            JsonTree::Object(members) => {
                let inner = Self::flattened_members(members, members.len()).tags;
                let inside = open.push(Tag::StartObject);
                lemma_scan_one(Tag::StartObject, open);
                lemma_scan_one(Tag::EndObject, inside);
                Self::lemma_scan_members(members, members.len(), inside);
                lemma_scan_concat(seq![Tag::StartObject], inner, open);
                lemma_scan_concat(seq![Tag::StartObject] + inner, seq![Tag::EndObject], open);
                assert(inside.drop_last() =~= open);
            },
            _ => {
                lemma_scan_one(self.flattened().tags[0], open);
                assert(self.flattened().tags =~= seq![self.flattened().tags[0]]);
            },
        }
    }

    /// A scan of the walks of some items leaves the open brackets as it
    /// found them.
    pub proof fn lemma_scan_items(items: Seq<JsonTree>, n: nat, open: Seq<Tag>)
        requires
            n <= items.len(),
        ensures
            scan(Self::flattened_items(items, n).tags, open) == Some(open),
        decreases items, n,
    {
        if n > 0 {
            Self::lemma_scan_items(items, (n - 1) as nat, open);
            items[n - 1].lemma_scan_walk(open);
            lemma_scan_concat(
                Self::flattened_items(items, (n - 1) as nat).tags,
                items[n - 1].flattened().tags,
                open,
            );
        }
    }

    /// A scan of the walks of some members leaves the open brackets as it
    /// found them.
    pub proof fn lemma_scan_members(members: Seq<(Seq<char>, JsonTree)>, n: nat, open: Seq<Tag>)
        requires
            n <= members.len(),
        ensures
            scan(Self::flattened_members(members, n).tags, open) == Some(open),
        decreases members, n,
    {
        if n > 0 {
            let before = Self::flattened_members(members, (n - 1) as nat).tags;
            Self::lemma_scan_members(members, (n - 1) as nat, open);
            members[n - 1].1.lemma_scan_walk(open);
            lemma_scan_one(Tag::Key, open);
            lemma_scan_concat(before, seq![Tag::Key], open);
            lemma_scan_concat(before + seq![Tag::Key], members[n - 1].1.flattened().tags, open);
        }
    }

    /// Structural balance: the tags of the walk of a tree are balanced.
    pub proof fn lemma_balanced(self)
        ensures
            balanced(self.flattened().tags),
    {
        self.lemma_scan_walk(Seq::empty());
    }
}

/// Scans `tags` with a stack of open brackets and tells whether they are
/// balanced.
pub fn is_balanced(tags: &[Tag]) -> (b: bool)
    ensures
        b == balanced(tags@),
{
    let mut open: Vec<Tag> = Vec::new();
    let mut i: usize = 0;
    assert(tags@.skip(0) =~= tags@);
    while i < tags.len()
        invariant
            i <= tags.len(),
            scan(tags@, Seq::empty()) == scan(tags@.skip(i as int), open@),
        decreases tags.len() - i,
    {
        let tag = tags[i];
        proof {
            assert(tags@.skip(i as int).skip(1) =~= tags@.skip(i + 1));
        }
        match tag {
            Tag::StartArray | Tag::StartObject => {
                open.push(tag);
            },
            Tag::EndArray => {
                match open.pop() {
                    Some(Tag::StartArray) => {},
                    _ => {
                        return false;
                    },
                }
            },
            Tag::EndObject => {
                match open.pop() {
                    Some(Tag::StartObject) => {},
                    _ => {
                        return false;
                    },
                }
            },
            _ => {},
        }
        i += 1;
    }
    let ghost left = open@;
    assert(left.len() == 0 ==> left =~= Seq::<Tag>::empty());
    open.len() == 0
}

} // verus!
