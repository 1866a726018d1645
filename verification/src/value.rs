//! JSON documents as trees, in executable and in mathematical form.

use vstd::prelude::*;
use vstd::string::StringExecFns;

verus! {

/// The mathematical model of a JSON document.
///
/// A number is the bit pattern of an IEEE 754 binary64 value. An object is a
/// sequence of members in insertion order.
pub enum JsonTree {
    Null,
    Bool(bool),
    Number(u64),
    String(Seq<char>),
    Array(Seq<JsonTree>),
    Object(Seq<(Seq<char>, JsonTree)>),
}

/// A JSON document.
///
/// A number is held as the bit pattern of an IEEE 754 binary64 value, as
/// `to_bits` gives it. An object holds its members in insertion order.
#[derive(Debug, PartialEq, Eq)]
pub enum JsonValue {
    Null,
    Bool(bool),
    Number(u64),
    String(String),
    Array(Vec<JsonValue>),
    Object(Vec<(String, JsonValue)>),
}

impl JsonValue {
    /// The tree that the value stands for.
    pub open spec fn model(&self) -> JsonTree
        decreases self,
    {
        match self {
            JsonValue::Null => JsonTree::Null,
            JsonValue::Bool(b) => JsonTree::Bool(*b),
            JsonValue::Number(bits) => JsonTree::Number(*bits),
            JsonValue::String(s) => JsonTree::String(s@),
            JsonValue::Array(items) => JsonTree::Array(
                Seq::new(
                    items.len() as nat,
                    |i: int|
                        if 0 <= i < items.len() {
                            items[i].model()
                        } else {
                            JsonTree::Null
                        },
                ),
            ),
            JsonValue::Object(members) => JsonTree::Object(
                Seq::new(
                    members.len() as nat,
                    |i: int|
                        if 0 <= i < members.len() {
                            (members[i].0@, members[i].1.model())
                        } else {
                            (Seq::empty(), JsonTree::Null)
                        },
                ),
            ),
        }
    }
}

impl View for JsonValue {
    type V = JsonTree;

    open spec fn view(&self) -> JsonTree {
        self.model()
    }
}

impl JsonValue {
    /// The model of an array or an object follows its items or members one
    /// by one.
    pub proof fn lemma_view_children(&self)
        ensures
            self matches JsonValue::Array(items) ==> {
                &&& self@ matches JsonTree::Array(trees)
                &&& trees.len() == items.len()
                &&& forall|i: int| 0 <= i < items.len() ==> trees[i] == (#[trigger] items[i])@
            },
            self matches JsonValue::Object(members) ==> {
                &&& self@ matches JsonTree::Object(pairs)
                &&& pairs.len() == members.len()
                &&& forall|i: int|
                    0 <= i < members.len() ==> pairs[i] == (
                        (#[trigger] members[i]).0@,
                        members[i].1@,
                    )
            },
    {
    }
}

/// The models of the members of an object, in their order.
pub open spec fn members_model(members: Seq<(String, JsonValue)>) -> Seq<(Seq<char>, JsonTree)> {
    Seq::new(members.len(), |i: int| (members[i].0@, members[i].1@))
}

/// The models of the items of an array, in their order.
pub open spec fn items_model(items: Seq<JsonValue>) -> Seq<JsonTree> {
    Seq::new(items.len(), |i: int| items[i]@)
}

/// The model of an array is the array of the models of its items.
pub proof fn lemma_view_of_array(items: Vec<JsonValue>)
    ensures
        JsonValue::Array(items)@ == JsonTree::Array(items_model(items@)),
{
    JsonValue::Array(items).lemma_view_children();
    assert(JsonValue::Array(items)@->Array_0 =~= items_model(items@));
}

/// The model of an object is the object of the models of its members.
pub proof fn lemma_view_of_object(members: Vec<(String, JsonValue)>)
    ensures
        JsonValue::Object(members)@ == JsonTree::Object(members_model(members@)),
{
    JsonValue::Object(members).lemma_view_children();
    assert(JsonValue::Object(members)@->Object_0 =~= members_model(members@));
}

/// The member at position `i` is the first of `members` under `key`.
pub open spec fn first_under(members: Seq<(Seq<char>, JsonTree)>, key: Seq<char>, i: int) -> bool {
    &&& 0 <= i < members.len()
    &&& members[i].0 == key
    &&& forall|j: int| 0 <= j < i ==> (#[trigger] members[j]).0 != key
}

/// The position of the first member of `members` under `key`, if there is
/// one.
pub open spec fn key_index(members: Seq<(Seq<char>, JsonTree)>, key: Seq<char>) -> Option<int> {
    if exists|i: int| first_under(members, key, i) {
        Some(choose|i: int| first_under(members, key, i))
    } else {
        None
    }
}

/// The first member under a key is at one position only.
pub proof fn lemma_key_index_is(members: Seq<(Seq<char>, JsonTree)>, key: Seq<char>, i: int)
    requires
        first_under(members, key, i),
    ensures
        key_index(members, key) == Some(i),
{
    let c = choose|c: int| first_under(members, key, c);
    if c < i {
        assert(members[c].0 != key);
    }
    if i < c {
        assert(members[i].0 != key);
    }
}

/// Where a member is under a key, there is a first one under it.
pub proof fn lemma_key_index_exists(members: Seq<(Seq<char>, JsonTree)>, key: Seq<char>, i: int)
    requires
        0 <= i < members.len(),
        members[i].0 == key,
    ensures
        key_index(members, key) is Some,
    decreases i,
{
    if exists|j: int| 0 <= j < i && (#[trigger] members[j]).0 == key {
        let j = choose|j: int| 0 <= j < i && (#[trigger] members[j]).0 == key;
        lemma_key_index_exists(members, key, j);
    } else {
        assert(first_under(members, key, i));
    }
}

/// No two members of `members` share a key.
pub open spec fn distinct_keys(members: Seq<(Seq<char>, JsonTree)>) -> bool {
    forall|i: int, j: int|
        0 <= i < j < members.len() ==> (#[trigger] members[i]).0 != (#[trigger] members[j]).0
}

/// `members` after `key` is set to `value`, as an insertion-ordered mapping
/// does it: a key that is present keeps its place and takes the new value, a
/// new key goes to the end.
pub open spec fn with_member(
    members: Seq<(Seq<char>, JsonTree)>,
    key: Seq<char>,
    value: JsonTree,
) -> Seq<(Seq<char>, JsonTree)> {
    match key_index(members, key) {
        Some(i) => members.update(i, (key, value)),
        None => members.push((key, value)),
    }
}

/// The value of the first member of `members` under `key`, if there is
/// one.
pub open spec fn member_of(members: Seq<(Seq<char>, JsonTree)>, key: Seq<char>) -> Option<
    JsonTree,
> {
    match key_index(members, key) {
        Some(i) => Some(members[i].1),
        None => None,
    }
}

impl JsonTree {
    /// The value under `key`, where the tree is an object that has the key.
    pub open spec fn get(self, key: Seq<char>) -> Option<JsonTree> {
        match self {
            JsonTree::Object(members) => member_of(members, key),
            _ => None,
        }
    }
}

/// The position of the first member of `members` under `key`, if there is
/// one.
pub fn find_member(members: &Vec<(String, JsonValue)>, key: &String) -> (r: Option<usize>)
    ensures
        match r {
            Some(i) => key_index(members_model(members@), key@) == Some(i as int),
            None => key_index(members_model(members@), key@) is None,
        },
{
    let ghost pairs = members_model(members@);
    let mut i: usize = 0;
    while i < members.len()
        invariant
            i <= members.len(),
            pairs == members_model(members@),
            forall|j: int| 0 <= j < i ==> (#[trigger] pairs[j]).0 != key@,
        decreases members.len() - i,
    {
        if members[i].0 == *key {
            proof {
                lemma_key_index_is(pairs, key@, i as int);
            }
            return Some(i);
        }
        i += 1;
    }
    None
}

impl JsonValue {
    /// The value under `key`, where `self` is an object that has the key.
    pub fn get(&self, key: &str) -> (r: Option<&JsonValue>)
        ensures
            match r {
                Some(v) => self@.get(key@) == Some(v@),
                None => self@.get(key@) is None,
            },
    {
        match self {
            JsonValue::Object(members) => {
                proof {
                    lemma_view_of_object(*members);
                }
                match find_member(members, &String::from_str(key)) {
                    Some(i) => Some(&members[i].1),
                    None => None,
                }
            },
            _ => None,
        }
    }
}

/// Sets `key` to `value` in `members`, as an insertion-ordered mapping does
/// it.
pub fn set_member(members: &mut Vec<(String, JsonValue)>, key: String, value: JsonValue)
    ensures
        members_model(final(members)@) == with_member(
            members_model(old(members)@),
            key@,
            value@,
        ),
        distinct_keys(members_model(old(members)@)) ==> distinct_keys(
            members_model(final(members)@),
        ),
{
    let ghost before = members_model(members@);
    proof {
        if distinct_keys(before) {
            lemma_with_member_distinct(before, key@, value@);
        }
    }
    match find_member(members, &key) {
        Some(i) => {
            members.set(i, (key, value));
            assert(members_model(members@) =~= before.update(i as int, (key@, value@)));
        },
        None => {
            members.push((key, value));
            assert(members_model(members@) =~= before.push((key@, value@)));
        },
    }
}

/// Setting a member keeps the keys distinct.
pub proof fn lemma_with_member_distinct(
    members: Seq<(Seq<char>, JsonTree)>,
    key: Seq<char>,
    value: JsonTree,
)
    requires
        distinct_keys(members),
    ensures
        distinct_keys(with_member(members, key, value)),
{
    let after = with_member(members, key, value);
    match key_index(members, key) {
        Some(c) => {
            assert forall|i: int, j: int| 0 <= i < j < after.len() implies (#[trigger] after[i]).0
                != (#[trigger] after[j]).0 by {
                assert(members[i].0 != members[j].0);
            }
        },
        None => {
            assert forall|i: int, j: int| 0 <= i < j < after.len() implies (#[trigger] after[i]).0
                != (#[trigger] after[j]).0 by {
                if j < members.len() {
                    assert(members[i].0 != members[j].0);
                } else if members[i].0 == key {
                    lemma_key_index_exists(members, key, i);
                }
            }
        },
    }
}

impl JsonTree {
    /// Every object in the tree has distinct keys.
    pub open spec fn well_formed(self) -> bool
        decreases self,
    {
        match self {
            JsonTree::Array(items) => forall|i: int|
                0 <= i < items.len() ==> (#[trigger] items[i]).well_formed(),
            JsonTree::Object(members) => {
                &&& distinct_keys(members)
                &&& forall|i: int|
                    0 <= i < members.len() ==> (#[trigger] members[i]).1.well_formed()
            },
            _ => true,
        }
    }

    /// The tree read as nested mappings: the members of every object are
    /// inserted one after the other into an empty insertion-ordered mapping.
    pub open spec fn normalized(self) -> JsonTree
        decreases self, 0nat,
    {
        match self {
            JsonTree::Array(items) => JsonTree::Array(
                Seq::new(
                    items.len(),
                    |i: int|
                        if 0 <= i < items.len() {
                            items[i].normalized()
                        } else {
                            JsonTree::Null
                        },
                ),
            ),
            JsonTree::Object(members) => JsonTree::Object(
                Self::collected(members, members.len()),
            ),
            _ => self,
        }
    }

    /// The mapping that some members build depends on those members only.
    pub proof fn lemma_collected_local(
        a: Seq<(Seq<char>, JsonTree)>,
        b: Seq<(Seq<char>, JsonTree)>,
        n: nat,
    )
        requires
            n <= a.len(),
            n <= b.len(),
            forall|j: int| 0 <= j < n ==> a[j] == b[j],
        ensures
            Self::collected(a, n) == Self::collected(b, n),
        decreases n,
    {
        if n > 0 {
            Self::lemma_collected_local(a, b, (n - 1) as nat);
        }
    }

    /// Reading a tree as nested mappings gives a well-formed tree.
    pub proof fn lemma_normalized_well_formed(self)
        ensures
            self.normalized().well_formed(),
        decreases self, 0nat,
    {
        match self {
            JsonTree::Array(items) => {
                let out = self.normalized()->Array_0;
                assert forall|i: int| 0 <= i < out.len() implies (#[trigger] out[i]).well_formed() by {
                    items[i].lemma_normalized_well_formed();
                }
            },
            JsonTree::Object(members) => {
                Self::lemma_collected_well_formed(members, members.len());
            },
            _ => {},
        }
    }

    /// The mapping that some members build has distinct keys and well-formed
    /// values.
    pub proof fn lemma_collected_well_formed(members: Seq<(Seq<char>, JsonTree)>, n: nat)
        requires
            n <= members.len(),
        ensures
            distinct_keys(Self::collected(members, n)),
            forall|i: int|
                0 <= i < Self::collected(members, n).len() ==> (#[trigger] Self::collected(
                    members,
                    n,
                )[i]).1.well_formed(),
        decreases members, n,
    {
        if n > 0 {
            let inner = Self::collected(members, (n - 1) as nat);
            let key = members[n - 1].0;
            let value = members[n - 1].1.normalized();
            Self::lemma_collected_well_formed(members, (n - 1) as nat);
            members[n - 1].1.lemma_normalized_well_formed();
            lemma_with_member_distinct(inner, key, value);
            let out = with_member(inner, key, value);
            assert forall|i: int| 0 <= i < out.len() implies (#[trigger] out[i]).1.well_formed() by {
                if i < inner.len() && out[i] == inner[i] {
                    assert(inner[i].1.well_formed());
                }
            }
        }
    }

    /// A well-formed tree is its own reading as nested mappings.
    pub proof fn lemma_well_formed_fixed(self)
        requires
            self.well_formed(),
        ensures
            self.normalized() == self,
        decreases self, 0nat,
    {
        match self {
            JsonTree::Array(items) => {
                let out = self.normalized()->Array_0;
                assert forall|i: int| 0 <= i < items.len() implies out[i] == items[i] by {
                    assert(items[i].well_formed());
                    items[i].lemma_well_formed_fixed();
                }
                assert(out =~= items);
            },
            JsonTree::Object(members) => {
                Self::lemma_collected_fixed(members, members.len());
                assert(members.take(members.len() as int) =~= members);
            },
            _ => {},
        }
    }

    /// Members with distinct keys and well-formed values build the mapping
    /// that holds them as they are.
    pub proof fn lemma_collected_fixed(members: Seq<(Seq<char>, JsonTree)>, n: nat)
        requires
            n <= members.len(),
            distinct_keys(members),
            forall|i: int| 0 <= i < members.len() ==> (#[trigger] members[i]).1.well_formed(),
        ensures
            Self::collected(members, n) == members.take(n as int),
        decreases members, n,
    {
        if n > 0 {
            let inner = Self::collected(members, (n - 1) as nat);
            Self::lemma_collected_fixed(members, (n - 1) as nat);
            assert(members[n - 1].1.well_formed());
            members[n - 1].1.lemma_well_formed_fixed();
            let key = members[n - 1].0;
            assert(key_index(inner, key) is None) by {
                if exists|i: int| first_under(inner, key, i) {
                    let i = choose|i: int| first_under(inner, key, i);
                    assert(members[i].0 != members[n - 1].0);
                }
            }
            assert(inner.push(members[n - 1]) =~= members.take(n as int));
        } else {
            assert(Self::collected(members, n) =~= members.take(n as int));
        }
    }

    /// The mapping that the first `n` members of `members` build.
    pub open spec fn collected(members: Seq<(Seq<char>, JsonTree)>, n: nat) -> Seq<
        (Seq<char>, JsonTree),
    >
        decreases members, n,
    {
        if n == 0 || n > members.len() {
            Seq::empty()
        } else {
            with_member(
                Self::collected(members, (n - 1) as nat),
                members[n - 1].0,
                members[n - 1].1.normalized(),
            )
        }
    }
}

} // verus!
