//! Reading JSON text into documents, with `serde_json` as the parser.

use crate::value::{
    distinct_keys, items_model, lemma_view_of_array, lemma_view_of_object, members_model,
    JsonTree, JsonValue,
};
use vstd::prelude::*;

verus! {

/// `serde_json::Value`: a parsed value, carried as it is.
#[verifier::external_type_specification]
#[verifier::external_body]
pub struct ExTextValue(serde_json::Value);

/// `serde_json::Number`: a parsed number, carried as it is.
#[verifier::external_type_specification]
#[verifier::external_body]
pub struct ExTextNumber(serde_json::Number);

/// `serde_json::Map`: the members of a parsed object, carried as they are.
#[verifier::external_type_specification]
#[verifier::external_body]
#[verifier::reject_recursive_types(K)]
#[verifier::reject_recursive_types(V)]
pub struct ExTextMap<K, V>(serde_json::Map<K, V>);

/// `serde_json::Error`: why the parser refused a text, carried as it is.
#[verifier::external_type_specification]
#[verifier::external_body]
pub struct ExTextError(serde_json::Error);

/// What a parsed value holds. A number holds the bit pattern of the 64-bit
/// float that stands for it, where there is one. An object holds its
/// members in the order of the parser's map.
pub enum Parsed {
    Null,
    Bool(bool),
    Number(Option<u64>),
    String(Seq<char>),
    Array(Seq<Parsed>),
    Object(Seq<(Seq<char>, Parsed)>),
}

/// What a `serde_json::Value` holds.
pub uninterp spec fn contents(v: serde_json::Value) -> Parsed;

/// The bit pattern of what `serde_json::Number::as_f64` gives for a number.
pub uninterp spec fn number_bits(n: serde_json::Number) -> Option<u64>;

/// The entries of a `serde_json::Map`, in the order in which it is walked.
pub uninterp spec fn map_entries(m: serde_json::Map<String, serde_json::Value>) -> Seq<
    (Seq<char>, Parsed),
>;

/// What `serde_json::from_slice` makes of a text, `None` where it refuses
/// the text.
pub uninterp spec fn parsed(text: Seq<u8>) -> Option<Parsed>;

/// A `serde_json::Value` by its variant, with the fields of the variant.
pub enum Shape<'a> {
    Null,
    Bool(bool),
    Number(&'a serde_json::Number),
    String(&'a String),
    Array(&'a Vec<serde_json::Value>),
    Object(&'a serde_json::Map<String, serde_json::Value>),
}

impl<'a> Shape<'a> {
    /// What a value of this shape holds.
    pub open spec fn holds(self) -> Parsed {
        match self {
            Shape::Null => Parsed::Null,
            Shape::Bool(b) => Parsed::Bool(b),
            Shape::Number(n) => Parsed::Number(number_bits(*n)),
            Shape::String(s) => Parsed::String(s@),
            Shape::Array(items) => Parsed::Array(
                items@.map_values(|x: serde_json::Value| contents(x)),
            ),
            Shape::Object(m) => Parsed::Object(map_entries(*m)),
        }
    }
}

/// `serde_json::from_slice`, asked for a `serde_json::Value`. The contract
/// names what the parser makes of the text and says no more of it.
#[verifier::external_body]
fn parse_text(text: &[u8]) -> (r: Result<serde_json::Value, serde_json::Error>)
    ensures
        match r {
            Ok(v) => parsed(text@) == Some(contents(v)),
            Err(_) => parsed(text@) is None,
        },
{
    serde_json::from_slice::<serde_json::Value>(text)
}

/// Tells the six variants of `serde_json::Value` apart and hands out the
/// fields of the variant found. The contract ties what the value holds to
/// what the fields hold.
#[verifier::external_body]
fn shape<'a>(v: &'a serde_json::Value) -> (r: Shape<'a>)
    ensures
        contents(*v) == r.holds(),
{
    match v {
        serde_json::Value::Null => Shape::Null,
        serde_json::Value::Bool(b) => Shape::Bool(*b),
        serde_json::Value::Number(n) => Shape::Number(n),
        serde_json::Value::String(s) => Shape::String(s),
        serde_json::Value::Array(items) => Shape::Array(items),
        serde_json::Value::Object(m) => Shape::Object(m),
    }
}

/// `serde_json::Number::as_f64`, the float handed out as its bit pattern.
/// The contract names the result and says no more of it.
#[verifier::external_body]
fn bits(n: &serde_json::Number) -> (r: Option<u64>)
    ensures
        r == number_bits(*n),
{
    n.as_f64().map(|x| x.to_bits())
}

/// `serde_json::Map::iter`, collected: the entries in the map's order. The
/// contract says that these are the entries of the map and that, as in
/// every map, no key comes twice.
#[verifier::external_body]
fn entries<'a>(m: &'a serde_json::Map<String, serde_json::Value>) -> (r: Vec<
    (&'a String, &'a serde_json::Value),
>)
    ensures
        r@.len() == map_entries(*m).len(),
        forall|i: int|
            0 <= i < r@.len() ==> map_entries(*m)[i] == ((#[trigger] r@[i]).0@, contents(*r@[i].1)),
        forall|i: int, j: int|
            0 <= i < j < r@.len() ==> (#[trigger] r@[i]).0@ != (#[trigger] r@[j]).0@,
{
    m.iter().collect()
}

/// The document that a parsed value stands for: `None` where one of its
/// numbers has no 64-bit float.
pub open spec fn lowered(p: Parsed) -> Option<JsonTree>
    decreases p, 0nat,
{
    match p {
        Parsed::Null => Some(JsonTree::Null),
        Parsed::Bool(b) => Some(JsonTree::Bool(b)),
        Parsed::Number(n) => match n {
            Some(b) => Some(JsonTree::Number(b)),
            None => None,
        },
        Parsed::String(s) => Some(JsonTree::String(s)),
        Parsed::Array(items) => match lowered_items(items, items.len()) {
            Some(trees) => Some(JsonTree::Array(trees)),
            None => None,
        },
        Parsed::Object(members) => match lowered_members(members, members.len()) {
            Some(pairs) => Some(JsonTree::Object(pairs)),
            None => None,
        },
    }
}

/// The documents that the first `n` of `items` stand for: `None` where one
/// of them stands for none.
pub open spec fn lowered_items(items: Seq<Parsed>, n: nat) -> Option<Seq<JsonTree>>
    decreases items, n,
{
    if n == 0 || n > items.len() {
        Some(Seq::empty())
    } else {
        match (lowered_items(items, (n - 1) as nat), lowered(items[n - 1])) {
            (Some(trees), Some(tree)) => Some(trees.push(tree)),
            _ => None,
        }
    }
}

/// The members that the first `n` of `members` stand for: `None` where the
/// value of one of them stands for no document.
pub open spec fn lowered_members(members: Seq<(Seq<char>, Parsed)>, n: nat) -> Option<
    Seq<(Seq<char>, JsonTree)>,
>
    decreases members, n,
{
    if n == 0 || n > members.len() {
        Some(Seq::empty())
    } else {
        match (lowered_members(members, (n - 1) as nat), lowered(members[n - 1].1)) {
            (Some(pairs), Some(tree)) => Some(pairs.push((members[n - 1].0, tree))),
            _ => None,
        }
    }
}

/// Where some items stand for no documents, more of them stand for none.
pub proof fn lemma_lowered_items_fail(items: Seq<Parsed>, n: nat, m: nat)
    requires
        n <= m <= items.len(),
        lowered_items(items, n) is None,
    ensures
        lowered_items(items, m) is None,
    decreases m,
{
    if n < m {
        lemma_lowered_items_fail(items, n, (m - 1) as nat);
    }
}

/// Where some members stand for no members, more of them stand for none.
pub proof fn lemma_lowered_members_fail(members: Seq<(Seq<char>, Parsed)>, n: nat, m: nat)
    requires
        n <= m <= members.len(),
        lowered_members(members, n) is None,
    ensures
        lowered_members(members, m) is None,
    decreases m,
{
    if n < m {
        lemma_lowered_members_fail(members, n, (m - 1) as nat);
    }
}

/// Why a text gave no document.
#[derive(Clone, Copy, Debug, PartialEq, Eq, Structural)]
pub enum ParseError {
    /// The parser refused the text.
    Syntax,
    /// A number of the text has no finite 64-bit float.
    NumberOutOfRange,
}

/// The document that a parsed value stands for: every number as the bit
/// pattern of its 64-bit float, every object with its members in the order
/// of the parser's map. `None` where a number has no such float.
pub fn document_from(v: &serde_json::Value) -> (r: Option<JsonValue>)
    ensures
        match r {
            Some(doc) => lowered(contents(*v)) == Some(doc@) && doc@.well_formed(),
            None => lowered(contents(*v)) is None,
        },
    decreases contents(*v),
{
    match shape(v) {
        Shape::Null => Some(JsonValue::Null),
        Shape::Bool(b) => Some(JsonValue::Bool(b)),
        Shape::Number(n) => match bits(n) {
            Some(b) => Some(JsonValue::Number(b)),
            None => None,
        },
        Shape::String(s) => Some(JsonValue::String(s.clone())),
        Shape::Array(items) => {
            let ghost held = contents(*v)->Array_0;
            let mut out: Vec<JsonValue> = Vec::new();
            let mut i: usize = 0;
            assert(items_model(out@) =~= Seq::empty());
            while i < items.len()
                invariant
                    i <= items.len(),
                    contents(*v) == Parsed::Array(held),
                    held == items@.map_values(|x: serde_json::Value| contents(x)),
                    lowered_items(held, i as nat) == Some(items_model(out@)),
                    forall|j: int| 0 <= j < out@.len() ==> (#[trigger] out@[j])@.well_formed(),
                decreases items.len() - i,
            {
                assert(held[i as int] == contents(items@[i as int]));
                match document_from(&items[i]) {
                    Some(doc) => {
                        assert(items_model(out@.push(doc)) =~= items_model(out@).push(doc@));
                        out.push(doc);
                    },
                    None => {
                        proof {
                            lemma_lowered_items_fail(held, (i + 1) as nat, held.len());
                        }
                        return None;
                    },
                }
                i += 1;
            }
            proof {
                lemma_view_of_array(out);
                JsonValue::Array(out).lemma_view_children();
            }
            Some(JsonValue::Array(out))
        },
        Shape::Object(m) => {
            let ghost held = contents(*v)->Object_0;
            let found = entries(m);
            let mut out: Vec<(String, JsonValue)> = Vec::new();
            let mut i: usize = 0;
            assert(members_model(out@) =~= Seq::empty());
            while i < found.len()
                invariant
                    i <= found.len(),
                    contents(*v) == Parsed::Object(held),
                    held.len() == found@.len(),
                    forall|j: int|
                        0 <= j < found@.len() ==> held[j] == (
                            (#[trigger] found@[j]).0@,
                            contents(*found@[j].1),
                        ),
                    lowered_members(held, i as nat) == Some(members_model(out@)),
                    out@.len() == i,
                    forall|j: int|
                        0 <= j < out@.len() ==> (#[trigger] out@[j]).0@ == found@[j].0@
                            && out@[j].1@.well_formed(),
                decreases found.len() - i,
            {
                assert(held[i as int].1 == contents(*found@[i as int].1));
                match document_from(found[i].1) {
                    Some(doc) => {
                        let key = found[i].0.clone();
                        assert(members_model(out@.push((key, doc))) =~= members_model(out@).push(
                            (key@, doc@),
                        ));
                        out.push((key, doc));
                    },
                    None => {
                        proof {
                            lemma_lowered_members_fail(held, (i + 1) as nat, held.len());
                        }
                        return None;
                    },
                }
                i += 1;
            }
            proof {
                lemma_view_of_object(out);
                JsonValue::Object(out).lemma_view_children();
                let built = members_model(out@);
                assert(distinct_keys(built)) by {
                    assert forall|a: int, b: int| 0 <= a < b < built.len() implies (
                    #[trigger] built[a]).0 != (#[trigger] built[b]).0 by {
                        assert(found@[a].0@ != found@[b].0@);
                        assert(out@[a].0@ == found@[a].0@);
                        assert(out@[b].0@ == found@[b].0@);
                    }
                }
            }
            Some(JsonValue::Object(out))
        },
    }
}

/// Parses a JSON text into a document.
///
/// Fails with `Syntax` where the parser refuses the text, and with
/// `NumberOutOfRange` where it accepts the text and one of its numbers has
/// no finite 64-bit float.
pub fn parse_document(text: &[u8]) -> (r: Result<JsonValue, ParseError>)
    ensures
        match r {
            Ok(doc) => parsed(text@) matches Some(p) && lowered(p) == Some(doc@)
                && doc@.well_formed(),
            Err(ParseError::Syntax) => parsed(text@) is None,
            Err(ParseError::NumberOutOfRange) => parsed(text@) matches Some(p) && lowered(p) is None,
        },
{
    match parse_text(text) {
        Ok(v) => match document_from(&v) {
            Some(doc) => Ok(doc),
            None => Err(ParseError::NumberOutOfRange),
        },
        Err(_) => Err(ParseError::Syntax),
    }
}

} // verus!
