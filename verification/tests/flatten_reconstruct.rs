use json_columnar::balance::is_balanced;
use json_columnar::flatten::{flatten, flatten_into};
use json_columnar::flattened::Flattened;
use json_columnar::reconstruct::{reconstruct, CodecError};
use json_columnar::tag::Tag;
use json_columnar::value::{find_member, set_member, JsonValue};

fn num(x: f64) -> JsonValue {
    JsonValue::Number(x.to_bits())
}

fn text(s: &str) -> JsonValue {
    JsonValue::String(s.to_string())
}

fn object(members: Vec<(&str, JsonValue)>) -> JsonValue {
    JsonValue::Object(members.into_iter().map(|(k, v)| (k.to_string(), v)).collect())
}

fn strings(items: &[&str]) -> Vec<String> {
    items.iter().map(|s| s.to_string()).collect()
}

fn nested_document() -> JsonValue {
    object(vec![
        ("a", num(1.0)),
        ("b", JsonValue::Array(vec![num(2.0), num(3.0)])),
        ("c", object(vec![("d", num(4.0))])),
    ])
}

#[test]
fn flatten_nested_object_gives_its_three_sequences() {
    let flat = flatten(&nested_document());
    assert_eq!(
        flat.tags,
        vec![
            Tag::StartObject,
            Tag::Key,
            Tag::Number,
            Tag::Key,
            Tag::StartArray,
            Tag::Number,
            Tag::Number,
            Tag::EndArray,
            Tag::Key,
            Tag::StartObject,
            Tag::Key,
            Tag::Number,
            Tag::EndObject,
            Tag::EndObject,
        ]
    );
    assert_eq!(flat.strings, strings(&["a", "b", "c", "d"]));
    let numbers: Vec<f64> = flat.numbers.iter().map(|b| f64::from_bits(*b)).collect();
    assert_eq!(numbers, vec![1.0, 2.0, 3.0, 4.0]);
}

#[test]
fn reconstruct_nested_object_gives_back_the_input() {
    let value = nested_document();
    let flat = flatten(&value);
    let done = reconstruct(&flat.tags, &flat.strings, &flat.numbers).unwrap();
    assert_eq!(done.value, value);
    assert_eq!(done.tags, 14);
    assert_eq!(done.strings, 4);
    assert_eq!(done.numbers, 4);
}

#[test]
fn empty_array_flattens_to_its_two_brackets() {
    let flat = flatten(&JsonValue::Array(vec![]));
    assert_eq!(flat.tags, vec![Tag::StartArray, Tag::EndArray]);
    assert!(flat.strings.is_empty());
    assert!(flat.numbers.is_empty());
    let done = flat.reconstruct().unwrap();
    assert_eq!(done.value, JsonValue::Array(vec![]));
    assert_eq!((done.tags, done.strings, done.numbers), (2, 0, 0));
}

#[test]
fn empty_object_flattens_to_its_two_braces() {
    let flat = flatten(&JsonValue::Object(vec![]));
    assert_eq!(flat.tags, vec![Tag::StartObject, Tag::EndObject]);
    assert!(flat.strings.is_empty());
    assert!(flat.numbers.is_empty());
    let done = flat.reconstruct().unwrap();
    assert_eq!(done.value, JsonValue::Object(vec![]));
    assert_eq!((done.tags, done.strings, done.numbers), (2, 0, 0));
}

#[test]
fn scalars_flatten_to_one_tag_each() {
    assert_eq!(flatten(&JsonValue::Null).tags, vec![Tag::Null]);
    assert_eq!(flatten(&JsonValue::Bool(true)).tags, vec![Tag::True]);
    assert_eq!(flatten(&JsonValue::Bool(false)).tags, vec![Tag::False]);
    let n = flatten(&num(2.5));
    assert_eq!(n.tags, vec![Tag::Number]);
    assert_eq!(n.numbers, vec![2.5f64.to_bits()]);
    assert!(n.strings.is_empty());
    let s = flatten(&text("hi"));
    assert_eq!(s.tags, vec![Tag::String]);
    assert_eq!(s.strings, strings(&["hi"]));
    assert!(s.numbers.is_empty());
}

#[test]
fn scalars_are_reconstructed_with_their_counts() {
    let none: Vec<String> = vec![];
    let done = reconstruct(&[Tag::Null], &none, &[]).unwrap();
    assert_eq!((done.value, done.tags, done.strings, done.numbers), (JsonValue::Null, 1, 0, 0));
    let done = reconstruct(&[Tag::True], &none, &[]).unwrap();
    assert_eq!(done.value, JsonValue::Bool(true));
    let done = reconstruct(&[Tag::False], &none, &[]).unwrap();
    assert_eq!(done.value, JsonValue::Bool(false));
    let done = reconstruct(&[Tag::Number], &none, &[7.0f64.to_bits()]).unwrap();
    assert_eq!((done.value, done.tags, done.strings, done.numbers), (num(7.0), 1, 0, 1));
    let done = reconstruct(&[Tag::String], &strings(&["x"]), &[]).unwrap();
    assert_eq!((done.value, done.tags, done.strings, done.numbers), (text("x"), 1, 1, 0));
}

#[test]
fn stray_end_array_is_structural_corruption() {
    let none: Vec<String> = vec![];
    let r = reconstruct(&[Tag::EndArray], &none, &[]);
    assert_eq!(r, Err(CodecError::StructuralCorruption));
}

#[test]
fn stray_closers_and_keys_are_structural_corruption() {
    let none: Vec<String> = vec![];
    assert_eq!(reconstruct(&[Tag::EndObject], &none, &[]), Err(CodecError::StructuralCorruption));
    assert_eq!(
        reconstruct(&[Tag::Key, Tag::Null], &strings(&["k"]), &[]),
        Err(CodecError::StructuralCorruption)
    );
    assert_eq!(reconstruct(&[], &none, &[]), Err(CodecError::StructuralCorruption));
}

#[test]
fn missing_payloads_are_structural_corruption() {
    let none: Vec<String> = vec![];
    assert_eq!(reconstruct(&[Tag::Number], &none, &[]), Err(CodecError::StructuralCorruption));
    assert_eq!(reconstruct(&[Tag::String], &none, &[]), Err(CodecError::StructuralCorruption));
    assert_eq!(
        reconstruct(&[Tag::StartObject, Tag::Key, Tag::Null, Tag::EndObject], &none, &[]),
        Err(CodecError::StructuralCorruption)
    );
    assert_eq!(
        reconstruct(&[Tag::StartArray, Tag::Number, Tag::Number, Tag::EndArray], &none, &[1]),
        Err(CodecError::StructuralCorruption)
    );
}

#[test]
fn unmatched_brackets_are_structural_corruption() {
    let none: Vec<String> = vec![];
    assert_eq!(reconstruct(&[Tag::StartArray], &none, &[]), Err(CodecError::StructuralCorruption));
    assert_eq!(
        reconstruct(&[Tag::StartArray, Tag::Null], &none, &[]),
        Err(CodecError::StructuralCorruption)
    );
    assert_eq!(
        reconstruct(&[Tag::StartArray, Tag::EndObject], &none, &[]),
        Err(CodecError::StructuralCorruption)
    );
    assert_eq!(
        reconstruct(&[Tag::StartObject, Tag::EndArray], &none, &[]),
        Err(CodecError::StructuralCorruption)
    );
    assert_eq!(
        reconstruct(&[Tag::StartObject, Tag::Key], &strings(&["k"]), &[]),
        Err(CodecError::StructuralCorruption)
    );
    assert_eq!(
        reconstruct(&[Tag::StartObject, Tag::Key, Tag::EndObject], &strings(&["k"]), &[]),
        Err(CodecError::StructuralCorruption)
    );
}

#[test]
fn a_value_where_a_key_is_due_is_structural_corruption() {
    let none: Vec<String> = vec![];
    assert_eq!(
        reconstruct(&[Tag::StartObject, Tag::Null, Tag::EndObject], &none, &[]),
        Err(CodecError::StructuralCorruption)
    );
    assert_eq!(
        reconstruct(&[Tag::StartArray, Tag::Key, Tag::Null, Tag::EndArray], &strings(&["k"]), &[]),
        Err(CodecError::StructuralCorruption)
    );
}

#[test]
fn reconstruct_reads_the_head_and_leaves_the_rest() {
    let tags = [Tag::Number, Tag::String, Tag::Null];
    let done = reconstruct(&tags, &strings(&["s"]), &[9.0f64.to_bits()]).unwrap();
    assert_eq!(done.value, num(9.0));
    assert_eq!((done.tags, done.strings, done.numbers), (1, 0, 1));
}

#[test]
fn a_key_that_comes_again_keeps_its_place_and_takes_the_later_value() {
    let tags = [
        Tag::StartObject,
        Tag::Key,
        Tag::Number,
        Tag::Key,
        Tag::Null,
        Tag::Key,
        Tag::True,
        Tag::EndObject,
    ];
    let done = reconstruct(&tags, &strings(&["a", "b", "a"]), &[1.0f64.to_bits()]).unwrap();
    assert_eq!(done.value, object(vec![("a", JsonValue::Bool(true)), ("b", JsonValue::Null)]));
    assert_eq!((done.tags, done.strings, done.numbers), (8, 3, 1));
}

#[test]
fn object_members_keep_their_insertion_order() {
    let value = object(vec![("z", num(1.0)), ("a", num(2.0)), ("m", JsonValue::Null)]);
    let flat = flatten(&value);
    assert_eq!(flat.strings, strings(&["z", "a", "m"]));
    assert_eq!(flat.reconstruct().unwrap().value, value);
}

#[test]
fn round_trip_of_a_mixed_document() {
    let value = JsonValue::Array(vec![
        JsonValue::Null,
        JsonValue::Bool(true),
        JsonValue::Bool(false),
        num(-0.5),
        text(""),
        text("\u{e9}\"\\"),
        JsonValue::Array(vec![JsonValue::Array(vec![]), JsonValue::Object(vec![])]),
        object(vec![("k", object(vec![("k", JsonValue::Array(vec![num(1e300)]))]))]),
    ]);
    let flat = flatten(&value);
    let done = flat.reconstruct().unwrap();
    assert_eq!(done.value, value);
    assert_eq!(done.tags, flat.tags.len());
    assert_eq!(done.strings, flat.strings.len());
    assert_eq!(done.numbers, flat.numbers.len());
}

#[test]
fn number_bits_survive_the_round_trip() {
    for bits in [0u64, 1, (-0.0f64).to_bits(), f64::MAX.to_bits(), u64::MAX] {
        let flat = flatten(&JsonValue::Number(bits));
        assert_eq!(flat.reconstruct().unwrap().value, JsonValue::Number(bits));
    }
}

#[test]
fn deep_nesting_round_trips() {
    let mut value = JsonValue::Null;
    for _ in 0..200 {
        value = JsonValue::Array(vec![value]);
    }
    let flat = flatten(&value);
    assert_eq!(flat.tags.len(), 401);
    assert_eq!(flat.reconstruct().unwrap().value, value);
}

#[test]
fn payload_counts_match_the_tags() {
    let flat = flatten(&nested_document());
    let with_string =
        flat.tags.iter().filter(|t| **t == Tag::String || **t == Tag::Key).count();
    let with_number = flat.tags.iter().filter(|t| **t == Tag::Number).count();
    assert_eq!(with_string, flat.strings.len());
    assert_eq!(with_number, flat.numbers.len());
}

#[test]
fn flattened_tags_are_balanced() {
    assert!(is_balanced(&flatten(&nested_document()).tags));
    assert!(is_balanced(&flatten(&JsonValue::Array(vec![])).tags));
    assert!(is_balanced(&flatten(&JsonValue::Null).tags));
    assert!(is_balanced(&[]));
}

#[test]
fn unbalanced_tags_are_told_apart() {
    assert!(!is_balanced(&[Tag::EndArray]));
    assert!(!is_balanced(&[Tag::StartArray]));
    assert!(!is_balanced(&[Tag::StartArray, Tag::EndObject]));
    assert!(!is_balanced(&[Tag::StartObject, Tag::StartArray, Tag::EndObject, Tag::EndArray]));
    assert!(!is_balanced(&[Tag::StartArray, Tag::EndArray, Tag::EndArray]));
    assert!(is_balanced(&[Tag::StartObject, Tag::Key, Tag::StartArray, Tag::EndArray, Tag::EndObject]));
}

#[test]
fn two_documents_are_read_back_one_after_the_other() {
    let a = nested_document();
    let b = JsonValue::Array(vec![text("x"), num(5.0), object(vec![("y", JsonValue::Null)])]);
    let mut batch = Flattened::new();
    flatten_into(&a, &mut batch);
    flatten_into(&b, &mut batch);
    let fa = flatten(&a);
    let fb = flatten(&b);
    assert_eq!(batch.tags.len(), fa.tags.len() + fb.tags.len());
    let first = reconstruct(&batch.tags, &batch.strings, &batch.numbers).unwrap();
    assert_eq!(first.value, a);
    assert_eq!((first.tags, first.strings, first.numbers), (fa.tags.len(), fa.strings.len(), fa.numbers.len()));
    let second = reconstruct(
        &batch.tags[first.tags..],
        &batch.strings[first.strings..],
        &batch.numbers[first.numbers..],
    )
    .unwrap();
    assert_eq!(second.value, b);
    assert_eq!(first.tags + second.tags, batch.tags.len());
    assert_eq!(first.strings + second.strings, batch.strings.len());
    assert_eq!(first.numbers + second.numbers, batch.numbers.len());
}

#[test]
fn flatten_into_appends_to_what_is_there() {
    let mut out = Flattened::new_with_values(vec![Tag::Null], strings(&["s"]), vec![3]);
    flatten_into(&text("t"), &mut out);
    assert_eq!(out.tags, vec![Tag::Null, Tag::String]);
    assert_eq!(out.strings, strings(&["s", "t"]));
    assert_eq!(out.numbers, vec![3]);
}

#[test]
fn push_functions_append_tag_and_payload() {
    let mut out = Flattened::new();
    out.push_marker(Tag::StartArray);
    out.push_text(Tag::String, "a".to_string());
    out.push_number(4.0f64.to_bits());
    out.push_marker(Tag::EndArray);
    assert_eq!(out.tags, vec![Tag::StartArray, Tag::String, Tag::Number, Tag::EndArray]);
    assert_eq!(out.strings, strings(&["a"]));
    assert_eq!(out.numbers, vec![4.0f64.to_bits()]);
}

#[test]
fn set_member_replaces_in_place_or_appends() {
    let mut members: Vec<(String, JsonValue)> = vec![];
    set_member(&mut members, "a".to_string(), num(1.0));
    set_member(&mut members, "b".to_string(), num(2.0));
    set_member(&mut members, "a".to_string(), num(3.0));
    assert_eq!(members, vec![("a".to_string(), num(3.0)), ("b".to_string(), num(2.0))]);
}

#[test]
fn set_member_replaces_the_first_of_two_members_under_a_key() {
    let mut members = vec![
        ("a".to_string(), num(1.0)),
        ("b".to_string(), num(2.0)),
        ("a".to_string(), num(3.0)),
    ];
    set_member(&mut members, "a".to_string(), JsonValue::Null);
    assert_eq!(
        members,
        vec![
            ("a".to_string(), JsonValue::Null),
            ("b".to_string(), num(2.0)),
            ("a".to_string(), num(3.0)),
        ]
    );
}

#[test]
fn find_member_gives_the_first_position_under_a_key() {
    let members = vec![
        ("a".to_string(), num(1.0)),
        ("b".to_string(), num(2.0)),
        ("b".to_string(), num(3.0)),
    ];
    assert_eq!(find_member(&members, &"a".to_string()), Some(0));
    assert_eq!(find_member(&members, &"b".to_string()), Some(1));
    assert_eq!(find_member(&members, &"c".to_string()), None);
    assert_eq!(find_member(&vec![], &"a".to_string()), None);
}

#[test]
fn get_finds_the_member_under_a_key() {
    let value = nested_document();
    assert_eq!(value.get("a"), Some(&num(1.0)));
    assert_eq!(value.get("c").and_then(|c| c.get("d")), Some(&num(4.0)));
    assert_eq!(value.get("x"), None);
    assert_eq!(num(1.0).get("a"), None);
    assert_eq!(JsonValue::Array(vec![]).get("a"), None);
}

#[test]
fn tag_codes_are_found_again() {
    let all = [
        Tag::Null,
        Tag::True,
        Tag::False,
        Tag::Number,
        Tag::String,
        Tag::Key,
        Tag::StartArray,
        Tag::EndArray,
        Tag::StartObject,
        Tag::EndObject,
    ];
    for (i, tag) in all.iter().enumerate() {
        assert_eq!(tag.to_byte() as usize, i);
        assert_eq!(Tag::from_byte(tag.to_byte()), Some(*tag));
    }
    assert_eq!(Tag::from_byte(10), None);
    assert_eq!(Tag::from_byte(255), None);
}
