use json_columnar::flatten::flatten;
use json_columnar::json_text::{document_from, parse_document, ParseError};
use json_columnar::tag::Tag;
use json_columnar::value::JsonValue;

fn num(x: f64) -> JsonValue {
    JsonValue::Number(x.to_bits())
}

fn object(members: Vec<(&str, JsonValue)>) -> JsonValue {
    JsonValue::Object(members.into_iter().map(|(k, v)| (k.to_string(), v)).collect())
}

#[test]
fn parse_document_reads_every_kind_of_value() {
    let doc = parse_document(br#"{"n":null,"t":true,"f":false,"x":1.5,"s":"hi","a":[1,[]],"o":{}}"#)
        .unwrap();
    assert_eq!(
        doc,
        object(vec![
            ("n", JsonValue::Null),
            ("t", JsonValue::Bool(true)),
            ("f", JsonValue::Bool(false)),
            ("x", num(1.5)),
            ("s", JsonValue::String("hi".to_string())),
            ("a", JsonValue::Array(vec![num(1.0), JsonValue::Array(vec![])])),
            ("o", JsonValue::Object(vec![])),
        ])
    );
}

#[test]
fn parse_document_normalizes_numbers_to_64_bit_floats() {
    assert_eq!(parse_document(b"1").unwrap(), num(1.0));
    assert_eq!(parse_document(b"-3").unwrap(), num(-3.0));
    assert_eq!(parse_document(b"2.5e2").unwrap(), num(250.0));
    assert_eq!(parse_document(b"18446744073709551615").unwrap(), num(18446744073709551615.0));
    assert_eq!(parse_document(b"9007199254740993").unwrap(), num(9007199254740992.0));
}

#[test]
fn parse_document_keeps_the_order_of_the_keys() {
    let doc = parse_document(br#"{"z":1,"a":2,"m":3}"#).unwrap();
    assert_eq!(doc, object(vec![("z", num(1.0)), ("a", num(2.0)), ("m", num(3.0))]));
}

#[test]
fn parse_document_keeps_the_last_value_of_a_key_in_its_first_place() {
    let doc = parse_document(br#"{"a":1,"b":2,"a":3}"#).unwrap();
    assert_eq!(doc, object(vec![("a", num(3.0)), ("b", num(2.0))]));
}

#[test]
fn parse_document_decodes_escapes() {
    let doc = parse_document(r#""a\n\"\u00e9""#.as_bytes()).unwrap();
    assert_eq!(doc, JsonValue::String("a\n\"\u{e9}".to_string()));
}

#[test]
fn parse_document_refuses_what_is_no_json() {
    assert_eq!(parse_document(b""), Err(ParseError::Syntax));
    assert_eq!(parse_document(b"{"), Err(ParseError::Syntax));
    assert_eq!(parse_document(b"[1,]"), Err(ParseError::Syntax));
    assert_eq!(parse_document(b"nul"), Err(ParseError::Syntax));
    assert_eq!(parse_document(b"1 2"), Err(ParseError::Syntax));
    assert_eq!(parse_document(&[0xff, 0xfe]), Err(ParseError::Syntax));
}

#[test]
fn parse_document_reports_a_number_without_a_finite_float() {
    assert_eq!(parse_document(b"1e999"), Err(ParseError::NumberOutOfRange));
    assert_eq!(parse_document(b"[1, {\"a\": -1e999}]"), Err(ParseError::NumberOutOfRange));
}

#[test]
fn parse_document_accepts_surrounding_whitespace() {
    assert_eq!(parse_document(b" [ ] \n").unwrap(), JsonValue::Array(vec![]));
}

#[test]
fn document_from_follows_a_value_built_by_hand() {
    let mut map = serde_json::Map::new();
    map.insert("k".to_string(), serde_json::Value::Bool(true));
    map.insert("j".to_string(), serde_json::Value::Null);
    let value = serde_json::Value::Array(vec![
        serde_json::Value::String("s".to_string()),
        serde_json::Value::Number(serde_json::Number::from(7u64)),
        serde_json::Value::Object(map),
    ]);
    assert_eq!(
        document_from(&value),
        Some(JsonValue::Array(vec![
            JsonValue::String("s".to_string()),
            num(7.0),
            object(vec![("k", JsonValue::Bool(true)), ("j", JsonValue::Null)]),
        ]))
    );
}

#[test]
fn parsed_text_flattens_to_its_three_sequences() {
    let doc = parse_document(br#"{"a":1,"b":[2,3],"c":{"d":4}}"#).unwrap();
    let flat = flatten(&doc);
    assert_eq!(
        flat.tags,
        vec![
            Tag::StartObject,
            Tag::Key,
            Tag::Number,
            Tag::Key,
            Tag::StartArray,
            Tag::Number,
            Tag::Number,
            Tag::EndArray,
            Tag::Key,
            Tag::StartObject,
            Tag::Key,
            Tag::Number,
            Tag::EndObject,
            Tag::EndObject,
        ]
    );
    assert_eq!(flat.strings, vec!["a", "b", "c", "d"]);
    let numbers: Vec<f64> = flat.numbers.iter().map(|b| f64::from_bits(*b)).collect();
    assert_eq!(numbers, vec![1.0, 2.0, 3.0, 4.0]);
    assert_eq!(flat.reconstruct().unwrap().value, doc);
}

#[test]
fn parsed_empty_array_round_trips() {
    let doc = parse_document(b"[]").unwrap();
    let flat = flatten(&doc);
    assert_eq!(flat.tags, vec![Tag::StartArray, Tag::EndArray]);
    assert!(flat.strings.is_empty());
    assert!(flat.numbers.is_empty());
    assert_eq!(flat.reconstruct().unwrap().value, JsonValue::Array(vec![]));
}
