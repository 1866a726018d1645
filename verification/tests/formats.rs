use json_columnar::codec::{
    copy_byte_rows, copy_bytes, copy_numbers, copy_texts, Columns, Decoded, EncodeError,
    FlatColumns, FlushError, JsonCodec, LoadError, VariantColumns,
};
use json_columnar::flatten::flatten;
use json_columnar::flattened::Flattened;
use json_columnar::format::formats::Format;
use json_columnar::format::jsonb::JsonbVector;
use json_columnar::format::jsonc::{
    flatten_texts, reconstruct_all, tag_codes, tags_from_codes, JsoncVector,
};
use json_columnar::format::plain_json::PlainJsonVector;
use json_columnar::format::variant::{row_of, VariantVector};
use json_columnar::json_text::parse_document;
use json_columnar::reconstruct::CodecError;
use json_columnar::tag::Tag;
use json_columnar::value::JsonValue;

fn num(x: f64) -> JsonValue {
    JsonValue::Number(x.to_bits())
}

fn object(members: Vec<(&str, JsonValue)>) -> JsonValue {
    JsonValue::Object(members.into_iter().map(|(k, v)| (k.to_string(), v)).collect())
}

fn render(value: &JsonValue) -> serde_json::Value {
    match value {
        JsonValue::Null => serde_json::Value::Null,
        JsonValue::Bool(b) => serde_json::Value::Bool(*b),
        JsonValue::Number(bits) => serde_json::Value::from(f64::from_bits(*bits)),
        JsonValue::String(s) => serde_json::Value::String(s.clone()),
        JsonValue::Array(items) => serde_json::Value::Array(items.iter().map(render).collect()),
        JsonValue::Object(members) => serde_json::Value::Object(
            members.iter().map(|(k, v)| (k.clone(), render(v))).collect(),
        ),
    }
}

fn rendered(decoded: Decoded) -> Vec<String> {
    match decoded {
        Decoded::Text(texts) => texts,
        Decoded::Binary(docs) => docs.iter().map(|d| jsonb::RawJsonb::new(d).to_string()).collect(),
        Decoded::Documents(values) => values.iter().map(|v| render(v).to_string()).collect(),
    }
}

#[test]
fn test_plain_json_vector() {
    let json_strs = vec![
        r#"{"a":1,"b":"foo"}"#.as_bytes(),
        r#"{"a":2,"b":"bar"}"#.as_bytes(),
        r#"{"a":3,"b":"baz"}"#.as_bytes(),
    ];
    let mut plain_json_vec = PlainJsonVector::default();
    plain_json_vec.encode(&json_strs.iter().map(|v| &v[..]).collect::<Vec<&[u8]>>()).unwrap();
    let json_strs_decoded = rendered(plain_json_vec.decode().unwrap());
    assert_eq!(
        json_strs,
        json_strs_decoded.iter().map(|v| v.as_bytes()).collect::<Vec<&[u8]>>()
    );

    let stored = plain_json_vec.flush().unwrap();
    let mut loaded_plain_json_vec = PlainJsonVector::default();
    loaded_plain_json_vec.load(stored).unwrap();
    assert_eq!(loaded_plain_json_vec, plain_json_vec);
}

#[test]
fn jsonb_test_jsonb_vector() {
    let json_strs = vec![
        r#"{"a":1,"b":"foo"}"#.as_bytes(),
        r#"{"a":2,"b":"bar"}"#.as_bytes(),
        r#"{"a":3,"b":"baz"}"#.as_bytes(),
    ];
    let binary: Vec<Vec<u8>> =
        json_strs.iter().map(|v| jsonb::parse_value(v).unwrap().to_vec()).collect();
    let mut jsonb_vec = JsonbVector::default();
    jsonb_vec.encode(&binary.iter().map(|v| &v[..]).collect::<Vec<&[u8]>>()).unwrap();
    let json_strs_decoded = rendered(jsonb_vec.decode().unwrap());
    assert_eq!(
        json_strs,
        json_strs_decoded.iter().map(|v| v.as_bytes()).collect::<Vec<&[u8]>>()
    );

    let stored = jsonb_vec.flush().unwrap();
    let mut loaded_jsonb_vec = JsonbVector::default();
    loaded_jsonb_vec.load(stored).unwrap();
    assert_eq!(loaded_jsonb_vec, jsonb_vec);
}

#[test]
fn jsonc_test_jsonc_vector() {
    let json_strs = vec![
        r#"{"a":1.0,"b":[2.0,3.0],"c":{"d":4.0}}"#.as_bytes(),
        r#"{"e":5.0,"f":[6.0,7.0],"g":{"h":8.0}}"#.as_bytes(),
        r#"{"i":9.0,"j":[10.0,11.0],"k":{"l":12.0}}"#.as_bytes(),
    ];
    let mut jsonc_vec = JsoncVector::default();
    jsonc_vec.encode(&json_strs.iter().map(|v| &v[..]).collect::<Vec<&[u8]>>()).unwrap();
    let stored = jsonc_vec.flush().unwrap();
    let mut loaded_jsonc_vec = JsoncVector::default();
    loaded_jsonc_vec.load(stored).unwrap();
    assert_eq!(loaded_jsonc_vec.decode(), jsonc_vec.decode());
}

#[test]
fn variant_test_jsonc_vector() {
    let json_strs = vec![
        r#"{"name":"nKG7e","timestamp":"2024-07-25T04:33:11.370048Z","attributes":{"event_attributes":415.32588395798473}}
"#.as_bytes(),
    ];
    let mut jsonc_vec = VariantVector::default();
    jsonc_vec.encode(&json_strs.iter().map(|v| &v[..]).collect::<Vec<&[u8]>>()).unwrap();
    let stored = jsonc_vec.flush().unwrap();
    assert_eq!(
        stored,
        Columns::Variant(VariantColumns {
            names: vec!["nKG7e".to_string()],
            timestamps: vec!["2024-07-25T04:33:11.370048Z".to_string()],
            event_attributes: vec![415.32588395798473f64.to_bits()],
        })
    );
}

#[test]
fn jsonc_decode_renders_the_documents_that_were_encoded() {
    let json_strs: Vec<&[u8]> = vec![
        br#"{"a":1.0,"b":[2.0,3.0],"c":{"d":4.0}}"#,
        br#"[null,true,false,"s"]"#,
    ];
    let mut v = JsoncVector::new();
    v.encode(&json_strs).unwrap();
    let texts = rendered(v.decode().unwrap());
    assert_eq!(texts.len(), 2);
    assert_eq!(texts[0].as_bytes(), json_strs[0]);
    assert_eq!(texts[1].as_bytes(), json_strs[1]);
}

#[test]
fn jsonc_encode_replaces_the_batch() {
    let mut v = JsoncVector::new();
    v.encode(&[b"1".as_slice(), b"2".as_slice()]).unwrap();
    v.encode(&[b"3".as_slice()]).unwrap();
    assert_eq!(v.decode(), Ok(Decoded::Documents(vec![num(3.0)])));
}

#[test]
fn jsonc_encode_fails_with_the_error_of_the_first_bad_text() {
    let mut v = JsoncVector::new();
    v.encode(&[b"1".as_slice()]).unwrap();
    assert_eq!(v.encode(&[b"2".as_slice(), b"{".as_slice(), b"1e999".as_slice()]), Err(EncodeError::Syntax));
    assert_eq!(v.encode(&[b"1e999".as_slice(), b"{".as_slice()]), Err(EncodeError::NumberOutOfRange));
    assert_eq!(v.decode(), Ok(Decoded::Documents(vec![num(1.0)])));
}

#[test]
fn jsonc_flush_lays_out_three_list_columns() {
    let mut v = JsoncVector::new();
    v.encode(&[br#"{"a":1}"#.as_slice(), b"[]".as_slice()]).unwrap();
    assert_eq!(
        v.flush(),
        Ok(Columns::Flat(FlatColumns {
            tags: vec![vec![8, 5, 3, 9], vec![6, 7]],
            strings: vec![vec!["a".to_string()], vec![]],
            numbers: vec![vec![1.0f64.to_bits()], vec![]],
        }))
    );
}

#[test]
fn jsonc_load_appends_one_document_for_each_common_row() {
    let mut v = JsoncVector::new();
    v.encode(&[b"true".as_slice()]).unwrap();
    let columns = Columns::Flat(FlatColumns {
        tags: vec![vec![3], vec![4], vec![0]],
        strings: vec![vec![], vec!["s".to_string()]],
        numbers: vec![vec![2.0f64.to_bits()], vec![], vec![]],
    });
    v.load(columns).unwrap();
    assert_eq!(
        v.decode(),
        Ok(Decoded::Documents(vec![
            JsonValue::Bool(true),
            num(2.0),
            JsonValue::String("s".to_string()),
        ]))
    );
}

#[test]
fn jsonc_load_refuses_an_unknown_tag_and_other_columns() {
    let mut v = JsoncVector::new();
    v.encode(&[b"true".as_slice()]).unwrap();
    let bad = Columns::Flat(FlatColumns {
        tags: vec![vec![0], vec![10]],
        strings: vec![vec![], vec![]],
        numbers: vec![vec![], vec![]],
    });
    assert_eq!(v.load(bad), Err(LoadError::UnknownTag));
    assert_eq!(v.load(Columns::Text(vec![])), Err(LoadError::WrongColumns));
    assert_eq!(v.load(Columns::Binary(vec![])), Err(LoadError::WrongColumns));
    assert_eq!(v.decode(), Ok(Decoded::Documents(vec![JsonValue::Bool(true)])));
}

#[test]
fn jsonc_decode_reports_a_corrupt_document() {
    let good = flatten(&num(1.0));
    let bad = Flattened::new_with_values(vec![Tag::EndArray], vec![], vec![]);
    assert_eq!(JsoncVector::from(vec![good, bad]).decode(), Err(CodecError::StructuralCorruption));
    assert_eq!(JsoncVector::from(vec![]).decode(), Ok(Decoded::Documents(vec![])));
}

#[test]
fn flatten_texts_and_reconstruct_all_are_inverse_on_good_texts() {
    let data = flatten_texts(&[br#"{"k":[1,2]}"#.as_slice(), b"null".as_slice()]).unwrap();
    assert_eq!(data.len(), 2);
    assert_eq!(data[1].tags, vec![Tag::Null]);
    assert_eq!(
        reconstruct_all(&data),
        Ok(vec![object(vec![("k", JsonValue::Array(vec![num(1.0), num(2.0)]))]), JsonValue::Null])
    );
    assert_eq!(flatten_texts(&[b"x".as_slice()]), Err(EncodeError::Syntax));
}

#[test]
fn tag_codes_and_back() {
    let tags = vec![Tag::StartArray, Tag::Number, Tag::EndArray];
    assert_eq!(tag_codes(&tags), vec![6, 3, 7]);
    assert_eq!(tags_from_codes(&vec![6, 3, 7]), Some(tags));
    assert_eq!(tags_from_codes(&vec![6, 33, 7]), None);
    assert_eq!(tags_from_codes(&vec![]), Some(vec![]));
}

#[test]
fn plain_json_encode_appends_and_refuses_what_is_no_utf8() {
    let mut v = PlainJsonVector::new();
    v.encode(&[b"{}".as_slice()]).unwrap();
    v.encode(&["\u{e9}".as_bytes(), b"[1]".as_slice()]).unwrap();
    assert_eq!(v.encode(&[b"1".as_slice(), &[0xff][..]]), Err(EncodeError::InvalidUtf8));
    assert_eq!(
        v.decode(),
        Ok(Decoded::Text(vec!["{}".to_string(), "\u{e9}".to_string(), "[1]".to_string()]))
    );
}

#[test]
fn plain_json_load_replaces_the_batch() {
    let mut v = PlainJsonVector::new();
    v.encode(&[b"1".as_slice()]).unwrap();
    v.load(Columns::Text(vec!["2".to_string(), "3".to_string()])).unwrap();
    assert_eq!(v.flush(), Ok(Columns::Text(vec!["2".to_string(), "3".to_string()])));
    assert_eq!(v.load(Columns::Binary(vec![])), Err(LoadError::WrongColumns));
    assert_eq!(v.decode(), Ok(Decoded::Text(vec!["2".to_string(), "3".to_string()])));
}

#[test]
fn jsonb_vector_stores_the_documents_as_they_are() {
    let mut v = JsonbVector::from(vec![vec![9]]);
    v.encode(&[&[1u8, 2][..], &[][..]]).unwrap();
    assert_eq!(v.decode(), Ok(Decoded::Binary(vec![vec![1, 2], vec![]])));
    assert_eq!(v.flush(), Ok(Columns::Binary(vec![vec![1, 2], vec![]])));
    v.load(Columns::Binary(vec![vec![7]])).unwrap();
    assert_eq!(v, JsonbVector::from(vec![vec![7]]));
    assert_eq!(v.load(Columns::Text(vec![])), Err(LoadError::WrongColumns));
    assert_eq!(v, JsonbVector::from(vec![vec![7]]));
}

#[test]
fn variant_flush_reports_what_is_corrupt_or_not_of_the_schema() {
    let mut v = VariantVector::new();
    v.encode(&[br#"{"name":"n","timestamp":"t","attributes":{"event_attributes":"x"}}"#.as_slice()])
        .unwrap();
    assert_eq!(v.flush(), Err(FlushError::MissingField));
    v.encode(&[br#"{"name":"n","attributes":{"event_attributes":1}}"#.as_slice()]).unwrap();
    assert_eq!(v.flush(), Err(FlushError::MissingField));
    v.encode(&[b"[]".as_slice()]).unwrap();
    assert_eq!(v.flush(), Err(FlushError::MissingField));
    v.encode(&[]).unwrap();
    assert_eq!(
        v.flush(),
        Ok(Columns::Variant(VariantColumns {
            names: vec![],
            timestamps: vec![],
            event_attributes: vec![],
        }))
    );
}

#[test]
fn variant_flush_reports_the_first_failure() {
    let good = flatten(
        &parse_document(br#"{"name":"n","timestamp":"t","attributes":{"event_attributes":1}}"#)
            .unwrap(),
    );
    let corrupt = Flattened::new_with_values(vec![Tag::StartObject], vec![], vec![]);
    let other = flatten(&JsonValue::Null);
    assert_eq!(VariantVector::from(vec![good, corrupt, other]).flush(), Err(FlushError::Corrupt));
    let other = flatten(&JsonValue::Null);
    let corrupt = Flattened::new_with_values(vec![Tag::StartObject], vec![], vec![]);
    assert_eq!(VariantVector::from(vec![other, corrupt]).flush(), Err(FlushError::MissingField));
}

#[test]
fn variant_load_is_not_supported() {
    let mut v = VariantVector::new();
    v.encode(&[b"1".as_slice()]).unwrap();
    let columns = Columns::Variant(VariantColumns {
        names: vec![],
        timestamps: vec![],
        event_attributes: vec![],
    });
    assert_eq!(v.load(columns), Err(LoadError::Unsupported));
    assert_eq!(v.decode(), Ok(Decoded::Documents(vec![num(1.0)])));
}

#[test]
fn row_of_reads_the_fields_of_the_schema() {
    let doc = parse_document(
        br#"{"timestamp":"t","x":0,"attributes":{"event_attributes":2.5},"name":"n"}"#,
    )
    .unwrap();
    assert_eq!(row_of(&doc), Some(("n".to_string(), "t".to_string(), 2.5f64.to_bits())));
    assert_eq!(row_of(&JsonValue::Null), None);
    assert_eq!(row_of(&parse_document(br#"{"name":1,"timestamp":"t","attributes":{"event_attributes":1}}"#).unwrap()), None);
}

#[test]
fn format_names() {
    assert_eq!(JsonbVector::name(), "jsonb");
    assert_eq!(PlainJsonVector::name(), "plain json str");
    assert_eq!(JsoncVector::name(), "jsonc");
    assert_eq!(VariantVector::name(), "variant");
}

#[test]
fn get_format_gives_an_empty_batch_of_the_named_format() {
    assert_eq!(Format::get_format("jsonb"), Format::Jsonb(JsonbVector::new()));
    assert_eq!(Format::get_format("plain_json"), Format::PlainJson(PlainJsonVector::new()));
    assert_eq!(Format::get_format("jsonc"), Format::Jsonc(JsoncVector::new()));
    assert_eq!(Format::get_format("variant"), Format::Variant(VariantVector::new()));
}

#[test]
fn format_dispatches_to_its_variant() {
    let docs: Vec<&[u8]> = vec![br#"{"a":1.0}"#, br#"{"a":2.0}"#];
    for name in ["plain_json", "jsonc"] {
        let mut format = Format::get_format(name);
        format.encode(&docs).unwrap();
        let texts = rendered(format.decode().unwrap());
        assert_eq!(texts.iter().map(|t| t.as_bytes()).collect::<Vec<&[u8]>>(), docs);
        let stored = format.flush().unwrap();
        let mut loaded = Format::get_format(name);
        loaded.load(stored).unwrap();
        assert_eq!(loaded.decode(), format.decode());
    }
    let mut format = Format::get_format("variant");
    format.encode(&docs).unwrap();
    assert_eq!(format.flush(), Err(FlushError::MissingField));
    assert_eq!(format.load(Columns::Text(vec![])), Err(LoadError::Unsupported));
    let mut format = Format::get_format("jsonb");
    format.encode(&docs).unwrap();
    assert_eq!(format.decode(), Ok(Decoded::Binary(vec![docs[0].to_vec(), docs[1].to_vec()])));
    assert_eq!(format.load(Columns::Text(vec![])), Err(LoadError::WrongColumns));
}

#[test]
fn copies_are_equal_to_their_sources() {
    assert_eq!(copy_bytes(&vec![1, 2, 3]), vec![1, 2, 3]);
    assert_eq!(copy_numbers(&vec![u64::MAX, 0]), vec![u64::MAX, 0]);
    assert_eq!(copy_texts(&vec!["a".to_string(), String::new()]), vec!["a".to_string(), String::new()]);
    assert_eq!(copy_byte_rows(&vec![vec![1], vec![]]), vec![vec![1], vec![]]);
}
