use document::codec::{from_json_value, to_json_value};
use document::json::{Json, JsonNumber};
use document::{from_json, to_json, DecodeError, Field, FieldMap};

fn text(s: &str) -> Field {
    Field::String(s.to_string())
}

fn map_of(pairs: Vec<(&str, Field)>) -> Field {
    let mut map = FieldMap::new();
    for (key, value) in pairs {
        map.insert(key.to_string(), value);
    }
    Field::Mapping(map)
}

#[test]
fn test_from_json() {
    let f_document = from_json(r#"{"a": 1, "b": "Hello"}"#).unwrap();
    println!("{:?}", f_document);
    println!("{}", f_document.hash().to_hex());

    // Encode document to JSON
    let f_document_json_result = to_json(&f_document);
    match f_document_json_result {
        Ok(json) => println!("{}", json),
        Err(e) => println!("Error: {:?}", e),
    }

    // Hash document
    println!("{}", f_document.hash().to_hex());
}

#[test]
fn an_object_is_read_as_a_map() {
    let doc = from_json(r#"{"a": 1, "b": "Hello"}"#).unwrap();
    assert_eq!(doc, map_of(vec![("a", Field::Int64(1)), ("b", text("Hello"))]));
}

#[test]
fn scalars_are_read() {
    assert_eq!(from_json("\"x\""), Ok(text("x")));
    assert_eq!(from_json("true"), Ok(Field::Bool(true)));
    assert_eq!(from_json("false"), Ok(Field::Bool(false)));
    assert_eq!(from_json("42"), Ok(Field::Int64(42)));
    assert_eq!(from_json("-5"), Ok(Field::Int64(-5)));
    assert_eq!(from_json("0"), Ok(Field::Int64(0)));
    assert_eq!(from_json(" 7 "), Ok(Field::Int64(7)));
}

#[test]
fn a_number_is_signed_where_it_can_be_and_unsigned_otherwise() {
    assert_eq!(from_json("9223372036854775807"), Ok(Field::Int64(i64::MAX)));
    assert_eq!(from_json("9223372036854775808"), Ok(Field::Uint64(9223372036854775808)));
    assert_eq!(from_json("18446744073709551615"), Ok(Field::Uint64(u64::MAX)));
    assert_eq!(from_json("-9223372036854775808"), Ok(Field::Int64(i64::MIN)));
}

#[test]
fn a_number_that_is_no_64_bit_integer_is_refused() {
    assert_eq!(from_json("1.5"), Err(DecodeError::Number));
    assert_eq!(from_json("1.0"), Err(DecodeError::Number));
    assert_eq!(from_json("1e2"), Err(DecodeError::Number));
    assert_eq!(from_json("18446744073709551616"), Err(DecodeError::Number));
    assert_eq!(from_json("-9223372036854775809"), Err(DecodeError::Number));
    assert_eq!(from_json(r#"{"a": [1, 2.5]}"#), Err(DecodeError::Number));
}

#[test]
fn null_is_refused_wherever_it_stands() {
    assert_eq!(from_json("null"), Err(DecodeError::Null));
    assert_eq!(from_json(r#"{"a": null}"#), Err(DecodeError::Null));
    assert_eq!(from_json(r#"{"a": 1, "b": null}"#), Err(DecodeError::Null));
    assert_eq!(from_json("[1, null, 2]"), Err(DecodeError::Null));
    assert_eq!(from_json(r#"{"a": {"b": [[null]]}}"#), Err(DecodeError::Null));
    // The word inside a string is a text like any other.
    assert_eq!(from_json("\"null\""), Ok(text("null")));
}

#[test]
fn the_first_fault_in_the_text_decides_the_error() {
    assert_eq!(from_json("[1.5, null]"), Err(DecodeError::Number));
    assert_eq!(from_json("[null, 1.5]"), Err(DecodeError::Null));
    assert_eq!(from_json(r#"{"a": null, "b": 1.5}"#), Err(DecodeError::Null));
    assert_eq!(from_json(r#"{"a": 1.5, "b": null}"#), Err(DecodeError::Number));
}

#[test]
fn text_that_is_no_json_is_refused() {
    assert_eq!(from_json(""), Err(DecodeError::Syntax));
    assert_eq!(from_json("{"), Err(DecodeError::Syntax));
    assert_eq!(from_json(r#"{"a": }"#), Err(DecodeError::Syntax));
    assert_eq!(from_json("[1, 2"), Err(DecodeError::Syntax));
    assert_eq!(from_json("nul"), Err(DecodeError::Syntax));
    assert_eq!(from_json("1 2"), Err(DecodeError::Syntax));
    assert_eq!(from_json("{'a': 1}"), Err(DecodeError::Syntax));
    // A syntax error behind a null: the text as a whole is no JSON.
    assert_eq!(from_json("[null, "), Err(DecodeError::Syntax));
}

#[test]
fn an_array_is_read_as_a_list_in_its_order() {
    assert_eq!(
        from_json(r#"[3, "a", true, [], {}]"#),
        Ok(Field::Array(vec![
            Field::Int64(3),
            text("a"),
            Field::Bool(true),
            Field::Array(vec![]),
            Field::Mapping(FieldMap::new()),
        ]))
    );
}

#[test]
fn the_order_of_the_members_of_an_object_does_not_matter() {
    let a = from_json(r#"{"a":1,"b":2}"#).unwrap();
    let b = from_json(r#"{"b":2,"a":1}"#).unwrap();
    assert_eq!(a, b);
    assert_eq!(a.hash(), b.hash());
    assert_eq!(to_json(&a).unwrap(), to_json(&b).unwrap());
}

#[test]
fn a_later_member_of_the_same_name_replaces_an_earlier_one() {
    assert_eq!(from_json(r#"{"a":1,"a":2}"#), Ok(map_of(vec![("a", Field::Int64(2))])));
}

#[test]
fn keys_are_kept_as_they_are_written() {
    let doc = from_json(r#"{"": 1, " a": 2, "A": 3, "é": 4}"#).unwrap();
    assert_eq!(
        doc,
        map_of(vec![
            ("", Field::Int64(1)),
            (" a", Field::Int64(2)),
            ("A", Field::Int64(3)),
            ("é", Field::Int64(4)),
        ])
    );
}

#[test]
fn a_document_is_written_as_compact_json_with_keys_ascending() {
    let doc = map_of(vec![
        ("b", text("Hello")),
        ("a", Field::Int64(1)),
        ("c", Field::Array(vec![Field::Bool(true), Field::Uint64(u64::MAX), Field::Int64(-7)])),
        ("B", Field::Mapping(FieldMap::new())),
    ]);
    assert_eq!(
        to_json(&doc).unwrap(),
        r#"{"B":{},"a":1,"b":"Hello","c":[true,18446744073709551615,-7]}"#
    );
}

#[test]
fn scalars_are_written() {
    assert_eq!(to_json(&text("x")).unwrap(), "\"x\"");
    assert_eq!(to_json(&text("a\"b\n")).unwrap(), "\"a\\\"b\\n\"");
    assert_eq!(to_json(&Field::Int64(i64::MIN)).unwrap(), "-9223372036854775808");
    assert_eq!(to_json(&Field::Int64(42)).unwrap(), "42");
    assert_eq!(to_json(&Field::Uint64(42)).unwrap(), "42");
    assert_eq!(to_json(&Field::Bool(false)).unwrap(), "false");
    assert_eq!(to_json(&Field::Array(vec![])).unwrap(), "[]");
}

#[test]
fn a_byte_string_is_written_as_base64() {
    assert_eq!(to_json(&Field::Bytes(vec![1, 2, 3, 4])).unwrap(), "\"AQIDBA==\"");
    assert_eq!(to_json(&Field::Bytes(vec![])).unwrap(), "\"\"");
    assert_eq!(to_json(&Field::Bytes(b"hello world".to_vec())).unwrap(), "\"aGVsbG8gd29ybGQ=\"");
    assert_eq!(to_json(&Field::Bytes(vec![0xfb, 0xff, 0xfe])).unwrap(), "\"+//+\"");
    assert_eq!(
        to_json_value(&Field::Bytes(vec![1, 2, 3, 4])),
        Json::String("AQIDBA==".to_string())
    );
}

#[test]
fn a_byte_string_comes_back_as_a_text() {
    let written = to_json(&Field::Bytes(vec![1, 2, 3, 4])).unwrap();
    assert_eq!(from_json(&written), Ok(text("AQIDBA==")));
}

#[test]
fn a_small_unsigned_integer_comes_back_signed() {
    let written = to_json(&Field::Uint64(42)).unwrap();
    assert_eq!(from_json(&written), Ok(Field::Int64(42)));
    let written = to_json(&Field::Uint64(9223372036854775808)).unwrap();
    assert_eq!(from_json(&written), Ok(Field::Uint64(9223372036854775808)));
}

#[test]
fn a_document_without_byte_strings_comes_back_unchanged() {
    let mut inner = FieldMap::new();
    inner.insert("z".to_string(), Field::Int64(-1));
    inner.insert("é".to_string(), text("日本"));
    let doc = map_of(vec![
        ("text", text("Hello \"world\"\n")),
        ("signed", Field::Int64(i64::MIN)),
        ("unsigned", Field::Uint64(u64::MAX)),
        ("flag", Field::Bool(true)),
        ("list", Field::Array(vec![Field::Int64(1), text("two"), Field::Array(vec![])])),
        ("inner", Field::Mapping(inner)),
        ("", Field::Mapping(FieldMap::new())),
    ]);
    let written = to_json(&doc).unwrap();
    assert_eq!(from_json(&written), Ok(doc.clone()));
    assert_eq!(from_json_value(&to_json_value(&doc)), Ok(doc));
}

#[test]
fn a_tree_is_read_as_a_document() {
    let tree = Json::Object(vec![
        ("b".to_string(), Json::Number(JsonNumber::PosInt(2))),
        ("a".to_string(), Json::Array(vec![Json::Bool(true), Json::String("s".to_string())])),
        ("c".to_string(), Json::Number(JsonNumber::NegInt(-3))),
        ("d".to_string(), Json::Number(JsonNumber::PosInt(u64::MAX))),
        ("b".to_string(), Json::Number(JsonNumber::PosInt(20))),
    ]);
    assert_eq!(
        from_json_value(&tree),
        Ok(map_of(vec![
            ("a", Field::Array(vec![Field::Bool(true), text("s")])),
            ("b", Field::Int64(20)),
            ("c", Field::Int64(-3)),
            ("d", Field::Uint64(u64::MAX)),
        ]))
    );
}

#[test]
fn a_tree_with_a_null_or_another_number_is_no_document() {
    assert_eq!(from_json_value(&Json::Null), Err(DecodeError::Null));
    assert_eq!(from_json_value(&Json::Number(JsonNumber::Other)), Err(DecodeError::Number));
    assert_eq!(
        from_json_value(&Json::Array(vec![Json::Bool(true), Json::Number(JsonNumber::Other), Json::Null])),
        Err(DecodeError::Number)
    );
    assert_eq!(
        from_json_value(&Json::Object(vec![
            ("z".to_string(), Json::Null),
            ("a".to_string(), Json::Number(JsonNumber::Other)),
        ])),
        Err(DecodeError::Null)
    );
}

#[test]
fn a_document_is_written_as_a_tree() {
    let doc = map_of(vec![
        ("n", Field::Int64(-1)),
        ("m", Field::Int64(1)),
        ("u", Field::Uint64(1)),
        ("l", Field::Array(vec![Field::Bool(false)])),
    ]);
    assert_eq!(
        to_json_value(&doc),
        Json::Object(vec![
            ("l".to_string(), Json::Array(vec![Json::Bool(false)])),
            ("m".to_string(), Json::Number(JsonNumber::PosInt(1))),
            ("n".to_string(), Json::Number(JsonNumber::NegInt(-1))),
            ("u".to_string(), Json::Number(JsonNumber::PosInt(1))),
        ])
    );
}

#[test]
fn a_json_number_is_a_signed_or_an_unsigned_integer_or_neither() {
    assert_eq!(JsonNumber::PosInt(5).as_i64(), Some(5));
    assert_eq!(JsonNumber::PosInt(5).as_u64(), Some(5));
    assert_eq!(JsonNumber::PosInt(u64::MAX).as_i64(), None);
    assert_eq!(JsonNumber::PosInt(u64::MAX).as_u64(), Some(u64::MAX));
    assert_eq!(JsonNumber::PosInt(9223372036854775807).as_i64(), Some(i64::MAX));
    assert_eq!(JsonNumber::PosInt(9223372036854775808).as_i64(), None);
    assert_eq!(JsonNumber::NegInt(-5).as_i64(), Some(-5));
    assert_eq!(JsonNumber::NegInt(-5).as_u64(), None);
    assert_eq!(JsonNumber::Other.as_i64(), None);
    assert_eq!(JsonNumber::Other.as_u64(), None);
    assert_eq!(JsonNumber::from_i64(-1), JsonNumber::NegInt(-1));
    assert_eq!(JsonNumber::from_i64(0), JsonNumber::PosInt(0));
    assert_eq!(JsonNumber::from_i64(i64::MAX), JsonNumber::PosInt(9223372036854775807));
}
