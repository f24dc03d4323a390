use document::convert::{FieldKind, TypeMismatch};
use document::metadata::{Metadata, Permissions};
use document::reflect::{
    get_field, get_string, get_u64, map_of, wrong_kind, DocumentError, FromDocument, ToDocument,
};
use document::sample::Sample;
use document::{from_json, to_json, Field, FieldMap};

fn texts(items: &[&str]) -> Vec<String> {
    items.iter().map(|s| s.to_string()).collect()
}

fn permissions() -> Permissions {
    Permissions {
        paths: texts(&["/path/to/file", "/path/to/other/file"]),
        operations: texts(&["read", "write"]),
        conditions: texts(&["if owner", "if age > 18"]),
    }
}

fn metadata() -> Metadata {
    Metadata { owner: "John Doe".to_string(), permissions: permissions(), created: 1623576001 }
}

fn sample() -> Sample {
    let mut map = FieldMap::new();
    map.insert("inner".to_string(), Field::Bool(true));
    Sample {
        map,
        string: "Hello".to_string(),
        i64: 42,
        u64: 42,
        bool: true,
        bytes: vec![1, 2, 3, 4],
        map_array: vec![FieldMap::new()],
        string_array: vec!["Hello".to_string()],
        i64_array: vec![42],
        u64_array: vec![42],
        bool_array: vec![true],
        bytes_array: vec![vec![1, 2, 3, 4]],
    }
}

#[test]
fn a_record_is_written_as_a_map_of_its_fields() {
    let doc = permissions().to_document();
    let mut expected = FieldMap::new();
    expected.insert("paths".to_string(), Field::from(texts(&["/path/to/file", "/path/to/other/file"])));
    expected.insert("operations".to_string(), Field::from(texts(&["read", "write"])));
    expected.insert("conditions".to_string(), Field::from(texts(&["if owner", "if age > 18"])));
    assert_eq!(doc, Field::Mapping(expected));
}

#[test]
fn a_record_is_written_as_json() {
    let written = to_json(&metadata().to_document()).unwrap();
    assert_eq!(
        written,
        concat_expected()
    );
}

fn concat_expected() -> String {
    let mut s = String::new();
    s.push_str(r#"{"created":1623576001,"owner":"John Doe","permissions":{"#);
    s.push_str(r#""conditions":["if owner","if age > 18"],"#);
    s.push_str(r#""operations":["read","write"],"#);
    s.push_str(r#""paths":["/path/to/file","/path/to/other/file"]}}"#);
    s
}

#[test]
fn a_record_reads_back_what_it_wrote() {
    assert_eq!(Permissions::from_document(permissions().to_document()), Ok(permissions()));
    assert_eq!(Metadata::from_document(metadata().to_document()), Ok(metadata()));
    assert_eq!(Permissions::from_document(Permissions::default().to_document()), Ok(Permissions::default()));
    assert_eq!(Metadata::from_document(Metadata::default().to_document()), Ok(Metadata::default()));
}

#[test]
fn the_default_records_are_empty() {
    let p = Permissions::default();
    assert!(p.paths.is_empty() && p.operations.is_empty() && p.conditions.is_empty());
    let m = Metadata::default();
    assert_eq!(m.owner, "");
    assert_eq!(m.created, 0);
    assert_eq!(m.permissions, p);
}

#[test]
fn a_record_with_a_field_of_every_kind_reads_back_what_it_wrote() {
    let doc = sample().to_document();
    assert_eq!(doc.clone().into_map().unwrap().len(), 12);
    assert_eq!(Sample::from_document(doc), Ok(sample()));
}

#[test]
fn byte_fields_do_not_survive_json_but_the_others_do() {
    let written = to_json(&sample().to_document()).unwrap();
    let read = from_json(&written).unwrap();
    // The bytes came back as a text, and the unsigned integer as a signed one.
    assert_eq!(
        Sample::from_document(read.clone()),
        Err(DocumentError::TypeMismatch(
            "u64".to_string(),
            TypeMismatch { expected: FieldKind::Uint64, found: FieldKind::Int64 }
        ))
    );
    let map = read.into_map().unwrap();
    assert_eq!(map.get("bytes"), Some(&Field::String("AQIDBA==".to_string())));
    assert_eq!(map.get("string"), Some(&Field::String("Hello".to_string())));
    assert_eq!(map.get("i64"), Some(&Field::Int64(42)));
    assert_eq!(map.get("bool"), Some(&Field::Bool(true)));
    assert_eq!(map.get("string_array"), Some(&Field::from(vec!["Hello".to_string()])));
}

#[test]
fn metadata_survives_json_above_the_signed_range_only() {
    // `created` is an unsigned integer: written as JSON it comes back signed
    // unless it is too large for a signed one.
    let mut m = metadata();
    m.created = u64::MAX;
    let written = to_json(&m.clone().to_document()).unwrap();
    assert_eq!(Metadata::from_document(from_json(&written).unwrap()), Ok(m));
    let written = to_json(&metadata().to_document()).unwrap();
    assert_eq!(
        Metadata::from_document(from_json(&written).unwrap()),
        Err(DocumentError::TypeMismatch(
            "created".to_string(),
            TypeMismatch { expected: FieldKind::Uint64, found: FieldKind::Int64 }
        ))
    );
    let written = to_json(&permissions().to_document()).unwrap();
    assert_eq!(Permissions::from_document(from_json(&written).unwrap()), Ok(permissions()));
}

#[test]
fn a_missing_field_is_named() {
    let mut map = permissions().to_document().into_map().unwrap();
    let mut without = FieldMap::new();
    for i in 0..map.len() {
        if map.key_at(i) != "operations" {
            without.insert(map.key_at(i).to_string(), map.value_at(i).clone());
        }
    }
    assert_eq!(
        Permissions::from_document(Field::Mapping(without)),
        Err(DocumentError::MissingField("operations".to_string()))
    );
    // The first field that is missing is the one that is named.
    assert_eq!(
        Permissions::from_document(Field::Mapping(FieldMap::new())),
        Err(DocumentError::MissingField("paths".to_string()))
    );
    map.insert("extra".to_string(), Field::Bool(true));
    assert_eq!(Permissions::from_document(Field::Mapping(map)), Ok(permissions()));
}

#[test]
fn a_missing_field_of_the_full_record_is_named() {
    let doc = from_json(r#"{"map": {}, "string": "s", "i64": 1}"#).unwrap();
    assert_eq!(Sample::from_document(doc), Err(DocumentError::MissingField("u64".to_string())));
}

#[test]
fn a_document_that_is_no_map_is_no_record() {
    assert_eq!(Permissions::from_document(Field::Array(vec![])), Err(DocumentError::NotAMap));
    assert_eq!(Metadata::from_document(Field::String("x".to_string())), Err(DocumentError::NotAMap));
    assert_eq!(Sample::from_document(Field::Int64(1)), Err(DocumentError::NotAMap));
    assert_eq!(map_of(Field::Bool(true)), Err(DocumentError::NotAMap));
    assert_eq!(map_of(Field::Mapping(FieldMap::new())), Ok(FieldMap::new()));
}

#[test]
fn a_field_of_another_kind_is_named() {
    let mut map = metadata().to_document().into_map().unwrap();
    map.insert("owner".to_string(), Field::Int64(7));
    assert_eq!(
        Metadata::from_document(Field::Mapping(map)),
        Err(DocumentError::TypeMismatch(
            "owner".to_string(),
            TypeMismatch { expected: FieldKind::String, found: FieldKind::Int64 }
        ))
    );
    let mut map = metadata().to_document().into_map().unwrap();
    map.insert("permissions".to_string(), Field::Int64(7));
    assert_eq!(Metadata::from_document(Field::Mapping(map)), Err(DocumentError::NotAMap));
    let mut map = permissions().to_document().into_map().unwrap();
    map.insert(
        "paths".to_string(),
        Field::Array(vec![Field::String("/".to_string()), Field::Bool(true)]),
    );
    assert_eq!(
        Permissions::from_document(Field::Mapping(map)),
        Err(DocumentError::TypeMismatch(
            "paths".to_string(),
            TypeMismatch { expected: FieldKind::String, found: FieldKind::Bool }
        ))
    );
}

#[test]
fn fields_are_read_by_name() {
    let mut map = FieldMap::new();
    map.insert("name".to_string(), Field::String("n".to_string()));
    map.insert("count".to_string(), Field::Uint64(3));
    assert_eq!(get_field(&map, "name"), Ok(Field::String("n".to_string())));
    assert_eq!(get_field(&map, "nam"), Err(DocumentError::MissingField("nam".to_string())));
    assert_eq!(get_string(&map, "name"), Ok("n".to_string()));
    assert_eq!(get_u64(&map, "count"), Ok(3));
    assert_eq!(
        get_u64(&map, "name"),
        Err(DocumentError::TypeMismatch(
            "name".to_string(),
            TypeMismatch { expected: FieldKind::Uint64, found: FieldKind::String }
        ))
    );
    assert_eq!(
        wrong_kind("f", TypeMismatch { expected: FieldKind::Bool, found: FieldKind::Array }),
        DocumentError::TypeMismatch(
            "f".to_string(),
            TypeMismatch { expected: FieldKind::Bool, found: FieldKind::Array }
        )
    );
}

#[test]
fn an_error_says_what_is_wrong_in_words() {
    assert_eq!(DocumentError::NotAMap.message(), "Not a map");
    assert_eq!(DocumentError::MissingField("owner".to_string()).message(), "Missing key: owner");
    assert_eq!(
        wrong_kind("created", TypeMismatch { expected: FieldKind::Uint64, found: FieldKind::Int64 })
            .message(),
        "Wrong kind of value for key: created"
    );
}
