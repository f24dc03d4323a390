use document::convert::{FieldKind, TypeMismatch};
use document::{Field, FieldMap};

fn map_of(pairs: &[(&str, i64)]) -> FieldMap {
    let mut map = FieldMap::new();
    for (key, value) in pairs {
        map.insert(key.to_string(), Field::Int64(*value));
    }
    map
}

#[test]
fn a_new_map_is_empty() {
    let map = FieldMap::new();
    assert_eq!(map.len(), 0);
    assert!(map.is_empty());
    assert!(map.get("a").is_none());
    assert!(!map.contains_key("a"));
}

#[test]
fn insert_binds_and_get_finds() {
    let mut map = FieldMap::new();
    assert_eq!(map.insert("b".to_string(), Field::Int64(2)), None);
    assert_eq!(map.insert("a".to_string(), Field::Bool(true)), None);
    assert_eq!(map.len(), 2);
    assert!(!map.is_empty());
    assert_eq!(map.get("a"), Some(&Field::Bool(true)));
    assert_eq!(map.get("b"), Some(&Field::Int64(2)));
    assert_eq!(map.get("c"), None);
    assert_eq!(map.get(""), None);
    assert!(map.contains_key("a"));
    assert!(!map.contains_key("ab"));
}

#[test]
fn insert_replaces_and_returns_the_value_before() {
    let mut map = map_of(&[("a", 1), ("b", 2), ("c", 3)]);
    assert_eq!(map.insert("b".to_string(), Field::Int64(20)), Some(Field::Int64(2)));
    assert_eq!(map.len(), 3);
    assert_eq!(map.get("a"), Some(&Field::Int64(1)));
    assert_eq!(map.get("b"), Some(&Field::Int64(20)));
    assert_eq!(map.get("c"), Some(&Field::Int64(3)));
}

#[test]
fn entries_are_kept_in_ascending_byte_order() {
    let map = map_of(&[("z", 1), ("a", 2), ("é", 3), ("B", 4), ("ab", 5), ("", 6)]);
    let mut keys = Vec::new();
    let mut values = Vec::new();
    for i in 0..map.len() {
        keys.push(map.key_at(i).to_string());
        values.push(map.value_at(i).clone());
    }
    assert_eq!(keys, vec!["", "B", "a", "ab", "z", "é"]);
    assert_eq!(
        values,
        vec![
            Field::Int64(6),
            Field::Int64(4),
            Field::Int64(2),
            Field::Int64(5),
            Field::Int64(1),
            Field::Int64(3),
        ]
    );
}

#[test]
fn maps_filled_in_different_orders_are_equal() {
    let a = map_of(&[("a", 1), ("b", 2), ("c", 3)]);
    let b = map_of(&[("c", 3), ("a", 1), ("b", 2)]);
    assert_eq!(a, b);
    assert_eq!(Field::Mapping(a), Field::Mapping(b));
}

#[test]
fn many_keys_are_all_found() {
    let mut map = FieldMap::new();
    for i in 0..200i64 {
        let key = format!("key{}", (i * 37) % 200);
        assert_eq!(map.insert(key, Field::Int64(i)), None);
    }
    assert_eq!(map.len(), 200);
    for i in 0..200i64 {
        let key = format!("key{}", (i * 37) % 200);
        assert_eq!(map.get(&key), Some(&Field::Int64(i)));
    }
    for i in 1..map.len() {
        assert!(map.key_at(i - 1) < map.key_at(i));
    }
}

#[test]
fn equality_is_structural() {
    assert_eq!(Field::Int64(42), Field::Int64(42));
    assert_ne!(Field::Int64(42), Field::Int64(43));
    assert_ne!(Field::Int64(42), Field::Uint64(42));
    assert_ne!(Field::String("x".to_string()), Field::Bytes(vec![0x78]));
    assert_eq!(Field::Bytes(vec![1, 2]), Field::Bytes(vec![1, 2]));
    assert_ne!(Field::Bytes(vec![1, 2]), Field::Bytes(vec![1, 2, 3]));
    assert_ne!(Field::Bytes(vec![1, 2]), Field::Bytes(vec![1, 3]));
    assert_ne!(Field::Bool(true), Field::Bool(false));
    assert_eq!(Field::Array(vec![]), Field::Array(vec![]));
    assert_ne!(Field::Array(vec![]), Field::Mapping(FieldMap::new()));
    assert_ne!(map_of(&[("a", 1)]), map_of(&[("a", 2)]));
    assert_ne!(map_of(&[("a", 1)]), map_of(&[("b", 1)]));
    assert_ne!(map_of(&[("a", 1)]), map_of(&[("a", 1), ("b", 1)]));
}

#[test]
fn list_equality_is_sensitive_to_order() {
    let a = Field::Array(vec![Field::Int64(1), Field::Int64(2)]);
    let b = Field::Array(vec![Field::Int64(2), Field::Int64(1)]);
    let c = Field::Array(vec![Field::Int64(1), Field::Int64(2)]);
    assert_ne!(a, b);
    assert_eq!(a, c);
    assert_ne!(a, Field::Array(vec![Field::Int64(1)]));
}

#[test]
fn clone_gives_an_equal_document() {
    let mut inner = FieldMap::new();
    inner.insert("k".to_string(), Field::Bytes(vec![9, 8, 7]));
    let mut map = FieldMap::new();
    map.insert("inner".to_string(), Field::Mapping(inner));
    map.insert(
        "list".to_string(),
        Field::Array(vec![Field::String("s".to_string()), Field::Uint64(u64::MAX), Field::Bool(false)]),
    );
    map.insert("n".to_string(), Field::Int64(i64::MIN));
    let doc = Field::Mapping(map);
    let copy = doc.clone();
    assert_eq!(doc, copy);
    assert_eq!(doc.hash(), copy.hash());
}

#[test]
fn a_document_is_made_from_each_kind_of_value() {
    assert_eq!(Field::from("Hello".to_string()), Field::String("Hello".to_string()));
    assert_eq!(Field::from(-42i64), Field::Int64(-42));
    assert_eq!(Field::from(42u64), Field::Uint64(42));
    assert_eq!(Field::from(true), Field::Bool(true));
    assert_eq!(Field::from(vec![1u8, 2, 3, 4]), Field::Bytes(vec![1, 2, 3, 4]));
    assert_eq!(Field::from(vec![Field::Bool(true)]), Field::Array(vec![Field::Bool(true)]));
    assert_eq!(Field::from(map_of(&[("a", 1)])), Field::Mapping(map_of(&[("a", 1)])));
}

#[test]
fn a_list_is_made_from_a_vector_of_one_kind() {
    assert_eq!(
        Field::from(vec!["a".to_string(), "b".to_string()]),
        Field::Array(vec![Field::String("a".to_string()), Field::String("b".to_string())])
    );
    assert_eq!(Field::from(vec![1i64, -2]), Field::Array(vec![Field::Int64(1), Field::Int64(-2)]));
    assert_eq!(Field::from(vec![1u64, 2]), Field::Array(vec![Field::Uint64(1), Field::Uint64(2)]));
    assert_eq!(
        Field::from(vec![true, false]),
        Field::Array(vec![Field::Bool(true), Field::Bool(false)])
    );
    assert_eq!(
        Field::from(vec![vec![1u8, 2], vec![]]),
        Field::Array(vec![Field::Bytes(vec![1, 2]), Field::Bytes(vec![])])
    );
    assert_eq!(
        Field::from(vec![map_of(&[("a", 1)]), FieldMap::new()]),
        Field::Array(vec![Field::Mapping(map_of(&[("a", 1)])), Field::Mapping(FieldMap::new())])
    );
    assert_eq!(Field::from(Vec::<String>::new()), Field::Array(vec![]));
}

#[test]
fn into_converts_like_from() {
    let field: Field = "x".to_string().into();
    assert_eq!(field, Field::String("x".to_string()));
    let field: Field = vec![1i64].into();
    assert_eq!(field, Field::Array(vec![Field::Int64(1)]));
}

#[test]
fn a_value_is_taken_back_from_a_document_of_its_kind() {
    assert_eq!(Field::String("Hello".to_string()).into_string(), Ok("Hello".to_string()));
    assert_eq!(Field::Int64(-42).into_i64(), Ok(-42));
    assert_eq!(Field::Uint64(42).into_u64(), Ok(42));
    assert_eq!(Field::Bool(true).into_bool(), Ok(true));
    assert_eq!(Field::Bytes(vec![1, 2, 3, 4]).into_bytes(), Ok(vec![1, 2, 3, 4]));
    assert_eq!(Field::Array(vec![Field::Bool(true)]).into_array(), Ok(vec![Field::Bool(true)]));
    assert_eq!(Field::Mapping(map_of(&[("a", 1)])).into_map(), Ok(map_of(&[("a", 1)])));
}

#[test]
fn a_list_is_taken_back_as_a_vector_of_one_kind() {
    assert_eq!(
        Field::from(vec!["a".to_string(), "b".to_string()]).into_string_array(),
        Ok(vec!["a".to_string(), "b".to_string()])
    );
    assert_eq!(Field::from(vec![1i64, -2]).into_i64_array(), Ok(vec![1, -2]));
    assert_eq!(Field::from(vec![1u64, 2]).into_u64_array(), Ok(vec![1, 2]));
    assert_eq!(Field::from(vec![true, false]).into_bool_array(), Ok(vec![true, false]));
    assert_eq!(
        Field::from(vec![vec![1u8, 2], vec![]]).into_bytes_array(),
        Ok(vec![vec![1u8, 2], vec![]])
    );
    assert_eq!(
        Field::from(vec![map_of(&[("a", 1)])]).into_map_array(),
        Ok(vec![map_of(&[("a", 1)])])
    );
    assert_eq!(Field::Array(vec![]).into_i64_array(), Ok(vec![]));
}

#[test]
fn a_value_of_another_kind_is_a_type_mismatch() {
    assert_eq!(
        Field::Int64(1).into_string(),
        Err(TypeMismatch { expected: FieldKind::String, found: FieldKind::Int64 })
    );
    assert_eq!(
        Field::Uint64(1).into_i64(),
        Err(TypeMismatch { expected: FieldKind::Int64, found: FieldKind::Uint64 })
    );
    assert_eq!(
        Field::Int64(1).into_u64(),
        Err(TypeMismatch { expected: FieldKind::Uint64, found: FieldKind::Int64 })
    );
    assert_eq!(
        Field::String("true".to_string()).into_bool(),
        Err(TypeMismatch { expected: FieldKind::Bool, found: FieldKind::String })
    );
    assert_eq!(
        Field::String("x".to_string()).into_bytes(),
        Err(TypeMismatch { expected: FieldKind::Bytes, found: FieldKind::String })
    );
    assert_eq!(
        Field::Mapping(FieldMap::new()).into_array(),
        Err(TypeMismatch { expected: FieldKind::Array, found: FieldKind::Mapping })
    );
    assert_eq!(
        Field::Array(vec![]).into_map(),
        Err(TypeMismatch { expected: FieldKind::Mapping, found: FieldKind::Array })
    );
}

#[test]
fn the_first_item_of_another_kind_is_a_type_mismatch() {
    let mixed = Field::Array(vec![Field::Int64(1), Field::Bool(true), Field::Uint64(2)]);
    assert_eq!(
        mixed.clone().into_i64_array(),
        Err(TypeMismatch { expected: FieldKind::Int64, found: FieldKind::Bool })
    );
    assert_eq!(
        mixed.clone().into_bool_array(),
        Err(TypeMismatch { expected: FieldKind::Bool, found: FieldKind::Int64 })
    );
    assert_eq!(
        mixed.clone().into_string_array(),
        Err(TypeMismatch { expected: FieldKind::String, found: FieldKind::Int64 })
    );
    assert_eq!(
        mixed.clone().into_u64_array(),
        Err(TypeMismatch { expected: FieldKind::Uint64, found: FieldKind::Int64 })
    );
    assert_eq!(
        mixed.clone().into_bytes_array(),
        Err(TypeMismatch { expected: FieldKind::Bytes, found: FieldKind::Int64 })
    );
    assert_eq!(
        mixed.into_map_array(),
        Err(TypeMismatch { expected: FieldKind::Mapping, found: FieldKind::Int64 })
    );
    assert_eq!(
        Field::Bool(true).into_i64_array(),
        Err(TypeMismatch { expected: FieldKind::Array, found: FieldKind::Bool })
    );
}

#[test]
fn kind_names_the_variant() {
    assert_eq!(Field::Mapping(FieldMap::new()).kind(), FieldKind::Mapping);
    assert_eq!(Field::String(String::new()).kind(), FieldKind::String);
    assert_eq!(Field::Int64(0).kind(), FieldKind::Int64);
    assert_eq!(Field::Uint64(0).kind(), FieldKind::Uint64);
    assert_eq!(Field::Bool(false).kind(), FieldKind::Bool);
    assert_eq!(Field::Bytes(vec![]).kind(), FieldKind::Bytes);
    assert_eq!(Field::Array(vec![]).kind(), FieldKind::Array);
}
