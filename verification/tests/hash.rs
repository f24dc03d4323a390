use document::{Field, FieldMap};
use sha2::{Digest, Sha256};

fn sha256(data: &[u8]) -> Vec<u8> {
    Sha256::digest(data).to_vec()
}

fn signed(n: i64) -> Field {
    Field::Int64(n)
}

#[test]
fn a_text_is_hashed_from_its_tag_and_bytes() {
    let h = Field::String("x".to_string()).hash();
    assert_eq!(h.as_bytes(), sha256(b"sx").as_slice());
    let h = Field::String("héllo".to_string()).hash();
    assert_eq!(h.as_bytes(), sha256("shéllo".as_bytes()).as_slice());
    let h = Field::String(String::new()).hash();
    assert_eq!(h.as_bytes(), sha256(b"s").as_slice());
}

#[test]
fn a_signed_integer_is_hashed_from_eight_big_endian_bytes() {
    assert_eq!(signed(42).hash().as_bytes(), sha256(&[b'i', 0, 0, 0, 0, 0, 0, 0, 42]).as_slice());
    assert_eq!(
        signed(-1).hash().as_bytes(),
        sha256(&[b'i', 255, 255, 255, 255, 255, 255, 255, 255]).as_slice()
    );
    assert_eq!(signed(i64::MIN).hash().as_bytes(), sha256(&[b'i', 128, 0, 0, 0, 0, 0, 0, 0]).as_slice());
    assert_eq!(
        signed(0x0102030405060708).hash().as_bytes(),
        sha256(&[b'i', 1, 2, 3, 4, 5, 6, 7, 8]).as_slice()
    );
}

#[test]
fn an_unsigned_integer_is_hashed_from_eight_big_endian_bytes() {
    assert_eq!(
        Field::Uint64(42).hash().as_bytes(),
        sha256(&[b'u', 0, 0, 0, 0, 0, 0, 0, 42]).as_slice()
    );
    assert_eq!(
        Field::Uint64(u64::MAX).hash().as_bytes(),
        sha256(&[b'u', 255, 255, 255, 255, 255, 255, 255, 255]).as_slice()
    );
    assert_eq!(
        Field::Uint64(0xf1e2d3c4b5a69788).hash().as_bytes(),
        sha256(&[b'u', 0xf1, 0xe2, 0xd3, 0xc4, 0xb5, 0xa6, 0x97, 0x88]).as_slice()
    );
}

#[test]
fn a_boolean_is_hashed_from_one_byte() {
    assert_eq!(Field::Bool(true).hash().as_bytes(), sha256(&[b'b', 1]).as_slice());
    assert_eq!(Field::Bool(false).hash().as_bytes(), sha256(&[b'b', 0]).as_slice());
}

#[test]
fn a_byte_string_is_hashed_from_its_tag_and_bytes() {
    assert_eq!(Field::Bytes(vec![0x78]).hash().as_bytes(), sha256(b"xx").as_slice());
    assert_eq!(Field::Bytes(vec![0, 255, 7]).hash().as_bytes(), sha256(&[b'x', 0, 255, 7]).as_slice());
    assert_eq!(Field::Bytes(vec![]).hash().as_bytes(), sha256(b"x").as_slice());
}

#[test]
fn a_list_is_hashed_from_its_tag_and_the_digests_of_its_items() {
    let list = Field::Array(vec![signed(1), Field::String("two".to_string())]);
    let mut fed = vec![b'a'];
    fed.extend(sha256(&[b'i', 0, 0, 0, 0, 0, 0, 0, 1]));
    fed.extend(sha256(b"stwo"));
    assert_eq!(list.hash().as_bytes(), sha256(&fed).as_slice());
    assert_eq!(Field::Array(vec![]).hash().as_bytes(), sha256(b"a").as_slice());
}

#[test]
fn a_map_is_hashed_from_its_entries_in_key_order_without_a_tag_of_its_own() {
    let mut map = FieldMap::new();
    map.insert("b".to_string(), Field::String("Hello".to_string()));
    map.insert("a".to_string(), signed(1));
    let mut fed = Vec::new();
    fed.extend(b"sa");
    fed.push(b'i');
    fed.extend(sha256(&[b'i', 0, 0, 0, 0, 0, 0, 0, 1]));
    fed.extend(b"sb");
    fed.push(b's');
    fed.extend(sha256(b"sHello"));
    assert_eq!(Field::Mapping(map).hash().as_bytes(), sha256(&fed).as_slice());
}

#[test]
fn a_nested_map_feeds_the_map_tag_before_its_digest() {
    let mut inner = FieldMap::new();
    inner.insert("k".to_string(), Field::Bool(true));
    let mut inner_fed = Vec::new();
    inner_fed.extend(b"sk");
    inner_fed.push(b'b');
    inner_fed.extend(sha256(&[b'b', 1]));
    let inner_digest = sha256(&inner_fed);

    let mut outer = FieldMap::new();
    outer.insert("m".to_string(), Field::Mapping(inner));
    outer.insert("l".to_string(), Field::Array(vec![]));
    let mut fed = Vec::new();
    fed.extend(b"sl");
    fed.push(b'a');
    fed.extend(sha256(b"a"));
    fed.extend(b"sm");
    fed.push(b'm');
    fed.extend(inner_digest);
    assert_eq!(Field::Mapping(outer).hash().as_bytes(), sha256(&fed).as_slice());
}

#[test]
fn the_empty_map_has_the_digest_of_the_empty_byte_string() {
    let h = Field::Mapping(FieldMap::new()).hash();
    assert_eq!(h.to_hex(), "e3b0c44298fc1c149afbf4c8996fb92427ae41e4649b934ca495991b7852b855");
}

#[test]
fn the_digest_is_rendered_as_64_lowercase_hex_digits() {
    let h = Field::String("x".to_string()).hash();
    let hex = h.to_hex();
    assert_eq!(hex.len(), 64);
    assert!(hex.bytes().all(|b| b.is_ascii_digit() || (b'a'..=b'f').contains(&b)));
    let expected: String = h.as_bytes().iter().map(|b| format!("{:02x}", b)).collect();
    assert_eq!(hex, expected);
    assert_eq!(h.as_bytes().len(), 32);
}

#[test]
fn the_text_abc_has_its_known_digest() {
    // SHA-256 of the three bytes "abc" is a published test vector; the byte
    // string of the one byte 0x61 before "bc" is "abc" too, under the tag `x`
    // it is not.
    let h = Field::String("bc".to_string()).hash();
    assert_eq!(h.as_bytes(), sha256(b"sbc").as_slice());
    assert_eq!(
        hex::encode(sha256(b"abc")),
        "ba7816bf8f01cfea414140de5dae2223b00361a396177a9cb410ff61f20015ad"
    );
    assert_ne!(h.to_hex(), "ba7816bf8f01cfea414140de5dae2223b00361a396177a9cb410ff61f20015ad");
}

#[test]
fn maps_filled_in_different_orders_have_the_same_digest() {
    let mut a = FieldMap::new();
    a.insert("a".to_string(), signed(1));
    a.insert("b".to_string(), signed(2));
    let mut b = FieldMap::new();
    b.insert("b".to_string(), signed(2));
    b.insert("a".to_string(), signed(1));
    assert_eq!(Field::Mapping(a).hash(), Field::Mapping(b).hash());
}

#[test]
fn many_insertion_orders_have_the_same_digest() {
    let keys = ["delta", "alpha", "charlie", "bravo", "echo", "Zulu", "é", ""];
    let mut forward = FieldMap::new();
    for (i, key) in keys.iter().enumerate() {
        forward.insert(key.to_string(), signed(i as i64));
    }
    let mut backward = FieldMap::new();
    for (i, key) in keys.iter().enumerate().rev() {
        backward.insert(key.to_string(), signed(i as i64));
    }
    let mut overwritten = FieldMap::new();
    for key in keys.iter() {
        overwritten.insert(key.to_string(), Field::Bool(false));
    }
    for (i, key) in keys.iter().enumerate() {
        overwritten.insert(key.to_string(), signed(i as i64));
    }
    let h = Field::Mapping(forward).hash();
    assert_eq!(h, Field::Mapping(backward).hash());
    assert_eq!(h, Field::Mapping(overwritten).hash());
}

#[test]
fn kinds_are_told_apart() {
    assert_ne!(Field::Int64(42).hash(), Field::Uint64(42).hash());
    assert_ne!(Field::String("x".to_string()).hash(), Field::Bytes(vec![0x78]).hash());
    assert_ne!(Field::String("42".to_string()).hash(), Field::Int64(42).hash());
    assert_ne!(Field::Bool(true).hash(), Field::Uint64(1).hash());
    assert_ne!(Field::Array(vec![]).hash(), Field::Mapping(FieldMap::new()).hash());
}

#[test]
fn the_order_of_a_list_changes_its_digest() {
    let a = Field::Array(vec![signed(1), signed(2)]);
    let b = Field::Array(vec![signed(2), signed(1)]);
    assert_ne!(a.hash(), b.hash());
}

#[test]
fn hashing_twice_gives_the_same_digest() {
    let mut map = FieldMap::new();
    map.insert("list".to_string(), Field::Array(vec![signed(1), Field::Bytes(vec![1, 2, 3])]));
    map.insert("text".to_string(), Field::String("Hello".to_string()));
    let doc = Field::Mapping(map);
    let first = doc.hash();
    let second = doc.hash();
    assert_eq!(first.as_bytes(), second.as_bytes());
    assert_eq!(first.to_hex(), second.to_hex());
}

#[test]
fn the_tags_are_the_letters_of_the_kinds() {
    assert_eq!(Field::Mapping(FieldMap::new()).key_prefix(), b'm');
    assert_eq!(Field::String(String::new()).key_prefix(), b's');
    assert_eq!(Field::Int64(0).key_prefix(), b'i');
    assert_eq!(Field::Uint64(0).key_prefix(), b'u');
    assert_eq!(Field::Bool(false).key_prefix(), b'b');
    assert_eq!(Field::Bytes(vec![]).key_prefix(), b'x');
    assert_eq!(Field::Array(vec![]).key_prefix(), b'a');
}

#[test]
fn a_copy_of_a_digest_is_equal_to_it() {
    let h = Field::Uint64(7).hash();
    let copy = h.clone();
    assert_eq!(h, copy);
    assert_eq!(h.as_bytes(), copy.as_bytes());
    assert_ne!(h, Field::Uint64(8).hash());
}
