//! Documents as JSON text, both ways.
//!
//! Reading: an object becomes a map, a string a text, a boolean a boolean, an
//! array a list; a number becomes a signed integer if it is one, else an
//! unsigned integer if it is one, else the text is refused, and so is `null`.
//! Writing: a byte string is written as the string of its base64 encoding, so
//! it comes back as a text.

use vstd::prelude::*;
use crate::doc::{
    insert_entry, lemma_insert_entry, lemma_insert_entry_values, lemma_list_item_wf,
    lemma_mapping_entry_wf, lemma_rank_is_split, splits_at, values_wf, Doc, Entries,
};
use crate::field::{Field, FieldMap, list_view};
use crate::json::{
    items_view, json_parse, json_text, members_view, parse_tree, render_tree, writable, Json,
    JsonNumber, JsonTree,
};
use crate::order::key_precedes;

verus! {

/// Why a JSON text or tree is not a document.
#[derive(Clone, Copy, Debug, PartialEq, Eq, Structural)]
pub enum DecodeError {
    /// The text is not JSON.
    Syntax,
    /// A number is neither a signed nor an unsigned 64-bit integer.
    Number,
    /// A `null` stands in the text.
    Null,
}

/// The JSON writer did not produce a text. This does not happen: every
/// document has a text.
#[derive(Clone, Copy, Debug, PartialEq, Eq, Structural)]
pub struct EncodeError;

/// The standard base64 encoding of a byte string, with padding.
pub uninterp spec fn base64_text(data: Seq<u8>) -> Seq<char>;

/// The document that a JSON number stands for: a signed integer where the
/// number is one, else an unsigned integer where it is one.
pub open spec fn decode_number(n: JsonNumber) -> Result<Doc, DecodeError> {
    match n.signed() {
        Some(i) => Ok(Doc::SignedInt(i)),
        None => match n.unsigned() {
            Some(u) => Ok(Doc::UnsignedInt(u)),
            None => Err(DecodeError::Number),
        },
    }
}

/// The entries that the first `n` members of an object stand for: each member
/// is bound in turn, a later one in place of an earlier one of the same name.
/// The first member that is no document decides the error.
pub open spec fn decode_members(members: Seq<(Seq<char>, JsonTree)>, n: nat) -> Result<
    Entries,
    DecodeError,
>
    decreases members, n,
{
    if 0 < n <= members.len() {
        match decode_members(members, (n - 1) as nat) {
            Err(e) => Err(e),
            Ok(entries) => match decode(members[n - 1].1) {
                Err(e) => Err(e),
                Ok(value) => Ok(insert_entry(entries, members[n - 1].0, value)),
            },
        }
    } else {
        Ok(Seq::empty())
    }
}

/// The documents that the first `n` items of an array stand for, in their
/// order. The first item that is no document decides the error.
pub open spec fn decode_items(items: Seq<JsonTree>, n: nat) -> Result<Seq<Doc>, DecodeError>
    decreases items, n,
{
    if 0 < n <= items.len() {
        match decode_items(items, (n - 1) as nat) {
            Err(e) => Err(e),
            Ok(values) => match decode(items[n - 1]) {
                Err(e) => Err(e),
                Ok(value) => Ok(values.push(value)),
            },
        }
    } else {
        Ok(Seq::empty())
    }
}

/// The document that a JSON tree stands for, or why it stands for none.
pub open spec fn decode(tree: JsonTree) -> Result<Doc, DecodeError>
    decreases tree, 0nat,
{
    match tree {
        JsonTree::Null => Err(DecodeError::Null),
        JsonTree::Bool(b) => Ok(Doc::Bool(b)),
        JsonTree::Number(n) => decode_number(n),
        JsonTree::String(s) => Ok(Doc::String(s)),
        JsonTree::Array(items) => match decode_items(items, items.len()) {
            Ok(values) => Ok(Doc::List(values)),
            Err(e) => Err(e),
        },
        JsonTree::Object(members) => match decode_members(members, members.len()) {
            Ok(entries) => Ok(Doc::Mapping(entries)),
            Err(e) => Err(e),
        },
    }
}

/// The document that a JSON text stands for, or why it stands for none.
pub open spec fn decode_text(text: Seq<char>) -> Result<Doc, DecodeError> {
    match json_parse(text) {
        Some(tree) => decode(tree),
        None => Err(DecodeError::Syntax),
    }
}

/// The JSON tree that is written for a document: the entries of a map and
/// the items of a list in their order, a byte string as the string of its
/// base64 encoding.
pub open spec fn encode(v: Doc) -> JsonTree
    decreases v,
{
    match v {
        Doc::Mapping(entries) => JsonTree::Object(
            Seq::new(
                entries.len(),
                |i: int|
                    if 0 <= i < entries.len() {
                        (entries[i].0, encode(entries[i].1))
                    } else {
                        (Seq::empty(), JsonTree::Null)
                    },
            ),
        ),
        Doc::String(s) => JsonTree::String(s),
        Doc::SignedInt(n) => JsonTree::Number(JsonNumber::of_signed(n)),
        Doc::UnsignedInt(n) => JsonTree::Number(JsonNumber::PosInt(n)),
        Doc::Bool(b) => JsonTree::Bool(b),
        Doc::Bytes(b) => JsonTree::String(base64_text(b)),
        Doc::List(items) => JsonTree::Array(
            Seq::new(
                items.len(),
                |i: int|
                    if 0 <= i < items.len() {
                        encode(items[i])
                    } else {
                        JsonTree::Null
                    },
            ),
        ),
    }
}

/// The JSON text that is written for a document, where one is written.
pub open spec fn encode_text(v: Doc) -> Option<Seq<char>> {
    json_text(encode(v))
}

/// `base64::encode`: the standard base64 encoding of the bytes, with padding.
#[verifier::external_body]
fn base64_encode(data: &[u8]) -> (text: String)
    ensures
        text@ == base64_text(data@),
{
    base64::encode(data)
}

/// The document that a JSON tree stands for.
#[verifier::loop_isolation(false)]
pub fn from_json_value(json: &Json) -> (r: Result<Field, DecodeError>)
    ensures
        match r {
            Ok(field) => decode(json@) == Ok::<Doc, DecodeError>(field@),
            Err(e) => decode(json@) == Err::<Doc, DecodeError>(e),
        },
    decreases json,
{
    match json {
        Json::Null => Err(DecodeError::Null),
        Json::Bool(b) => Ok(Field::Bool(*b)),
        Json::Number(n) => {
            if let Some(i) = n.as_i64() {
                Ok(Field::Int64(i))
            } else if let Some(u) = n.as_u64() {
                Ok(Field::Uint64(u))
            } else {
                Err(DecodeError::Number)
            }
        },
        Json::String(s) => Ok(Field::String(s.clone())),
        Json::Array(a) => {
            let ghost items = items_view(*a);
            let mut values: Vec<Field> = Vec::new();
            assert(list_view(values) =~= Seq::empty());
            let mut i: usize = 0;
            while i < a.len()
                invariant
                    i <= a.len(),
                    decode_items(items, i as nat) == Ok::<Seq<Doc>, DecodeError>(list_view(values)),
                decreases a.len() - i,
            {
                assert(items[i as int] == a[i as int]@);
                match from_json_value(&a[i]) {
                    Ok(value) => {
                        let ghost before = list_view(values);
                        values.push(value);
                        assert(list_view(values) =~= before.push(value@));
                    },
                    Err(e) => {
                        proof {
                            lemma_decode_items_error(items, (i + 1) as nat, a.len() as nat);
                        }
                        return Err(e);
                    },
                }
                i = i + 1;
            }
            Ok(Field::Array(values))
        },
        Json::Object(o) => {
            let ghost members = members_view(*o);
            let mut map = FieldMap::new();
            let mut i: usize = 0;
            while i < o.len()
                invariant
                    i <= o.len(),
                    decode_members(members, i as nat) == Ok::<Entries, DecodeError>(map.entries()),
                decreases o.len() - i,
            {
                assert(members[i as int] == (o[i as int].0@, o[i as int].1@));
                match from_json_value(&o[i].1) {
                    Ok(value) => {
                        map.insert(o[i].0.clone(), value);
                    },
                    Err(e) => {
                        proof {
                            lemma_decode_members_error(members, (i + 1) as nat, o.len() as nat);
                        }
                        return Err(e);
                    },
                }
                i = i + 1;
            }
            Ok(Field::Mapping(map))
        },
    }
}

/// An error among the first `n` items is the error of any longer run of items.
pub proof fn lemma_decode_items_error(items: Seq<JsonTree>, n: nat, m: nat)
    requires
        n <= m <= items.len(),
        decode_items(items, n) is Err,
    ensures
        decode_items(items, m) == decode_items(items, n),
    decreases m,
{
    if n < m {
        lemma_decode_items_error(items, n, (m - 1) as nat);
    }
}

/// An error among the first `n` members is the error of any longer run of members.
pub proof fn lemma_decode_members_error(members: Seq<(Seq<char>, JsonTree)>, n: nat, m: nat)
    requires
        n <= m <= members.len(),
        decode_members(members, n) is Err,
    ensures
        decode_members(members, m) == decode_members(members, n),
    decreases m,
{
    if n < m {
        lemma_decode_members_error(members, n, (m - 1) as nat);
    }
}

/// The JSON tree that is written for a document.
#[verifier::loop_isolation(false)]
pub fn to_json_value(field: &Field) -> (json: Json)
    ensures
        json@ == encode(field@),
    decreases field,
{
    match field {
        Field::Mapping(m) => {
            let n = m.len();
            let ghost entries = m.entries();
            let mut members: Vec<(String, Json)> = Vec::new();
            let mut i: usize = 0;
            while i < n
                invariant
                    i <= n,
                    n == entries.len(),
                    members.len() == i,
                    forall|j: int| 0 <= j < i ==> (#[trigger] members[j]).0@ == entries[j].0,
                    forall|j: int|
                        0 <= j < i ==> (#[trigger] members[j]).1@ == encode(entries[j].1),
                decreases n - i,
            {
                let name = String::from_str(m.key_at(i));
                let value = to_json_value(m.value_at(i));
                members.push((name, value));
                i = i + 1;
            }
            assert(members_view(members) =~= encode(field@)->Object_0);
            Json::Object(members)
        },
        Field::String(s) => Json::String(s.clone()),
        Field::Int64(n) => Json::Number(JsonNumber::from_i64(*n)),
        Field::Uint64(n) => Json::Number(JsonNumber::PosInt(*n)),
        Field::Bool(b) => Json::Bool(*b),
        Field::Bytes(b) => Json::String(base64_encode(b.as_slice())),
        Field::Array(a) => {
            let ghost values = list_view(*a);
            let mut items: Vec<Json> = Vec::new();
            let mut i: usize = 0;
            while i < a.len()
                invariant
                    i <= a.len(),
                    items.len() == i,
                    forall|j: int| 0 <= j < i ==> (#[trigger] items[j])@ == encode(values[j]),
                decreases a.len() - i,
            {
                assert(values[i as int] == a[i as int]@);
                let item = to_json_value(&a[i]);
                items.push(item);
                i = i + 1;
            }
            assert(items_view(items) =~= encode(field@)->Array_0);
            Json::Array(items)
        },
    }
}

/// Reads a document from JSON text.
///
/// The text is refused where it is not JSON, where a number in it is neither
/// a signed nor an unsigned 64-bit integer, and where a `null` stands in it.
pub fn from_json(s: &str) -> (r: Result<Field, DecodeError>)
    ensures
        match r {
            Ok(field) => decode_text(s@) == Ok::<Doc, DecodeError>(field@) && field@.wf(),
            Err(e) => decode_text(s@) == Err::<Doc, DecodeError>(e),
        },
{
    match parse_tree(s) {
        Ok(json) => {
            proof {
                lemma_decode_wf(json@);
            }
            from_json_value(&json)
        },
        Err(_) => Err(DecodeError::Syntax),
    }
}

/// The tree that is written for a value holds no number but integers.
pub proof fn lemma_encode_writable(v: Doc)
    ensures
        writable(encode(v)),
    decreases v,
{
    match v {
        Doc::Mapping(entries) => {
            let members = encode(v)->Object_0;
            assert forall|i: int| 0 <= i < members.len() implies writable(
                (#[trigger] members[i]).1,
            ) by {
                lemma_encode_writable(entries[i].1);
            }
        },
        Doc::List(items) => {
            let written = encode(v)->Array_0;
            assert forall|i: int| 0 <= i < written.len() implies
                writable(#[trigger] written[i]) by {
                lemma_encode_writable(items[i]);
            }
        },
        _ => {},
    }
}

/// Writes a document as JSON text. Every document has a text.
pub fn to_json(field: &Field) -> (r: Result<String, EncodeError>)
    ensures
        r matches Ok(text) && encode_text(field@) == Some(text@),
{
    proof {
        lemma_encode_writable(field@);
    }
    let json = to_json_value(field);
    match render_tree(&json) {
        Some(text) => Ok(text),
        None => Err(EncodeError),
    }
}

/// The value is written as JSON and read back unchanged: it holds no byte
/// string, which comes back as a text, and no unsigned integer that is also a
/// signed one, which comes back as the signed one.
pub open spec fn text_faithful(v: Doc) -> bool
    decreases v,
{
    match v {
        Doc::Bytes(_) => false,
        Doc::UnsignedInt(n) => n > i64::MAX,
        Doc::Mapping(entries) => forall|i: int|
            0 <= i < entries.len() ==> text_faithful((#[trigger] entries[i]).1),
        Doc::List(items) => forall|i: int|
            0 <= i < items.len() ==> text_faithful(#[trigger] items[i]),
        _ => true,
    }
}

/// A `null` stands somewhere in the tree.
pub open spec fn has_null(tree: JsonTree) -> bool
    decreases tree,
{
    match tree {
        JsonTree::Null => true,
        JsonTree::Array(items) => exists|i: int|
            0 <= i < items.len() && has_null(#[trigger] items[i]),
        JsonTree::Object(members) => exists|i: int|
            0 <= i < members.len() && has_null((#[trigger] members[i]).1),
        _ => false,
    }
}

/// Reading what was written for a well-formed value that is written
/// faithfully gives the value back.
pub proof fn law_decode_inverts_encode(v: Doc)
    requires
        v.wf(),
        text_faithful(v),
    ensures
        decode(encode(v)) == Ok::<Doc, DecodeError>(v),
    decreases v, 0nat,
{
    match v {
        Doc::Mapping(entries) => {
            lemma_members_round_trip(entries, entries.len());
            assert(entries.take(entries.len() as int) =~= entries);
        },
        Doc::List(items) => {
            lemma_items_round_trip(items, items.len());
            assert(items.take(items.len() as int) =~= items);
        },
        _ => {},
    }
}

/// Reading the first `n` items that were written for a list gives the first
/// `n` items of the list.
proof fn lemma_items_round_trip(items: Seq<Doc>, n: nat)
    requires
        n <= items.len(),
        Doc::List(items).wf(),
        text_faithful(Doc::List(items)),
    ensures
        decode_items(encode(Doc::List(items))->Array_0, n) == Ok::<Seq<Doc>, DecodeError>(
            items.take(n as int),
        ),
    decreases items, n,
{
    if n > 0 {
        lemma_items_round_trip(items, (n - 1) as nat);
        lemma_list_item_wf(items, n - 1);
        law_decode_inverts_encode(items[n - 1]);
        assert(items.take(n as int) =~= items.take(n - 1).push(items[n - 1]));
    } else {
        assert(items.take(0) =~= Seq::empty());
    }
}

/// Reading the first `n` members that were written for a map gives the first
/// `n` entries of the map.
proof fn lemma_members_round_trip(entries: Entries, n: nat)
    requires
        n <= entries.len(),
        Doc::Mapping(entries).wf(),
        text_faithful(Doc::Mapping(entries)),
    ensures
        decode_members(encode(Doc::Mapping(entries))->Object_0, n) == Ok::<Entries, DecodeError>(
            entries.take(n as int),
        ),
    decreases entries, n,
{
    if n > 0 {
        lemma_members_round_trip(entries, (n - 1) as nat);
        lemma_mapping_entry_wf(entries, n - 1);
        law_decode_inverts_encode(entries[n - 1].1);
        let front = entries.take(n - 1);
        let key = entries[n - 1].0;
        assert(splits_at(front, key, n - 1)) by {
            assert forall|i: int| 0 <= i < n - 1 implies key_precedes(front[i].0, key) by {
                assert(front[i] == entries[i]);
            }
        }
        lemma_rank_is_split(front, key, n - 1);
        assert(entries.take(n as int) =~= insert_entry(front, key, entries[n - 1].1));
    } else {
        assert(entries.take(0) =~= Seq::empty());
    }
}

/// A tree in which a `null` stands is no document.
pub proof fn law_null_rejected(tree: JsonTree)
    requires
        has_null(tree),
    ensures
        decode(tree) is Err,
    decreases tree,
{
    match tree {
        JsonTree::Array(items) => {
            let i = choose|i: int| 0 <= i < items.len() && has_null(#[trigger] items[i]);
            law_null_rejected(items[i]);
            assert(decode_items(items, (i + 1) as nat) is Err);
            lemma_decode_items_error(items, (i + 1) as nat, items.len());
        },
        JsonTree::Object(members) => {
            let i = choose|i: int| 0 <= i < members.len() && has_null((#[trigger] members[i]).1);
            law_null_rejected(members[i].1);
            assert(decode_members(members, (i + 1) as nat) is Err);
            lemma_decode_members_error(members, (i + 1) as nat, members.len());
        },
        _ => {},
    }
}

/// A text that stands for a tree in which a `null` stands is refused.
pub proof fn law_null_text_rejected(text: Seq<char>)
    ensures
        (json_parse(text) matches Some(tree) && has_null(tree)) ==> decode_text(text) is Err,
{
    if let Some(tree) = json_parse(text) {
        if has_null(tree) {
            law_null_rejected(tree);
        }
    }
}

/// A document that is read from a tree is well formed.
pub proof fn lemma_decode_wf(tree: JsonTree)
    ensures
        decode(tree) matches Ok(v) ==> v.wf(),
    decreases tree, 0nat,
{
    match tree {
        JsonTree::Array(items) => {
            lemma_decode_items_wf(items, items.len());
        },
        JsonTree::Object(members) => {
            lemma_decode_members_wf(members, members.len());
        },
        _ => {},
    }
}

/// A list of well-formed values stays one when a well-formed value is added.
proof fn lemma_push_wf(items: Seq<Doc>, value: Doc)
    requires
        Doc::List(items).wf(),
        value.wf(),
    ensures
        Doc::List(items.push(value)).wf(),
{
    let longer = items.push(value);
    assert forall|i: int| 0 <= i < longer.len() implies (#[trigger] longer[i]).wf() by {
        if i < items.len() {
            lemma_list_item_wf(items, i);
        }
    }
}

/// The documents that are read from the items of an array are well formed.
proof fn lemma_decode_items_wf(items: Seq<JsonTree>, n: nat)
    ensures
        decode_items(items, n) matches Ok(values) ==> Doc::List(values).wf(),
    decreases items, n,
{
    if 0 < n <= items.len() {
        lemma_decode_items_wf(items, (n - 1) as nat);
        lemma_decode_wf(items[n - 1]);
        if let Ok(before) = decode_items(items, (n - 1) as nat) {
            if let Ok(value) = decode(items[n - 1]) {
                lemma_push_wf(before, value);
            }
        }
    }
}

/// The entries that are read from the members of an object are ascending,
/// and their values well formed.
proof fn lemma_decode_members_wf(members: Seq<(Seq<char>, JsonTree)>, n: nat)
    ensures
        decode_members(members, n) matches Ok(entries) ==> Doc::Mapping(entries).wf(),
    decreases members, n,
{
    if 0 < n <= members.len() {
        lemma_decode_members_wf(members, (n - 1) as nat);
        lemma_decode_wf(members[n - 1].1);
        if let Ok(before) = decode_members(members, (n - 1) as nat) {
            if let Ok(value) = decode(members[n - 1].1) {
                assert(values_wf(before));
                lemma_insert_entry(before, members[n - 1].0, value);
                lemma_insert_entry_values(before, members[n - 1].0, value);
            }
        }
    }
}

} // verus!
