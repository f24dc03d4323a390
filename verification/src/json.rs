//! JSON text and the tree that it stands for.
//!
//! The text is read and written by the crate `serde_json`. What the library
//! decides is decided on a tree of its own, [`Json`], which holds a JSON
//! value as plain data.

use vstd::prelude::*;

verus! {

/// A JSON number, as far as the library tells numbers apart.
#[derive(Clone, Copy, Debug, PartialEq, Eq, Structural)]
pub enum JsonNumber {
    /// An integer from zero to the largest unsigned 64-bit integer.
    PosInt(u64),
    /// An integer below zero, down to the smallest signed 64-bit integer.
    NegInt(i64),
    /// Any other number: one with a fraction or an exponent, or an integer
    /// outside both ranges. The library does not hold its value.
    Other,
}

/// A JSON value.
#[derive(Debug, PartialEq, Eq)]
pub enum Json {
    Null,
    Bool(bool),
    Number(JsonNumber),
    String(String),
    Array(Vec<Json>),
    /// The members of an object, in the order in which they are read or written.
    Object(Vec<(String, Json)>),
}

/// What a JSON value is: the tree that contracts speak of.
pub ghost enum JsonTree {
    Null,
    Bool(bool),
    Number(JsonNumber),
    String(Seq<char>),
    Array(Seq<JsonTree>),
    Object(Seq<(Seq<char>, JsonTree)>),
}

/// The trees that a vector of JSON values stands for, in its order.
pub open spec fn items_view(v: Vec<Json>) -> Seq<JsonTree>
    decreases v,
{
    Seq::new(
        v.len() as nat,
        |i: int|
            if 0 <= i < v.len() {
                v[i].view()
            } else {
                JsonTree::Null
            },
    )
}

/// The members that a vector of names and JSON values stands for, in its order.
pub open spec fn members_view(v: Vec<(String, Json)>) -> Seq<(Seq<char>, JsonTree)>
    decreases v,
{
    Seq::new(
        v.len() as nat,
        |i: int|
            if 0 <= i < v.len() {
                (v[i].0@, v[i].1.view())
            } else {
                (Seq::empty(), JsonTree::Null)
            },
    )
}

impl View for Json {
    type V = JsonTree;

    open spec fn view(&self) -> JsonTree
        decreases self,
    {
        match self {
            Json::Null => JsonTree::Null,
            Json::Bool(b) => JsonTree::Bool(*b),
            Json::Number(n) => JsonTree::Number(*n),
            Json::String(s) => JsonTree::String(s@),
            Json::Array(a) => JsonTree::Array(items_view(*a)),
            Json::Object(o) => JsonTree::Object(members_view(*o)),
        }
    }
}

impl JsonNumber {
    /// The number as a signed 64-bit integer, if it is one.
    pub open spec fn signed(self) -> Option<i64> {
        match self {
            JsonNumber::PosInt(u) => if u <= i64::MAX { Some(u as i64) } else { None },
            JsonNumber::NegInt(i) => Some(i),
            JsonNumber::Other => None,
        }
    }

    /// The number as an unsigned 64-bit integer, if it is one.
    pub open spec fn unsigned(self) -> Option<u64> {
        match self {
            JsonNumber::PosInt(u) => Some(u),
            _ => None,
        }
    }

    /// The number as a signed 64-bit integer, if it is one.
    pub fn as_i64(&self) -> (r: Option<i64>)
        ensures
            r == self.signed(),
    {
        match self {
            JsonNumber::PosInt(u) => if *u <= 0x7fff_ffff_ffff_ffff {
                Some(*u as i64)
            } else {
                None
            },
            JsonNumber::NegInt(i) => Some(*i),
            JsonNumber::Other => None,
        }
    }

    /// The number as an unsigned 64-bit integer, if it is one.
    pub fn as_u64(&self) -> (r: Option<u64>)
        ensures
            r == self.unsigned(),
    {
        match self {
            JsonNumber::PosInt(u) => Some(*u),
            _ => None,
        }
    }

    /// The number that stands for a signed integer.
    pub fn from_i64(i: i64) -> (n: JsonNumber)
        ensures
            n == JsonNumber::of_signed(i),
    {
        if i < 0 {
            JsonNumber::NegInt(i)
        } else {
            JsonNumber::PosInt(i as u64)
        }
    }

    /// The number that stands for a signed integer: below zero it is kept as
    /// it is, from zero on it is the same number as the unsigned one.
    pub open spec fn of_signed(i: i64) -> JsonNumber {
        if i < 0 {
            JsonNumber::NegInt(i)
        } else {
            JsonNumber::PosInt(i as u64)
        }
    }
}

#[verifier::external_type_specification]
#[verifier::external_body]
pub struct ExJsonValue(serde_json::Value);

#[verifier::external_type_specification]
#[verifier::external_body]
pub struct ExJsonNumber(serde_json::Number);

#[verifier::external_type_specification]
#[verifier::external_body]
pub struct ExJsonError(serde_json::Error);

/// The library holds the value of every number in the tree.
pub open spec fn writable(tree: JsonTree) -> bool
    decreases tree,
{
    match tree {
        JsonTree::Number(n) => n != JsonNumber::Other,
        JsonTree::Array(items) => forall|i: int|
            0 <= i < items.len() ==> writable(#[trigger] items[i]),
        JsonTree::Object(members) => forall|i: int|
            0 <= i < members.len() ==> writable((#[trigger] members[i]).1),
        _ => true,
    }
}

/// The tree that `serde_json` reads from a text, or `None` where it reports
/// an error.
pub uninterp spec fn json_parse(text: Seq<char>) -> Option<JsonTree>;

/// The text that `serde_json` writes for a tree, or `None` where it writes
/// none; it writes one for every tree that is [`writable`].
pub uninterp spec fn json_text(tree: JsonTree) -> Option<Seq<char>>;

/// Tells the three kinds of `serde_json::Number` apart by `as_u64` and
/// `as_i64`: the first is `Some` for an integer from zero on, the second alone
/// for an integer below zero, neither for a number held as floating point.
#[verifier::external_body]
fn lift_number(n: &serde_json::Number) -> (r: JsonNumber) {
    match (n.as_u64(), n.as_i64()) {
        (Some(u), _) => JsonNumber::PosInt(u),
        (None, Some(i)) => JsonNumber::NegInt(i),
        (None, None) => JsonNumber::Other,
    }
}

/// Copies a `serde_json::Value` into a tree of the library, variant by
/// variant; the members of an object come in the order in which
/// `serde_json::Map` hands them out.
#[verifier::external_body]
fn lift(v: serde_json::Value) -> (r: Json) {
    match v {
        serde_json::Value::Null => Json::Null,
        serde_json::Value::Bool(b) => Json::Bool(b),
        serde_json::Value::Number(n) => Json::Number(lift_number(&n)),
        serde_json::Value::String(s) => Json::String(s),
        serde_json::Value::Array(a) => Json::Array(a.into_iter().map(lift).collect()),
        serde_json::Value::Object(m) => {
            Json::Object(m.into_iter().map(|(k, x)| (k, lift(x))).collect())
        },
    }
}

/// `serde_json::from_str` at the type `serde_json::Value`: the value that
/// the text stands for, copied into a tree of the library, or the error that
/// `serde_json` reports. The same text always gives the same result.
#[verifier::external_body]
pub(crate) fn parse_tree(text: &str) -> (r: Result<Json, serde_json::Error>)
    ensures
        match r {
            Ok(json) => json_parse(text@) == Some(json@),
            Err(_) => json_parse(text@) is None,
        },
{
    serde_json::from_str::<serde_json::Value>(text).map(lift)
}

/// `serde_json::Number::from` at `u64` and at `i64`; there is no number for
/// a value that the library does not hold.
#[verifier::external_body]
fn lower_number(n: &JsonNumber) -> (r: Option<serde_json::Number>) {
    match n {
        JsonNumber::PosInt(u) => Some(serde_json::Number::from(*u)),
        JsonNumber::NegInt(i) => Some(serde_json::Number::from(*i)),
        JsonNumber::Other => None,
    }
}

/// Copies a tree of the library into a `serde_json::Value`, variant by
/// variant, where every number in it can be copied.
#[verifier::external_body]
fn lower(json: &Json) -> (r: Option<serde_json::Value>) {
    match json {
        Json::Null => Some(serde_json::Value::Null),
        Json::Bool(b) => Some(serde_json::Value::Bool(*b)),
        Json::Number(n) => lower_number(n).map(serde_json::Value::Number),
        Json::String(s) => Some(serde_json::Value::String(s.clone())),
        Json::Array(a) => a.iter().map(lower).collect::<Option<_>>().map(serde_json::Value::Array),
        Json::Object(o) => o.iter()
            .map(|(k, x)| Some((k.clone(), lower(x)?)))
            .collect::<Option<_>>()
            .map(serde_json::Value::Object),
    }
}

/// `serde_json::to_string` on the `serde_json::Value` that the tree is copied
/// into: the compact JSON text of the tree. The same tree always gives the
/// same result. There is a text for every tree whose numbers can all be
/// copied: `serde_json` writes into a vector, which takes every write, and
/// reports an error of its own only for a map whose keys are no strings,
/// which a `serde_json::Value` cannot hold.
#[verifier::external_body]
pub(crate) fn render_tree(json: &Json) -> (r: Option<String>)
    ensures
        match r {
            Some(text) => json_text(json@) == Some(text@),
            None => json_text(json@) is None,
        },
        writable(json@) ==> r is Some,
{
    lower(json).and_then(|v| serde_json::to_string(&v).ok())
}

} // verus!
