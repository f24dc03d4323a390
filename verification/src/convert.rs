//! Documents from plain values, and plain values back from documents.
//!
//! A document is made from a value of any of the kinds that it can hold, and
//! from a vector of values of one kind. Taking a value back succeeds only
//! where the document is of the kind that is asked for; otherwise the answer
//! is a [`TypeMismatch`] that names both kinds.

use vstd::prelude::*;
use vstd::std_specs::convert::FromSpecImpl;
use crate::doc::{Doc, Entries};
use crate::field::{copy_bytes, list_view, Field, FieldMap};

verus! {

/// The kind of a document.
#[derive(Clone, Copy, Debug, PartialEq, Eq, Structural)]
pub enum FieldKind {
    Mapping,
    String,
    Int64,
    Uint64,
    Bool,
    Bytes,
    Array,
}

/// A document is not of the kind that was asked for.
#[derive(Clone, Copy, Debug, PartialEq, Eq, Structural)]
pub struct TypeMismatch {
    /// The kind that was asked for.
    pub expected: FieldKind,
    /// The kind of the document, or of the first item of a list that is of another kind.
    pub found: FieldKind,
}

/// The kind of a value.
pub open spec fn kind(v: Doc) -> FieldKind {
    match v {
        Doc::Mapping(_) => FieldKind::Mapping,
        Doc::String(_) => FieldKind::String,
        Doc::SignedInt(_) => FieldKind::Int64,
        Doc::UnsignedInt(_) => FieldKind::Uint64,
        Doc::Bool(_) => FieldKind::Bool,
        Doc::Bytes(_) => FieldKind::Bytes,
        Doc::List(_) => FieldKind::Array,
    }
}

/// What is answered where a value of kind `expected` is asked of a value of another kind.
pub open spec fn mismatch(expected: FieldKind, v: Doc) -> TypeMismatch {
    TypeMismatch { expected, found: kind(v) }
}

/// The first `n` items are all of kind `k`.
pub open spec fn all_of_kind(items: Seq<Doc>, k: FieldKind, n: int) -> bool {
    forall|j: int| 0 <= j < n ==> kind(#[trigger] items[j]) == k
}

/// The position of the first item that is not of kind `k`.
pub open spec fn first_other(items: Seq<Doc>, k: FieldKind) -> int {
    choose|p: int| 0 <= p < items.len() && all_of_kind(items, k, p) && kind(items[p]) != k
}

/// What is answered where a list of values of kind `k` is asked of a value:
/// the items of the list where all of them are of that kind; else the
/// mismatch of the first item that is not; for a value that is no list, the
/// mismatch of the value.
pub open spec fn list_of(v: Doc, k: FieldKind) -> Result<Seq<Doc>, TypeMismatch> {
    match v {
        Doc::List(items) => if all_of_kind(items, k, items.len() as int) {
            Ok(items)
        } else {
            Err(mismatch(k, items[first_other(items, k)]))
        },
        _ => Err(mismatch(FieldKind::Array, v)),
    }
}

/// In a list whose first `p` items are of kind `k` and whose next item is
/// not, that item is the first of another kind.
pub proof fn lemma_first_other(items: Seq<Doc>, k: FieldKind, p: int)
    requires
        0 <= p < items.len(),
        all_of_kind(items, k, p),
        kind(items[p]) != k,
    ensures
        !all_of_kind(items, k, items.len() as int),
        first_other(items, k) == p,
{
    let q = first_other(items, k);
    if q < p {
        assert(kind(items[q]) == k);
    }
    if p < q {
        assert(kind(items[p]) == k);
    }
}

/// The texts that a vector of strings stands for.
pub open spec fn texts_view(v: Vec<String>) -> Seq<Seq<char>> {
    Seq::new(v.len() as nat, |i: int| v[i]@)
}

/// The byte strings that a vector of byte vectors stands for.
pub open spec fn chunks_view(v: Vec<Vec<u8>>) -> Seq<Seq<u8>> {
    Seq::new(v.len() as nat, |i: int| v[i]@)
}

/// The entries of each map of a vector of maps.
pub open spec fn mappings_view(v: Vec<FieldMap>) -> Seq<Entries> {
    Seq::new(v.len() as nat, |i: int| v[i].entries())
}

/// The list of the maps with the given entries.
pub open spec fn mapping_list(s: Seq<Entries>) -> Doc {
    Doc::List(s.map_values(|e: Entries| Doc::Mapping(e)))
}

/// The list of the given texts.
pub open spec fn text_list(s: Seq<Seq<char>>) -> Doc {
    Doc::List(s.map_values(|t: Seq<char>| Doc::String(t)))
}

/// The list of the given signed integers.
pub open spec fn signed_list(s: Seq<i64>) -> Doc {
    Doc::List(s.map_values(|n: i64| Doc::SignedInt(n)))
}

/// The list of the given unsigned integers.
pub open spec fn unsigned_list(s: Seq<u64>) -> Doc {
    Doc::List(s.map_values(|n: u64| Doc::UnsignedInt(n)))
}

/// The list of the given booleans.
pub open spec fn bool_list(s: Seq<bool>) -> Doc {
    Doc::List(s.map_values(|b: bool| Doc::Bool(b)))
}

/// The list of the given byte strings.
pub open spec fn bytes_list(s: Seq<Seq<u8>>) -> Doc {
    Doc::List(s.map_values(|b: Seq<u8>| Doc::Bytes(b)))
}

impl From<FieldMap> for Field {
    fn from(value: FieldMap) -> (field: Field)
        ensures
            field@ == Doc::Mapping(value.entries()),
    {
        Field::Mapping(value)
    }
}

impl FromSpecImpl<FieldMap> for Field {
    open spec fn obeys_from_spec() -> bool {
        true
    }

    open spec fn from_spec(value: FieldMap) -> Field {
        Field::Mapping(value)
    }
}

impl From<String> for Field {
    fn from(value: String) -> (field: Field)
        ensures
            field@ == Doc::String(value@),
    {
        Field::String(value)
    }
}

impl FromSpecImpl<String> for Field {
    open spec fn obeys_from_spec() -> bool {
        true
    }

    open spec fn from_spec(value: String) -> Field {
        Field::String(value)
    }
}

impl From<i64> for Field {
    fn from(value: i64) -> (field: Field)
        ensures
            field@ == Doc::SignedInt(value),
    {
        Field::Int64(value)
    }
}

impl FromSpecImpl<i64> for Field {
    open spec fn obeys_from_spec() -> bool {
        true
    }

    open spec fn from_spec(value: i64) -> Field {
        Field::Int64(value)
    }
}

impl From<u64> for Field {
    fn from(value: u64) -> (field: Field)
        ensures
            field@ == Doc::UnsignedInt(value),
    {
        Field::Uint64(value)
    }
}

impl FromSpecImpl<u64> for Field {
    open spec fn obeys_from_spec() -> bool {
        true
    }

    open spec fn from_spec(value: u64) -> Field {
        Field::Uint64(value)
    }
}

impl From<bool> for Field {
    fn from(value: bool) -> (field: Field)
        ensures
            field@ == Doc::Bool(value),
    {
        Field::Bool(value)
    }
}

impl FromSpecImpl<bool> for Field {
    open spec fn obeys_from_spec() -> bool {
        true
    }

    open spec fn from_spec(value: bool) -> Field {
        Field::Bool(value)
    }
}

impl From<Vec<u8>> for Field {
    fn from(value: Vec<u8>) -> (field: Field)
        ensures
            field@ == Doc::Bytes(value@),
    {
        Field::Bytes(value)
    }
}

impl FromSpecImpl<Vec<u8>> for Field {
    open spec fn obeys_from_spec() -> bool {
        true
    }

    open spec fn from_spec(value: Vec<u8>) -> Field {
        Field::Bytes(value)
    }
}

impl From<Vec<Field>> for Field {
    fn from(value: Vec<Field>) -> (field: Field)
        ensures
            field@ == Doc::List(list_view(value)),
    {
        Field::Array(value)
    }
}

impl FromSpecImpl<Vec<Field>> for Field {
    open spec fn obeys_from_spec() -> bool {
        true
    }

    open spec fn from_spec(value: Vec<Field>) -> Field {
        Field::Array(value)
    }
}

impl From<Vec<FieldMap>> for Field {
    fn from(value: Vec<FieldMap>) -> (field: Field)
        ensures
            field@ == mapping_list(mappings_view(value)),
    {
        let mut items: Vec<Field> = Vec::new();
        let mut i: usize = 0;
        while i < value.len()
            invariant
                i <= value.len(),
                items.len() == i,
                forall|j: int|
                    0 <= j < i ==> (#[trigger] items[j])@ == Doc::Mapping(value[j].entries()),
            decreases value.len() - i,
        {
            items.push(Field::Mapping(value[i].clone()));
            i = i + 1;
        }
        assert(list_view(items) =~= mapping_list(mappings_view(value))->List_0);
        Field::Array(items)
    }
}

/// What `from` returns for a vector is stated by `from` itself, over the
/// value that the document stands for.
impl FromSpecImpl<Vec<FieldMap>> for Field {
    open spec fn obeys_from_spec() -> bool {
        false
    }

    open spec fn from_spec(value: Vec<FieldMap>) -> Field {
        arbitrary()
    }
}

impl From<Vec<String>> for Field {
    fn from(value: Vec<String>) -> (field: Field)
        ensures
            field@ == text_list(texts_view(value)),
    {
        let mut items: Vec<Field> = Vec::new();
        let mut i: usize = 0;
        while i < value.len()
            invariant
                i <= value.len(),
                items.len() == i,
                forall|j: int| 0 <= j < i ==> (#[trigger] items[j])@ == Doc::String(value[j]@),
            decreases value.len() - i,
        {
            items.push(Field::String(value[i].clone()));
            i = i + 1;
        }
        assert(list_view(items) =~= text_list(texts_view(value))->List_0);
        Field::Array(items)
    }
}

/// What `from` returns for a vector is stated by `from` itself, over the
/// value that the document stands for.
impl FromSpecImpl<Vec<String>> for Field {
    open spec fn obeys_from_spec() -> bool {
        false
    }

    open spec fn from_spec(value: Vec<String>) -> Field {
        arbitrary()
    }
}

impl From<Vec<i64>> for Field {
    fn from(value: Vec<i64>) -> (field: Field)
        ensures
            field@ == signed_list(value@),
    {
        let mut items: Vec<Field> = Vec::new();
        let mut i: usize = 0;
        while i < value.len()
            invariant
                i <= value.len(),
                items.len() == i,
                forall|j: int| 0 <= j < i ==> (#[trigger] items[j])@ == Doc::SignedInt(value[j]),
            decreases value.len() - i,
        {
            items.push(Field::Int64(value[i]));
            i = i + 1;
        }
        assert(list_view(items) =~= signed_list(value@)->List_0);
        Field::Array(items)
    }
}

/// What `from` returns for a vector is stated by `from` itself, over the
/// value that the document stands for.
impl FromSpecImpl<Vec<i64>> for Field {
    open spec fn obeys_from_spec() -> bool {
        false
    }

    open spec fn from_spec(value: Vec<i64>) -> Field {
        arbitrary()
    }
}

impl From<Vec<u64>> for Field {
    fn from(value: Vec<u64>) -> (field: Field)
        ensures
            field@ == unsigned_list(value@),
    {
        let mut items: Vec<Field> = Vec::new();
        let mut i: usize = 0;
        while i < value.len()
            invariant
                i <= value.len(),
                items.len() == i,
                forall|j: int| 0 <= j < i ==> (#[trigger] items[j])@ == Doc::UnsignedInt(value[j]),
            decreases value.len() - i,
        {
            items.push(Field::Uint64(value[i]));
            i = i + 1;
        }
        assert(list_view(items) =~= unsigned_list(value@)->List_0);
        Field::Array(items)
    }
}

/// What `from` returns for a vector is stated by `from` itself, over the
/// value that the document stands for.
impl FromSpecImpl<Vec<u64>> for Field {
    open spec fn obeys_from_spec() -> bool {
        false
    }

    open spec fn from_spec(value: Vec<u64>) -> Field {
        arbitrary()
    }
}

impl From<Vec<bool>> for Field {
    fn from(value: Vec<bool>) -> (field: Field)
        ensures
            field@ == bool_list(value@),
    {
        let mut items: Vec<Field> = Vec::new();
        let mut i: usize = 0;
        while i < value.len()
            invariant
                i <= value.len(),
                items.len() == i,
                forall|j: int| 0 <= j < i ==> (#[trigger] items[j])@ == Doc::Bool(value[j]),
            decreases value.len() - i,
        {
            items.push(Field::Bool(value[i]));
            i = i + 1;
        }
        assert(list_view(items) =~= bool_list(value@)->List_0);
        Field::Array(items)
    }
}

/// What `from` returns for a vector is stated by `from` itself, over the
/// value that the document stands for.
impl FromSpecImpl<Vec<bool>> for Field {
    open spec fn obeys_from_spec() -> bool {
        false
    }

    open spec fn from_spec(value: Vec<bool>) -> Field {
        arbitrary()
    }
}

impl From<Vec<Vec<u8>>> for Field {
    fn from(value: Vec<Vec<u8>>) -> (field: Field)
        ensures
            field@ == bytes_list(chunks_view(value)),
    {
        let mut items: Vec<Field> = Vec::new();
        let mut i: usize = 0;
        while i < value.len()
            invariant
                i <= value.len(),
                items.len() == i,
                forall|j: int| 0 <= j < i ==> (#[trigger] items[j])@ == Doc::Bytes(value[j]@),
            decreases value.len() - i,
        {
            items.push(Field::Bytes(copy_bytes(&value[i])));
            i = i + 1;
        }
        assert(list_view(items) =~= bytes_list(chunks_view(value))->List_0);
        Field::Array(items)
    }
}

/// What `from` returns for a vector is stated by `from` itself, over the
/// value that the document stands for.
impl FromSpecImpl<Vec<Vec<u8>>> for Field {
    open spec fn obeys_from_spec() -> bool {
        false
    }

    open spec fn from_spec(value: Vec<Vec<u8>>) -> Field {
        arbitrary()
    }
}

impl Field {
    /// The kind of the document.
    pub fn kind(&self) -> (k: FieldKind)
        ensures
            k == kind(self@),
    {
        match self {
            Field::Mapping(_) => FieldKind::Mapping,
            Field::String(_) => FieldKind::String,
            Field::Int64(_) => FieldKind::Int64,
            Field::Uint64(_) => FieldKind::Uint64,
            Field::Bool(_) => FieldKind::Bool,
            Field::Bytes(_) => FieldKind::Bytes,
            Field::Array(_) => FieldKind::Array,
        }
    }

    /// The map that the document is.
    pub fn into_map(self) -> (r: Result<FieldMap, TypeMismatch>)
        ensures
            match r {
                Ok(value) => self@ == Doc::Mapping(value.entries()),
                Err(e) => kind(self@) != FieldKind::Mapping
                    && e == mismatch(FieldKind::Mapping, self@),
            },
    {
        match self {
            Field::Mapping(value) => Ok(value),
            other => Err(TypeMismatch { expected: FieldKind::Mapping, found: other.kind() }),
        }
    }

    /// The text that the document is.
    pub fn into_string(self) -> (r: Result<String, TypeMismatch>)
        ensures
            match r {
                Ok(value) => self@ == Doc::String(value@),
                Err(e) => kind(self@) != FieldKind::String
                    && e == mismatch(FieldKind::String, self@),
            },
    {
        match self {
            Field::String(value) => Ok(value),
            other => Err(TypeMismatch { expected: FieldKind::String, found: other.kind() }),
        }
    }

    /// The signed integer that the document is.
    pub fn into_i64(self) -> (r: Result<i64, TypeMismatch>)
        ensures
            match r {
                Ok(value) => self@ == Doc::SignedInt(value),
                Err(e) => kind(self@) != FieldKind::Int64 && e == mismatch(FieldKind::Int64, self@),
            },
    {
        match self {
            Field::Int64(value) => Ok(value),
            other => Err(TypeMismatch { expected: FieldKind::Int64, found: other.kind() }),
        }
    }

    /// The unsigned integer that the document is.
    pub fn into_u64(self) -> (r: Result<u64, TypeMismatch>)
        ensures
            match r {
                Ok(value) => self@ == Doc::UnsignedInt(value),
                Err(e) => kind(self@) != FieldKind::Uint64
                    && e == mismatch(FieldKind::Uint64, self@),
            },
    {
        match self {
            Field::Uint64(value) => Ok(value),
            other => Err(TypeMismatch { expected: FieldKind::Uint64, found: other.kind() }),
        }
    }

    /// The boolean that the document is.
    pub fn into_bool(self) -> (r: Result<bool, TypeMismatch>)
        ensures
            match r {
                Ok(value) => self@ == Doc::Bool(value),
                Err(e) => kind(self@) != FieldKind::Bool && e == mismatch(FieldKind::Bool, self@),
            },
    {
        match self {
            Field::Bool(value) => Ok(value),
            other => Err(TypeMismatch { expected: FieldKind::Bool, found: other.kind() }),
        }
    }

    /// The byte string that the document is.
    pub fn into_bytes(self) -> (r: Result<Vec<u8>, TypeMismatch>)
        ensures
            match r {
                Ok(value) => self@ == Doc::Bytes(value@),
                Err(e) => kind(self@) != FieldKind::Bytes && e == mismatch(FieldKind::Bytes, self@),
            },
    {
        match self {
            Field::Bytes(value) => Ok(value),
            other => Err(TypeMismatch { expected: FieldKind::Bytes, found: other.kind() }),
        }
    }

    /// The items of the list that the document is.
    pub fn into_array(self) -> (r: Result<Vec<Field>, TypeMismatch>)
        ensures
            match r {
                Ok(value) => self@ == Doc::List(list_view(value)),
                Err(e) => kind(self@) != FieldKind::Array && e == mismatch(FieldKind::Array, self@),
            },
    {
        match self {
            Field::Array(value) => Ok(value),
            other => Err(TypeMismatch { expected: FieldKind::Array, found: other.kind() }),
        }
    }

    /// The maps of the list that the document is.
    #[verifier::loop_isolation(false)]
    pub fn into_map_array(self) -> (r: Result<Vec<FieldMap>, TypeMismatch>)
        ensures
            match r {
                Ok(out) => self@ == mapping_list(mappings_view(out)),
                Err(e) => list_of(self@, FieldKind::Mapping) == Err::<Seq<Doc>, TypeMismatch>(e),
            },
    {
        match self {
            Field::Array(a) => {
                let ghost items = list_view(a);
                let mut out: Vec<FieldMap> = Vec::new();
                let mut i: usize = 0;
                while i < a.len()
                    invariant
                        i <= a.len(),
                        out.len() == i,
                        all_of_kind(items, FieldKind::Mapping, i as int),
                        forall|j: int| 0 <= j < i ==> items[j] == Doc::Mapping(out[j].entries()),
                    decreases a.len() - i,
                {
                    assert(items[i as int] == a[i as int]@);
                    match &a[i] {
                        Field::Mapping(item) => out.push(item.clone()),
                        other => {
                            proof {
                                lemma_first_other(items, FieldKind::Mapping, i as int);
                            }
                            return Err(
                                TypeMismatch { expected: FieldKind::Mapping, found: other.kind() },
                            );
                        },
                    }
                    i = i + 1;
                }
                assert(items =~= mapping_list(mappings_view(out))->List_0);
                Ok(out)
            },
            other => Err(TypeMismatch { expected: FieldKind::Array, found: other.kind() }),
        }
    }

    /// The texts of the list that the document is.
    #[verifier::loop_isolation(false)]
    pub fn into_string_array(self) -> (r: Result<Vec<String>, TypeMismatch>)
        ensures
            match r {
                Ok(out) => self@ == text_list(texts_view(out)),
                Err(e) => list_of(self@, FieldKind::String) == Err::<Seq<Doc>, TypeMismatch>(e),
            },
    {
        match self {
            Field::Array(a) => {
                let ghost items = list_view(a);
                let mut out: Vec<String> = Vec::new();
                let mut i: usize = 0;
                while i < a.len()
                    invariant
                        i <= a.len(),
                        out.len() == i,
                        all_of_kind(items, FieldKind::String, i as int),
                        forall|j: int| 0 <= j < i ==> items[j] == Doc::String(out[j]@),
                    decreases a.len() - i,
                {
                    assert(items[i as int] == a[i as int]@);
                    match &a[i] {
                        Field::String(item) => out.push(item.clone()),
                        other => {
                            proof {
                                lemma_first_other(items, FieldKind::String, i as int);
                            }
                            return Err(
                                TypeMismatch { expected: FieldKind::String, found: other.kind() },
                            );
                        },
                    }
                    i = i + 1;
                }
                assert(items =~= text_list(texts_view(out))->List_0);
                Ok(out)
            },
            other => Err(TypeMismatch { expected: FieldKind::Array, found: other.kind() }),
        }
    }

    /// The signed integers of the list that the document is.
    #[verifier::loop_isolation(false)]
    pub fn into_i64_array(self) -> (r: Result<Vec<i64>, TypeMismatch>)
        ensures
            match r {
                Ok(out) => self@ == signed_list(out@),
                Err(e) => list_of(self@, FieldKind::Int64) == Err::<Seq<Doc>, TypeMismatch>(e),
            },
    {
        match self {
            Field::Array(a) => {
                let ghost items = list_view(a);
                let mut out: Vec<i64> = Vec::new();
                let mut i: usize = 0;
                while i < a.len()
                    invariant
                        i <= a.len(),
                        out.len() == i,
                        all_of_kind(items, FieldKind::Int64, i as int),
                        forall|j: int| 0 <= j < i ==> items[j] == Doc::SignedInt(out[j]),
                    decreases a.len() - i,
                {
                    assert(items[i as int] == a[i as int]@);
                    match &a[i] {
                        Field::Int64(item) => out.push(*item),
                        other => {
                            proof {
                                lemma_first_other(items, FieldKind::Int64, i as int);
                            }
                            return Err(
                                TypeMismatch { expected: FieldKind::Int64, found: other.kind() },
                            );
                        },
                    }
                    i = i + 1;
                }
                assert(items =~= signed_list(out@)->List_0);
                Ok(out)
            },
            other => Err(TypeMismatch { expected: FieldKind::Array, found: other.kind() }),
        }
    }

    /// The unsigned integers of the list that the document is.
    #[verifier::loop_isolation(false)]
    pub fn into_u64_array(self) -> (r: Result<Vec<u64>, TypeMismatch>)
        ensures
            match r {
                Ok(out) => self@ == unsigned_list(out@),
                Err(e) => list_of(self@, FieldKind::Uint64) == Err::<Seq<Doc>, TypeMismatch>(e),
            },
    {
        match self {
            Field::Array(a) => {
                let ghost items = list_view(a);
                let mut out: Vec<u64> = Vec::new();
                let mut i: usize = 0;
                while i < a.len()
                    invariant
                        i <= a.len(),
                        out.len() == i,
                        all_of_kind(items, FieldKind::Uint64, i as int),
                        forall|j: int| 0 <= j < i ==> items[j] == Doc::UnsignedInt(out[j]),
                    decreases a.len() - i,
                {
                    assert(items[i as int] == a[i as int]@);
                    match &a[i] {
                        Field::Uint64(item) => out.push(*item),
                        other => {
                            proof {
                                lemma_first_other(items, FieldKind::Uint64, i as int);
                            }
                            return Err(
                                TypeMismatch { expected: FieldKind::Uint64, found: other.kind() },
                            );
                        },
                    }
                    i = i + 1;
                }
                assert(items =~= unsigned_list(out@)->List_0);
                Ok(out)
            },
            other => Err(TypeMismatch { expected: FieldKind::Array, found: other.kind() }),
        }
    }

    /// The booleans of the list that the document is.
    #[verifier::loop_isolation(false)]
    pub fn into_bool_array(self) -> (r: Result<Vec<bool>, TypeMismatch>)
        ensures
            match r {
                Ok(out) => self@ == bool_list(out@),
                Err(e) => list_of(self@, FieldKind::Bool) == Err::<Seq<Doc>, TypeMismatch>(e),
            },
    {
        match self {
            Field::Array(a) => {
                let ghost items = list_view(a);
                let mut out: Vec<bool> = Vec::new();
                let mut i: usize = 0;
                while i < a.len()
                    invariant
                        i <= a.len(),
                        out.len() == i,
                        all_of_kind(items, FieldKind::Bool, i as int),
                        forall|j: int| 0 <= j < i ==> items[j] == Doc::Bool(out[j]),
                    decreases a.len() - i,
                {
                    assert(items[i as int] == a[i as int]@);
                    match &a[i] {
                        Field::Bool(item) => out.push(*item),
                        other => {
                            proof {
                                lemma_first_other(items, FieldKind::Bool, i as int);
                            }
                            return Err(
                                TypeMismatch { expected: FieldKind::Bool, found: other.kind() },
                            );
                        },
                    }
                    i = i + 1;
                }
                assert(items =~= bool_list(out@)->List_0);
                Ok(out)
            },
            other => Err(TypeMismatch { expected: FieldKind::Array, found: other.kind() }),
        }
    }

    /// The byte strings of the list that the document is.
    #[verifier::loop_isolation(false)]
    pub fn into_bytes_array(self) -> (r: Result<Vec<Vec<u8>>, TypeMismatch>)
        ensures
            match r {
                Ok(out) => self@ == bytes_list(chunks_view(out)),
                Err(e) => list_of(self@, FieldKind::Bytes) == Err::<Seq<Doc>, TypeMismatch>(e),
            },
    {
        match self {
            Field::Array(a) => {
                let ghost items = list_view(a);
                let mut out: Vec<Vec<u8>> = Vec::new();
                let mut i: usize = 0;
                while i < a.len()
                    invariant
                        i <= a.len(),
                        out.len() == i,
                        all_of_kind(items, FieldKind::Bytes, i as int),
                        forall|j: int| 0 <= j < i ==> items[j] == Doc::Bytes(out[j]@),
                    decreases a.len() - i,
                {
                    assert(items[i as int] == a[i as int]@);
                    match &a[i] {
                        Field::Bytes(item) => out.push(copy_bytes(item)),
                        other => {
                            proof {
                                lemma_first_other(items, FieldKind::Bytes, i as int);
                            }
                            return Err(
                                TypeMismatch { expected: FieldKind::Bytes, found: other.kind() },
                            );
                        },
                    }
                    i = i + 1;
                }
                assert(items =~= bytes_list(chunks_view(out))->List_0);
                Ok(out)
            },
            other => Err(TypeMismatch { expected: FieldKind::Array, found: other.kind() }),
        }
    }

}

} // verus!
