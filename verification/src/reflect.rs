//! Records as documents.
//!
//! A record type takes part in the document model by two operations: it
//! writes itself as a map from its field names to documents, and it reads
//! itself back from such a map. Reading fails where the document is no map,
//! where a field's name is not bound, and where a field's document is not of
//! the field's kind; the error names the field.

use vstd::prelude::*;
use crate::convert::{
    bool_list, bytes_list, chunks_view, list_of, mapping_list, mappings_view, mismatch,
    signed_list, text_list, texts_view, unsigned_list, FieldKind, TypeMismatch,
};
use crate::doc::{to_map, Doc, Entries};
use crate::field::{Field, FieldMap};

verus! {

/// Why a document is not a record.
#[derive(Clone, Debug, PartialEq, Eq)]
pub enum DocumentError {
    /// The document is not a map.
    NotAMap,
    /// The map does not bind the field of this name.
    MissingField(String),
    /// The field of this name is bound to a document of another kind.
    TypeMismatch(String, TypeMismatch),
}

/// What a [`DocumentError`] says.
pub ghost enum DocumentFault {
    NotAMap,
    MissingField(Seq<char>),
    TypeMismatch(Seq<char>, TypeMismatch),
}

impl View for DocumentError {
    type V = DocumentFault;

    open spec fn view(&self) -> DocumentFault {
        match self {
            DocumentError::NotAMap => DocumentFault::NotAMap,
            DocumentError::MissingField(name) => DocumentFault::MissingField(name@),
            DocumentError::TypeMismatch(name, e) => DocumentFault::TypeMismatch(name@, *e),
        }
    }
}

/// What the error says, in words.
pub open spec fn fault_message(fault: DocumentFault) -> Seq<char> {
    match fault {
        DocumentFault::NotAMap => "Not a map"@,
        DocumentFault::MissingField(name) => "Missing key: "@ + name,
        DocumentFault::TypeMismatch(name, _) => "Wrong kind of value for key: "@ + name,
    }
}

impl DocumentError {
    /// What the error says, in words, with the name of the field.
    pub fn message(&self) -> (text: String)
        ensures
            text@ == fault_message(self@),
    {
        match self {
            DocumentError::NotAMap => String::from_str("Not a map"),
            DocumentError::MissingField(name) => {
                String::from_str("Missing key: ").concat(name.as_str())
            },
            DocumentError::TypeMismatch(name, _) => {
                String::from_str("Wrong kind of value for key: ").concat(name.as_str())
            },
        }
    }
}

/// A record that writes itself as a document.
pub trait ToDocument: View + Sized {
    /// The document of a record: a map from the names of its fields to their documents.
    spec fn document_of(record: Self::V) -> Doc;

    /// Writes the record as a document.
    fn to_document(self) -> (doc: Field)
        ensures
            doc@ == Self::document_of(self@),
    ;
}

/// A record that reads itself from a document.
pub trait FromDocument: View + Sized {
    /// The record that a document stands for, or why it stands for none.
    spec fn record_of(doc: Doc) -> Result<Self::V, DocumentFault>;

    /// Reads the record from a document.
    fn from_document(doc: Field) -> (r: Result<Self, DocumentError>)
        ensures
            match r {
                Ok(record) => Self::record_of(doc@) == Ok::<Self::V, DocumentFault>(record@),
                Err(e) => Self::record_of(doc@) == Err::<Self::V, DocumentFault>(e@),
            },
    ;
}

/// A record that reads back from its own document what it wrote.
pub trait Record: ToDocument + FromDocument {
    /// Reading the document of a record gives the record.
    proof fn law_round_trip(record: Self::V)
        ensures
            Self::record_of(Self::document_of(record)) == Ok::<Self::V, DocumentFault>(record),
    ;
}

/// The entries of the map that a document is.
pub open spec fn entries_of(doc: Doc) -> Result<Entries, DocumentFault> {
    match doc {
        Doc::Mapping(entries) => Ok(entries),
        _ => Err(DocumentFault::NotAMap),
    }
}

/// The document that the field `name` is bound to.
pub open spec fn field_at(entries: Entries, name: Seq<char>) -> Result<Doc, DocumentFault> {
    if to_map(entries).contains_key(name) {
        Ok(to_map(entries)[name])
    } else {
        Err(DocumentFault::MissingField(name))
    }
}

/// The entries of the map that the field `name` is bound to.
pub open spec fn mapping_at(entries: Entries, name: Seq<char>) -> Result<Entries, DocumentFault> {
    match field_at(entries, name) {
        Err(e) => Err(e),
        Ok(Doc::Mapping(value)) => Ok(value),
        Ok(other) => Err(DocumentFault::TypeMismatch(name, mismatch(FieldKind::Mapping, other))),
    }
}

/// The text that the field `name` is bound to.
pub open spec fn text_at(entries: Entries, name: Seq<char>) -> Result<Seq<char>, DocumentFault> {
    match field_at(entries, name) {
        Err(e) => Err(e),
        Ok(Doc::String(value)) => Ok(value),
        Ok(other) => Err(DocumentFault::TypeMismatch(name, mismatch(FieldKind::String, other))),
    }
}

/// The signed integer that the field `name` is bound to.
pub open spec fn signed_at(entries: Entries, name: Seq<char>) -> Result<i64, DocumentFault> {
    match field_at(entries, name) {
        Err(e) => Err(e),
        Ok(Doc::SignedInt(value)) => Ok(value),
        Ok(other) => Err(DocumentFault::TypeMismatch(name, mismatch(FieldKind::Int64, other))),
    }
}

/// The unsigned integer that the field `name` is bound to.
pub open spec fn unsigned_at(entries: Entries, name: Seq<char>) -> Result<u64, DocumentFault> {
    match field_at(entries, name) {
        Err(e) => Err(e),
        Ok(Doc::UnsignedInt(value)) => Ok(value),
        Ok(other) => Err(DocumentFault::TypeMismatch(name, mismatch(FieldKind::Uint64, other))),
    }
}

/// The boolean that the field `name` is bound to.
pub open spec fn bool_at(entries: Entries, name: Seq<char>) -> Result<bool, DocumentFault> {
    match field_at(entries, name) {
        Err(e) => Err(e),
        Ok(Doc::Bool(value)) => Ok(value),
        Ok(other) => Err(DocumentFault::TypeMismatch(name, mismatch(FieldKind::Bool, other))),
    }
}

/// The byte string that the field `name` is bound to.
pub open spec fn bytes_at(entries: Entries, name: Seq<char>) -> Result<Seq<u8>, DocumentFault> {
    match field_at(entries, name) {
        Err(e) => Err(e),
        Ok(Doc::Bytes(value)) => Ok(value),
        Ok(other) => Err(DocumentFault::TypeMismatch(name, mismatch(FieldKind::Bytes, other))),
    }
}

/// The entries of the maps of the list that the field `name` is bound to.
pub open spec fn mapping_list_at(entries: Entries, name: Seq<char>) -> Result<
    Seq<Entries>,
    DocumentFault,
> {
    match field_at(entries, name) {
        Err(e) => Err(e),
        Ok(value) => match list_of(value, FieldKind::Mapping) {
            Ok(items) => Ok(items.map_values(|d: Doc| d->Mapping_0)),
            Err(e) => Err(DocumentFault::TypeMismatch(name, e)),
        },
    }
}

/// A list of maps is read back as the entries of those maps.
pub proof fn lemma_mapping_list(list: Seq<Entries>)
    ensures
        list_of(mapping_list(list), FieldKind::Mapping) == Ok::<Seq<Doc>, TypeMismatch>(
            mapping_list(list)->List_0,
        ),
        mapping_list(list)->List_0.map_values(|d: Doc| d->Mapping_0) == list,
{
    let items = mapping_list(list)->List_0;
    assert(items.map_values(|d: Doc| d->Mapping_0) =~= list);
}

/// The texts of the list that the field `name` is bound to.
pub open spec fn text_list_at(entries: Entries, name: Seq<char>) -> Result<
    Seq<Seq<char>>,
    DocumentFault,
> {
    match field_at(entries, name) {
        Err(e) => Err(e),
        Ok(value) => match list_of(value, FieldKind::String) {
            Ok(items) => Ok(items.map_values(|d: Doc| d->String_0)),
            Err(e) => Err(DocumentFault::TypeMismatch(name, e)),
        },
    }
}

/// A list of texts is read back as those texts.
pub proof fn lemma_text_list(list: Seq<Seq<char>>)
    ensures
        list_of(text_list(list), FieldKind::String) == Ok::<Seq<Doc>, TypeMismatch>(
            text_list(list)->List_0,
        ),
        text_list(list)->List_0.map_values(|d: Doc| d->String_0) == list,
{
    let items = text_list(list)->List_0;
    assert(items.map_values(|d: Doc| d->String_0) =~= list);
}

/// The signed integers of the list that the field `name` is bound to.
pub open spec fn signed_list_at(entries: Entries, name: Seq<char>) -> Result<
    Seq<i64>,
    DocumentFault,
> {
    match field_at(entries, name) {
        Err(e) => Err(e),
        Ok(value) => match list_of(value, FieldKind::Int64) {
            Ok(items) => Ok(items.map_values(|d: Doc| d->SignedInt_0)),
            Err(e) => Err(DocumentFault::TypeMismatch(name, e)),
        },
    }
}

/// A list of signed integers is read back as those signed integers.
pub proof fn lemma_signed_list(list: Seq<i64>)
    ensures
        list_of(signed_list(list), FieldKind::Int64) == Ok::<Seq<Doc>, TypeMismatch>(
            signed_list(list)->List_0,
        ),
        signed_list(list)->List_0.map_values(|d: Doc| d->SignedInt_0) == list,
{
    let items = signed_list(list)->List_0;
    assert(items.map_values(|d: Doc| d->SignedInt_0) =~= list);
}

/// The unsigned integers of the list that the field `name` is bound to.
pub open spec fn unsigned_list_at(entries: Entries, name: Seq<char>) -> Result<
    Seq<u64>,
    DocumentFault,
> {
    match field_at(entries, name) {
        Err(e) => Err(e),
        Ok(value) => match list_of(value, FieldKind::Uint64) {
            Ok(items) => Ok(items.map_values(|d: Doc| d->UnsignedInt_0)),
            Err(e) => Err(DocumentFault::TypeMismatch(name, e)),
        },
    }
}

/// A list of unsigned integers is read back as those unsigned integers.
pub proof fn lemma_unsigned_list(list: Seq<u64>)
    ensures
        list_of(unsigned_list(list), FieldKind::Uint64) == Ok::<Seq<Doc>, TypeMismatch>(
            unsigned_list(list)->List_0,
        ),
        unsigned_list(list)->List_0.map_values(|d: Doc| d->UnsignedInt_0) == list,
{
    let items = unsigned_list(list)->List_0;
    assert(items.map_values(|d: Doc| d->UnsignedInt_0) =~= list);
}

/// The booleans of the list that the field `name` is bound to.
pub open spec fn bool_list_at(entries: Entries, name: Seq<char>) -> Result<
    Seq<bool>,
    DocumentFault,
> {
    match field_at(entries, name) {
        Err(e) => Err(e),
        Ok(value) => match list_of(value, FieldKind::Bool) {
            Ok(items) => Ok(items.map_values(|d: Doc| d->Bool_0)),
            Err(e) => Err(DocumentFault::TypeMismatch(name, e)),
        },
    }
}

/// A list of booleans is read back as those booleans.
pub proof fn lemma_bool_list(list: Seq<bool>)
    ensures
        list_of(bool_list(list), FieldKind::Bool) == Ok::<Seq<Doc>, TypeMismatch>(
            bool_list(list)->List_0,
        ),
        bool_list(list)->List_0.map_values(|d: Doc| d->Bool_0) == list,
{
    let items = bool_list(list)->List_0;
    assert(items.map_values(|d: Doc| d->Bool_0) =~= list);
}

/// The byte strings of the list that the field `name` is bound to.
pub open spec fn bytes_list_at(entries: Entries, name: Seq<char>) -> Result<
    Seq<Seq<u8>>,
    DocumentFault,
> {
    match field_at(entries, name) {
        Err(e) => Err(e),
        Ok(value) => match list_of(value, FieldKind::Bytes) {
            Ok(items) => Ok(items.map_values(|d: Doc| d->Bytes_0)),
            Err(e) => Err(DocumentFault::TypeMismatch(name, e)),
        },
    }
}

/// A list of byte strings is read back as those byte strings.
pub proof fn lemma_bytes_list(list: Seq<Seq<u8>>)
    ensures
        list_of(bytes_list(list), FieldKind::Bytes) == Ok::<Seq<Doc>, TypeMismatch>(
            bytes_list(list)->List_0,
        ),
        bytes_list(list)->List_0.map_values(|d: Doc| d->Bytes_0) == list,
{
    let items = bytes_list(list)->List_0;
    assert(items.map_values(|d: Doc| d->Bytes_0) =~= list);
}

/// The map of a document, or the error that the document is no map.
pub fn map_of(doc: Field) -> (r: Result<FieldMap, DocumentError>)
    ensures
        match r {
            Ok(map) => entries_of(doc@) == Ok::<Entries, DocumentFault>(map.entries()),
            Err(e) => entries_of(doc@) == Err::<Entries, DocumentFault>(e@),
        },
{
    match doc {
        Field::Mapping(map) => Ok(map),
        _ => Err(DocumentError::NotAMap),
    }
}

/// A copy of the document that the field `name` is bound to, or the error
/// that names the missing field.
pub fn get_field(map: &FieldMap, name: &str) -> (r: Result<Field, DocumentError>)
    ensures
        match r {
            Ok(field) => field_at(map.entries(), name@) == Ok::<Doc, DocumentFault>(field@),
            Err(e) => field_at(map.entries(), name@) == Err::<Doc, DocumentFault>(e@),
        },
{
    match map.get(name) {
        Some(field) => Ok(field.clone()),
        None => Err(DocumentError::MissingField(String::from_str(name))),
    }
}

/// The error that the field `name` is bound to a document of another kind.
pub fn wrong_kind(name: &str, e: TypeMismatch) -> (r: DocumentError)
    ensures
        r@ == DocumentFault::TypeMismatch(name@, e),
{
    DocumentError::TypeMismatch(String::from_str(name), e)
}

/// The map that the field `name` is bound to.
pub fn get_map(map: &FieldMap, name: &str) -> (r: Result<FieldMap, DocumentError>)
    ensures
        match r {
            Ok(value) => mapping_at(map.entries(), name@) == Ok::<Entries, DocumentFault>(
                value.entries(),
            ),
            Err(e) => mapping_at(map.entries(), name@) == Err::<Entries, DocumentFault>(e@),
        },
{
    match get_field(map, name) {
        Err(e) => Err(e),
        Ok(field) => match field.into_map() {
            Ok(value) => Ok(value),
            Err(e) => Err(wrong_kind(name, e)),
        },
    }
}

/// The text that the field `name` is bound to.
pub fn get_string(map: &FieldMap, name: &str) -> (r: Result<String, DocumentError>)
    ensures
        match r {
            Ok(value) => text_at(map.entries(), name@) == Ok::<Seq<char>, DocumentFault>(value@),
            Err(e) => text_at(map.entries(), name@) == Err::<Seq<char>, DocumentFault>(e@),
        },
{
    match get_field(map, name) {
        Err(e) => Err(e),
        Ok(field) => match field.into_string() {
            Ok(value) => Ok(value),
            Err(e) => Err(wrong_kind(name, e)),
        },
    }
}

/// The signed integer that the field `name` is bound to.
pub fn get_i64(map: &FieldMap, name: &str) -> (r: Result<i64, DocumentError>)
    ensures
        match r {
            Ok(value) => signed_at(map.entries(), name@) == Ok::<i64, DocumentFault>(value),
            Err(e) => signed_at(map.entries(), name@) == Err::<i64, DocumentFault>(e@),
        },
{
    match get_field(map, name) {
        Err(e) => Err(e),
        Ok(field) => match field.into_i64() {
            Ok(value) => Ok(value),
            Err(e) => Err(wrong_kind(name, e)),
        },
    }
}

/// The unsigned integer that the field `name` is bound to.
pub fn get_u64(map: &FieldMap, name: &str) -> (r: Result<u64, DocumentError>)
    ensures
        match r {
            Ok(value) => unsigned_at(map.entries(), name@) == Ok::<u64, DocumentFault>(value),
            Err(e) => unsigned_at(map.entries(), name@) == Err::<u64, DocumentFault>(e@),
        },
{
    match get_field(map, name) {
        Err(e) => Err(e),
        Ok(field) => match field.into_u64() {
            Ok(value) => Ok(value),
            Err(e) => Err(wrong_kind(name, e)),
        },
    }
}

/// The boolean that the field `name` is bound to.
pub fn get_bool(map: &FieldMap, name: &str) -> (r: Result<bool, DocumentError>)
    ensures
        match r {
            Ok(value) => bool_at(map.entries(), name@) == Ok::<bool, DocumentFault>(value),
            Err(e) => bool_at(map.entries(), name@) == Err::<bool, DocumentFault>(e@),
        },
{
    match get_field(map, name) {
        Err(e) => Err(e),
        Ok(field) => match field.into_bool() {
            Ok(value) => Ok(value),
            Err(e) => Err(wrong_kind(name, e)),
        },
    }
}

/// The byte string that the field `name` is bound to.
pub fn get_bytes(map: &FieldMap, name: &str) -> (r: Result<Vec<u8>, DocumentError>)
    ensures
        match r {
            Ok(value) => bytes_at(map.entries(), name@) == Ok::<Seq<u8>, DocumentFault>(value@),
            Err(e) => bytes_at(map.entries(), name@) == Err::<Seq<u8>, DocumentFault>(e@),
        },
{
    match get_field(map, name) {
        Err(e) => Err(e),
        Ok(field) => match field.into_bytes() {
            Ok(value) => Ok(value),
            Err(e) => Err(wrong_kind(name, e)),
        },
    }
}

/// The maps of the list that the field `name` is bound to.
pub fn get_map_array(map: &FieldMap, name: &str) -> (r: Result<Vec<FieldMap>, DocumentError>)
    ensures
        match r {
            Ok(value) => mapping_list_at(map.entries(), name@) == Ok::<Seq<Entries>, DocumentFault>(
                mappings_view(value),
            ),
            Err(e) => mapping_list_at(map.entries(), name@) == Err::<Seq<Entries>, DocumentFault>(
                e@,
            ),
        },
{
    match get_field(map, name) {
        Err(e) => Err(e),
        Ok(field) => match field.into_map_array() {
            Ok(value) => {
                proof {
                    lemma_mapping_list(mappings_view(value));
                }
                Ok(value)
            },
            Err(e) => Err(wrong_kind(name, e)),
        },
    }
}

/// The texts of the list that the field `name` is bound to.
pub fn get_string_array(map: &FieldMap, name: &str) -> (r: Result<Vec<String>, DocumentError>)
    ensures
        match r {
            Ok(value) => text_list_at(map.entries(), name@) == Ok::<Seq<Seq<char>>, DocumentFault>(
                texts_view(value),
            ),
            Err(e) => text_list_at(map.entries(), name@) == Err::<Seq<Seq<char>>, DocumentFault>(
                e@,
            ),
        },
{
    match get_field(map, name) {
        Err(e) => Err(e),
        Ok(field) => match field.into_string_array() {
            Ok(value) => {
                proof {
                    lemma_text_list(texts_view(value));
                }
                Ok(value)
            },
            Err(e) => Err(wrong_kind(name, e)),
        },
    }
}

/// The signed integers of the list that the field `name` is bound to.
pub fn get_i64_array(map: &FieldMap, name: &str) -> (r: Result<Vec<i64>, DocumentError>)
    ensures
        match r {
            Ok(value) => signed_list_at(map.entries(), name@) == Ok::<Seq<i64>, DocumentFault>(
                value@,
            ),
            Err(e) => signed_list_at(map.entries(), name@) == Err::<Seq<i64>, DocumentFault>(e@),
        },
{
    match get_field(map, name) {
        Err(e) => Err(e),
        Ok(field) => match field.into_i64_array() {
            Ok(value) => {
                proof {
                    lemma_signed_list(value@);
                }
                Ok(value)
            },
            Err(e) => Err(wrong_kind(name, e)),
        },
    }
}

/// The unsigned integers of the list that the field `name` is bound to.
pub fn get_u64_array(map: &FieldMap, name: &str) -> (r: Result<Vec<u64>, DocumentError>)
    ensures
        match r {
            Ok(value) => unsigned_list_at(map.entries(), name@) == Ok::<Seq<u64>, DocumentFault>(
                value@,
            ),
            Err(e) => unsigned_list_at(map.entries(), name@) == Err::<Seq<u64>, DocumentFault>(e@),
        },
{
    match get_field(map, name) {
        Err(e) => Err(e),
        Ok(field) => match field.into_u64_array() {
            Ok(value) => {
                proof {
                    lemma_unsigned_list(value@);
                }
                Ok(value)
            },
            Err(e) => Err(wrong_kind(name, e)),
        },
    }
}

/// The booleans of the list that the field `name` is bound to.
pub fn get_bool_array(map: &FieldMap, name: &str) -> (r: Result<Vec<bool>, DocumentError>)
    ensures
        match r {
            Ok(value) => bool_list_at(map.entries(), name@) == Ok::<Seq<bool>, DocumentFault>(
                value@,
            ),
            Err(e) => bool_list_at(map.entries(), name@) == Err::<Seq<bool>, DocumentFault>(e@),
        },
{
    match get_field(map, name) {
        Err(e) => Err(e),
        Ok(field) => match field.into_bool_array() {
            Ok(value) => {
                proof {
                    lemma_bool_list(value@);
                }
                Ok(value)
            },
            Err(e) => Err(wrong_kind(name, e)),
        },
    }
}

/// The byte strings of the list that the field `name` is bound to.
pub fn get_bytes_array(map: &FieldMap, name: &str) -> (r: Result<Vec<Vec<u8>>, DocumentError>)
    ensures
        match r {
            Ok(value) => bytes_list_at(map.entries(), name@) == Ok::<Seq<Seq<u8>>, DocumentFault>(
                chunks_view(value),
            ),
            Err(e) => bytes_list_at(map.entries(), name@) == Err::<Seq<Seq<u8>>, DocumentFault>(e@),
        },
{
    match get_field(map, name) {
        Err(e) => Err(e),
        Ok(field) => match field.into_bytes_array() {
            Ok(value) => {
                proof {
                    lemma_bytes_list(chunks_view(value));
                }
                Ok(value)
            },
            Err(e) => Err(wrong_kind(name, e)),
        },
    }
}

} // verus!
