//! A record with one field of each kind that a document can hold, and of each
//! kind of list.

use vstd::prelude::*;
use crate::convert::{
    bool_list, bytes_list, chunks_view, mapping_list, mappings_view, signed_list, text_list,
    texts_view, unsigned_list,
};
use crate::doc::{bind_all, lemma_bind_all_binds, names_differ, Doc, Entries};
use crate::field::{Field, FieldMap};
use crate::reflect::{
    bool_at, bool_list_at, bytes_at, bytes_list_at, entries_of, get_bool, get_bool_array,
    get_bytes, get_bytes_array, get_i64, get_i64_array, get_map, get_map_array, get_string,
    get_string_array, get_u64, get_u64_array, lemma_bool_list, lemma_bytes_list,
    lemma_mapping_list, lemma_signed_list, lemma_text_list, lemma_unsigned_list, map_of,
    mapping_at, mapping_list_at, signed_at, signed_list_at, text_at, text_list_at, unsigned_at,
    unsigned_list_at, DocumentError, DocumentFault, FromDocument, Record, ToDocument,
};

verus! {

/// A record with a field of every kind.
#[derive(Clone, Debug, PartialEq)]
pub struct Sample {
    pub map: FieldMap,
    pub string: String,
    pub i64: i64,
    pub u64: u64,
    pub bool: bool,
    pub bytes: Vec<u8>,
    pub map_array: Vec<FieldMap>,
    pub string_array: Vec<String>,
    pub i64_array: Vec<i64>,
    pub u64_array: Vec<u64>,
    pub bool_array: Vec<bool>,
    pub bytes_array: Vec<Vec<u8>>,
}

/// What a [`Sample`] record holds.
pub ghost struct SampleView {
    pub map: Entries,
    pub string: Seq<char>,
    pub i64: i64,
    pub u64: u64,
    pub bool: bool,
    pub bytes: Seq<u8>,
    pub map_array: Seq<Entries>,
    pub string_array: Seq<Seq<char>>,
    pub i64_array: Seq<i64>,
    pub u64_array: Seq<u64>,
    pub bool_array: Seq<bool>,
    pub bytes_array: Seq<Seq<u8>>,
}

impl View for Sample {
    type V = SampleView;

    open spec fn view(&self) -> SampleView {
        SampleView {
            map: self.map.entries(),
            string: self.string@,
            i64: self.i64,
            u64: self.u64,
            bool: self.bool,
            bytes: self.bytes@,
            map_array: mappings_view(self.map_array),
            string_array: texts_view(self.string_array),
            i64_array: self.i64_array@,
            u64_array: self.u64_array@,
            bool_array: self.bool_array@,
            bytes_array: chunks_view(self.bytes_array),
        }
    }
}

/// The fields of a [`Sample`] record: their names and their documents.
pub open spec fn sample_fields(record: SampleView) -> Entries {
    seq![
        ("map"@, Doc::Mapping(record.map)),
        ("string"@, Doc::String(record.string)),
        ("i64"@, Doc::SignedInt(record.i64)),
        ("u64"@, Doc::UnsignedInt(record.u64)),
        ("bool"@, Doc::Bool(record.bool)),
        ("bytes"@, Doc::Bytes(record.bytes)),
        ("map_array"@, mapping_list(record.map_array)),
        ("string_array"@, text_list(record.string_array)),
        ("i64_array"@, signed_list(record.i64_array)),
        ("u64_array"@, unsigned_list(record.u64_array)),
        ("bool_array"@, bool_list(record.bool_array)),
        ("bytes_array"@, bytes_list(record.bytes_array)),
    ]
}

/// The names of the fields of a [`Sample`] record: the length and the first
/// letter of each, by which any two of them differ.
pub proof fn lemma_sample_names()
    ensures
        "map"@.len() == 3 && "map"@[0] == 'm',
        "string"@.len() == 6 && "string"@[0] == 's',
        "i64"@.len() == 3 && "i64"@[0] == 'i',
        "u64"@.len() == 3 && "u64"@[0] == 'u',
        "bool"@.len() == 4 && "bool"@[0] == 'b',
        "bytes"@.len() == 5 && "bytes"@[0] == 'b',
        "map_array"@.len() == 9 && "map_array"@[0] == 'm',
        "string_array"@.len() == 12 && "string_array"@[0] == 's',
        "i64_array"@.len() == 9 && "i64_array"@[0] == 'i',
        "u64_array"@.len() == 9 && "u64_array"@[0] == 'u',
        "bool_array"@.len() == 10 && "bool_array"@[0] == 'b',
        "bytes_array"@.len() == 11 && "bytes_array"@[0] == 'b',
{
    reveal_strlit("map");
    reveal_strlit("string");
    reveal_strlit("i64");
    reveal_strlit("u64");
    reveal_strlit("bool");
    reveal_strlit("bytes");
    reveal_strlit("map_array");
    reveal_strlit("string_array");
    reveal_strlit("i64_array");
    reveal_strlit("u64_array");
    reveal_strlit("bool_array");
    reveal_strlit("bytes_array");
}

impl ToDocument for Sample {
    open spec fn document_of(record: SampleView) -> Doc {
        Doc::Mapping(bind_all(sample_fields(record), 12))
    }

    fn to_document(self) -> (doc: Field) {
        proof {
            reveal_with_fuel(bind_all, 13);
        }
        let mut map = FieldMap::new();
        map.insert(String::from_str("map"), Field::from(self.map));
        map.insert(String::from_str("string"), Field::from(self.string));
        map.insert(String::from_str("i64"), Field::from(self.i64));
        map.insert(String::from_str("u64"), Field::from(self.u64));
        map.insert(String::from_str("bool"), Field::from(self.bool));
        map.insert(String::from_str("bytes"), Field::from(self.bytes));
        map.insert(String::from_str("map_array"), Field::from(self.map_array));
        map.insert(String::from_str("string_array"), Field::from(self.string_array));
        map.insert(String::from_str("i64_array"), Field::from(self.i64_array));
        map.insert(String::from_str("u64_array"), Field::from(self.u64_array));
        map.insert(String::from_str("bool_array"), Field::from(self.bool_array));
        map.insert(String::from_str("bytes_array"), Field::from(self.bytes_array));
        Field::Mapping(map)
    }
}

impl FromDocument for Sample {
    /// The fields are read in the order in which the record lists them; the
    /// first that cannot be read decides the error.
    open spec fn record_of(doc: Doc) -> Result<SampleView, DocumentFault> {
        match entries_of(doc) {
            Err(e) => Err(e),
            Ok(entries) => {
                let map = mapping_at(entries, "map"@);
                let string = text_at(entries, "string"@);
                let i64 = signed_at(entries, "i64"@);
                let u64 = unsigned_at(entries, "u64"@);
                let bool = bool_at(entries, "bool"@);
                let bytes = bytes_at(entries, "bytes"@);
                let map_array = mapping_list_at(entries, "map_array"@);
                let string_array = text_list_at(entries, "string_array"@);
                let i64_array = signed_list_at(entries, "i64_array"@);
                let u64_array = unsigned_list_at(entries, "u64_array"@);
                let bool_array = bool_list_at(entries, "bool_array"@);
                let bytes_array = bytes_list_at(entries, "bytes_array"@);
                if map is Err {
                    Err(map->Err_0)
                } else if string is Err {
                    Err(string->Err_0)
                } else if i64 is Err {
                    Err(i64->Err_0)
                } else if u64 is Err {
                    Err(u64->Err_0)
                } else if bool is Err {
                    Err(bool->Err_0)
                } else if bytes is Err {
                    Err(bytes->Err_0)
                } else if map_array is Err {
                    Err(map_array->Err_0)
                } else if string_array is Err {
                    Err(string_array->Err_0)
                } else if i64_array is Err {
                    Err(i64_array->Err_0)
                } else if u64_array is Err {
                    Err(u64_array->Err_0)
                } else if bool_array is Err {
                    Err(bool_array->Err_0)
                } else if bytes_array is Err {
                    Err(bytes_array->Err_0)
                } else {
                    Ok(
                        SampleView {
                            map: map->Ok_0,
                            string: string->Ok_0,
                            i64: i64->Ok_0,
                            u64: u64->Ok_0,
                            bool: bool->Ok_0,
                            bytes: bytes->Ok_0,
                            map_array: map_array->Ok_0,
                            string_array: string_array->Ok_0,
                            i64_array: i64_array->Ok_0,
                            u64_array: u64_array->Ok_0,
                            bool_array: bool_array->Ok_0,
                            bytes_array: bytes_array->Ok_0,
                        },
                    )
                }
            },
        }
    }

    fn from_document(doc: Field) -> (r: Result<Sample, DocumentError>) {
        let fields = match map_of(doc) {
            Ok(fields) => fields,
            Err(e) => {
                return Err(e);
            },
        };
        let map = match get_map(&fields, "map") {
            Ok(value) => value,
            Err(e) => {
                return Err(e);
            },
        };
        let string = match get_string(&fields, "string") {
            Ok(value) => value,
            Err(e) => {
                return Err(e);
            },
        };
        let i64 = match get_i64(&fields, "i64") {
            Ok(value) => value,
            Err(e) => {
                return Err(e);
            },
        };
        let u64 = match get_u64(&fields, "u64") {
            Ok(value) => value,
            Err(e) => {
                return Err(e);
            },
        };
        let bool = match get_bool(&fields, "bool") {
            Ok(value) => value,
            Err(e) => {
                return Err(e);
            },
        };
        let bytes = match get_bytes(&fields, "bytes") {
            Ok(value) => value,
            Err(e) => {
                return Err(e);
            },
        };
        let map_array = match get_map_array(&fields, "map_array") {
            Ok(value) => value,
            Err(e) => {
                return Err(e);
            },
        };
        let string_array = match get_string_array(&fields, "string_array") {
            Ok(value) => value,
            Err(e) => {
                return Err(e);
            },
        };
        let i64_array = match get_i64_array(&fields, "i64_array") {
            Ok(value) => value,
            Err(e) => {
                return Err(e);
            },
        };
        let u64_array = match get_u64_array(&fields, "u64_array") {
            Ok(value) => value,
            Err(e) => {
                return Err(e);
            },
        };
        let bool_array = match get_bool_array(&fields, "bool_array") {
            Ok(value) => value,
            Err(e) => {
                return Err(e);
            },
        };
        let bytes_array = match get_bytes_array(&fields, "bytes_array") {
            Ok(value) => value,
            Err(e) => {
                return Err(e);
            },
        };
        Ok(
            Sample {
                map,
                string,
                i64,
                u64,
                bool,
                bytes,
                map_array,
                string_array,
                i64_array,
                u64_array,
                bool_array,
                bytes_array,
            },
        )
    }
}

impl Record for Sample {
    proof fn law_round_trip(record: SampleView) {
        let fields = sample_fields(record);
        lemma_sample_names();
        assert(names_differ(fields));
        lemma_bind_all_binds(fields, 12, 0);
        lemma_bind_all_binds(fields, 12, 1);
        lemma_bind_all_binds(fields, 12, 2);
        lemma_bind_all_binds(fields, 12, 3);
        lemma_bind_all_binds(fields, 12, 4);
        lemma_bind_all_binds(fields, 12, 5);
        lemma_bind_all_binds(fields, 12, 6);
        lemma_bind_all_binds(fields, 12, 7);
        lemma_bind_all_binds(fields, 12, 8);
        lemma_bind_all_binds(fields, 12, 9);
        lemma_bind_all_binds(fields, 12, 10);
        lemma_bind_all_binds(fields, 12, 11);
        lemma_mapping_list(record.map_array);
        lemma_text_list(record.string_array);
        lemma_signed_list(record.i64_array);
        lemma_unsigned_list(record.u64_array);
        lemma_bool_list(record.bool_array);
        lemma_bytes_list(record.bytes_array);
    }
}

} // verus!
