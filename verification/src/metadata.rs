//! Two records that are kept as documents: what a document's owner allows,
//! and the metadata of a document.

use vstd::prelude::*;
use crate::convert::{text_list, texts_view};
use crate::doc::{bind_all, lemma_bind_all_binds, names_differ, Doc, Entries};
use crate::field::{Field, FieldMap};
use crate::reflect::{
    entries_of, field_at, get_field, get_string, get_string_array, get_u64, lemma_text_list,
    map_of, text_at, text_list_at, unsigned_at, DocumentError, DocumentFault, FromDocument,
    Record, ToDocument,
};

verus! {

/// What may be done with a document: on which paths, by which operations,
/// under which conditions.
#[derive(Clone, Debug, PartialEq)]
pub struct Permissions {
    pub paths: Vec<String>,
    pub operations: Vec<String>,
    pub conditions: Vec<String>,
}

/// What a [`Permissions`] record holds.
pub ghost struct PermissionsView {
    pub paths: Seq<Seq<char>>,
    pub operations: Seq<Seq<char>>,
    pub conditions: Seq<Seq<char>>,
}

/// The metadata of a document: its owner, what the owner allows, and the
/// time of its creation.
#[derive(Clone, Debug, PartialEq)]
pub struct Metadata {
    pub owner: String,
    pub permissions: Permissions,
    pub created: u64,
}

/// What a [`Metadata`] record holds.
pub ghost struct MetadataView {
    pub owner: Seq<char>,
    pub permissions: PermissionsView,
    pub created: u64,
}

impl View for Permissions {
    type V = PermissionsView;

    open spec fn view(&self) -> PermissionsView {
        PermissionsView {
            paths: texts_view(self.paths),
            operations: texts_view(self.operations),
            conditions: texts_view(self.conditions),
        }
    }
}

impl View for Metadata {
    type V = MetadataView;

    open spec fn view(&self) -> MetadataView {
        MetadataView {
            owner: self.owner@,
            permissions: self.permissions@,
            created: self.created,
        }
    }
}

impl Default for Permissions {
    /// The permissions that allow nothing.
    fn default() -> (p: Permissions)
        ensures
            p@ == (PermissionsView {
                paths: Seq::empty(),
                operations: Seq::empty(),
                conditions: Seq::empty(),
            }),
    {
        let p = Permissions { paths: Vec::new(), operations: Vec::new(), conditions: Vec::new() };
        assert(texts_view(p.paths) =~= Seq::empty());
        assert(texts_view(p.operations) =~= Seq::empty());
        assert(texts_view(p.conditions) =~= Seq::empty());
        p
    }
}

impl Default for Metadata {
    /// The metadata of a document without an owner, created at time zero.
    fn default() -> (m: Metadata)
        ensures
            m@ == (MetadataView {
                owner: Seq::empty(),
                permissions: PermissionsView {
                    paths: Seq::empty(),
                    operations: Seq::empty(),
                    conditions: Seq::empty(),
                },
                created: 0,
            }),
    {
        Metadata { owner: String::new(), permissions: Permissions::default(), created: 0 }
    }
}

/// The fields of a [`Permissions`] record: their names and their documents.
pub open spec fn permissions_fields(p: PermissionsView) -> Entries {
    seq![
        ("paths"@, text_list(p.paths)),
        ("operations"@, text_list(p.operations)),
        ("conditions"@, text_list(p.conditions)),
    ]
}

/// The fields of a [`Metadata`] record: their names and their documents.
pub open spec fn metadata_fields(m: MetadataView) -> Entries {
    seq![
        ("owner"@, Doc::String(m.owner)),
        ("permissions"@, Permissions::document_of(m.permissions)),
        ("created"@, Doc::UnsignedInt(m.created)),
    ]
}

/// The names of the fields of a [`Permissions`] record differ.
pub proof fn lemma_permissions_names()
    ensures
        "paths"@ != "operations"@,
        "paths"@ != "conditions"@,
        "operations"@ != "conditions"@,
{
    reveal_strlit("paths");
    reveal_strlit("operations");
    reveal_strlit("conditions");
    assert("paths"@.len() == 5);
    assert("operations"@.len() == 10);
    assert("conditions"@[0] == 'c');
    assert("operations"@[0] == 'o');
}

/// The names of the fields of a [`Metadata`] record differ.
pub proof fn lemma_metadata_names()
    ensures
        "owner"@ != "permissions"@,
        "owner"@ != "created"@,
        "permissions"@ != "created"@,
{
    reveal_strlit("owner");
    reveal_strlit("permissions");
    reveal_strlit("created");
    assert("owner"@.len() == 5);
    assert("permissions"@.len() == 11);
    assert("created"@.len() == 7);
}

impl ToDocument for Permissions {
    open spec fn document_of(record: PermissionsView) -> Doc {
        Doc::Mapping(bind_all(permissions_fields(record), 3))
    }

    fn to_document(self) -> (doc: Field) {
        proof {
            reveal_with_fuel(bind_all, 4);
        }
        let mut map = FieldMap::new();
        map.insert(String::from_str("paths"), Field::from(self.paths));
        map.insert(String::from_str("operations"), Field::from(self.operations));
        map.insert(String::from_str("conditions"), Field::from(self.conditions));
        Field::Mapping(map)
    }
}

impl FromDocument for Permissions {
    open spec fn record_of(doc: Doc) -> Result<PermissionsView, DocumentFault> {
        match entries_of(doc) {
            Err(e) => Err(e),
            Ok(entries) => match text_list_at(entries, "paths"@) {
                Err(e) => Err(e),
                Ok(paths) => match text_list_at(entries, "operations"@) {
                    Err(e) => Err(e),
                    Ok(operations) => match text_list_at(entries, "conditions"@) {
                        Err(e) => Err(e),
                        Ok(conditions) => Ok(PermissionsView { paths, operations, conditions }),
                    },
                },
            },
        }
    }

    fn from_document(doc: Field) -> (r: Result<Permissions, DocumentError>) {
        let map = match map_of(doc) {
            Ok(map) => map,
            Err(e) => {
                return Err(e);
            },
        };
        let paths = match get_string_array(&map, "paths") {
            Ok(v) => v,
            Err(e) => {
                return Err(e);
            },
        };
        let operations = match get_string_array(&map, "operations") {
            Ok(v) => v,
            Err(e) => {
                return Err(e);
            },
        };
        let conditions = match get_string_array(&map, "conditions") {
            Ok(v) => v,
            Err(e) => {
                return Err(e);
            },
        };
        Ok(Permissions { paths, operations, conditions })
    }
}

impl Record for Permissions {
    proof fn law_round_trip(record: PermissionsView) {
        let fields = permissions_fields(record);
        lemma_permissions_names();
        assert(names_differ(fields));
        lemma_bind_all_binds(fields, 3, 0);
        lemma_bind_all_binds(fields, 3, 1);
        lemma_bind_all_binds(fields, 3, 2);
        lemma_text_list(record.paths);
        lemma_text_list(record.operations);
        lemma_text_list(record.conditions);
    }
}

impl ToDocument for Metadata {
    open spec fn document_of(record: MetadataView) -> Doc {
        Doc::Mapping(bind_all(metadata_fields(record), 3))
    }

    fn to_document(self) -> (doc: Field) {
        proof {
            reveal_with_fuel(bind_all, 4);
        }
        let mut map = FieldMap::new();
        map.insert(String::from_str("owner"), Field::from(self.owner));
        map.insert(String::from_str("permissions"), self.permissions.to_document());
        map.insert(String::from_str("created"), Field::from(self.created));
        Field::Mapping(map)
    }
}

impl FromDocument for Metadata {
    open spec fn record_of(doc: Doc) -> Result<MetadataView, DocumentFault> {
        match entries_of(doc) {
            Err(e) => Err(e),
            Ok(entries) => match text_at(entries, "owner"@) {
                Err(e) => Err(e),
                Ok(owner) => match field_at(entries, "permissions"@) {
                    Err(e) => Err(e),
                    Ok(inner) => match Permissions::record_of(inner) {
                        Err(e) => Err(e),
                        Ok(permissions) => match unsigned_at(entries, "created"@) {
                            Err(e) => Err(e),
                            Ok(created) => Ok(MetadataView { owner, permissions, created }),
                        },
                    },
                },
            },
        }
    }

    fn from_document(doc: Field) -> (r: Result<Metadata, DocumentError>) {
        let map = match map_of(doc) {
            Ok(map) => map,
            Err(e) => {
                return Err(e);
            },
        };
        let owner = match get_string(&map, "owner") {
            Ok(v) => v,
            Err(e) => {
                return Err(e);
            },
        };
        let inner = match get_field(&map, "permissions") {
            Ok(v) => v,
            Err(e) => {
                return Err(e);
            },
        };
        let permissions = match Permissions::from_document(inner) {
            Ok(v) => v,
            Err(e) => {
                return Err(e);
            },
        };
        let created = match get_u64(&map, "created") {
            Ok(v) => v,
            Err(e) => {
                return Err(e);
            },
        };
        Ok(Metadata { owner, permissions, created })
    }
}

impl Record for Metadata {
    proof fn law_round_trip(record: MetadataView) {
        let fields = metadata_fields(record);
        lemma_metadata_names();
        assert(names_differ(fields));
        lemma_bind_all_binds(fields, 3, 0);
        lemma_bind_all_binds(fields, 3, 1);
        lemma_bind_all_binds(fields, 3, 2);
        Permissions::law_round_trip(record.permissions);
    }
}

} // verus!
