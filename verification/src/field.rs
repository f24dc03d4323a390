//! Documents as they are held in memory.

use vstd::prelude::*;
use vstd::std_specs::cmp::PartialEqSpecImpl;
use crate::order::{key_order, key_precedes, lemma_key_order_transitive, KeyOrder};
use crate::doc::{
    insert_entry, keys_ascending, lemma_has_key_at_rank, lemma_insert_entry, lemma_rank_is_split,
    lemma_to_map_at, rank, splits_at, to_map, Entries, Doc,
};

verus! {

/// A map from text keys to documents. No key occurs twice, and the entries
/// are kept in the ascending byte order of their keys, in whatever order they
/// were inserted.
#[derive(Debug)]
pub struct FieldMap {
    entries: Vec<(String, Field)>,
}

/// A document.
#[derive(Debug)]
pub enum Field {
    /// A map from text keys to documents.
    Mapping(FieldMap),
    /// A text.
    String(String),
    /// A signed 64-bit integer.
    Int64(i64),
    /// An unsigned 64-bit integer. It is another document than the signed
    /// integer of the same value.
    Uint64(u64),
    /// A boolean.
    Bool(bool),
    /// A byte string. It is another document than the text of the same bytes.
    Bytes(Vec<u8>),
    /// A list of documents, in its order.
    Array(Vec<Field>),
}

/// The entries that a vector of keys and documents stands for, in its order.
pub open spec fn entries_view(v: Vec<(String, Field)>) -> Entries
    decreases v,
{
    Seq::new(
        v.len() as nat,
        |i: int|
            if 0 <= i < v.len() {
                (v[i].0@, v[i].1.view())
            } else {
                (Seq::empty(), Doc::Bool(false))
            },
    )
}

/// The values that a vector of documents stands for, in its order.
pub open spec fn list_view(v: Vec<Field>) -> Seq<Doc>
    decreases v,
{
    Seq::new(
        v.len() as nat,
        |i: int|
            if 0 <= i < v.len() {
                v[i].view()
            } else {
                Doc::Bool(false)
            },
    )
}

impl View for Field {
    type V = Doc;

    open spec fn view(&self) -> Doc
        decreases self,
    {
        match self {
            Field::Mapping(m) => Doc::Mapping(m.entries()),
            Field::String(s) => Doc::String(s@),
            Field::Int64(n) => Doc::SignedInt(*n),
            Field::Uint64(n) => Doc::UnsignedInt(*n),
            Field::Bool(b) => Doc::Bool(*b),
            Field::Bytes(b) => Doc::Bytes(b@),
            Field::Array(a) => Doc::List(list_view(*a)),
        }
    }
}

impl View for FieldMap {
    type V = Map<Seq<char>, Doc>;

    /// The mapping from keys to values.
    open spec fn view(&self) -> Map<Seq<char>, Doc> {
        to_map(self.entries())
    }
}

impl FieldMap {
    /// The entries in the order in which they are kept.
    pub closed spec fn entries(&self) -> Entries
        decreases self,
    {
        entries_view(self.entries)
    }

    /// The keys are ascending. This holds of every map.
    #[verifier::type_invariant]
    pub closed spec fn wf(&self) -> bool {
        keys_ascending(self.entries())
    }

    /// The empty map.
    pub fn new() -> (m: FieldMap)
        ensures
            m.entries() == Seq::<(Seq<char>, Doc)>::empty(),
            m@ == Map::<Seq<char>, Doc>::empty(),
    {
        let m = FieldMap { entries: Vec::new() };
        assert(m.entries() =~= Seq::empty());
        assert(m@ =~= Map::empty());
        m
    }

    /// The number of entries.
    pub fn len(&self) -> (n: usize)
        ensures
            n == self.entries().len(),
            keys_ascending(self.entries()),
    {
        proof {
            use_type_invariant(self);
        }
        self.entries.len()
    }

    /// Whether the map has no entry.
    pub fn is_empty(&self) -> (b: bool)
        ensures
            b == (self.entries().len() == 0),
    {
        self.entries.len() == 0
    }

    /// The key of the entry at position `i` of the ascending order.
    pub fn key_at(&self, i: usize) -> (key: &str)
        requires
            i < self.entries().len(),
        ensures
            key@ == self.entries()[i as int].0,
    {
        self.entries[i].0.as_str()
    }

    /// The value of the entry at position `i` of the ascending order.
    pub fn value_at(&self, i: usize) -> (value: &Field)
        requires
            i < self.entries().len(),
        ensures
            value@ == self.entries()[i as int].1,
            decreases_to!(*self => *value),
    {
        &self.entries[i].1
    }

    /// The position at which `key` stands or would stand.
    fn search(&self, key: &str) -> (p: usize)
        ensures
            p == rank(self.entries(), key@),
            p <= self.entries().len(),
            splits_at(self.entries(), key@, p as int),
    {
        proof {
            use_type_invariant(self);
        }
        let mut lo: usize = 0;
        let mut hi: usize = self.entries.len();
        while lo < hi
            invariant
                lo <= hi <= self.entries.len(),
                keys_ascending(self.entries()),
                self.entries().len() == self.entries.len(),
                forall|i: int| 0 <= i < lo ==> key_precedes(self.entries()[i].0, key@),
                forall|i: int|
                    hi <= i < self.entries.len() ==> !key_precedes(self.entries()[i].0, key@),
            decreases hi - lo,
        {
            let mid = lo + (hi - lo) / 2;
            let here = key_order(self.entries[mid].0.as_str(), key);
            assert(self.entries()[mid as int].0 == self.entries[mid as int].0@);
            if here == KeyOrder::Before {
                assert forall|i: int| 0 <= i < mid + 1 implies key_precedes(
                    self.entries()[i].0,
                    key@,
                ) by {
                    if i < mid {
                        lemma_key_order_transitive(
                            self.entries()[i].0,
                            self.entries()[mid as int].0,
                            key@,
                        );
                    }
                }
                lo = mid + 1;
            } else {
                assert forall|i: int| mid <= i < self.entries.len() implies !key_precedes(
                    self.entries()[i].0,
                    key@,
                ) by {
                    if i > mid && key_precedes(self.entries()[i].0, key@) {
                        lemma_key_order_transitive(
                            self.entries()[mid as int].0,
                            self.entries()[i].0,
                            key@,
                        );
                    }
                }
                hi = mid;
            }
        }
        proof {
            lemma_rank_is_split(self.entries(), key@, lo as int);
        }
        lo
    }

    /// Whether `key` is bound.
    pub fn contains_key(&self, key: &str) -> (b: bool)
        ensures
            b == self@.contains_key(key@),
    {
        self.get(key).is_some()
    }

    /// The value that `key` is bound to, if it is bound.
    pub fn get(&self, key: &str) -> (found: Option<&Field>)
        ensures
            match found {
                Some(value) => self@.contains_key(key@) && self@[key@] == value@,
                None => !self@.contains_key(key@),
            },
    {
        proof {
            use_type_invariant(self);
            lemma_has_key_at_rank(self.entries(), key@);
        }
        let p = self.search(key);
        if p < self.entries.len() {
            let entry = &self.entries[p];
            assert(self.entries()[p as int] == (entry.0@, entry.1@));
            if key_order(entry.0.as_str(), key) == KeyOrder::Same {
                proof {
                    lemma_to_map_at(self.entries(), p as int);
                }
                return Some(&entry.1);
            }
        }
        None
    }

    /// Binds `key` to `value` and returns the value that the key was bound to before.
    pub fn insert(&mut self, key: String, value: Field) -> (previous: Option<Field>)
        ensures
            final(self).entries() == insert_entry(old(self).entries(), key@, value@),
            keys_ascending(final(self).entries()),
            final(self)@ == old(self)@.insert(key@, value@),
            match previous {
                Some(before) => old(self)@.contains_key(key@) && old(self)@[key@] == before@,
                None => !old(self)@.contains_key(key@),
            },
    {
        proof {
            use_type_invariant(&*self);
            lemma_has_key_at_rank(self.entries(), key@);
            lemma_insert_entry(self.entries(), key@, value@);
        }
        let ghost before = self.entries();
        let p = self.search(key.as_str());
        let mut entries: Vec<(String, Field)> = Vec::new();
        assert(entries_view(entries) =~= Seq::empty());
        std::mem::swap(&mut entries, &mut self.entries);
        assert(entries_view(entries) == before);
        let mut previous: Option<Field> = None;
        if p < entries.len() {
            assert(before[p as int].0 == entries[p as int].0@);
            if key_order(entries[p].0.as_str(), key.as_str()) == KeyOrder::Same {
                proof {
                    lemma_to_map_at(before, p as int);
                }
                let entry = entries.remove(p);
                assert(entry.1@ == before[p as int].1);
                previous = Some(entry.1);
            }
        }
        let ghost key_view = key@;
        let ghost value_view = value@;
        entries.insert(p, (key, value));
        assert(entries_view(entries) =~= insert_entry(before, key_view, value_view));
        self.entries = entries;
        previous
    }
}

impl Clone for FieldMap {
    /// A copy of the map: the same entries.
    fn clone(&self) -> (copy: FieldMap)
        ensures
            copy.entries() == self.entries(),
            copy@ == self@,
        decreases self,
    {
        proof {
            use_type_invariant(self);
        }
        let mut entries: Vec<(String, Field)> = Vec::new();
        let mut i: usize = 0;
        while i < self.entries.len()
            invariant
                i <= self.entries.len(),
                entries.len() == i,
                forall|j: int| 0 <= j < i ==> (#[trigger] entries[j]).0@ == self.entries[j].0@,
                forall|j: int| 0 <= j < i ==> (#[trigger] entries[j]).1@ == self.entries[j].1@,
            decreases self.entries.len() - i,
        {
            let key = self.entries[i].0.clone();
            let value = self.entries[i].1.clone();
            entries.push((key, value));
            i = i + 1;
        }
        assert(entries_view(entries) =~= self.entries());
        FieldMap { entries }
    }
}

impl Clone for Field {
    /// A copy of the document: the same value.
    #[verifier::loop_isolation(false)]
    fn clone(&self) -> (copy: Field)
        ensures
            copy@ == self@,
        decreases self,
    {
        match self {
            Field::Mapping(m) => Field::Mapping(m.clone()),
            Field::String(s) => Field::String(s.clone()),
            Field::Int64(n) => Field::Int64(*n),
            Field::Uint64(n) => Field::Uint64(*n),
            Field::Bool(b) => Field::Bool(*b),
            Field::Bytes(b) => Field::Bytes(copy_bytes(b)),
            Field::Array(a) => {
                let mut items: Vec<Field> = Vec::new();
                let mut i: usize = 0;
                while i < a.len()
                    invariant
                        i <= a.len(),
                        items.len() == i,
                        forall|j: int| 0 <= j < i ==> (#[trigger] items[j])@ == a[j]@,
                    decreases a.len() - i,
                {
                    let item = a[i].clone();
                    items.push(item);
                    i = i + 1;
                }
                assert(list_view(items) =~= list_view(*a));
                Field::Array(items)
            },
        }
    }
}

/// A copy of a byte string.
pub fn copy_bytes(bytes: &Vec<u8>) -> (copy: Vec<u8>)
    ensures
        copy@ == bytes@,
{
    let mut copy: Vec<u8> = Vec::new();
    let mut i: usize = 0;
    while i < bytes.len()
        invariant
            i <= bytes.len(),
            copy@ == bytes@.take(i as int),
        decreases bytes.len() - i,
    {
        copy.push(bytes[i]);
        assert(bytes@.take(i + 1) =~= bytes@.take(i as int).push(bytes@[i as int]));
        i = i + 1;
    }
    assert(bytes@.take(i as int) =~= bytes@);
    copy
}

/// Whether two byte strings are the same.
pub fn same_bytes(a: &Vec<u8>, b: &Vec<u8>) -> (same: bool)
    ensures
        same == (a@ == b@),
{
    if a.len() != b.len() {
        return false;
    }
    let mut i: usize = 0;
    while i < a.len()
        invariant
            i <= a.len(),
            a.len() == b.len(),
            forall|j: int| 0 <= j < i ==> a@[j] == b@[j],
        decreases a.len() - i,
    {
        if a[i] != b[i] {
            return false;
        }
        i = i + 1;
    }
    assert(a@ =~= b@);
    true
}

impl PartialEq for FieldMap {
    /// Two maps are equal when they bind the same keys to equal values.
    fn eq(&self, other: &FieldMap) -> (same: bool)
        decreases self,
    {
        if self.entries.len() != other.entries.len() {
            assert(self.entries().len() != other.entries().len());
            return false;
        }
        let mut i: usize = 0;
        while i < self.entries.len()
            invariant
                i <= self.entries.len(),
                self.entries.len() == other.entries.len(),
                forall|j: int| 0 <= j < i ==> self.entries()[j] == other.entries()[j],
            decreases self.entries.len() - i,
        {
            let mine = &self.entries[i];
            let theirs = &other.entries[i];
            assert(self.entries()[i as int] == (mine.0@, mine.1@));
            assert(other.entries()[i as int] == (theirs.0@, theirs.1@));
            if !(mine.0 == theirs.0) || !mine.1.eq(&theirs.1) {
                return false;
            }
            i = i + 1;
        }
        assert(self.entries() =~= other.entries());
        true
    }
}

impl PartialEqSpecImpl for FieldMap {
    open spec fn obeys_eq_spec() -> bool {
        true
    }

    open spec fn eq_spec(&self, other: &FieldMap) -> bool {
        self.entries() == other.entries()
    }
}

impl PartialEq for Field {
    /// Two documents are equal when they are of the same kind and hold equal
    /// content: the items of a list in the same order, the same keys of a map
    /// bound to equal values.
    #[verifier::loop_isolation(false)]
    fn eq(&self, other: &Field) -> (same: bool)
        decreases self,
    {
        match (self, other) {
            (Field::Mapping(a), Field::Mapping(b)) => a.eq(b),
            (Field::String(a), Field::String(b)) => *a == *b,
            (Field::Int64(a), Field::Int64(b)) => *a == *b,
            (Field::Uint64(a), Field::Uint64(b)) => *a == *b,
            (Field::Bool(a), Field::Bool(b)) => *a == *b,
            (Field::Bytes(a), Field::Bytes(b)) => same_bytes(a, b),
            (Field::Array(a), Field::Array(b)) => {
                if a.len() != b.len() {
                    assert(list_view(*a).len() != list_view(*b).len());
                    return false;
                }
                let mut i: usize = 0;
                while i < a.len()
                    invariant
                        i <= a.len(),
                        a.len() == b.len(),
                        forall|j: int| 0 <= j < i ==> a[j]@ == b[j]@,
                    decreases a.len() - i,
                {
                    if !a[i].eq(&b[i]) {
                        assert(list_view(*a)[i as int] != list_view(*b)[i as int]);
                        return false;
                    }
                    i = i + 1;
                }
                assert(list_view(*a) =~= list_view(*b));
                true
            },
            _ => false,
        }
    }
}

impl PartialEqSpecImpl for Field {
    open spec fn obeys_eq_spec() -> bool {
        true
    }

    open spec fn eq_spec(&self, other: &Field) -> bool {
        self@ == other@
    }
}

} // verus!
