//! The mathematical model of a document.

use vstd::prelude::*;
use crate::order::{key_precedes, lemma_key_order_strict_total, lemma_key_order_transitive};

verus! {

/// What a document is: the value that contracts speak of.
///
/// The entries of a map are listed in the order in which they are hashed
/// and rendered; in a well-formed value that is the ascending order of
/// their keys.
pub ghost enum Doc {
    Mapping(Seq<(Seq<char>, Doc)>),
    String(Seq<char>),
    SignedInt(i64),
    UnsignedInt(u64),
    Bool(bool),
    Bytes(Seq<u8>),
    List(Seq<Doc>),
}

/// The entries of a map, as a sequence of keys with their values.
pub type Entries = Seq<(Seq<char>, Doc)>;

/// Every key comes strictly before the keys behind it, so no key occurs twice.
pub open spec fn keys_ascending(entries: Entries) -> bool {
    forall|i: int, j: int| 0 <= i < j < entries.len() ==> key_precedes(entries[i].0, entries[j].0)
}

/// Some entry has the key `key`.
pub open spec fn has_key(entries: Entries, key: Seq<char>) -> bool {
    exists|i: int| 0 <= i < entries.len() && entries[i].0 == key
}

/// The position of an entry that has the key `key`.
pub open spec fn index_of(entries: Entries, key: Seq<char>) -> int {
    choose|i: int| 0 <= i < entries.len() && entries[i].0 == key
}

/// The mapping from keys to values that the entries stand for.
pub open spec fn to_map(entries: Entries) -> Map<Seq<char>, Doc> {
    Map::new(|k: Seq<char>| has_key(entries, k), |k: Seq<char>| entries[index_of(entries, k)].1)
}

/// How many entries have a key that comes before `key`: in ascending
/// entries, the position at which `key` stands or would stand.
pub open spec fn rank(entries: Entries, key: Seq<char>) -> int
    decreases entries.len(),
{
    if entries.len() == 0 {
        0
    } else if key_precedes(entries.last().0, key) {
        rank(entries.drop_last(), key) + 1
    } else {
        rank(entries.drop_last(), key)
    }
}

/// The entries with `key` bound to `value`: in place of the entry that had the
/// key, or else at the position that keeps the keys ascending.
pub open spec fn insert_entry(entries: Entries, key: Seq<char>, value: Doc) -> Entries {
    let p = rank(entries, key);
    if p < entries.len() && entries[p].0 == key {
        entries.update(p, (key, value))
    } else {
        entries.insert(p, (key, value))
    }
}

/// The entries after the first `n` of the given bindings were made, one
/// after the other.
pub open spec fn bind_all(bindings: Entries, n: nat) -> Entries
    decreases n,
{
    if 0 < n <= bindings.len() {
        insert_entry(bind_all(bindings, (n - 1) as nat), bindings[n - 1].0, bindings[n - 1].1)
    } else {
        Seq::empty()
    }
}

/// No name is bound twice.
pub open spec fn names_differ(bindings: Entries) -> bool {
    forall|i: int, j: int| 0 <= i < j < bindings.len() ==> bindings[i].0 != bindings[j].0
}

/// `p` splits the entries into those whose key comes before `key` and the rest.
pub open spec fn splits_at(entries: Entries, key: Seq<char>, p: int) -> bool {
    &&& 0 <= p <= entries.len()
    &&& forall|i: int| 0 <= i < p ==> key_precedes(entries[i].0, key)
    &&& forall|i: int| p <= i < entries.len() ==> !key_precedes(entries[i].0, key)
}

impl Doc {
    /// The value is well formed: the keys of every map in it are ascending.
    pub open spec fn wf(self) -> bool
        decreases self,
    {
        match self {
            Doc::Mapping(entries) => {
                &&& keys_ascending(entries)
                &&& forall|i: int| 0 <= i < entries.len() ==> (#[trigger] entries[i]).1.wf()
            },
            Doc::List(items) => forall|i: int| 0 <= i < items.len() ==> (#[trigger] items[i]).wf(),
            _ => true,
        }
    }
}

/// A position that splits the entries is the rank of the key.
pub proof fn lemma_rank_is_split(entries: Entries, key: Seq<char>, p: int)
    requires
        splits_at(entries, key, p),
    ensures
        rank(entries, key) == p,
    decreases entries.len(),
{
    if entries.len() > 0 {
        let front = entries.drop_last();
        if p == entries.len() {
            assert(key_precedes(entries[p - 1].0, key));
            assert(splits_at(front, key, p - 1));
            lemma_rank_is_split(front, key, p - 1);
        } else {
            assert(!key_precedes(entries[entries.len() - 1].0, key));
            assert(splits_at(front, key, p));
            lemma_rank_is_split(front, key, p);
        }
    }
}

/// Ascending entries are split by the rank of any key.
pub proof fn lemma_rank_splits(entries: Entries, key: Seq<char>)
    requires
        keys_ascending(entries),
    ensures
        splits_at(entries, key, rank(entries, key)),
    decreases entries.len(),
{
    if entries.len() > 0 {
        let front = entries.drop_last();
        let n = entries.len() - 1;
        assert(keys_ascending(front));
        lemma_rank_splits(front, key);
        let p = rank(front, key);
        if key_precedes(entries[n].0, key) {
            assert forall|i: int| 0 <= i < n implies key_precedes(entries[i].0, key) by {
                lemma_key_order_transitive(entries[i].0, entries[n].0, key);
            }
            assert(splits_at(front, key, n));
            lemma_rank_is_split(front, key, n);
        } else {
            assert forall|i: int| p <= i < entries.len() implies
                !key_precedes(entries[i].0, key) by {
                if i < n {
                    assert(front[i] == entries[i]);
                }
            }
            assert forall|i: int| 0 <= i < p implies key_precedes(entries[i].0, key) by {
                assert(front[i] == entries[i]);
            }
        }
    }
}

/// In ascending entries a key stands at one position only.
pub proof fn lemma_key_position_unique(entries: Entries, i: int, j: int)
    requires
        keys_ascending(entries),
        0 <= i < entries.len(),
        0 <= j < entries.len(),
        entries[i].0 == entries[j].0,
    ensures
        i == j,
{
    lemma_key_order_strict_total(entries[i].0, entries[j].0);
}

/// In ascending entries, the mapping binds the key of each entry to that entry's value.
pub proof fn lemma_to_map_at(entries: Entries, i: int)
    requires
        keys_ascending(entries),
        0 <= i < entries.len(),
    ensures
        to_map(entries).contains_key(entries[i].0),
        to_map(entries)[entries[i].0] == entries[i].1,
{
    let k = entries[i].0;
    assert(has_key(entries, k));
    lemma_key_position_unique(entries, i, index_of(entries, k));
}

/// In ascending entries a key is bound exactly if it stands at its rank.
pub proof fn lemma_has_key_at_rank(entries: Entries, key: Seq<char>)
    requires
        keys_ascending(entries),
    ensures
        has_key(entries, key) <==> (rank(entries, key) < entries.len() && entries[rank(
            entries,
            key,
        )].0 == key),
{
    lemma_rank_splits(entries, key);
    let p = rank(entries, key);
    if has_key(entries, key) {
        let i = index_of(entries, key);
        lemma_key_order_strict_total(key, key);
        assert(i >= p);
        if i > p {
            lemma_key_order_strict_total(entries[p].0, key);
            assert(key_precedes(entries[p].0, entries[i].0));
        }
    }
}

/// Binding a key keeps ascending entries ascending, and changes the mapping
/// that they stand for at that key alone.
pub proof fn lemma_insert_entry(entries: Entries, key: Seq<char>, value: Doc)
    requires
        keys_ascending(entries),
    ensures
        keys_ascending(insert_entry(entries, key, value)),
        to_map(insert_entry(entries, key, value)) == to_map(entries).insert(key, value),
{
    let p = rank(entries, key);
    let after = insert_entry(entries, key, value);
    lemma_rank_splits(entries, key);
    lemma_has_key_at_rank(entries, key);
    let replaced = p < entries.len() && entries[p].0 == key;
    assert forall|i: int, j: int| 0 <= i < j < after.len() implies key_precedes(
        after[i].0,
        after[j].0,
    ) by {
        if replaced {
            assert(after[i].0 == entries[i].0);
            assert(after[j].0 == entries[j].0);
        } else {
            if j < p {
            } else if j == p {
            } else if i == p {
                lemma_key_order_strict_total(entries[j - 1].0, key);
            } else if i < p {
                assert(after[j] == entries[j - 1]);
            } else {
                assert(after[i] == entries[i - 1]);
                assert(after[j] == entries[j - 1]);
            }
        }
    }
    let shift = |i: int| if replaced || i < p { i } else { i + 1 };
    assert forall|k: Seq<char>| to_map(after).contains_key(k) <==> to_map(entries).insert(
        key,
        value,
    ).contains_key(k) by {
        if has_key(after, k) {
            let i = index_of(after, k);
            if i != p {
                let o = if replaced || i < p { i } else { i - 1 };
                assert(entries[o].0 == k);
            }
        }
        if k == key {
            assert(after[p].0 == k);
        } else if has_key(entries, k) {
            let o = index_of(entries, k);
            assert(after[shift(o)].0 == k);
        }
    }
    assert forall|k: Seq<char>| to_map(after).contains_key(k) implies to_map(after)[k] == to_map(
        entries,
    ).insert(key, value)[k] by {
        let i = index_of(after, k);
        lemma_to_map_at(after, i);
        if i != p {
            let o = if replaced || i < p { i } else { i - 1 };
            assert(entries[o] == after[i]);
            lemma_to_map_at(entries, o);
        }
    }
    assert(to_map(after) =~= to_map(entries).insert(key, value));
}

/// Ascending entries that stand for the same mapping are the same entries.
pub proof fn lemma_entries_canonical(a: Entries, b: Entries)
    requires
        keys_ascending(a),
        keys_ascending(b),
        to_map(a) == to_map(b),
    ensures
        a == b,
    decreases a.len(),
{
    if a.len() == 0 {
        if b.len() > 0 {
            lemma_to_map_at(b, 0);
            assert(has_key(a, b[0].0));
        }
        assert(a =~= b);
    } else {
        lemma_to_map_at(a, 0);
        assert(has_key(b, a[0].0));
        let j = index_of(b, a[0].0);
        lemma_to_map_at(b, 0);
        assert(has_key(a, b[0].0));
        let i = index_of(a, b[0].0);
        if j > 0 {
            // b[0] comes before b[j] = a[0], yet a[0] is the least key of a.
            lemma_key_order_strict_total(a[0].0, a[i].0);
            assert(key_precedes(b[0].0, b[j].0));
            if i > 0 {
                assert(key_precedes(a[0].0, a[i].0));
            }
        }
        assert(a[0].0 == b[0].0);
        assert(a[0].1 == b[0].1);
        let ra = a.drop_first();
        let rb = b.drop_first();
        assert(keys_ascending(ra)) by {
            assert forall|x: int, y: int| 0 <= x < y < ra.len() implies key_precedes(
                ra[x].0,
                ra[y].0,
            ) by {
                assert(ra[x] == a[x + 1] && ra[y] == a[y + 1]);
            }
        }
        assert(keys_ascending(rb)) by {
            assert forall|x: int, y: int| 0 <= x < y < rb.len() implies key_precedes(
                rb[x].0,
                rb[y].0,
            ) by {
                assert(rb[x] == b[x + 1] && rb[y] == b[y + 1]);
            }
        }
        lemma_to_map_drop_first(a);
        lemma_to_map_drop_first(b);
        lemma_entries_canonical(ra, rb);
        assert(a =~= b) by {
            assert(a.len() == ra.len() + 1);
            assert(b.len() == rb.len() + 1);
            assert forall|x: int| 0 <= x < a.len() implies a[x] == b[x] by {
                if x > 0 {
                    assert(a[x] == ra[x - 1]);
                    assert(b[x] == rb[x - 1]);
                }
            }
        }
    }
}

/// Without their first entry, ascending entries stand for the mapping without its least key.
pub proof fn lemma_to_map_drop_first(entries: Entries)
    requires
        keys_ascending(entries),
        entries.len() > 0,
    ensures
        to_map(entries.drop_first()) == to_map(entries).remove(entries[0].0),
{
    let rest = entries.drop_first();
    assert(keys_ascending(rest)) by {
        assert forall|x: int, y: int| 0 <= x < y < rest.len() implies key_precedes(
            rest[x].0,
            rest[y].0,
        ) by {
            assert(rest[x] == entries[x + 1] && rest[y] == entries[y + 1]);
        }
    }
    assert forall|k: Seq<char>| to_map(rest).contains_key(k) <==> to_map(entries).remove(
        entries[0].0,
    ).contains_key(k) by {
        if has_key(rest, k) {
            let i = index_of(rest, k);
            assert(entries[i + 1].0 == k);
            lemma_key_order_strict_total(entries[0].0, k);
        }
        if has_key(entries, k) && k != entries[0].0 {
            let i = index_of(entries, k);
            assert(rest[i - 1].0 == k);
        }
    }
    assert forall|k: Seq<char>| to_map(rest).contains_key(k) implies to_map(rest)[k] == to_map(
        entries,
    ).remove(entries[0].0)[k] by {
        let i = index_of(rest, k);
        lemma_to_map_at(rest, i);
        assert(rest[i] == entries[i + 1]);
        lemma_to_map_at(entries, i + 1);
    }
    assert(to_map(rest) =~= to_map(entries).remove(entries[0].0));
}

/// Two bindings of different keys give the same entries in either order.
pub proof fn law_insert_order(
    entries: Entries,
    first_key: Seq<char>,
    first_value: Doc,
    second_key: Seq<char>,
    second_value: Doc,
)
    requires
        keys_ascending(entries),
        first_key != second_key,
    ensures
        insert_entry(insert_entry(entries, first_key, first_value), second_key, second_value)
            == insert_entry(
            insert_entry(entries, second_key, second_value),
            first_key,
            first_value,
        ),
{
    let a1 = insert_entry(entries, first_key, first_value);
    let a2 = insert_entry(a1, second_key, second_value);
    let b1 = insert_entry(entries, second_key, second_value);
    let b2 = insert_entry(b1, first_key, first_value);
    lemma_insert_entry(entries, first_key, first_value);
    lemma_insert_entry(a1, second_key, second_value);
    lemma_insert_entry(entries, second_key, second_value);
    lemma_insert_entry(b1, first_key, first_value);
    assert(to_map(a2) =~= to_map(b2));
    lemma_entries_canonical(a2, b2);
}

/// Bindings made one after the other give ascending entries.
pub proof fn lemma_bind_all_ascending(bindings: Entries, n: nat)
    ensures
        keys_ascending(bind_all(bindings, n)),
    decreases n,
{
    if 0 < n <= bindings.len() {
        lemma_bind_all_ascending(bindings, (n - 1) as nat);
        let before = bind_all(bindings, (n - 1) as nat);
        lemma_insert_entry(before, bindings[n - 1].0, bindings[n - 1].1);
    }
}

/// Where no name is bound twice, each of the first `n` names is bound to its value.
pub proof fn lemma_bind_all_binds(bindings: Entries, n: nat, i: int)
    requires
        names_differ(bindings),
        0 <= i < n <= bindings.len(),
    ensures
        to_map(bind_all(bindings, n)).contains_key(bindings[i].0),
        to_map(bind_all(bindings, n))[bindings[i].0] == bindings[i].1,
    decreases n,
{
    let before = bind_all(bindings, (n - 1) as nat);
    lemma_bind_all_ascending(bindings, (n - 1) as nat);
    lemma_insert_entry(before, bindings[n - 1].0, bindings[n - 1].1);
    if i < n - 1 {
        lemma_bind_all_binds(bindings, (n - 1) as nat, i);
    }
}

/// Every value of the entries is well formed.
pub open spec fn values_wf(entries: Entries) -> bool {
    forall|i: int| 0 <= i < entries.len() ==> (#[trigger] entries[i]).1.wf()
}

/// Binding a key to a well-formed value keeps the values of the entries well formed.
pub proof fn lemma_insert_entry_values(entries: Entries, key: Seq<char>, value: Doc)
    requires
        values_wf(entries),
        value.wf(),
    ensures
        values_wf(insert_entry(entries, key, value)),
{
    let p = rank(entries, key);
    let after = insert_entry(entries, key, value);
    lemma_rank_bounds(entries, key);
    assert forall|i: int| 0 <= i < after.len() implies (#[trigger] after[i]).1.wf() by {
        if i != p {
            let o = if p < entries.len() && entries[p].0 == key || i < p {
                i
            } else {
                i - 1
            };
            assert(after[i] == entries[o]);
        }
    }
}

/// The rank of a key is a position in the entries or behind them.
pub proof fn lemma_rank_bounds(entries: Entries, key: Seq<char>)
    ensures
        0 <= rank(entries, key) <= entries.len(),
    decreases entries.len(),
{
    if entries.len() > 0 {
        lemma_rank_bounds(entries.drop_last(), key);
    }
}

/// Each item of a well-formed list is well formed.
pub proof fn lemma_list_item_wf(items: Seq<Doc>, i: int)
    requires
        Doc::List(items).wf(),
        0 <= i < items.len(),
    ensures
        items[i].wf(),
{
    let list = Doc::List(items);
    assert(list.wf());
    assert(list->List_0 == items);
}

/// The keys of a well-formed map are ascending, and each of its values is well formed.
pub proof fn lemma_mapping_entry_wf(entries: Entries, i: int)
    requires
        Doc::Mapping(entries).wf(),
        0 <= i < entries.len(),
    ensures
        keys_ascending(entries),
        entries[i].1.wf(),
{
    let mapping = Doc::Mapping(entries);
    assert(mapping.wf());
    assert(mapping->Mapping_0 == entries);
}

} // verus!
