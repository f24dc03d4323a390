//! The order in which the keys of a map are kept: the lexicographic order of
//! their UTF-8 bytes.

use vstd::prelude::*;
use vstd::utf8::*;

verus! {

/// The two byte strings are equal on their first `k` bytes.
pub open spec fn agree_before(a: Seq<u8>, b: Seq<u8>, k: int) -> bool {
    &&& 0 <= k <= a.len()
    &&& k <= b.len()
    &&& forall|j: int| 0 <= j < k ==> a[j] == b[j]
}

/// `a` and `b` agree before position `k`, where `a` ends or has the smaller byte.
pub open spec fn precedes_at(a: Seq<u8>, b: Seq<u8>, k: int) -> bool {
    &&& agree_before(a, b, k)
    &&& k < b.len()
    &&& (k == a.len() || a[k] < b[k])
}

/// `a` comes strictly before `b` in lexicographic byte order: `a` is a proper
/// prefix of `b`, or `a` has the smaller byte where the two first differ.
pub open spec fn precedes(a: Seq<u8>, b: Seq<u8>) -> bool {
    exists|k: int| precedes_at(a, b, k)
}

/// The key `a` comes strictly before the key `b`: the order of their UTF-8 bytes.
pub open spec fn key_precedes(a: Seq<char>, b: Seq<char>) -> bool {
    precedes(encode_utf8(a), encode_utf8(b))
}

/// How one key stands to another.
#[derive(Clone, Copy, Debug, PartialEq, Eq, Structural)]
pub enum KeyOrder {
    Before,
    Same,
    After,
}

/// No byte string comes before itself.
pub proof fn lemma_precedes_irreflexive(a: Seq<u8>)
    ensures
        !precedes(a, a),
{
}

/// The byte order is transitive.
pub proof fn lemma_precedes_transitive(a: Seq<u8>, b: Seq<u8>, c: Seq<u8>)
    requires
        precedes(a, b),
        precedes(b, c),
    ensures
        precedes(a, c),
{
    let i = choose|k: int| precedes_at(a, b, k);
    let j = choose|k: int| precedes_at(b, c, k);
    let k = if i <= j { i } else { j };
    assert(precedes_at(a, c, k));
}

/// Two byte strings that agree before `k` are equal, or one comes before the other.
proof fn lemma_total_from(a: Seq<u8>, b: Seq<u8>, k: int)
    requires
        agree_before(a, b, k),
    ensures
        precedes(a, b) || a == b || precedes(b, a),
    decreases a.len() - k,
{
    if k == a.len() {
        if k == b.len() {
            assert(a =~= b);
        } else {
            assert(precedes_at(a, b, k));
        }
    } else if k == b.len() {
        assert(agree_before(b, a, k));
        assert(precedes_at(b, a, k));
    } else if a[k] < b[k] {
        assert(precedes_at(a, b, k));
    } else if b[k] < a[k] {
        assert(agree_before(b, a, k));
        assert(precedes_at(b, a, k));
    } else {
        lemma_total_from(a, b, k + 1);
    }
}

/// The byte order is total: of two different byte strings one comes first.
pub proof fn lemma_precedes_total(a: Seq<u8>, b: Seq<u8>)
    ensures
        precedes(a, b) || a == b || precedes(b, a),
{
    lemma_total_from(a, b, 0);
}

/// Of two byte strings at most one comes before the other.
pub proof fn lemma_precedes_asymmetric(a: Seq<u8>, b: Seq<u8>)
    requires
        precedes(a, b),
    ensures
        !precedes(b, a),
        a != b,
{
    lemma_precedes_irreflexive(a);
    if precedes(b, a) {
        lemma_precedes_transitive(a, b, a);
    }
}

/// Different keys have different UTF-8 bytes.
pub proof fn lemma_key_bytes_injective(a: Seq<char>, b: Seq<char>)
    requires
        encode_utf8(a) == encode_utf8(b),
    ensures
        a == b,
{
    encode_utf8_decode_utf8(a);
    encode_utf8_decode_utf8(b);
}

/// The key order is a strict total order: exactly one of "before", "same"
/// and "after" holds of any two keys.
pub proof fn lemma_key_order_strict_total(a: Seq<char>, b: Seq<char>)
    ensures
        key_precedes(a, b) || a == b || key_precedes(b, a),
        !(key_precedes(a, b) && key_precedes(b, a)),
        !key_precedes(a, a),
{
    lemma_precedes_total(encode_utf8(a), encode_utf8(b));
    if encode_utf8(a) == encode_utf8(b) {
        lemma_key_bytes_injective(a, b);
    }
    if key_precedes(a, b) {
        lemma_precedes_asymmetric(encode_utf8(a), encode_utf8(b));
    }
    lemma_precedes_irreflexive(encode_utf8(a));
}

/// The key order is transitive.
pub proof fn lemma_key_order_transitive(a: Seq<char>, b: Seq<char>, c: Seq<char>)
    requires
        key_precedes(a, b),
        key_precedes(b, c),
    ensures
        key_precedes(a, c),
{
    lemma_precedes_transitive(encode_utf8(a), encode_utf8(b), encode_utf8(c));
}

/// Orders two byte strings lexicographically.
pub fn byte_order(a: &[u8], b: &[u8]) -> (r: KeyOrder)
    ensures
        r == KeyOrder::Before <==> precedes(a@, b@),
        r == KeyOrder::Same <==> a@ == b@,
        r == KeyOrder::After <==> precedes(b@, a@),
{
    let mut k: usize = 0;
    while k < a.len() && k < b.len() && a[k] == b[k]
        invariant
            agree_before(a@, b@, k as int),
        decreases a.len() - k,
    {
        k = k + 1;
    }
    let r = if k == a.len() {
        if k == b.len() {
            assert(a@ =~= b@);
            KeyOrder::Same
        } else {
            assert(precedes_at(a@, b@, k as int));
            KeyOrder::Before
        }
    } else if k == b.len() || b[k] < a[k] {
        assert(agree_before(b@, a@, k as int));
        assert(precedes_at(b@, a@, k as int));
        KeyOrder::After
    } else {
        assert(precedes_at(a@, b@, k as int));
        KeyOrder::Before
    };
    proof {
        lemma_precedes_irreflexive(a@);
        if precedes(a@, b@) {
            lemma_precedes_asymmetric(a@, b@);
        }
        if precedes(b@, a@) {
            lemma_precedes_asymmetric(b@, a@);
        }
    }
    r
}

/// Orders two keys by their UTF-8 bytes.
pub fn key_order(a: &str, b: &str) -> (r: KeyOrder)
    ensures
        r == KeyOrder::Before <==> key_precedes(a@, b@),
        r == KeyOrder::Same <==> a@ == b@,
        r == KeyOrder::After <==> key_precedes(b@, a@),
{
    proof {
        lemma_key_order_strict_total(a@, b@);
        lemma_key_order_strict_total(b@, a@);
    }
    byte_order(a.as_bytes(), b.as_bytes())
}

} // verus!
