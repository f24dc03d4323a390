//! The canonical digest of a document.
//!
//! A document is hashed by feeding SHA-256 a byte string that is built from
//! the document's content alone: a one-byte tag for the kind of value, then
//! the value's bytes, or for a map or a list the digests of what it holds.
//! The entries of a map are fed in the ascending order of their keys, so the
//! digest does not depend on the order in which the map was filled.

use sha2::{Digest, Sha256};
use vstd::prelude::*;
use vstd::utf8::encode_utf8;
use crate::field::{copy_bytes, list_view, Field};
use crate::order::lemma_key_bytes_injective;
use crate::doc::{
    insert_entry, keys_ascending, law_insert_order, lemma_entries_canonical, to_map, Doc, Entries,
};

verus! {

/// The tag of a map: the letter `m`.
pub const TAG_MAPPING: u8 = 0x6d;

/// The tag of a text: the letter `s`.
pub const TAG_STRING: u8 = 0x73;

/// The tag of a signed integer: the letter `i`.
pub const TAG_SIGNED: u8 = 0x69;

/// The tag of an unsigned integer: the letter `u`.
pub const TAG_UNSIGNED: u8 = 0x75;

/// The tag of a boolean: the letter `b`.
pub const TAG_BOOL: u8 = 0x62;

/// The tag of a byte string: the letter `x`.
pub const TAG_BYTES: u8 = 0x78;

/// The tag of a list: the letter `a`.
pub const TAG_LIST: u8 = 0x61;

/// The number of bytes in a digest.
pub const DIGEST_LEN: usize = 32;

/// The SHA-256 digest of a byte string.
pub uninterp spec fn sha256(data: Seq<u8>) -> Seq<u8>;

/// The one-byte tag that tells the kinds of value apart.
pub open spec fn tag(v: Doc) -> u8 {
    match v {
        Doc::Mapping(_) => TAG_MAPPING,
        Doc::String(_) => TAG_STRING,
        Doc::SignedInt(_) => TAG_SIGNED,
        Doc::UnsignedInt(_) => TAG_UNSIGNED,
        Doc::Bool(_) => TAG_BOOL,
        Doc::Bytes(_) => TAG_BYTES,
        Doc::List(_) => TAG_LIST,
    }
}

/// The eight bytes of a 64-bit number, the most significant first: the
/// digits of the number to the base 256.
pub open spec fn be_bytes(n: u64) -> Seq<u8> {
    seq![
        (n / 0x100_0000_0000_0000) as u8,
        (n / 0x1_0000_0000_0000 % 256) as u8,
        (n / 0x100_0000_0000 % 256) as u8,
        (n / 0x1_0000_0000 % 256) as u8,
        (n / 0x100_0000 % 256) as u8,
        (n / 0x1_0000 % 256) as u8,
        (n / 0x100 % 256) as u8,
        (n % 256) as u8,
    ]
}

/// The 64 bits of a signed integer in two's complement, as an unsigned
/// integer: the integer itself from zero on, and 2^64 more than it below zero.
pub open spec fn twos_complement(n: i64) -> u64 {
    if n >= 0 {
        n as u64
    } else {
        (n + 0x1_0000_0000_0000_0000) as u64
    }
}

/// What one entry of a map feeds the hash: the tag of a text, the bytes of the
/// key, the tag of the value and the digest of the value.
pub open spec fn entry_bytes(key: Seq<char>, value_tag: u8, value_digest: Seq<u8>) -> Seq<u8> {
    seq![TAG_STRING] + encode_utf8(key) + seq![value_tag] + value_digest
}

/// What the first `n` entries of a map feed the hash, in their order.
pub open spec fn entries_bytes(entries: Entries, n: nat) -> Seq<u8>
    decreases entries, n,
{
    if 0 < n <= entries.len() {
        let entry = entries[n - 1];
        entries_bytes(entries, (n - 1) as nat) + entry_bytes(
            entry.0,
            tag(entry.1),
            digest(entry.1),
        )
    } else {
        Seq::empty()
    }
}

/// The digests of the first `n` items of a list, one after the other.
pub open spec fn items_bytes(items: Seq<Doc>, n: nat) -> Seq<u8>
    decreases items, n,
{
    if 0 < n <= items.len() {
        items_bytes(items, (n - 1) as nat) + digest(items[n - 1])
    } else {
        Seq::empty()
    }
}

/// The byte string that is hashed for a value.
///
/// A map feeds its entries and no tag of its own; a list feeds its tag and
/// the digests of its items, without their tags.
pub open spec fn preimage(v: Doc) -> Seq<u8>
    decreases v, 0nat,
{
    match v {
        Doc::Mapping(entries) => entries_bytes(entries, entries.len()),
        Doc::String(s) => seq![TAG_STRING] + encode_utf8(s),
        Doc::SignedInt(n) => seq![TAG_SIGNED] + be_bytes(twos_complement(n)),
        Doc::UnsignedInt(n) => seq![TAG_UNSIGNED] + be_bytes(n),
        Doc::Bool(b) => seq![TAG_BOOL, if b { 1u8 } else { 0u8 }],
        Doc::Bytes(b) => seq![TAG_BYTES] + b,
        Doc::List(items) => seq![TAG_LIST] + items_bytes(items, items.len()),
    }
}

/// The digest of a value: the SHA-256 digest of its preimage.
pub open spec fn digest(v: Doc) -> Seq<u8>
    decreases v, 1nat,
{
    sha256(preimage(v))
}

/// The digest of a document.
#[derive(Debug, PartialEq, Eq)]
pub struct Hash {
    bytes: Vec<u8>,
}

impl View for Hash {
    type V = Seq<u8>;

    closed spec fn view(&self) -> Seq<u8> {
        self.bytes@
    }
}

impl Clone for Hash {
    /// A copy of the digest.
    fn clone(&self) -> (copy: Hash)
        ensures
            copy@ == self@,
    {
        proof {
            use_type_invariant(self);
        }
        let bytes = copy_bytes(&self.bytes);
        Hash { bytes }
    }
}

impl Hash {
    /// A digest has 32 bytes.
    #[verifier::type_invariant]
    closed spec fn wf(&self) -> bool {
        self.bytes@.len() == DIGEST_LEN
    }
}

/// `sha2::Sha256::digest`, the `Digest::digest` of the crate `digest`, which
/// feeds a new hasher the data and finalizes it. The result is the SHA-256
/// digest of the data, which has 32 bytes.
#[verifier::external_body]
fn sha256_digest(data: &[u8]) -> (out: Vec<u8>)
    ensures
        out@ == sha256(data@),
        out@.len() == DIGEST_LEN,
{
    Sha256::digest(data).to_vec()
}

/// Appends `bytes` to `buf`.
fn append_bytes(buf: &mut Vec<u8>, bytes: &[u8])
    ensures
        final(buf)@ == old(buf)@ + bytes@,
{
    let mut i: usize = 0;
    while i < bytes.len()
        invariant
            i <= bytes.len(),
            buf@ == old(buf)@ + bytes@.take(i as int),
        decreases bytes.len() - i,
    {
        buf.push(bytes[i]);
        assert(bytes@.take(i + 1) =~= bytes@.take(i as int).push(bytes@[i as int]));
        i = i + 1;
    }
    assert(bytes@.take(i as int) =~= bytes@);
}

/// The 64 bits of `n` in two's complement.
fn twos_complement_of(n: i64) -> (bits: u64)
    ensures
        bits == twos_complement(n),
{
    if n >= 0 {
        n as u64
    } else {
        // The distance of `n` from -1 is below 2^63, and 2^64 - 1 less that
        // distance is `n` + 2^64.
        0xffff_ffff_ffff_ffff - ((-1 - n) as u64)
    }
}

/// Appends the eight bytes of `n` to `buf`, the most significant first.
fn append_be_bytes(buf: &mut Vec<u8>, n: u64)
    ensures
        final(buf)@ == old(buf)@ + be_bytes(n),
{
    assert((n >> 56) & 0xff == n / 0x100_0000_0000_0000) by (bit_vector);
    assert((n >> 48) & 0xff == n / 0x1_0000_0000_0000 % 256) by (bit_vector);
    assert((n >> 40) & 0xff == n / 0x100_0000_0000 % 256) by (bit_vector);
    assert((n >> 32) & 0xff == n / 0x1_0000_0000 % 256) by (bit_vector);
    assert((n >> 24) & 0xff == n / 0x100_0000 % 256) by (bit_vector);
    assert((n >> 16) & 0xff == n / 0x1_0000 % 256) by (bit_vector);
    assert((n >> 8) & 0xff == n / 0x100 % 256) by (bit_vector);
    assert(n & 0xff == n % 256) by (bit_vector);
    buf.push(((n >> 56) & 0xff) as u8);
    buf.push(((n >> 48) & 0xff) as u8);
    buf.push(((n >> 40) & 0xff) as u8);
    buf.push(((n >> 32) & 0xff) as u8);
    buf.push(((n >> 24) & 0xff) as u8);
    buf.push(((n >> 16) & 0xff) as u8);
    buf.push(((n >> 8) & 0xff) as u8);
    buf.push((n & 0xff) as u8);
    assert(buf@ =~= old(buf)@ + be_bytes(n));
}

/// The lowercase hexadecimal digit of a number below 16.
pub open spec fn hex_digit(n: int) -> char {
    seq!['0', '1', '2', '3', '4', '5', '6', '7', '8', '9', 'a', 'b', 'c', 'd', 'e', 'f'][n]
}

/// Bytes as lowercase hexadecimal text: two digits for each byte, the high
/// half first, with nothing before, between or after them.
pub open spec fn hex_text(bytes: Seq<u8>) -> Seq<char> {
    Seq::new(
        2 * bytes.len(),
        |i: int|
            if i % 2 == 0 {
                hex_digit(bytes[i / 2] as int / 16)
            } else {
                hex_digit(bytes[i / 2] as int % 16)
            },
    )
}

/// `String::push` of std appends the character to the end of the string.
pub assume_specification[ std::string::String::push ](s: &mut std::string::String, c: char)
    ensures
        final(s)@ == old(s)@.push(c),
;

/// The lowercase hexadecimal digit of `n`.
fn hex_char(n: u8) -> (c: char)
    requires
        n < 16,
    ensures
        c == hex_digit(n as int),
{
    match n {
        0 => '0',
        1 => '1',
        2 => '2',
        3 => '3',
        4 => '4',
        5 => '5',
        6 => '6',
        7 => '7',
        8 => '8',
        9 => '9',
        10 => 'a',
        11 => 'b',
        12 => 'c',
        13 => 'd',
        14 => 'e',
        _ => 'f',
    }
}

impl Hash {
    /// The digest as lowercase hexadecimal text, two characters for each byte.
    pub fn to_hex(&self) -> (text: String)
        ensures
            text@ == hex_text(self@),
            text@.len() == 2 * DIGEST_LEN,
    {
        proof {
            use_type_invariant(self);
        }
        let mut text = String::new();
        let mut i: usize = 0;
        while i < self.bytes.len()
            invariant
                i <= self.bytes.len(),
                text@.len() == 2 * i,
                forall|j: int| 0 <= j < 2 * i ==> text@[j] == hex_text(self@)[j],
            decreases self.bytes.len() - i,
        {
            let byte = self.bytes[i];
            text.push(hex_char(byte / 16));
            text.push(hex_char(byte % 16));
            i = i + 1;
        }
        assert(text@ =~= hex_text(self@));
        text
    }

    /// The 32 bytes of the digest.
    pub fn as_bytes(&self) -> (bytes: &[u8])
        ensures
            bytes@ == self@,
            bytes@.len() == DIGEST_LEN,
    {
        proof {
            use_type_invariant(self);
        }
        self.bytes.as_slice()
    }
}

impl Field {
    /// The one-byte tag of the document's kind.
    pub fn key_prefix(&self) -> (t: u8)
        ensures
            t == tag(self@),
    {
        match self {
            Field::Mapping(_) => TAG_MAPPING,
            Field::String(_) => TAG_STRING,
            Field::Int64(_) => TAG_SIGNED,
            Field::Uint64(_) => TAG_UNSIGNED,
            Field::Bool(_) => TAG_BOOL,
            Field::Bytes(_) => TAG_BYTES,
            Field::Array(_) => TAG_LIST,
        }
    }

    /// The canonical digest of the document.
    #[verifier::loop_isolation(false)]
    pub fn hash(&self) -> (h: Hash)
        ensures
            h@ == digest(self@),
            h@.len() == DIGEST_LEN,
        decreases self,
    {
        let mut buf: Vec<u8> = Vec::new();
        match self {
            Field::Mapping(m) => {
                let n = m.len();
                let ghost entries = m.entries();
                let mut i: usize = 0;
                while i < n
                    invariant
                        i <= n,
                        n == entries.len(),
                        buf@ == entries_bytes(entries, i as nat),
                    decreases n - i,
                {
                    let key = m.key_at(i);
                    let value = m.value_at(i);
                    let inner = value.hash();
                    let ghost fed = buf@;
                    buf.push(TAG_STRING);
                    append_bytes(&mut buf, key.as_bytes());
                    buf.push(value.key_prefix());
                    append_bytes(&mut buf, inner.as_bytes());
                    assert(buf@ =~= fed + entry_bytes(key@, tag(value@), inner@));
                    i = i + 1;
                }
                assert(buf@ == preimage(self@));
            },
            Field::String(s) => {
                buf.push(TAG_STRING);
                append_bytes(&mut buf, s.as_str().as_bytes());
                assert(buf@ =~= preimage(self@));
            },
            Field::Int64(n) => {
                buf.push(TAG_SIGNED);
                append_be_bytes(&mut buf, twos_complement_of(*n));
                assert(buf@ =~= preimage(self@));
            },
            Field::Uint64(n) => {
                buf.push(TAG_UNSIGNED);
                append_be_bytes(&mut buf, *n);
                assert(buf@ =~= preimage(self@));
            },
            Field::Bool(b) => {
                buf.push(TAG_BOOL);
                buf.push(if *b { 1 } else { 0 });
                assert(buf@ =~= preimage(self@));
            },
            Field::Bytes(b) => {
                buf.push(TAG_BYTES);
                append_bytes(&mut buf, b.as_slice());
                assert(buf@ =~= preimage(self@));
            },
            Field::Array(a) => {
                buf.push(TAG_LIST);
                let ghost items = list_view(*a);
                let mut i: usize = 0;
                while i < a.len()
                    invariant
                        i <= a.len(),
                        buf@ == seq![TAG_LIST] + items_bytes(items, i as nat),
                    decreases a.len() - i,
                {
                    let inner = a[i].hash();
                    let ghost fed = buf@;
                    append_bytes(&mut buf, inner.as_bytes());
                    assert(items[i as int] == a[i as int]@);
                    assert(buf@ =~= seq![TAG_LIST] + (items_bytes(items, i as nat) + inner@));
                    i = i + 1;
                }
                assert(buf@ == preimage(self@));
            },
        }
        let bytes = sha256_digest(buf.as_slice());
        Hash { bytes }
    }
}

/// Two maps with ascending keys that bind the same keys to the same values
/// have the same entries, hence the same digest: the digest of a map does not
/// depend on the order in which it was filled.
pub proof fn law_map_digest_by_content(a: Entries, b: Entries)
    requires
        keys_ascending(a),
        keys_ascending(b),
        to_map(a) == to_map(b),
    ensures
        Doc::Mapping(a) == Doc::Mapping(b),
        digest(Doc::Mapping(a)) == digest(Doc::Mapping(b)),
{
    lemma_entries_canonical(a, b);
}

/// Documents that stand for the same value have the same digest: nothing but
/// the value goes into it.
pub proof fn law_digest_stable(a: Field, b: Field)
    requires
        a@ == b@,
    ensures
        digest(a@) == digest(b@),
{
}

/// What is hashed for a value that is no map starts with the value's tag, so
/// two such values of different kinds are never hashed from the same bytes.
pub proof fn law_kinds_separate(a: Doc, b: Doc)
    requires
        !(a is Mapping),
        !(b is Mapping),
        tag(a) != tag(b),
    ensures
        preimage(a)[0] == tag(a),
        preimage(b)[0] == tag(b),
        preimage(a) != preimage(b),
{
}

/// A map to which the same keys were bound in another order has the same digest.
pub proof fn law_digest_ignores_insertion_order(
    entries: Entries,
    first_key: Seq<char>,
    first_value: Doc,
    second_key: Seq<char>,
    second_value: Doc,
)
    requires
        keys_ascending(entries),
        first_key != second_key,
    ensures
        digest(
            Doc::Mapping(
                insert_entry(
                    insert_entry(entries, first_key, first_value),
                    second_key,
                    second_value,
                ),
            ),
        ) == digest(
            Doc::Mapping(
                insert_entry(
                    insert_entry(entries, second_key, second_value),
                    first_key,
                    first_value,
                ),
            ),
        ),
{
    law_insert_order(entries, first_key, first_value, second_key, second_value);
}

/// The eight bytes tell the number: no two numbers have the same bytes.
pub proof fn lemma_be_bytes_injective(n: u64, m: u64)
    requires
        be_bytes(n) == be_bytes(m),
    ensures
        n == m,
{
    let a = be_bytes(n);
    let b = be_bytes(m);
    assert(a[0] == b[0] && a[1] == b[1] && a[2] == b[2] && a[3] == b[3]);
    assert(a[4] == b[4] && a[5] == b[5] && a[6] == b[6] && a[7] == b[7]);
    assert((n / 0x100_0000_0000_0000) as u8 == (m / 0x100_0000_0000_0000) as u8
        && (n / 0x1_0000_0000_0000 % 256) as u8 == (m / 0x1_0000_0000_0000 % 256) as u8
        && (n / 0x100_0000_0000 % 256) as u8 == (m / 0x100_0000_0000 % 256) as u8
        && (n / 0x1_0000_0000 % 256) as u8 == (m / 0x1_0000_0000 % 256) as u8
        && (n / 0x100_0000 % 256) as u8 == (m / 0x100_0000 % 256) as u8
        && (n / 0x1_0000 % 256) as u8 == (m / 0x1_0000 % 256) as u8
        && (n / 0x100 % 256) as u8 == (m / 0x100 % 256) as u8
        && (n % 256) as u8 == (m % 256) as u8 ==> n == m) by (bit_vector);
}

/// What is hashed for a value that holds no other values tells the value:
/// two such values that are hashed from the same bytes are the same value.
pub proof fn law_scalar_preimage_injective(a: Doc, b: Doc)
    requires
        !(a is Mapping) && !(a is List),
        !(b is Mapping) && !(b is List),
        preimage(a) == preimage(b),
    ensures
        a == b,
{
    let pa = preimage(a);
    let pb = preimage(b);
    assert(pa[0] == tag(a) && pb[0] == tag(b));
    assert(pa.subrange(1, pa.len() as int) == pb.subrange(1, pb.len() as int));
    match (a, b) {
        (Doc::String(x), Doc::String(y)) => {
            assert(pa.subrange(1, pa.len() as int) =~= encode_utf8(x));
            assert(pb.subrange(1, pb.len() as int) =~= encode_utf8(y));
            lemma_key_bytes_injective(x, y);
        },
        (Doc::SignedInt(x), Doc::SignedInt(y)) => {
            assert(pa.subrange(1, pa.len() as int) =~= be_bytes(twos_complement(x)));
            assert(pb.subrange(1, pb.len() as int) =~= be_bytes(twos_complement(y)));
            lemma_be_bytes_injective(twos_complement(x), twos_complement(y));
        },
        (Doc::UnsignedInt(x), Doc::UnsignedInt(y)) => {
            assert(pa.subrange(1, pa.len() as int) =~= be_bytes(x));
            assert(pb.subrange(1, pb.len() as int) =~= be_bytes(y));
            lemma_be_bytes_injective(x, y);
        },
        (Doc::Bool(x), Doc::Bool(y)) => {
            assert(pa[1] == pb[1]);
        },
        (Doc::Bytes(x), Doc::Bytes(y)) => {
            assert(pa.subrange(1, pa.len() as int) =~= x);
            assert(pb.subrange(1, pb.len() as int) =~= y);
        },
        _ => {},
    }
}

} // verus!
