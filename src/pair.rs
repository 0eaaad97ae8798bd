//! The (value, key) record and its total order.

use std::cmp::Ordering;
use vstd::prelude::*;
use vstd::utf8::encode_utf8;

verus! {

/// Lexicographic order on byte strings; a proper prefix comes first.
pub open spec fn bytes_cmp(a: Seq<u8>, b: Seq<u8>) -> Ordering
    decreases a.len(),
{
    if a.len() == 0 {
        if b.len() == 0 {
            Ordering::Equal
        } else {
            Ordering::Less
        }
    } else if b.len() == 0 {
        Ordering::Greater
    } else if a[0] < b[0] {
        Ordering::Less
    } else if a[0] > b[0] {
        Ordering::Greater
    } else {
        bytes_cmp(a.drop_first(), b.drop_first())
    }
}

/// Order of keys: lexicographic on their UTF-8 bytes, which is also the
/// order of their code points.
pub open spec fn key_cmp(a: Seq<char>, b: Seq<char>) -> Ordering {
    bytes_cmp(encode_utf8(a), encode_utf8(b))
}

/// The natural order of pairs: by value, then by key.
pub open spec fn pair_cmp(a: (u64, Seq<char>), b: (u64, Seq<char>)) -> Ordering {
    if a.0 < b.0 {
        Ordering::Less
    } else if a.0 > b.0 {
        Ordering::Greater
    } else {
        key_cmp(a.1, b.1)
    }
}

/// `a` comes no later than `b` in the natural order.
pub open spec fn pair_le(a: (u64, Seq<char>), b: (u64, Seq<char>)) -> bool {
    pair_cmp(a, b) != Ordering::Greater
}

proof fn lemma_bytes_cmp_antisym(a: Seq<u8>, b: Seq<u8>)
    ensures
        (bytes_cmp(a, b) == Ordering::Less) <==> (bytes_cmp(b, a) == Ordering::Greater),
        (bytes_cmp(a, b) == Ordering::Equal) <==> (a == b),
    decreases a.len(),
{
    if a.len() == 0 || b.len() == 0 {
        if a.len() == 0 && b.len() == 0 {
            assert(a =~= b);
        }
    } else if a[0] == b[0] {
        lemma_bytes_cmp_antisym(a.drop_first(), b.drop_first());
        if a.drop_first() =~= b.drop_first() {
            assert(a =~= seq![a[0]] + a.drop_first());
            assert(b =~= seq![b[0]] + b.drop_first());
        }
        if a == b {
            assert(a.drop_first() =~= b.drop_first());
        }
    }
}

proof fn lemma_bytes_cmp_trans(a: Seq<u8>, b: Seq<u8>, c: Seq<u8>)
    requires
        bytes_cmp(a, b) != Ordering::Greater,
        bytes_cmp(b, c) != Ordering::Greater,
    ensures
        bytes_cmp(a, c) != Ordering::Greater,
    decreases a.len(),
{
    if a.len() > 0 && b.len() > 0 && c.len() > 0 && a[0] == b[0] && b[0] == c[0] {
        lemma_bytes_cmp_trans(a.drop_first(), b.drop_first(), c.drop_first());
    }
}

/// Key order is antisymmetric, and only equal keys compare equal.
pub proof fn lemma_key_cmp_antisym(a: Seq<char>, b: Seq<char>)
    ensures
        (key_cmp(a, b) == Ordering::Less) <==> (key_cmp(b, a) == Ordering::Greater),
        (key_cmp(a, b) == Ordering::Equal) <==> (a == b),
{
    lemma_bytes_cmp_antisym(encode_utf8(a), encode_utf8(b));
    vstd::utf8::encode_utf8_decode_utf8(a);
    vstd::utf8::encode_utf8_decode_utf8(b);
}

/// The natural order of pairs is a total order.
pub proof fn lemma_pair_order(a: (u64, Seq<char>), b: (u64, Seq<char>), c: (u64, Seq<char>))
    ensures
        (pair_cmp(a, b) == Ordering::Less) <==> (pair_cmp(b, a) == Ordering::Greater),
        (pair_cmp(a, b) == Ordering::Equal) <==> (a == b),
        pair_le(a, b) || pair_le(b, a),
        pair_le(a, b) && pair_le(b, c) ==> pair_le(a, c),
{
    lemma_key_cmp_antisym(a.1, b.1);
    lemma_key_cmp_antisym(b.1, a.1);
    if pair_le(a, b) && pair_le(b, c) && a.0 == b.0 && b.0 == c.0 {
        lemma_bytes_cmp_trans(encode_utf8(a.1), encode_utf8(b.1), encode_utf8(c.1));
    }
}

/// Compares two byte strings lexicographically.
fn compare_bytes(a: &[u8], b: &[u8]) -> (r: Ordering)
    ensures
        r == bytes_cmp(a@, b@),
{
    let mut i: usize = 0;
    assert(a@.subrange(0, a@.len() as int) =~= a@);
    assert(b@.subrange(0, b@.len() as int) =~= b@);
    while i < a.len() && i < b.len()
        invariant
            i <= a@.len(),
            i <= b@.len(),
            bytes_cmp(a@, b@) == bytes_cmp(
                a@.subrange(i as int, a@.len() as int),
                b@.subrange(i as int, b@.len() as int),
            ),
        decreases a@.len() - i,
    {
        let x = a[i];
        let y = b[i];
        let ghost ra = a@.subrange(i as int, a@.len() as int);
        let ghost rb = b@.subrange(i as int, b@.len() as int);
        assert(ra[0] == x && rb[0] == y);
        if x < y {
            return Ordering::Less;
        }
        if x > y {
            return Ordering::Greater;
        }
        assert(ra.drop_first() =~= a@.subrange(i + 1, a@.len() as int));
        assert(rb.drop_first() =~= b@.subrange(i + 1, b@.len() as int));
        i = i + 1;
    }
    let ghost ra = a@.subrange(i as int, a@.len() as int);
    let ghost rb = b@.subrange(i as int, b@.len() as int);
    if a.len() == b.len() {
        assert(ra.len() == 0 && rb.len() == 0);
        Ordering::Equal
    } else if a.len() < b.len() {
        assert(ra.len() == 0 && rb.len() > 0);
        Ordering::Less
    } else {
        assert(ra.len() > 0 && rb.len() == 0);
        Ordering::Greater
    }
}

/// Compares two keys in key order.
pub fn compare_keys(a: &str, b: &str) -> (r: Ordering)
    ensures
        r == key_cmp(a@, b@),
{
    compare_bytes(a.as_bytes(), b.as_bytes())
}

/// Key order is transitive.
pub proof fn lemma_key_cmp_trans(a: Seq<char>, b: Seq<char>, c: Seq<char>)
    requires
        key_cmp(a, b) == Ordering::Less,
        key_cmp(b, c) == Ordering::Less,
    ensures
        key_cmp(a, c) == Ordering::Less,
{
    lemma_bytes_cmp_trans(encode_utf8(a), encode_utf8(b), encode_utf8(c));
    lemma_key_cmp_antisym(a, b);
    lemma_key_cmp_antisym(b, c);
    lemma_key_cmp_antisym(a, c);
    if key_cmp(a, c) == Ordering::Equal {
        assert(a == c);
        lemma_key_cmp_antisym(b, a);
    }
}

/// A key with its count or weight. The derived `PartialOrd` and `Ord`
/// compare the fields in order, value then key, as `cmp` does.
#[derive(Debug, Eq, PartialOrd, Ord)]
pub struct Pair {
    value: u64,
    key: String,
}

impl View for Pair {
    type V = (u64, Seq<char>);

    closed spec fn view(&self) -> (u64, Seq<char>) {
        (self.value, self.key@)
    }
}

impl Pair {
    pub fn new(value: u64, key: &str) -> (r: Pair)
        ensures
            r@ == (value, key@),
    {
        Pair { value, key: key.to_owned() }
    }

    pub fn value(&self) -> (r: u64)
        ensures
            r == self@.0,
    {
        self.value
    }

    pub fn key(&self) -> (r: &str)
        ensures
            r@ == self@.1,
    {
        self.key.as_str()
    }

    /// A copy of this pair.
    pub fn duplicate(&self) -> (r: Pair)
        ensures
            r@ == self@,
    {
        Pair::new(self.value, self.key.as_str())
    }

    /// The natural order: by value, then by key.
    pub fn cmp(&self, other: &Pair) -> (r: Ordering)
        ensures
            r == pair_cmp(self@, other@),
    {
        if self.value < other.value {
            Ordering::Less
        } else if self.value > other.value {
            Ordering::Greater
        } else {
            compare_keys(self.key.as_str(), other.key.as_str())
        }
    }
}

impl PartialEq for Pair {
    fn eq(&self, other: &Pair) -> (r: bool)
        ensures
            r == (self@ == other@),
    {
        self.value == other.value && self.key == other.key
    }
}

impl vstd::std_specs::cmp::PartialEqSpecImpl for Pair {
    open spec fn obeys_eq_spec() -> bool {
        true
    }

    open spec fn eq_spec(&self, other: &Pair) -> bool {
        self@ == other@
    }
}

} // verus!
