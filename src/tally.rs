//! Counting keys: one pair per distinct key, holding how often it occurs.

use crate::histogram::sum_values;
use crate::pair::{compare_keys, key_cmp, lemma_key_cmp_antisym, lemma_key_cmp_trans, Pair};
use crate::rank::views;
use std::cmp::Ordering;
use vstd::prelude::*;

verus! {

/// How often `k` occurs in `s`.
pub open spec fn count_in(s: Seq<Seq<char>>, k: Seq<char>) -> nat
    decreases s.len(),
{
    if s.len() == 0 {
        0
    } else {
        count_in(s.drop_last(), k) + if s.last() == k {
            1nat
        } else {
            0nat
        }
    }
}

/// `out` holds each distinct key of `keys` exactly once, with the number of
/// times it occurs there.
pub open spec fn tallies(keys: Seq<Seq<char>>, out: Seq<(u64, Seq<char>)>) -> bool {
    &&& forall|i: int, j: int| 0 <= i < j < out.len() ==> #[trigger] out[i].1 != #[trigger] out[j].1
    &&& forall|i: int| 0 <= i < out.len() ==> #[trigger] out[i].0 == count_in(keys, out[i].1)
    &&& forall|i: int| 0 <= i < out.len() ==> keys.contains(#[trigger] out[i].1)
    &&& forall|x: Seq<char>| #[trigger] keys.contains(x) ==> exists|i: int| 0 <= i < out.len() && out[i].1 == x
}

/// The views of a sequence of strings.
pub open spec fn texts(s: Seq<String>) -> Seq<Seq<char>> {
    s.map_values(|t: String| t@)
}

proof fn lemma_count_le_len(s: Seq<Seq<char>>, k: Seq<char>)
    ensures
        count_in(s, k) <= s.len(),
    decreases s.len(),
{
    if s.len() > 0 {
        lemma_count_le_len(s.drop_last(), k);
    }
}

/// A key is counted at least once exactly when it occurs.
pub proof fn lemma_count_contains(s: Seq<Seq<char>>, k: Seq<char>)
    ensures
        count_in(s, k) > 0 <==> s.contains(k),
    decreases s.len(),
{
    if s.len() > 0 {
        lemma_count_contains(s.drop_last(), k);
        if s.drop_last().contains(k) {
            let i = choose|i: int| 0 <= i < s.drop_last().len() && s.drop_last()[i] == k;
            assert(s[i] == k);
        }
        if s.contains(k) && s.last() != k {
            let i = choose|i: int| 0 <= i < s.len() && s[i] == k;
            assert(s.drop_last()[i] == k);
        }
        if s.last() == k {
            assert(s[s.len() - 1] == k);
        }
    }
}

/// Strictly increasing in key order.
pub open spec fn increasing(s: Seq<Seq<char>>) -> bool {
    forall|a: int, b: int|
        0 <= a < b < s.len() ==> key_cmp(#[trigger] s[a], #[trigger] s[b]) == Ordering::Less
}

/// Where `key` stands in the increasing `names`, or else where it belongs.
fn search_key(names: &Vec<String>, key: &String) -> (r: Result<usize, usize>)
    requires
        increasing(texts(names@)),
    ensures
        match r {
            Ok(j) => j < names@.len() && names@[j as int]@ == key@,
            Err(j) => {
                &&& j <= names@.len()
                &&& forall|a: int|
                    0 <= a < j ==> key_cmp(#[trigger] names@[a]@, key@) == Ordering::Less
                &&& forall|a: int|
                    j <= a < names@.len() ==> key_cmp(key@, #[trigger] names@[a]@)
                        == Ordering::Less
            },
        },
{
    let ghost ns = texts(names@);
    let mut lo: usize = 0;
    let mut hi: usize = names.len();
    while lo < hi
        invariant
            ns == texts(names@),
            increasing(ns),
            lo <= hi <= names@.len(),
            forall|a: int| 0 <= a < lo ==> key_cmp(#[trigger] names@[a]@, key@) == Ordering::Less,
            forall|a: int|
                hi <= a < names@.len() ==> key_cmp(key@, #[trigger] names@[a]@) == Ordering::Less,
        decreases hi - lo,
    {
        let mid = lo + (hi - lo) / 2;
        let ghost m = names@[mid as int]@;
        assert(ns[mid as int] == m);
        match compare_keys(names[mid].as_str(), key.as_str()) {
            Ordering::Less => {
                proof {
                    assert forall|a: int| 0 <= a < mid + 1 implies key_cmp(
                        #[trigger] names@[a]@,
                        key@,
                    ) == Ordering::Less by {
                        if a < mid {
                            assert(key_cmp(ns[a], ns[mid as int]) == Ordering::Less);
                            lemma_key_cmp_trans(names@[a]@, m, key@);
                        }
                    }
                }
                lo = mid + 1;
            },
            Ordering::Equal => {
                proof {
                    lemma_key_cmp_antisym(m, key@);
                }
                return Ok(mid);
            },
            Ordering::Greater => {
                proof {
                    lemma_key_cmp_antisym(key@, m);
                    assert forall|a: int| mid <= a < names@.len() implies key_cmp(
                        key@,
                        #[trigger] names@[a]@,
                    ) == Ordering::Less by {
                        if a > mid {
                            assert(key_cmp(ns[mid as int], ns[a]) == Ordering::Less);
                            lemma_key_cmp_trans(key@, m, names@[a]@);
                        }
                    }
                }
                hi = mid;
            },
        }
    }
    Err(lo)
}

/// One pair per distinct key of `keys`, with its number of occurrences, in
/// key order.
pub fn count_keys(keys: &Vec<String>) -> (r: Vec<Pair>)
    ensures
        tallies(texts(keys@), views(r@)),
{
    let n = keys.len();
    let ghost ks = texts(keys@);
    let mut names: Vec<String> = Vec::new();
    let mut counts: Vec<u64> = Vec::new();
    let mut i: usize = 0;
    while i < n
        invariant
            n == keys@.len(),
            ks == texts(keys@),
            i <= n,
            names@.len() == counts@.len(),
            increasing(texts(names@)),
            forall|a: int|
                0 <= a < names@.len() ==> #[trigger] counts@[a] == count_in(
                    ks.take(i as int),
                    names@[a]@,
                ),
            forall|a: int| 0 <= a < names@.len() ==> ks.take(i as int).contains(#[trigger] names@[a]@),
            forall|x: Seq<char>|
                #[trigger] ks.take(i as int).contains(x) ==> exists|a: int|
                    0 <= a < names@.len() && names@[a]@ == x,
        decreases n - i,
    {
        let ghost before = ks.take(i as int);
        let ghost after = ks.take(i + 1);
        let ghost key = keys@[i as int]@;
        let ghost old_names = names@;
        let ghost old_counts = counts@;
        assert(after.drop_last() =~= before);
        assert(after.last() == key);
        proof {
            assert forall|x: Seq<char>| #[trigger] after.contains(x) implies before.contains(x) || x
                == key by {
                let t = choose|t: int| 0 <= t < after.len() && after[t] == x;
                if t < before.len() {
                    assert(before[t] == x);
                }
            }
            assert forall|x: Seq<char>| #[trigger] before.contains(x) implies after.contains(x) by {
                let t = choose|t: int| 0 <= t < before.len() && before[t] == x;
                assert(after[t] == x);
            }
            assert(after.contains(key)) by {
                assert(after[i as int] == key);
            }
        }
        match search_key(&names, &keys[i]) {
            Ok(j) => {
                let c = counts[j];
                proof {
                    lemma_count_le_len(before, names@[j as int]@);
                    assert(c < n);
                    assert forall|a: int| 0 <= a < names@.len() && a != j implies #[trigger] names@[a]@
                        != key by {
                        if a < j {
                            assert(key_cmp(texts(names@)[a], texts(names@)[j as int]) == Ordering::Less);
                        } else {
                            assert(key_cmp(texts(names@)[j as int], texts(names@)[a]) == Ordering::Less);
                        }
                        lemma_key_cmp_antisym(names@[a]@, key);
                        lemma_key_cmp_antisym(key, names@[a]@);
                    }
                }
                counts.set(j, c + 1);
                proof {
                    assert forall|x: Seq<char>| #[trigger] after.contains(x) implies exists|a: int|
                        0 <= a < names@.len() && names@[a]@ == x by {
                        if x == key {
                            assert(names@[j as int]@ == x);
                        }
                    }
                }
            },
            Err(j) => {
                proof {
                    assert forall|a: int| 0 <= a < names@.len() implies #[trigger] names@[a]@ != key by {
                        lemma_key_cmp_antisym(names@[a]@, key);
                        lemma_key_cmp_antisym(key, names@[a]@);
                    }
                    lemma_count_contains(before, key);
                    if before.contains(key) {
                        let a = choose|a: int| 0 <= a < names@.len() && names@[a]@ == key;
                        assert(names@[a]@ != key);
                    }
                }
                names.insert(j, keys[i].clone());
                counts.insert(j, 1);
                proof {
                    let ns = texts(names@);
                    assert forall|a: int, b: int| 0 <= a < b < ns.len() implies key_cmp(
                        #[trigger] ns[a],
                        #[trigger] ns[b],
                    ) == Ordering::Less by {
                        let oa = if a < j { a } else { a - 1 };
                        let ob = if b <= j { b } else { b - 1 };
                        if a == j {
                            assert(ns[a] == key);
                            assert(ns[b] == old_names[ob]@);
                        } else if b == j {
                            assert(ns[b] == key);
                            assert(ns[a] == old_names[oa]@);
                        } else {
                            assert(ns[a] == old_names[oa]@);
                            assert(ns[b] == old_names[ob]@);
                            assert(key_cmp(texts(old_names)[oa], texts(old_names)[ob]) == Ordering::Less);
                        }
                    }
                    assert forall|a: int| 0 <= a < names@.len() implies #[trigger] counts@[a]
                        == count_in(after, names@[a]@) by {
                        if a < j {
                            assert(names@[a] == old_names[a]);
                            assert(counts@[a] == old_counts[a]);
                        } else if a > j {
                            assert(names@[a] == old_names[a - 1]);
                            assert(counts@[a] == old_counts[a - 1]);
                        }
                    }
                    assert forall|a: int| 0 <= a < names@.len() implies after.contains(
                        #[trigger] names@[a]@,
                    ) by {
                        if a < j {
                            assert(names@[a] == old_names[a]);
                        } else if a > j {
                            assert(names@[a] == old_names[a - 1]);
                        }
                    }
                    assert forall|x: Seq<char>| #[trigger] after.contains(x) implies exists|a: int|
                        0 <= a < names@.len() && names@[a]@ == x by {
                        if x == key {
                            assert(names@[j as int]@ == x);
                        } else {
                            assert(before.contains(x));
                            let a = choose|a: int| 0 <= a < old_names.len() && old_names[a]@ == x;
                            if a < j {
                                assert(names@[a] == old_names[a]);
                            } else {
                                assert(names@[a + 1] == old_names[a]);
                            }
                        }
                    }
                }
            },
        }
        i = i + 1;
    }
    assert(ks.take(n as int) =~= ks);
    let mut out: Vec<Pair> = Vec::new();
    let mut j: usize = 0;
    while j < names.len()
        invariant
            j <= names@.len(),
            names@.len() == counts@.len(),
            out@.len() == j,
            forall|a: int| 0 <= a < j ==> #[trigger] out@[a]@ == (counts@[a], names@[a]@),
        decreases names@.len() - j,
    {
        out.push(Pair::new(counts[j], names[j].as_str()));
        j = j + 1;
    }
    proof {
        let o = views(out@);
        assert forall|a: int, b: int| 0 <= a < b < o.len() implies #[trigger] o[a].1 != #[trigger] o[b].1 by {
            assert(key_cmp(texts(names@)[a], texts(names@)[b]) == Ordering::Less);
            lemma_key_cmp_antisym(names@[a]@, names@[b]@);
        }
        assert forall|x: Seq<char>| #[trigger] ks.contains(x) implies exists|a: int|
            0 <= a < o.len() && o[a].1 == x by {
            let a = choose|a: int| 0 <= a < names@.len() && names@[a]@ == x;
            assert(o[a].1 == x);
        }
    }
    out
}

/// The keys of a sequence of pairs.
pub open spec fn keys_of(out: Seq<(u64, Seq<char>)>) -> Seq<Seq<char>> {
    out.map_values(|p: (u64, Seq<char>)| p.1)
}

/// Sum, over the keys `o`, of how often each occurs in `keys`.
pub open spec fn key_counts(keys: Seq<Seq<char>>, o: Seq<Seq<char>>) -> nat
    decreases o.len(),
{
    if o.len() == 0 {
        0
    } else {
        key_counts(keys, o.drop_last()) + count_in(keys, o.last())
    }
}

proof fn lemma_key_counts_empty(o: Seq<Seq<char>>)
    ensures
        key_counts(Seq::empty(), o) == 0,
    decreases o.len(),
{
    if o.len() > 0 {
        lemma_key_counts_empty(o.drop_last());
    }
}

proof fn lemma_key_counts_push(keys: Seq<Seq<char>>, x: Seq<char>, o: Seq<Seq<char>>)
    ensures
        key_counts(keys.push(x), o) == key_counts(keys, o) + count_in(o, x),
    decreases o.len(),
{
    assert(keys.push(x).drop_last() =~= keys);
    if o.len() > 0 {
        lemma_key_counts_push(keys, x, o.drop_last());
    }
}

proof fn lemma_count_distinct(o: Seq<Seq<char>>, x: Seq<char>)
    requires
        o.no_duplicates(),
        o.contains(x),
    ensures
        count_in(o, x) == 1,
    decreases o.len(),
{
    let d = o.drop_last();
    assert(d.no_duplicates());
    if o.last() == x {
        if d.contains(x) {
            let i = choose|i: int| 0 <= i < d.len() && d[i] == x;
            assert(o[i] == o[o.len() - 1]);
        }
        lemma_count_contains(d, x);
    } else {
        let i = choose|i: int| 0 <= i < o.len() && o[i] == x;
        assert(d[i] == x);
        lemma_count_distinct(d, x);
    }
}

proof fn lemma_key_counts_cover(keys: Seq<Seq<char>>, o: Seq<Seq<char>>)
    requires
        o.no_duplicates(),
        forall|x: Seq<char>| #[trigger] keys.contains(x) ==> o.contains(x),
    ensures
        key_counts(keys, o) == keys.len(),
    decreases keys.len(),
{
    if keys.len() == 0 {
        lemma_key_counts_empty(o);
        assert(keys =~= Seq::<Seq<char>>::empty());
    } else {
        let ks = keys.drop_last();
        let x = keys.last();
        assert forall|y: Seq<char>| #[trigger] ks.contains(y) implies o.contains(y) by {
            let i = choose|i: int| 0 <= i < ks.len() && ks[i] == y;
            assert(keys[i] == y);
            assert(keys.contains(y));
        }
        lemma_key_counts_cover(ks, o);
        assert(keys.contains(x)) by {
            assert(keys[keys.len() - 1] == x);
        }
        lemma_key_counts_push(ks, x, o);
        lemma_count_distinct(o, x);
        assert(ks.push(x) =~= keys);
    }
}

proof fn lemma_sum_is_key_counts(keys: Seq<Seq<char>>, out: Seq<(u64, Seq<char>)>)
    requires
        forall|i: int| 0 <= i < out.len() ==> #[trigger] out[i].0 == count_in(keys, out[i].1),
    ensures
        sum_values(out) == key_counts(keys, keys_of(out)),
    decreases out.len(),
{
    if out.len() > 0 {
        let d = out.drop_last();
        assert forall|i: int| 0 <= i < d.len() implies #[trigger] d[i].0 == count_in(keys, d[i].1) by {
            assert(d[i] == out[i]);
        }
        lemma_sum_is_key_counts(keys, d);
        assert(keys_of(out).drop_last() =~= keys_of(d));
    }
}

/// The counts of a tally add up to the number of keys counted.
pub proof fn lemma_tally_sum(keys: Seq<Seq<char>>, out: Seq<(u64, Seq<char>)>)
    requires
        tallies(keys, out),
    ensures
        sum_values(out) == keys.len(),
{
    let o = keys_of(out);
    assert forall|i: int, j: int| 0 <= i < o.len() && 0 <= j < o.len() && i != j implies o[i]
        != o[j] by {
        if i < j {
            assert(out[i].1 != out[j].1);
        } else {
            assert(out[j].1 != out[i].1);
        }
    }
    assert forall|x: Seq<char>| #[trigger] keys.contains(x) implies o.contains(x) by {
        let i = choose|i: int| 0 <= i < out.len() && out[i].1 == x;
        assert(o[i] == x);
    }
    lemma_key_counts_cover(keys, o);
    lemma_sum_is_key_counts(keys, out);
}

} // verus!
