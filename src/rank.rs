//! Ranked selection: the heaviest pairs first, ties broken by the larger key.

use crate::pair::{lemma_pair_order, pair_le, Pair};
use std::cmp::Ordering;
use vstd::prelude::*;

verus! {

broadcast use {vstd::seq_lib::group_to_multiset_ensures, vstd::multiset::group_multiset_axioms};

/// The models of a sequence of pairs.
pub open spec fn views(s: Seq<Pair>) -> Seq<(u64, Seq<char>)> {
    s.map_values(|p: Pair| p@)
}

/// Non-increasing in the natural order of pairs: by value, then by key.
pub open spec fn ranked(s: Seq<(u64, Seq<char>)>) -> bool {
    forall|i: int, j: int| 0 <= i < j < s.len() ==> pair_le(#[trigger] s[j], #[trigger] s[i])
}

/// Non-decreasing in the natural order of pairs.
pub open spec fn ascending(s: Seq<(u64, Seq<char>)>) -> bool {
    forall|i: int, j: int| 0 <= i < j < s.len() ==> pair_le(#[trigger] s[i], #[trigger] s[j])
}

/// Two ranked sequences that hold the same entries are the same sequence:
/// ranking does not depend on the order the pairs came in, and ranking a
/// ranked sequence again leaves it as it is.
pub proof fn lemma_ranked_unique(a: Seq<(u64, Seq<char>)>, b: Seq<(u64, Seq<char>)>)
    requires
        ranked(a),
        ranked(b),
        a.to_multiset() == b.to_multiset(),
    ensures
        a == b,
    decreases a.len(),
{
    if a.len() == 0 {
        assert(b.to_multiset().len() == 0);
        assert(b =~= a);
    } else {
        assert(a.to_multiset().len() == a.len());
        assert(b.to_multiset().len() == b.len());
        assert(b.len() > 0);
        assert(a.contains(a[0]));
        assert(b.contains(b[0]));
        assert(a.to_multiset().count(a[0]) > 0);
        assert(b.to_multiset().count(b[0]) > 0);
        assert(b.contains(a[0]));
        assert(a.contains(b[0]));
        let j = choose|j: int| 0 <= j < b.len() && b[j] == a[0];
        let i = choose|i: int| 0 <= i < a.len() && a[i] == b[0];
        if j > 0 {
            assert(pair_le(b[j], b[0]));
        } else {
            lemma_pair_order(a[0], a[0], a[0]);
        }
        if i > 0 {
            assert(pair_le(a[i], a[0]));
        } else {
            lemma_pair_order(b[0], b[0], b[0]);
        }
        lemma_pair_order(a[0], b[0], b[0]);
        lemma_pair_order(b[0], a[0], a[0]);
        assert(a[0] == b[0]);
        assert(a.drop_first() =~= a.remove(0));
        assert(b.drop_first() =~= b.remove(0));
        assert(a.drop_first().to_multiset() == b.drop_first().to_multiset());
        assert forall|x: int, y: int| 0 <= x < y < a.drop_first().len() implies pair_le(
            #[trigger] a.drop_first()[y],
            #[trigger] a.drop_first()[x],
        ) by {
            assert(pair_le(a[y + 1], a[x + 1]));
        }
        assert forall|x: int, y: int| 0 <= x < y < b.drop_first().len() implies pair_le(
            #[trigger] b.drop_first()[y],
            #[trigger] b.drop_first()[x],
        ) by {
            assert(pair_le(b[y + 1], b[x + 1]));
        }
        lemma_ranked_unique(a.drop_first(), b.drop_first());
        assert(a =~= seq![a[0]] + a.drop_first());
        assert(b =~= seq![b[0]] + b.drop_first());
    }
}

/// The pairs in reverse order.
fn reverse_pairs(v: Vec<Pair>) -> (r: Vec<Pair>)
    ensures
        views(r@) == views(v@).reverse(),
{
    let ghost orig = views(v@);
    let ghost n = v@.len();
    let mut v = v;
    let mut r: Vec<Pair> = Vec::new();
    while v.len() > 0
        invariant
            n == orig.len(),
            v@.len() + r@.len() == n,
            views(v@) == orig.take(v@.len() as int),
            forall|i: int| 0 <= i < r@.len() ==> #[trigger] views(r@)[i] == orig[n - 1 - i],
        decreases v@.len(),
    {
        let ghost len = v@.len();
        let ghost old_v = v@;
        let ghost old_r = views(r@);
        match v.pop() {
            Some(p) => {
                assert(p == old_v[len - 1]);
                assert(views(old_v)[len - 1] == orig.take(len as int)[len - 1]);
                r.push(p);
                assert(views(v@) =~= orig.take(v@.len() as int));
                assert(views(r@) =~= old_r.push(p@));
            },
            None => {},
        }
    }
    assert(views(r@) =~= orig.reverse());
    r
}

/// Merges two ascending runs into one ranked run, taking the heavier end
/// each time.
fn merge_desc(a: Vec<Pair>, b: Vec<Pair>) -> (r: Vec<Pair>)
    requires
        ascending(views(a@)),
        ascending(views(b@)),
    ensures
        ranked(views(r@)),
        views(r@).to_multiset() == views(a@).to_multiset().add(views(b@).to_multiset()),
{
    let ghost total = views(a@).to_multiset().add(views(b@).to_multiset());
    let mut a = a;
    let mut b = b;
    let mut out: Vec<Pair> = Vec::new();
    while a.len() > 0 || b.len() > 0
        invariant
            ascending(views(a@)),
            ascending(views(b@)),
            ranked(views(out@)),
            views(out@).to_multiset().add(views(a@).to_multiset()).add(views(b@).to_multiset())
                == total,
            out@.len() > 0 ==> forall|i: int|
                0 <= i < a@.len() ==> pair_le(#[trigger] views(a@)[i], views(out@).last()),
            out@.len() > 0 ==> forall|i: int|
                0 <= i < b@.len() ==> pair_le(#[trigger] views(b@)[i], views(out@).last()),
        decreases a@.len() + b@.len(),
    {
        let ghost va = views(a@);
        let ghost vb = views(b@);
        let ghost vo = views(out@);
        let take_a = if a.len() == 0 {
            false
        } else if b.len() == 0 {
            true
        } else {
            !matches!(a[a.len() - 1].cmp(&b[b.len() - 1]), Ordering::Less)
        };
        proof {
            if a@.len() > 0 && b@.len() > 0 {
                lemma_pair_order(va.last(), vb.last(), vb.last());
                lemma_pair_order(vb.last(), va.last(), va.last());
            }
        }
        let ghost top = if take_a { va.last() } else { vb.last() };
        let p = if take_a {
            a.pop()
        } else {
            b.pop()
        };
        match p {
            Some(p) => {
                out.push(p);
            },
            None => {},
        }
        proof {
            let na = views(a@);
            let nb = views(b@);
            let no = views(out@);
            assert(no =~= vo.push(top));
            if take_a {
                assert(va =~= na.push(top));
                assert(nb =~= vb);
            } else {
                assert(vb =~= nb.push(top));
                assert(na =~= va);
            }
            // the new entry is no heavier than the ones before it
            assert forall|i: int, j: int| 0 <= i < j < no.len() implies pair_le(
                #[trigger] no[j],
                #[trigger] no[i],
            ) by {
                if j == no.len() - 1 && i < j {
                    if take_a {
                        assert(pair_le(va[va.len() - 1], vo.last()));
                    } else {
                        assert(pair_le(vb[vb.len() - 1], vo.last()));
                    }
                    if i < vo.len() - 1 {
                        assert(pair_le(vo[vo.len() - 1], vo[i]));
                        lemma_pair_order(top, vo.last(), vo[i]);
                    }
                } else {
                    assert(no[i] == vo[i] && no[j] == vo[j]);
                }
            }
            // what is left is no heavier than the new entry
            assert forall|i: int| 0 <= i < na.len() implies pair_le(#[trigger] na[i], no.last()) by {
                if take_a {
                    assert(na[i] == va[i]);
                    if i < va.len() - 1 {
                        assert(pair_le(va[i], va[va.len() - 1]));
                    } else {
                        lemma_pair_order(va[i], va[i], va[i]);
                    }
                } else {
                    assert(na[i] == va[i]);
                    assert(pair_le(va[i], va[va.len() - 1]) || i == va.len() - 1);
                    lemma_pair_order(va[i], va[va.len() - 1], vb.last());
                    lemma_pair_order(va[i], va[i], va[i]);
                }
            }
            assert forall|i: int| 0 <= i < nb.len() implies pair_le(#[trigger] nb[i], no.last()) by {
                if !take_a {
                    assert(nb[i] == vb[i]);
                    if i < vb.len() - 1 {
                        assert(pair_le(vb[i], vb[vb.len() - 1]));
                    } else {
                        lemma_pair_order(vb[i], vb[i], vb[i]);
                    }
                } else {
                    assert(nb[i] == vb[i]);
                    assert(pair_le(vb[i], vb[vb.len() - 1]) || i == vb.len() - 1);
                    lemma_pair_order(vb[i], vb[vb.len() - 1], va.last());
                    lemma_pair_order(vb[i], vb[i], vb[i]);
                }
            }
            assert forall|i: int, j: int| 0 <= i < j < na.len() implies pair_le(#[trigger] na[i], #[trigger] na[j]) by {
                assert(na[i] == va[i] && na[j] == va[j]);
            }
            assert forall|i: int, j: int| 0 <= i < j < nb.len() implies pair_le(#[trigger] nb[i], #[trigger] nb[j]) by {
                assert(nb[i] == vb[i] && nb[j] == vb[j]);
            }
        }
    }
    proof {
        assert(views(a@).to_multiset() =~= vstd::multiset::Multiset::empty());
        assert(views(b@).to_multiset() =~= vstd::multiset::Multiset::empty());
    }
    out
}

/// The pairs ranked: heaviest first, ties by the larger key.
fn sort_desc(v: Vec<Pair>) -> (r: Vec<Pair>)
    ensures
        ranked(views(r@)),
        views(r@).to_multiset() == views(v@).to_multiset(),
    decreases v@.len(),
{
    if v.len() <= 1 {
        return v;
    }
    let ghost orig = views(v@);
    let mut left = v;
    let mid = left.len() / 2;
    let right = left.split_off(mid);
    proof {
        assert(orig =~= views(left@) + views(right@));
        vstd::seq_lib::lemma_multiset_commutative(views(left@), views(right@));
    }
    let sl = sort_desc(left);
    let sr = sort_desc(right);
    let ghost vsl = views(sl@);
    let ghost vsr = views(sr@);
    let l = reverse_pairs(sl);
    let r = reverse_pairs(sr);
    proof {
        assert forall|s: Seq<(u64, Seq<char>)>| #[trigger] ranked(s) implies ascending(s.reverse()) by {
            assert forall|i: int, j: int| 0 <= i < j < s.reverse().len() implies pair_le(
                #[trigger] s.reverse()[i],
                #[trigger] s.reverse()[j],
            ) by {
                assert(pair_le(s[s.len() - 1 - i], s[s.len() - 1 - j]));
            }
        }
    }
    let out = merge_desc(l, r);
    proof {
        vsl.lemma_reverse_to_multiset();
        vsr.lemma_reverse_to_multiset();
    }
    out
}

/// Sorts the pairs in place, heaviest first and ties by the larger key, and
/// returns how many of them a selection of `height` rows shows: the first
/// `min(height, len)`.
pub fn rank_top(pairs: &mut Vec<Pair>, height: usize) -> (k: usize)
    ensures
        k == if height < old(pairs)@.len() { height as int } else { old(pairs)@.len() as int },
        views(final(pairs)@).to_multiset() == views(old(pairs)@).to_multiset(),
        final(pairs)@.len() == old(pairs)@.len(),
        ranked(views(final(pairs)@)),
{
    let mut v: Vec<Pair> = Vec::new();
    std::mem::swap(pairs, &mut v);
    let sorted = sort_desc(v);
    proof {
        assert(views(sorted@).to_multiset().len() == views(sorted@).len());
        assert(views(v@).to_multiset().len() == views(v@).len());
    }
    *pairs = sorted;
    let n = pairs.len();
    if height < n {
        height
    } else {
        n
    }
}

} // verus!
