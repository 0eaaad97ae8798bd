use distribution::pair::Pair;
use std::cmp::Ordering;

#[test]
fn pair_cmp() {
    let x = Pair::new(1, "a");
    let y = Pair::new(2, "a");
    let z = Pair::new(1, "b");

    assert_eq!(x.cmp(&x), Ordering::Equal);
    assert_eq!(x.cmp(&y), Ordering::Less);
    assert_eq!(x.cmp(&z), Ordering::Less);
}

#[test]
fn pair_sort() {
    let mut vec = Vec::new();
    vec.push(Pair::new(1, "aa"));
    vec.push(Pair::new(2, "ab"));
    vec.push(Pair::new(1, "ba"));

    // reverse sorting
    vec.sort_by(|a, b| b.cmp(a));

    assert_eq!(vec[0], Pair::new(2, "ab"));
    assert_eq!(vec[1], Pair::new(1, "ba"));
    assert_eq!(vec[2], Pair::new(1, "aa"));
}

#[test]
fn pair_accessors() {
    let p = Pair::new(7, "key");
    assert_eq!(p.value(), 7);
    assert_eq!(p.key(), "key");
    assert_eq!(p.duplicate(), p);
}

#[test]
fn pair_cmp_prefix_and_greater() {
    assert_eq!(Pair::new(1, "ab").cmp(&Pair::new(1, "a")), Ordering::Greater);
    assert_eq!(Pair::new(1, "a").cmp(&Pair::new(1, "ab")), Ordering::Less);
    assert_eq!(Pair::new(3, "a").cmp(&Pair::new(2, "z")), Ordering::Greater);
    // code point order: U+00E9 comes after ASCII 'z'
    assert_eq!(Pair::new(1, "\u{e9}").cmp(&Pair::new(1, "z")), Ordering::Greater);
}

#[test]
fn pair_derived_order_matches_cmp() {
    let mut v = vec![Pair::new(2, "a"), Pair::new(1, "b"), Pair::new(1, "a"), Pair::new(2, "b")];
    v.sort();
    assert_eq!(v, vec![Pair::new(1, "a"), Pair::new(1, "b"), Pair::new(2, "a"), Pair::new(2, "b")]);
    let x = Pair::new(1, "z");
    let y = Pair::new(2, "a");
    assert_eq!(x.partial_cmp(&y), Some(x.cmp(&y)));
    assert!(x < y);
}
