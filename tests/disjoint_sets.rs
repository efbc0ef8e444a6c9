use kanso::disjoint_sets::DisjointSets;
use kanso::sets::Sets;

#[test]
fn disjoint_sets_it_works() {
    let mut ds = DisjointSets::with_capacity(2);
    assert_eq!(ds.capacity(), 2);
    assert_eq!(ds.len(), 0);
    let x = ds.make_set();
    let y = ds.make_set();
    let z = ds.make_set();
    assert!(ds.same(x, x));
    assert!(ds.same(y, y));
    assert!(!ds.same(x, y));
    ds.union(x, y);
    assert!(ds.same(x, y));
    assert!(ds.same(x, x));
    assert!(ds.same(y, y));
    assert!(!ds.same(x, z));
    ds.union(x, z);
    assert!(ds.same(y, z));
    assert_eq!(ds.len(), 3);
    let u = ds.make_set();
    let v = ds.make_set();
    let w = ds.union_find(u, v);
    let vr = ds.find_mut(v);
    assert_eq!(w, vr); // known to be roots
}

#[test]
fn sets_it_works() {
    let mut ds = Sets::with_capacity(2);
    assert_eq!(ds.capacity(), 2);
    assert_eq!(ds.len(), 0);
    let x = ds.make_set();
    let y = ds.make_set();
    let z = ds.make_set();
    assert!(ds.same(x, x));
    assert!(ds.same(y, y));
    assert!(!ds.same(x, y));
    ds.union(x, y);
    assert!(ds.same(x, y));
    assert!(ds.same(x, x));
    assert!(ds.same(y, y));
    assert!(!ds.same(x, z));
    ds.union(x, z);
    assert!(ds.same(y, z));
    assert_eq!(ds.len(), 3);
    let u = ds.make_set();
    let v = ds.make_set();
    let w = ds.union_find(u, v);
    let vr = ds.find_mut(v);
    assert_eq!(w, vr); // known to be roots
}

#[test]
fn disjoint_sets_union_of_inner_elements() {
    // merges through elements that are not roots
    let mut ds = DisjointSets::new();
    let e: Vec<_> = (0..8).map(|_| ds.make_set()).collect();
    ds.union(e[0], e[1]);
    ds.union(e[1], e[2]);
    ds.union(e[3], e[4]);
    ds.union(e[4], e[5]);
    assert!(!ds.same(e[2], e[5]));
    ds.union(e[2], e[5]);
    for i in 0..6 {
        for j in 0..6 {
            assert!(ds.same(e[i], e[j]));
        }
    }
    assert!(!ds.same(e[0], e[6]));
    assert!(!ds.same(e[6], e[7]));
    let r = ds.find(e[5]);
    assert_eq!(ds.parent(r), r);
    assert_eq!(ds.find(e[0]), r);
}

#[test]
fn disjoint_sets_same_does_not_merge() {
    let mut ds = DisjointSets::new();
    let a = ds.make_set();
    let b = ds.make_set();
    let c = ds.make_set();
    ds.union(b, c);
    // the parent of `c` is a root, and `a` is in another set
    assert!(!ds.same(c, a));
    assert!(!ds.same(a, c));
    assert!(ds.same(b, c));
}
