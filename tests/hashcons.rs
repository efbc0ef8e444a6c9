use kanso::hashcons::{Constable, HashConstable};

#[test]
fn hashcons_shares_live_values() {
    let mut t: Constable<String> = Constable::new();
    let a = t.mk("foo".to_string());
    let b = t.mk("foo".to_string());
    assert!(a == b);
    assert_eq!(a.id(), b.id());
    assert_eq!(a.get(), "foo");
    let (c, fresh) = t.mk_is_new("foo".to_string());
    assert!(!fresh);
    assert_eq!(c.id(), a.id());
    assert_eq!(a.strong_count(), 3);
}

#[test]
fn hashcons_reallocates_after_collect() {
    let mut t: Constable<String> = Constable::new();
    let a = t.mk("foo".to_string());
    let first = a.downgrade();
    let first_id = a.id();
    drop(a);
    assert!(first.upgrade().is_none());
    t.collect();
    let (b, fresh) = t.mk_is_new("foo".to_string());
    assert!(fresh);
    assert_ne!(b.id(), first_id);
    assert_eq!(b.get(), "foo");
}

#[test]
fn hashcons_distinct_values() {
    let mut t: Constable<u32> = Constable::with_capacity(4);
    let (x, nx) = t.mk_is_new(1);
    let (y, ny) = t.mk_is_new(2);
    assert!(nx && ny);
    assert!(x != y);
    t.reserve(10);
    t.shrink_to_fit();
    t.collect_to_fit();
    let x2 = (&mut t).mk(1);
    assert!(x == x2);
    let w = x.downgrade();
    assert!(w == x2.downgrade());
    assert!(w.upgrade().is_some());
    assert_eq!(w.id(), x.id());
}

#[test]
fn hashcons_with_hasher() {
    let mut t: Constable<u32> =
        Constable::with_capacity_and_hasher(2, std::collections::hash_map::RandomState::new());
    let a = t.mk(5);
    let b = HashConstable::mk(&mut t, 5);
    assert!(a == b);
    let mut u: Constable<u32> = Constable::with_hasher(std::collections::hash_map::RandomState::new());
    let c = u.mk(5);
    assert!(c != a);
}

#[test]
fn hashcons_lookup_result_decides() {
    let mut t: Constable<String> = Constable::new();
    let a = t.mk("x".to_string());
    let (b, fresh) = t.mk_with_lookup("x".to_string(), Some(a.clone()));
    assert!(!fresh);
    assert!(b == a);
    let (c, fresh2) = t.mk_with_lookup("y".to_string(), None);
    assert!(fresh2);
    assert_eq!(c.get(), "y");
    let d = t.mk("y".to_string());
    assert!(d == c);
}

#[test]
fn hashcons_remove_keys_forgets_entries() {
    let mut t: Constable<String> = Constable::new();
    let a = t.mk("a".to_string());
    let b = t.mk("b".to_string());
    t.remove_keys(vec!["a".to_string()]);
    let (a2, fresh) = t.mk_is_new("a".to_string());
    assert!(fresh);
    assert!(a2 != a);
    let (b2, fresh_b) = t.mk_is_new("b".to_string());
    assert!(!fresh_b);
    assert!(b2 == b);
}

#[test]
fn hashcons_collect_keeps_live_entries() {
    let mut t: Constable<u32> = Constable::new();
    let live = t.mk(1);
    let dead = t.mk(2);
    drop(dead);
    t.collect();
    let (again, fresh) = t.mk_is_new(1);
    assert!(!fresh);
    assert!(again == live);
    let (_, fresh2) = t.mk_is_new(2);
    assert!(fresh2);
}
