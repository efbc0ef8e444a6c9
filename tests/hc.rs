use kanso::hc::{Constable, HashConstable};

#[test]
fn hc_mk_twice_is_same_allocation() {
    let mut t: Constable<String> = Constable::new();
    let a = t.mk("foo".to_string());
    let b = t.mk("foo".to_string());
    assert!(a == b);
    assert_eq!(a.id(), b.id());
}

#[test]
fn hc_new_allocation_after_collect() {
    let mut t: Constable<String> = Constable::new();
    let a = t.mk("foo".to_string());
    let weak = a.downgrade();
    let old_id = weak.id();
    drop(a);
    HashConstable::collect(&mut t);
    let (b, fresh) = t.mk_is_new("foo".to_string());
    assert!(fresh);
    assert_ne!(b.id(), old_id);
    assert!(weak.upgrade().is_none());
}
