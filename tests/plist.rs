use kanso::list::List;

#[test]
fn persistent_list_cons_uncons() {
    let xs = List::cons(1u32, List::cons(2, List::nil()));
    assert_eq!(xs.head(), Some(1));
    let (h, t) = xs.uncons().unwrap();
    assert_eq!(h, 1);
    assert_eq!(t.head(), Some(2));
    let t2 = t.tail().unwrap();
    assert!(t2.uncons().is_none());
    assert!(t2.head().is_none());
    assert!(t2.tail().is_none());
    // the original is untouched
    assert_eq!(xs.head(), Some(1));
}
