use kanso::id::Id;
use kanso::meta::Meta;

#[test]
fn id_round_trips_index() {
    for i in [0u32, 1, 2, 1000, u32::MAX - 1] {
        let id = Id::new(i).unwrap();
        assert_eq!(id.u32(), i);
        assert_eq!(u32::from(id), i);
        assert_eq!(usize::from(id), i as usize);
        assert!(Id::from_u32(i).unwrap() == id);
    }
}

#[test]
fn id_rejects_largest() {
    assert!(Id::new(u32::MAX).is_none());
    assert!(Id::from_u32(u32::MAX).is_err());
    assert_eq!(Id::default().u32(), 0);
}

#[test]
fn meta_round_trips_index() {
    let m = Meta::new(42).unwrap();
    assert_eq!(m.u32(), 42);
    assert!(Meta::new(u32::MAX).is_none());
    assert!(Meta::from_u32(u32::MAX).is_err());
    assert_eq!(Meta::from_u32(7).unwrap().u32(), 7);
    assert_eq!(Meta::default().u32(), 0);
}

#[test]
fn id_order_is_reversed_index_order() {
    // the stored word is the complement, so a larger index compares smaller
    assert!(Id::new(5).unwrap() < Id::new(3).unwrap());
}
