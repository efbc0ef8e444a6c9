use kanso::lens::{comp, fst, Lens};

#[test]
fn lens_it_works() {
    assert_eq!(fst::<i32, i32, i32>().get((1, 2)), 1);
    assert_eq!(comp(fst::<i32, i32, i32>(), fst()).get(((1, 2), 3)), 1);
}

#[test]
fn lens_set_and_map() {
    assert_eq!(fst::<i32, &str, i32>().set((1, 2), "a"), ("a", 2));
    assert_eq!(fst::<i32, i32, i32>().map((4, 2), |x| x * 10), (40, 2));
    let l = comp(fst::<i32, i32, i32>(), fst::<(i32, i32), (i32, i32), i32>());
    assert_eq!(l.set(((1, 2), 3), 9), ((9, 2), 3));
    assert_eq!(l.map(((1, 2), 3), |x| x + 5), ((6, 2), 3));
}
