use kanso::cat::{Cat, NonEmptyCat};

fn drain(c: &Cat<u32>) -> Vec<u32> {
    let mut out = Vec::new();
    let mut cur = match c.uncons() {
        None => return out,
        Some(p) => p,
    };
    loop {
        out.push(cur.0);
        cur = match cur.1.uncons() {
            None => return out,
            Some(p) => p,
        };
    }
}

fn cat_of(xs: &[u32]) -> Cat<u32> {
    let mut c = Cat::nil();
    for &x in xs {
        c = c.snoc(x);
    }
    c
}

#[test]
fn cat_it_works() {}

#[test]
fn cat_link_is_associative() {
    let a = [1, 2, 3];
    let b = [4];
    let c = [5, 6, 7, 8];
    let left = cat_of(&a).link(cat_of(&b)).link(cat_of(&c));
    let right = cat_of(&a).link(cat_of(&b).link(cat_of(&c)));
    assert_eq!(drain(&left), vec![1, 2, 3, 4, 5, 6, 7, 8]);
    assert_eq!(drain(&left), drain(&right));
}

#[test]
fn cat_link_with_empty() {
    let e: Cat<u32> = Cat::nil();
    assert_eq!(drain(&e.link(cat_of(&[1, 2]))), vec![1, 2]);
    assert_eq!(drain(&cat_of(&[1, 2]).link(Cat::nil())), vec![1, 2]);
    assert!(Cat::<u32>::nil().uncons().is_none());
}

#[test]
fn cat_cons_and_snoc() {
    let c = Cat::cons(0, cat_of(&[1, 2])).snoc(3);
    assert_eq!(drain(&c), vec![0, 1, 2, 3]);
}

#[test]
fn cat_nested_links_keep_order() {
    let mut c: Cat<u32> = Cat::nil();
    let mut model = Vec::new();
    for i in 0..20u32 {
        let piece = cat_of(&[i * 2, i * 2 + 1]);
        model.push(i * 2);
        model.push(i * 2 + 1);
        c = if i % 2 == 0 { c.link(piece) } else { c.link(piece.link(Cat::nil())) };
    }
    assert_eq!(drain(&c), model);
}

#[test]
fn non_empty_cat_operations() {
    let a = NonEmptyCat::singleton(1u32);
    let b = NonEmptyCat::cons(0, a).snoc(2);
    assert_eq!(*b.peek_head(), 0);
    let c = b.link(NonEmptyCat::singleton(3));
    assert_eq!(*c.peek_head(), 0);
}

#[test]
fn cat_from_vec_keeps_order() {
    let c = Cat::from_vec(vec![3u32, 1, 4, 1, 5]);
    assert_eq!(drain(&c), vec![3, 1, 4, 1, 5]);
    let d: Cat<u32> = Cat::default();
    assert!(d.uncons().is_none());
}

#[test]
fn cat_clone_is_independent() {
    let c = cat_of(&[1, 2, 3]);
    let d = c.clone();
    let (x, rest) = c.uncons().unwrap();
    assert_eq!(x, 1);
    assert_eq!(drain(&rest), vec![2, 3]);
    assert_eq!(drain(&d), vec![1, 2, 3]);
}
