use kanso::skew::{cons, nil, Skew};

fn skew_of(xs: Vec<u32>) -> Skew<u32> {
    Skew::from_vec(xs)
}

#[test]
fn skew_it_works() {
    let u32_nil: Skew<u32> = nil();
    assert_eq!(u32_nil, skew_of(vec![]));
    assert_eq!(cons(1, nil()), skew_of(vec![1]));
    assert_eq!(cons(1, cons(2, nil())), skew_of(vec![1, 2]));
    assert_ne!(cons(1, cons(2, nil())), skew_of(vec![1]));
    assert_eq!(skew_of(vec![4, 5, 6]), skew_of(vec![1, 2, 3, 4, 5, 6]).drop(3))
}

#[test]
fn skew_at_matches_model() {
    for n in 0..40u32 {
        let model: Vec<u32> = (0..n).map(|i| i * 10 + 7).collect();
        let xs = skew_of(model.clone());
        assert_eq!(xs.len(), n as usize);
        for k in 0..(n as usize + 3) {
            assert_eq!(xs.at(k), model.get(k));
        }
    }
}

#[test]
fn skew_at_right_subtree() {
    // seven elements form one complete tree; index 4 is the first of its right subtree
    let xs = skew_of(vec![0, 1, 2, 3, 4, 5, 6]);
    assert_eq!(xs.at(4), Some(&4));
    assert_eq!(xs.at(2), Some(&2));
    assert_eq!(xs.at(7), None);
}

#[test]
fn skew_drop_matches_model() {
    for n in 0..30u32 {
        let model: Vec<u32> = (0..n).collect();
        let xs = skew_of(model.clone());
        for k in 0..(n as usize + 3) {
            let expected: Vec<u32> = model.iter().skip(k).cloned().collect();
            assert_eq!(xs.drop(k).to_vec(), expected);
        }
    }
}

#[test]
fn skew_drop_past_end_is_empty() {
    let xs = skew_of(vec![1, 2, 3]);
    assert_eq!(xs.drop(10), nil());
    assert!(xs.drop(3).is_empty());
}

#[test]
fn skew_cons_uncons_follow_push_order() {
    let mut xs: Skew<u32> = nil();
    let mut model: Vec<u32> = Vec::new();
    for i in 0..50u32 {
        if i % 3 == 2 {
            let (h, t) = match xs.uncons() {
                Some((h, t)) => (*h, t),
                None => panic!("non-empty list"),
            };
            assert_eq!(h, model.remove(0));
            xs = t;
        } else {
            xs = cons(i, xs);
            model.insert(0, i);
        }
        assert_eq!(xs.to_vec(), model);
    }
}

#[test]
fn skew_next_drains_in_order() {
    let mut xs = skew_of(vec![5, 6, 7]);
    assert_eq!(xs.next(), Some(5));
    assert_eq!(xs.next(), Some(6));
    assert_eq!(xs.next(), Some(7));
    assert_eq!(xs.next(), None);
    assert_eq!(xs.next(), None);
}

#[test]
fn skew_reverse() {
    let xs = skew_of(vec![1, 2, 3, 4, 5]);
    assert_eq!(xs.reverse().to_vec(), vec![5, 4, 3, 2, 1]);
    let e: Skew<u32> = Skew::new();
    assert_eq!(e.reverse(), nil());
}

#[test]
fn skew_round_trip() {
    for n in 0..20u32 {
        let model: Vec<u32> = (100..100 + n).collect();
        let xs = skew_of(model.clone());
        let back = Skew::from_vec(xs.to_vec());
        assert_eq!(back.to_vec(), model);
        assert_eq!(back, xs);
    }
}

#[test]
fn skew_uncons_empty() {
    let e: Skew<u32> = nil();
    assert!(e.uncons().is_none());
    assert_eq!(e.len(), 0);
}
