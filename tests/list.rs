use kanso::ralist::{cons, nil, List};

fn list_of(xs: Vec<u32>) -> List<u32> {
    List::from_vec(xs)
}

#[test]
fn list_it_works() {
    let u32_nil: List<u32> = nil();
    assert_eq!(u32_nil, list_of(vec![]));
    assert_eq!(cons(1, nil()), list_of(vec![1]));
    assert_eq!(cons(1, cons(2, nil())), list_of(vec![1, 2]));
    assert_ne!(cons(1, cons(2, nil())), list_of(vec![1]));
    assert_eq!(list_of(vec![4, 5, 6]), list_of(vec![1, 2, 3, 4, 5, 6]).drop(3))
}

#[test]
fn list_length_and_at() {
    let xs = list_of(vec![10, 20, 30, 40, 50, 60, 70, 80]);
    assert_eq!(xs.length(), 8);
    assert_eq!(xs.at(0), Some(&10));
    assert_eq!(xs.at(4), Some(&50));
    assert_eq!(xs.at(7), Some(&80));
    assert_eq!(xs.at(8), None);
}

#[test]
fn list_reverse_and_uncons() {
    let xs = list_of(vec![1, 2, 3]);
    let r = xs.reverse();
    let (h, t) = r.uncons().unwrap();
    assert_eq!(*h, 3);
    assert_eq!(t.to_vec(), vec![2, 1]);
}
