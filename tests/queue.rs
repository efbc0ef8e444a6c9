use kanso::hm::Q;
use std::collections::VecDeque;

#[test]
fn queue_matches_reference_fifo() {
    let mut q: Q<u32> = Q::nil();
    let mut model: VecDeque<u32> = VecDeque::new();
    let mut seed: u32 = 12345;
    for step in 0..2000u32 {
        seed = seed.wrapping_mul(1103515245).wrapping_add(12345);
        if (seed >> 16) % 3 != 0 {
            q = q.snoc(step);
            model.push_back(step);
        } else {
            match q.uncons() {
                None => {
                    assert!(model.is_empty());
                    q = Q::nil();
                }
                Some((x, rest)) => {
                    assert_eq!(Some(x), model.pop_front());
                    q = rest;
                }
            }
        }
        assert_eq!(q.length(), model.len());
        assert_eq!(q.is_empty(), model.is_empty());
    }
}

#[test]
fn queue_snoc_mut_and_next() {
    let mut q: Q<u32> = Q::nil();
    for i in 0..100u32 {
        q.snoc_mut(i);
    }
    assert_eq!(q.length(), 100);
    for i in 0..100u32 {
        assert_eq!(q.next(), Some(i));
    }
    assert_eq!(q.next(), None);
    assert!(q.is_empty());
}

#[test]
fn queue_singleton_and_empty() {
    let q = Q::singleton(7u32);
    assert_eq!(q.length(), 1);
    let (x, rest) = q.uncons().unwrap();
    assert_eq!(x, 7);
    assert!(rest.is_empty());
    assert!(rest.uncons().is_none());
}

#[test]
fn queue_persistent_versions_are_independent() {
    let mut q: Q<u32> = Q::nil();
    for i in 0..10u32 {
        q = q.snoc(i);
    }
    let saved = q.clone();
    let (first, _) = q.uncons().unwrap();
    assert_eq!(first, 0);
    let (again, _) = saved.uncons().unwrap();
    assert_eq!(again, 0);
}

#[test]
fn queue_from_vec_and_extend() {
    let mut q = Q::from_vec(vec![1u32, 2, 3]);
    q.extend(vec![4, 5]);
    assert_eq!(q.length(), 5);
    let mut out = Vec::new();
    while let Some(x) = q.next() {
        out.push(x);
    }
    assert_eq!(out, vec![1, 2, 3, 4, 5]);
    let d: Q<u32> = Q::default();
    assert!(d.is_empty());
}
