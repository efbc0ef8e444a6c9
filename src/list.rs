//! Immutable singly-linked lists whose tails are shared.
use std::rc::Rc;
use vstd::prelude::*;

use crate::clone_exact;

verus! {

/// Either empty, or a shared node holding one element and the rest of the list.
pub struct List<A>(Option<Rc<(A, List<A>)>>);

impl<A> View for List<A> {
    type V = Seq<A>;

    closed spec fn view(&self) -> Seq<A>
        decreases self,
    {
        match self.0 {
            None => Seq::empty(),
            Some(node) => seq![node.0].add(node.1.view()),
        }
    }
}

impl<A> List<A> {
    /// Every element of the list is structurally smaller than the list.
    pub proof fn lemma_elements_decrease(self)
        ensures
            forall|i: int| 0 <= i < self@.len() ==> decreases_to!(self => #[trigger] self@[i]),
        decreases self,
    {
        match self.0 {
            None => {},
            Some(node) => {
                let tail = node.1;
                tail.lemma_elements_decrease();
                assert(decreases_to!(self => node.1));
                assert(decreases_to!(self => node.0));
                assert forall|i: int| 0 <= i < self@.len() implies decreases_to!(self => #[trigger] self@[i]) by {
                    if i > 0 {
                        assert(self@[i] == tail@[i - 1]);
                        assert(decreases_to!(tail => tail@[i - 1]));
                    }
                }
            },
        }
    }

    /// The empty list.
    pub fn nil() -> (r: List<A>)
        ensures
            r@ == Seq::<A>::empty(),
    {
        List(None)
    }

    /// The list with `x` in front of `xs`; `xs` is shared, not copied.
    pub fn cons(x: A, xs: List<A>) -> (r: List<A>)
        ensures
            r@ == seq![x] + xs@,
    {
        List(Some(Rc::new((x, xs))))
    }

    /// The first element and the rest, or `None` on the empty list.
    pub fn uncons(&self) -> (r: Option<(A, List<A>)>)
        where
            A: Clone,
        requires
            clone_exact::<A>(),
        ensures
            match r {
                None => self@.len() == 0,
                Some((x, t)) => self@.len() > 0 && x == self@[0] && t@ == self@.drop_first(),
            },
    {
        match &self.0 {
            None => None,
            Some(node) => {
                let x = node.0.clone();
                let t = node.1.clone();
                proof {
                    assert(self@.drop_first() =~= node.1@);
                }
                Some((x, t))
            },
        }
    }

    /// The first element, or `None` on the empty list.
    pub fn head(&self) -> (r: Option<A>)
        where
            A: Clone,
        requires
            clone_exact::<A>(),
        ensures
            match r {
                None => self@.len() == 0,
                Some(x) => self@.len() > 0 && x == self@[0],
            },
    {
        match &self.0 {
            None => None,
            Some(node) => {
                proof {
                    assert(self@ == seq![node.0].add(node.1@));
                }
                Some(node.0.clone())
            },
        }
    }

    /// Everything but the first element, or `None` on the empty list.
    pub fn tail(&self) -> (r: Option<List<A>>)
        ensures
            match r {
                None => self@.len() == 0,
                Some(t) => self@.len() > 0 && t@ == self@.drop_first(),
            },
    {
        match &self.0 {
            None => None,
            Some(node) => {
                proof {
                    assert(self@.drop_first() =~= node.1@);
                }
                Some(node.1.clone())
            },
        }
    }
}

impl<A> Clone for List<A> {
    /// Shares the same nodes.
    fn clone(&self) -> (r: Self)
        ensures
            r == *self,
    {
        match &self.0 {
            None => List(None),
            Some(node) => List(Some(node.clone())),
        }
    }
}

} // verus!
