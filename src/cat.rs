//! Catenable lists: constant-time concatenation, by bootstrapping a list node over a
//! real-time queue of non-empty lists.
use vstd::prelude::*;

use crate::clone_exact;
use crate::hm::Q;

verus! {

/// A non-empty catenable list: its first element, then the queue of the non-empty
/// lists that follow it, in order (absent while there are none).
pub struct NonEmptyCat<A>(A, Option<Q<NonEmptyCat<A>>>);

impl<A: Clone> Clone for NonEmptyCat<A> {
    /// Clones the first element and shares the queue.
    fn clone(&self) -> (r: Self)
        ensures
            clone_exact::<A>() ==> r == *self,
    {
        let children = match &self.1 {
            None => None,
            Some(q) => Some(q.clone()),
        };
        NonEmptyCat(self.0.clone(), children)
    }
}

/// When cloning an element is exact, so is cloning a non-empty list.
proof fn lemma_clone_exact<A: Clone>()
    requires
        clone_exact::<A>(),
    ensures
        clone_exact::<NonEmptyCat<A>>(),
{
    assert forall|a: NonEmptyCat<A>, b: NonEmptyCat<A>| #[trigger] call_ensures(NonEmptyCat::<A>::clone, (&a,), b) implies a == b by {
    }
}

/// The elements of a sequence of non-empty lists, one list after the other.
pub open spec fn views<A>(s: Seq<NonEmptyCat<A>>) -> Seq<A>
    decreases s.len(),
{
    if s.len() == 0 {
        Seq::empty()
    } else {
        s[0]@ + views(s.drop_first())
    }
}

/// Every list of the sequence is well formed.
pub open spec fn all_wf<A>(s: Seq<NonEmptyCat<A>>) -> bool {
    forall|i: int| 0 <= i < s.len() ==> (#[trigger] s[i]).wf()
}

impl<A> NonEmptyCat<A> {
    /// The lists that follow the first element.
    pub closed spec fn kids(self) -> Seq<NonEmptyCat<A>> {
        match self.1 {
            None => Seq::empty(),
            Some(q) => q@,
        }
    }

    /// The elements, first to last.
    pub closed spec fn view(self) -> Seq<A>
        decreases self, self.kids().len() + 1,
    {
        seq![self.0] + self.view_from(0)
    }

    /// The elements of the lists that follow, from the `i`-th on.
    closed spec fn view_from(self, i: nat) -> Seq<A>
        decreases self, self.kids().len() - i,
        via Self::view_from_decreases
    {
        if i < self.kids().len() {
            self.kids()[i as int].view() + self.view_from(i + 1)
        } else {
            Seq::empty()
        }
    }

    #[via_fn]
    proof fn view_from_decreases(self, i: nat) {
        if i < self.kids().len() {
            match self.1 {
                None => {},
                Some(q) => {
                    q.lemma_elements_decrease();
                    assert(decreases_to!(self => q));
                    assert(decreases_to!(q => q@[i as int]));
                },
            }
        }
    }

    /// Every queue in the list is well formed.
    pub closed spec fn wf(self) -> bool
        decreases self, self.kids().len() + 1,
    {
        &&& match self.1 {
            None => true,
            Some(q) => q.wf(),
        }
        &&& self.wf_from(0)
    }

    closed spec fn wf_from(self, i: nat) -> bool
        decreases self, self.kids().len() - i,
        via Self::wf_from_decreases
    {
        if i < self.kids().len() {
            self.kids()[i as int].wf() && self.wf_from(i + 1)
        } else {
            true
        }
    }

    #[via_fn]
    proof fn wf_from_decreases(self, i: nat) {
        if i < self.kids().len() {
            match self.1 {
                None => {},
                Some(q) => {
                    q.lemma_elements_decrease();
                    assert(decreases_to!(self => q));
                    assert(decreases_to!(q => q@[i as int]));
                },
            }
        }
    }

    proof fn lemma_view_from(self, i: nat)
        requires
            i <= self.kids().len(),
        ensures
            self.view_from(i) == views(self.kids().skip(i as int)),
        decreases self.kids().len() - i,
    {
        if i < self.kids().len() {
            self.lemma_view_from(i + 1);
            assert(self.kids().skip(i as int).drop_first() =~= self.kids().skip((i + 1) as int));
        } else {
            assert(self.kids().skip(i as int).len() == 0);
        }
    }

    proof fn lemma_wf_from(self, i: nat)
        requires
            i <= self.kids().len(),
        ensures
            self.wf_from(i) == (forall|j: int| i <= j < self.kids().len() ==> (#[trigger] self.kids()[j]).wf()),
        decreases self.kids().len() - i,
    {
        if i < self.kids().len() {
            self.lemma_wf_from(i + 1);
        }
    }

    /// The elements are the first one, then those of the following lists in order.
    proof fn lemma_view(self)
        ensures
            self@ == seq![self.0] + views(self.kids()),
            self.wf() == ((match self.1 {
                None => true,
                Some(q) => q.wf(),
            }) && all_wf(self.kids())),
    {
        self.lemma_view_from(0);
        self.lemma_wf_from(0);
        assert(self.kids().skip(0) =~= self.kids());
    }
}

proof fn lemma_views_push<A>(s: Seq<NonEmptyCat<A>>, x: NonEmptyCat<A>)
    ensures
        views(s.push(x)) == views(s) + x@,
    decreases s.len(),
{
    if s.len() == 0 {
        assert(s.push(x).drop_first() =~= Seq::<NonEmptyCat<A>>::empty());
        assert(views(Seq::<NonEmptyCat<A>>::empty()) == Seq::<A>::empty());
        assert(s.push(x)[0] == x);
        assert(views(s.push(x)) =~= x@);
    } else {
        lemma_views_push(s.drop_first(), x);
        assert(s.push(x).drop_first() =~= s.drop_first().push(x));
        assert(views(s.push(x)) =~= views(s) + x@);
    }
}

proof fn lemma_views_len<A>(s: Seq<NonEmptyCat<A>>)
    ensures
        views(s).len() >= s.len(),
    decreases s.len(),
{
    if s.len() > 0 {
        lemma_views_len(s.drop_first());
        s[0].lemma_view();
    }
}

impl<A: Clone> NonEmptyCat<A> {
    /// `self` followed by `other`: `other` joins the back of the queue of lists.
    pub fn link(self, other: Self) -> (r: NonEmptyCat<A>)
        requires
            clone_exact::<A>(),
            self.wf(),
            other.wf(),
            self@.len() + other@.len() <= usize::MAX,
        ensures
            r.wf(),
            r@ == self@ + other@,
            r.kids() == self.kids().push(other),
    {
        proof {
            lemma_clone_exact::<A>();
            self.lemma_view();
            other.lemma_view();
            lemma_views_len(self.kids());
        }
        let q = match self.1 {
            None => Q::nil(),
            Some(q) => q,
        };
        let q2 = q.snoc(other);
        let r = NonEmptyCat(self.0, Some(q2));
        proof {
            assert(r.kids() == self.kids().push(other));
            lemma_views_push(self.kids(), other);
            r.lemma_view();
            assert(r@ =~= self@ + other@);
            assert(all_wf(r.kids()));
        }
        r
    }

    /// The list holding `a` alone.
    pub fn singleton(a: A) -> (r: Self)
        ensures
            r.wf(),
            r@ == seq![a],
    {
        let r = NonEmptyCat(a, None);
        proof {
            r.lemma_view();
            assert(views(r.kids()) =~= Seq::<A>::empty());
            assert(r@ =~= seq![a]);
        }
        r
    }

    /// `a` in front of `bs`.
    pub fn cons(a: A, bs: Self) -> (r: Self)
        requires
            clone_exact::<A>(),
            bs.wf(),
            bs@.len() < usize::MAX,
        ensures
            r.wf(),
            r@ == seq![a] + bs@,
    {
        NonEmptyCat::singleton(a).link(bs)
    }

    /// `b` after `self`.
    pub fn snoc(self, b: A) -> (r: Self)
        requires
            clone_exact::<A>(),
            self.wf(),
            self@.len() < usize::MAX,
        ensures
            r.wf(),
            r@ == self@.push(b),
    {
        let r = self.link(NonEmptyCat::singleton(b));
        proof {
            assert(r@ =~= self@.push(b));
        }
        r
    }

    /// The first element.
    pub fn peek_head(&self) -> (r: &A)
        ensures
            *r == self@[0],
    {
        proof {
            self.lemma_view();
        }
        &self.0
    }
}

/// A catenable list: empty, or a non-empty one.
pub struct Cat<A>(Option<NonEmptyCat<A>>);

impl<A> Cat<A> {
    /// The elements, first to last.
    pub closed spec fn view(self) -> Seq<A> {
        match self.0 {
            None => Seq::empty(),
            Some(c) => c@,
        }
    }

    /// Well formed, and the length fits in a `usize`.
    pub closed spec fn wf(self) -> bool {
        match self.0 {
            None => true,
            Some(c) => c.wf() && c@.len() <= usize::MAX,
        }
    }

    /// The empty list.
    pub fn nil() -> (r: Self)
        ensures
            r.wf(),
            r@ == Seq::<A>::empty(),
    {
        Cat(None)
    }
}

impl<A: Clone> Clone for Cat<A> {
    /// Clones the first element and shares the rest.
    fn clone(&self) -> (r: Self)
        ensures
            clone_exact::<A>() ==> r == *self,
    {
        match &self.0 {
            None => Cat(None),
            Some(c) => Cat(Some(c.clone())),
        }
    }
}

impl<A> Default for Cat<A> {
    /// The empty list.
    fn default() -> (r: Self)
        ensures
            r.wf(),
            r@ == Seq::<A>::empty(),
    {
        Cat(None)
    }
}

/// Joins the lists of a queue, first to last: the first list is linked with the join
/// of the rest.
fn link_all<A: Clone>(q: Q<NonEmptyCat<A>>) -> (r: Cat<A>)
    requires
        clone_exact::<A>(),
        q.wf(),
        all_wf(q@),
        views(q@).len() <= usize::MAX,
    ensures
        r.wf(),
        r@ == views(q@),
    decreases q@.len(),
{
    proof {
        lemma_clone_exact::<A>();
    }
    let ghost s = q@;
    match q.uncons() {
        None => {
            proof {
                assert(views(s) =~= Seq::<A>::empty());
            }
            Cat(None)
        },
        Some((h, t)) => {
            proof {
                assert(s[0] == h);
                assert(t@ == s.drop_first());
                assert(all_wf(t@));
                h.lemma_view();
            }
            match link_all(t).0 {
                None => {
                    proof {
                        assert(views(s) =~= h@);
                    }
                    Cat(Some(h))
                },
                Some(n) => {
                    let r = h.link(n);
                    proof {
                        assert(r@ =~= views(s));
                    }
                    Cat(Some(r))
                },
            }
        },
    }
}

impl<A: Clone> Cat<A> {
    /// `a` in front of `other`.
    pub fn cons(a: A, other: Self) -> (r: Self)
        requires
            clone_exact::<A>(),
            other.wf(),
            other@.len() < usize::MAX,
        ensures
            r.wf(),
            r@ == seq![a] + other@,
    {
        match other.0 {
            None => {
                let c = NonEmptyCat::singleton(a);
                proof {
                    assert(c@ =~= seq![a] + other@);
                }
                Cat(Some(c))
            },
            Some(b) => Cat(Some(NonEmptyCat::cons(a, b))),
        }
    }

    /// `b` after `self`.
    pub fn snoc(self, b: A) -> (r: Self)
        requires
            clone_exact::<A>(),
            self.wf(),
            self@.len() < usize::MAX,
        ensures
            r.wf(),
            r@ == self@.push(b),
    {
        match self.0 {
            None => {
                let c = NonEmptyCat::singleton(b);
                proof {
                    assert(c@ =~= self@.push(b));
                }
                Cat(Some(c))
            },
            Some(a) => Cat(Some(a.snoc(b))),
        }
    }

    /// `self` followed by `other`.
    pub fn link(self, other: Self) -> (r: Self)
        requires
            clone_exact::<A>(),
            self.wf(),
            other.wf(),
            self@.len() + other@.len() <= usize::MAX,
        ensures
            r.wf(),
            r@ == self@ + other@,
    {
        match self.0 {
            None => {
                proof {
                    assert(other@ =~= self@ + other@);
                }
                other
            },
            Some(a) => match other.0 {
                None => {
                    let r = Cat(Some(a));
                    proof {
                        assert(r@ =~= self@ + other@);
                    }
                    r
                },
                Some(b) => Cat(Some(a.link(b))),
            },
        }
    }

    /// The list of the given elements, first to last, each added at the back.
    pub fn from_vec(items: Vec<A>) -> (r: Self)
        requires
            clone_exact::<A>(),
        ensures
            r.wf(),
            r@ == items@,
    {
        let mut r = Cat::nil();
        let mut i: usize = 0;
        let n = items.len();
        while i < n
            invariant
                clone_exact::<A>(),
                r.wf(),
                n == items@.len(),
                i <= n,
                r@ == items@.take(i as int),
            decreases items@.len() - i,
        {
            r = r.snoc(items[i].clone());
            proof {
                assert(items@.take(i + 1) =~= items@.take(i as int).push(items@[i as int]));
            }
            i = i + 1;
        }
        proof {
            assert(items@.take(items@.len() as int) =~= items@);
        }
        r
    }

    /// The first element and the rest, or `None` on the empty list. The rest joins
    /// the queue of lists, so this takes constant time only amortized over the
    /// links that built the list.
    pub fn uncons(&self) -> (r: Option<(A, Cat<A>)>)
        requires
            clone_exact::<A>(),
            self.wf(),
        ensures
            match r {
                None => self@.len() == 0,
                Some((x, t)) => self@.len() > 0 && x == self@[0] && t.wf() && t@ == self@.drop_first(),
            },
    {
        match &self.0 {
            None => None,
            Some(p) => {
                proof {
                    p.lemma_view();
                    lemma_clone_exact::<A>();
                }
                let q = match &p.1 {
                    None => Q::nil(),
                    Some(q) => q.clone(),
                };
                proof {
                    assert(q@ == p.kids());
                    assert(self@.drop_first() =~= views(q@));
                }
                let rest = link_all(q);
                Some((p.0.clone(), rest))
            },
        }
    }
}

/// Linking is associative: for any lists `a`, `b` and `c`, linking `a` with `b` and
/// the result with `c` gives the elements that linking `a` with the link of `b` and `c`
/// gives. The results are described as `link` describes them.
pub proof fn lemma_link_associative<A>(
    a: Cat<A>,
    b: Cat<A>,
    c: Cat<A>,
    ab: Cat<A>,
    ab_c: Cat<A>,
    bc: Cat<A>,
    a_bc: Cat<A>,
)
    requires
        ab@ == a@ + b@,
        ab_c@ == ab@ + c@,
        bc@ == b@ + c@,
        a_bc@ == a@ + bc@,
    ensures
        ab_c@ == a_bc@,
{
    assert((a@ + b@) + c@ =~= a@ + (b@ + c@));
}

} // verus!
