//! Lenses: a view of a part of a structure, with a way to rebuild the structure
//! around a new part.
use std::marker::PhantomData;
use vstd::prelude::*;

verus! {

/// A lens from a structure `S` onto its part `A`; replacing the part by a `B` gives
/// a structure `T`.
pub trait Lens {
    type S;
    type T;
    type A;
    type B;

    /// The part of `s`.
    spec fn part(&self, s: Self::S) -> Self::A;

    /// `s` with its part replaced by `b`.
    spec fn rebuild(&self, s: Self::S, b: Self::B) -> Self::T;

    /// The part of `s`.
    fn get(&self, s: Self::S) -> (r: Self::A)
        ensures
            r == self.part(s),
    ;

    /// `s` with its part replaced by what `f` makes of it.
    fn map<F: FnOnce(Self::A) -> Self::B>(&self, s: Self::S, f: F) -> (r: Self::T)
        requires
            f.requires((self.part(s),)),
        ensures
            exists|b: Self::B| f.ensures((self.part(s),), b) && r == self.rebuild(s, b),
    ;

    /// `s` with its part replaced by `b`.
    fn set(&self, s: Self::S, b: Self::B) -> (r: Self::T)
        ensures
            r == self.rebuild(s, b),
    ;
}

/// The lens `P` seen through the lens `Q`: the part of the part.
pub struct Comp<P, Q>(P, Q);

impl<P, Q> Lens for Comp<P, Q> where Q: Lens, P: Lens<S = Q::A, T = Q::B> {
    type S = Q::S;
    type T = Q::T;
    type A = P::A;
    type B = P::B;

    closed spec fn part(&self, s: Q::S) -> P::A {
        self.0.part(self.1.part(s))
    }

    closed spec fn rebuild(&self, s: Q::S, b: P::B) -> Q::T {
        self.1.rebuild(s, self.0.rebuild(self.1.part(s), b))
    }

    fn get(&self, s: Q::S) -> (r: P::A) {
        self.0.get(self.1.get(s))
    }

    fn map<F: FnOnce(P::A) -> P::B>(&self, s: Q::S, f: F) -> (r: Q::T) {
        let p = &self.0;
        let ghost u0 = self.1.part(s);
        let inner = move |u: Q::A| -> (t: Q::B)
            requires
                u == u0,
                f.requires((p.part(u),)),
            ensures
                exists|b: P::B| f.ensures((p.part(u),), b) && t == p.rebuild(u, b),
            { p.map(u, f) };
        let r = self.1.map(s, inner);
        proof {
            let b2 = choose|b2: Q::B| inner.ensures((u0,), b2) && r == self.1.rebuild(s, b2);
            let b = choose|b: P::B| f.ensures((p.part(u0),), b) && b2 == p.rebuild(u0, b);
            assert(f.ensures((self.part(s),), b) && r == self.rebuild(s, b));
        }
        r
    }

    fn set(&self, s: Q::S, b: P::B) -> (r: Q::T) {
        let p = &self.0;
        let inner = move |u: Q::A| -> (t: Q::B)
            ensures
                t == p.rebuild(u, b),
            { p.set(u, b) };
        self.1.map(s, inner)
    }
}

/// The lens `p` seen through the lens `q`.
pub fn comp<P, Q>(p: P, q: Q) -> (r: Comp<P, Q>) where Q: Lens, P: Lens<S = Q::A, T = Q::B>
    ensures
        forall|s: Q::S| #[trigger] r.part(s) == p.part(q.part(s)),
        forall|s: Q::S, b: P::B| #[trigger] r.rebuild(s, b) == q.rebuild(s, p.rebuild(q.part(s), b)),
{
    Comp(p, q)
}

/// The first component of a pair.
pub struct Fst<A, B, C>(PhantomData<(A, B, C)>);

impl<X, Y, Z> Lens for Fst<X, Y, Z> {
    type S = (X, Z);
    type T = (Y, Z);
    type A = X;
    type B = Y;

    open spec fn part(&self, s: (X, Z)) -> X {
        s.0
    }

    open spec fn rebuild(&self, s: (X, Z), b: Y) -> (Y, Z) {
        (b, s.1)
    }

    fn get(&self, s: (X, Z)) -> (r: X) {
        s.0
    }

    fn map<F: FnOnce(X) -> Y>(&self, s: (X, Z), f: F) -> (r: (Y, Z)) {
        let (x, z) = s;
        let y = f(x);
        proof {
            assert(f.ensures((self.part(s),), y) && (y, z) == self.rebuild(s, y));
        }
        (y, z)
    }

    fn set(&self, s: (X, Z), b: Y) -> (r: (Y, Z)) {
        (b, s.1)
    }
}

/// The lens onto the first component of a pair.
pub fn fst<A, B, C>() -> (r: Fst<A, B, C>) {
    Fst(PhantomData)
}

} // verus!
