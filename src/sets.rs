//! Disjoint sets (union-find) over metavariables: each element points to a parent of
//! smaller or equal index, and the elements that point to themselves are the roots
//! that name the sets.
use vstd::prelude::*;

use crate::disjoint_sets::vec_capacity;
use crate::meta::Meta;

verus! {

/// A forest of parent pointers, one per element, indexed by the elements' indices.
pub struct Sets(Vec<Meta>);

/// The root reached from `i` by following parents, where each step goes to a smaller index.
pub open spec fn root_in(s: Seq<Meta>, i: int) -> int
    decreases i,
{
    if 0 <= i < s.len() && s[i]@ < i {
        root_in(s, s[i]@ as int)
    } else {
        i
    }
}

/// The elements of indices `a` and `b` have the same root.
pub open spec fn same_in(s: Seq<Meta>, a: int, b: int) -> bool {
    root_in(s, a) == root_in(s, b)
}

/// Every parent is a valid identifier of an element with smaller or equal index.
pub open spec fn forest_wf(s: Seq<Meta>) -> bool {
    &&& s.len() <= u32::MAX
    &&& forall|i: int| 0 <= i < s.len() ==> (#[trigger] s[i]).wf() && s[i]@ <= i
}

proof fn lemma_root(s: Seq<Meta>, i: int)
    requires
        forest_wf(s),
        0 <= i < s.len(),
    ensures
        0 <= root_in(s, i) <= i,
        s[root_in(s, i)]@ == root_in(s, i),
    decreases i,
{
    if s[i]@ < i {
        lemma_root(s, s[i]@ as int);
    }
}

/// Pointing `p` at its grandparent keeps every element's root.
proof fn lemma_halve(s: Seq<Meta>, p: int)
    requires
        forest_wf(s),
        0 <= p < s.len(),
    ensures
        forest_wf(s.update(p, s[s[p]@ as int])),
        forall|i: int| 0 <= i < s.len() ==> #[trigger] root_in(s.update(p, s[s[p]@ as int]), i) == root_in(s, i),
{
    let t = s.update(p, s[s[p]@ as int]);
    assert forall|i: int| 0 <= i < s.len() implies #[trigger] root_in(t, i) == root_in(s, i) by {
        lemma_halve_at(s, p, i);
    }
}

proof fn lemma_halve_at(s: Seq<Meta>, p: int, i: int)
    requires
        forest_wf(s),
        0 <= p < s.len(),
        0 <= i < s.len(),
    ensures
        root_in(s.update(p, s[s[p]@ as int]), i) == root_in(s, i),
    decreases i,
{
    let t = s.update(p, s[s[p]@ as int]);
    let q = s[p]@ as int;
    assert(s[p].wf() && s[p]@ <= p);
    if i == p {
        if q < p {
            let g = s[q]@ as int;
            assert(s[q].wf() && s[q]@ <= q);
            assert(root_in(s, p) == root_in(s, q));
            assert(t[p] == s[q]);
            if g < q {
                assert(root_in(s, q) == root_in(s, g));
                assert(root_in(t, p) == root_in(t, g));
                lemma_halve_at(s, p, g);
            } else {
                assert(root_in(t, p) == root_in(t, q));
                lemma_halve_at(s, p, q);
            }
        }
    } else if s[i]@ < i {
        assert(t[i] == s[i]);
        assert(root_in(t, i) == root_in(t, s[i]@ as int));
        lemma_halve_at(s, p, s[i]@ as int);
    }
}

/// Pointing the root `a` at the root `b` of smaller index moves the elements of `a`'s
/// set into `b`'s and keeps every other root.
proof fn lemma_link_at(s: Seq<Meta>, a: int, b: Meta, i: int)
    requires
        forest_wf(s),
        0 <= a < s.len(),
        s[a]@ == a,
        b.wf(),
        b@ < a,
        s[b@ as int]@ == b@,
        0 <= i < s.len(),
    ensures
        root_in(s.update(a, b), i) == if root_in(s, i) == a { b@ as int } else { root_in(s, i) },
    decreases i,
{
    let t = s.update(a, b);
    if i == a {
        assert(root_in(t, b@ as int) == b@);
    } else if s[i]@ < i {
        lemma_link_at(s, a, b, s[i]@ as int);
    }
}

impl Sets {
    /// The parents, by element index.
    pub closed spec fn view(self) -> Seq<Meta> {
        self.0@
    }

    /// The parent pointers form a forest with parents of smaller index.
    pub closed spec fn wf(self) -> bool {
        forest_wf(self.0@)
    }

    /// An empty forest with room for `capacity` elements.
    pub fn with_capacity(capacity: u32) -> (r: Self)
        ensures
            r.wf(),
            r@.len() == 0,
    {
        Sets(Vec::with_capacity(capacity as usize))
    }

    /// An empty forest.
    pub fn new() -> (r: Self)
        ensures
            r.wf(),
            r@.len() == 0,
    {
        Sets(Vec::new())
    }

    /// Adds an element in a set of its own, and returns it.
    pub fn make_set(&mut self) -> (r: Meta)
        requires
            old(self).wf(),
            old(self)@.len() < u32::MAX,
        ensures
            final(self).wf(),
            r@ == old(self)@.len(),
            final(self)@ == old(self)@.push(r),
            forall|i: int| 0 <= i < old(self)@.len() ==> #[trigger] root_in(final(self)@, i) == root_in(old(self)@, i),
            root_in(final(self)@, r@ as int) == r@,
    {
        let n = self.0.len() as u32;
        let id = Meta::new(n).unwrap();
        self.0.push(id);
        proof {
            let s = old(self)@;
            let t = self@;
            assert forall|i: int| 0 <= i < s.len() implies #[trigger] root_in(t, i) == root_in(s, i) by {
                lemma_push_root(s, id, i);
            }
        }
        id
    }

    /// The number of elements.
    pub fn len(&self) -> (r: u32)
        requires
            self.wf(),
        ensures
            r == self@.len(),
    {
        self.0.len() as u32
    }

    /// The room allocated for elements, capped at `u32::MAX`.
    pub fn capacity(&self) -> (r: u32)
        requires
            self.wf(),
        ensures
            r >= self@.len(),
    {
        let c = vec_capacity(&self.0);
        if c > u32::MAX as usize {
            u32::MAX
        } else {
            c as u32
        }
    }

    /// The parent of `p`.
    pub fn parent(&self, p: Meta) -> (r: Meta)
        requires
            self.wf(),
            p@ < self@.len(),
        ensures
            r == self@[p@ as int],
            r.wf(),
            r@ <= p@,
    {
        self.0[p.u32() as usize]
    }

    /// Points `p` at `q`.
    fn set_parent(&mut self, p: Meta, q: Meta)
        requires
            p@ < old(self)@.len(),
        ensures
            final(self)@ == old(self)@.update(p@ as int, q),
    {
        let i = p.u32() as usize;
        self.0.set(i, q);
    }

    /// The root of the set holding `p`, found without changing the forest.
    pub fn find(&self, p: Meta) -> (r: Meta)
        requires
            self.wf(),
            p@ < self@.len(),
        ensures
            r@ == root_in(self@, p@ as int),
            r == self@[r@ as int],
    {
        let mut p = p;
        proof {
            lemma_root(self@, p@ as int);
        }
        let ghost r0 = root_in(self@, p@ as int);
        while p != self.parent(p)
            invariant
                self.wf(),
                p@ < self@.len(),
                root_in(self@, p@ as int) == r0,
            decreases p@,
        {
            let q = self.parent(p);
            proof {
                lemma_meta_eq(p, q);
            }
            p = q;
        }
        proof {
            lemma_root(self@, p@ as int);
        }
        p
    }

    /// The root of the set holding `p`; on the way every visited element is pointed at
    /// its grandparent, which keeps all roots.
    pub fn find_mut(&mut self, p: Meta) -> (r: Meta)
        requires
            old(self).wf(),
            p@ < old(self)@.len(),
        ensures
            final(self).wf(),
            final(self)@.len() == old(self)@.len(),
            forall|i: int| 0 <= i < old(self)@.len() ==> #[trigger] root_in(final(self)@, i) == root_in(old(self)@, i),
            r@ == root_in(old(self)@, p@ as int),
            r == final(self)@[r@ as int],
    {
        let mut p = p;
        let ghost r0 = root_in(self@, p@ as int);
        while p != self.parent(p)
            invariant
                self.wf(),
                p@ < self@.len(),
                self@.len() == old(self)@.len(),
                forall|i: int| 0 <= i < old(self)@.len() ==> #[trigger] root_in(self@, i) == root_in(old(self)@, i),
                root_in(self@, p@ as int) == r0,
            decreases p@,
        {
            let pp = self.parent(p);
            let gp = self.parent(pp);
            let ghost s = self@;
            proof {
                lemma_meta_eq(p, pp);
                lemma_halve(s, p@ as int);
                assert(root_in(s, p@ as int) == root_in(s, pp@ as int));
                if gp@ < pp@ {
                    assert(root_in(s, pp@ as int) == root_in(s, gp@ as int));
                } else {
                    lemma_meta_eq(pp, gp);
                }
            }
            self.set_parent(p, gp);
            proof {
                assert(self@ == s.update(p@ as int, s[s[p@ as int]@ as int]));
                assert(root_in(self@, gp@ as int) == root_in(s, gp@ as int));
            }
            p = gp;
        }
        proof {
            lemma_root(self@, p@ as int);
        }
        p
    }

    /// Joins the sets holding `u` and `v`, and returns the root of the joined set. The
    /// root of larger index is pointed at the other.
    pub fn union(&mut self, u: Meta, v: Meta) -> (r: Meta)
        requires
            old(self).wf(),
            u@ < old(self)@.len(),
            v@ < old(self)@.len(),
        ensures
            final(self).wf(),
            final(self)@.len() == old(self)@.len(),
            forall|a: int, b: int|
                0 <= a < old(self)@.len() && 0 <= b < old(self)@.len() ==> (#[trigger] root_in(final(self)@, a) == #[trigger] root_in(final(self)@, b) <==> (
                same_in(old(self)@, a, b)
                    || (same_in(old(self)@, a, u@ as int) && same_in(old(self)@, b, v@ as int))
                    || (same_in(old(self)@, a, v@ as int) && same_in(old(self)@, b, u@ as int)))),
            r@ == root_in(final(self)@, u@ as int),
            r@ == root_in(final(self)@, v@ as int),
    {
        let ghost s0 = self@;
        proof {
            lemma_root(s0, u@ as int);
            lemma_root(s0, v@ as int);
        }
        let ru = self.find_mut(u);
        let rv = self.find_mut(v);
        let ghost s1 = self@;
        proof {
            lemma_root(s1, ru@ as int);
            lemma_root(s1, rv@ as int);
        }
        proof {
            assert(root_in(s1, u@ as int) == root_in(s0, u@ as int));
            assert(root_in(s1, v@ as int) == root_in(s0, v@ as int));
            assert(root_in(s1, ru@ as int) == root_in(s0, ru@ as int));
            lemma_root(s0, root_in(s0, u@ as int));
            lemma_root(s0, root_in(s0, v@ as int));
            assert(root_in(s0, ru@ as int) == ru@);
            assert(root_in(s1, rv@ as int) == root_in(s0, rv@ as int));
            assert(root_in(s0, rv@ as int) == rv@);
            assert(s1[ru@ as int]@ == ru@);
            assert(s1[rv@ as int]@ == rv@);
        }
        if ru == rv {
            proof {
                assert forall|a: int, b: int|
                    0 <= a < s0.len() && 0 <= b < s0.len() implies (#[trigger] root_in(self@, a) == #[trigger] root_in(self@, b) <==> (
                    root_in(s0, a) == root_in(s0, b)
                        || (root_in(s0, a) == root_in(s0, u@ as int) && root_in(s0, b) == root_in(s0, v@ as int))
                        || (root_in(s0, a) == root_in(s0, v@ as int) && root_in(s0, b) == root_in(s0, u@ as int)))) by {
                    assert(root_in(s1, a) == root_in(s0, a));
                    assert(root_in(s1, b) == root_in(s0, b));
                }
            }
            return ru;
        }
        proof {
            lemma_meta_neq(ru, rv);
        }
        if ru.u32() < rv.u32() {
            self.set_parent(rv, ru);
            proof {
                assert forall|i: int| 0 <= i < s1.len() implies #[trigger] root_in(self@, i) == if root_in(s0, i) == rv@ { ru@ as int } else { root_in(s0, i) } by {
                    lemma_link_at(s1, rv@ as int, ru, i);
                    assert(root_in(s1, i) == root_in(s0, i));
                }
                assert(forest_wf(self@));
                assert forall|a: int, b: int|
                    0 <= a < s0.len() && 0 <= b < s0.len() implies (#[trigger] root_in(self@, a) == #[trigger] root_in(self@, b) <==> (
                    root_in(s0, a) == root_in(s0, b)
                        || (root_in(s0, a) == root_in(s0, u@ as int) && root_in(s0, b) == root_in(s0, v@ as int))
                        || (root_in(s0, a) == root_in(s0, v@ as int) && root_in(s0, b) == root_in(s0, u@ as int)))) by {
                    lemma_root(s0, a);
                    lemma_root(s0, b);
                }
            }
            ru
        } else {
            self.set_parent(ru, rv);
            proof {
                assert forall|i: int| 0 <= i < s1.len() implies #[trigger] root_in(self@, i) == if root_in(s0, i) == ru@ { rv@ as int } else { root_in(s0, i) } by {
                    lemma_link_at(s1, ru@ as int, rv, i);
                    assert(root_in(s1, i) == root_in(s0, i));
                }
                assert(forest_wf(self@));
                assert forall|a: int, b: int|
                    0 <= a < s0.len() && 0 <= b < s0.len() implies (#[trigger] root_in(self@, a) == #[trigger] root_in(self@, b) <==> (
                    root_in(s0, a) == root_in(s0, b)
                        || (root_in(s0, a) == root_in(s0, u@ as int) && root_in(s0, b) == root_in(s0, v@ as int))
                        || (root_in(s0, a) == root_in(s0, v@ as int) && root_in(s0, b) == root_in(s0, u@ as int)))) by {
                    lemma_root(s0, a);
                    lemma_root(s0, b);
                }
            }
            rv
        }
    }

    /// `union`, then `find_mut` on the returned element.
    pub fn union_find(&mut self, u: Meta, v: Meta) -> (r: Meta)
        requires
            old(self).wf(),
            u@ < old(self)@.len(),
            v@ < old(self)@.len(),
        ensures
            final(self).wf(),
            final(self)@.len() == old(self)@.len(),
            forall|a: int, b: int|
                0 <= a < old(self)@.len() && 0 <= b < old(self)@.len() ==> (#[trigger] root_in(final(self)@, a) == #[trigger] root_in(final(self)@, b) <==> (
                same_in(old(self)@, a, b)
                    || (same_in(old(self)@, a, u@ as int) && same_in(old(self)@, b, v@ as int))
                    || (same_in(old(self)@, a, v@ as int) && same_in(old(self)@, b, u@ as int)))),
            r@ == root_in(final(self)@, u@ as int),
            r == final(self)@[r@ as int],
    {
        let ghost s0 = self@;
        let w = self.union(u, v);
        let ghost s1 = self@;
        proof {
            lemma_root(s1, u@ as int);
        }
        let r = self.find_mut(w);
        proof {
            assert forall|a: int, b: int|
                0 <= a < s0.len() && 0 <= b < s0.len() implies (#[trigger] root_in(self@, a) == #[trigger] root_in(self@, b) <==> (
                root_in(s0, a) == root_in(s0, b)
                    || (root_in(s0, a) == root_in(s0, u@ as int) && root_in(s0, b) == root_in(s0, v@ as int))
                    || (root_in(s0, a) == root_in(s0, v@ as int) && root_in(s0, b) == root_in(s0, u@ as int)))) by {
                assert(root_in(self@, a) == root_in(s1, a));
                assert(root_in(self@, b) == root_in(s1, b));
            }
            assert(root_in(self@, u@ as int) == root_in(s1, u@ as int));
        }
        r
    }

    /// Whether `u` and `v` are in the same set; the forest may be compressed on the way.
    pub fn same(&mut self, u: Meta, v: Meta) -> (r: bool)
        requires
            old(self).wf(),
            u@ < old(self)@.len(),
            v@ < old(self)@.len(),
        ensures
            final(self).wf(),
            final(self)@.len() == old(self)@.len(),
            forall|i: int| 0 <= i < old(self)@.len() ==> #[trigger] root_in(final(self)@, i) == root_in(old(self)@, i),
            r == same_in(old(self)@, u@ as int, v@ as int),
    {
        let ru = self.find_mut(u);
        let rv = self.find_mut(v);
        proof {
            lemma_meta_eq(ru, rv);
        }
        ru == rv
    }
}

/// Adding an element keeps the roots of the others.
proof fn lemma_push_root(s: Seq<Meta>, id: Meta, i: int)
    requires
        forest_wf(s),
        0 <= i < s.len(),
    ensures
        root_in(s.push(id), i) == root_in(s, i),
    decreases i,
{
    if s[i]@ < i {
        lemma_push_root(s, id, s[i]@ as int);
    }
}

/// Metaentifiers are equal exactly when their indices are.
proof fn lemma_meta_eq(a: Meta, b: Meta)
    ensures
        (a == b) <==> (a@ == b@),
{
    Meta::lemma_view_injective(a, b);
}

proof fn lemma_meta_neq(a: Meta, b: Meta)
    requires
        a != b,
    ensures
        a@ != b@,
{
    Meta::lemma_view_injective(a, b);
}

} // verus!
