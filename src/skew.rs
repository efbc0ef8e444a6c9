//! Skew-binary random-access lists: constant-time `cons` and `uncons`,
//! logarithmic indexing and dropping.
use std::rc::Rc;
use vstd::prelude::*;

use crate::clone_exact;

verus! {

/// A tree node: an element and either no subtree or two subtrees.
#[derive(Debug, PartialEq, Eq)]
struct Node<T>(T, Option<Rc<Node<T>>>, Option<Rc<Node<T>>>);

/// One cell of the spine: a complete tree of `size` elements, then the rest of the spine.
#[derive(Debug, PartialEq, Eq)]
struct Cell<T> {
    size: usize,
    tree: Rc<Node<T>>,
    rest: Option<Rc<Cell<T>>>,
}

/// A sequence stored as a spine of complete binary trees whose sizes have the form
/// `2^k - 1` and grow along the spine; only the first two may be equal.
#[derive(Debug, PartialEq, Eq)]
pub struct Skew<T>(Option<Rc<Cell<T>>>);

/// The elements of a tree in preorder: the root, then the left, then the right subtree.
spec fn elems<T>(t: Node<T>) -> Seq<T>
    decreases t,
{
    match t.1 {
        Some(l) => match t.2 {
            Some(r) => seq![t.0] + elems(*l) + elems(*r),
            None => seq![t.0],
        },
        None => seq![t.0],
    }
}

/// The tree is complete and holds `size` elements.
spec fn complete<T>(t: Node<T>, size: nat) -> bool
    decreases t,
{
    match t.1 {
        Some(l) => match t.2 {
            Some(r) => size >= 3 && size % 2 == 1 && complete(*l, size / 2) && complete(*r, size / 2),
            None => false,
        },
        None => t.2.is_none() && size == 1,
    }
}

/// `s` has the form `2^k - 1` with `k >= 1`.
spec fn full(s: nat) -> bool
    decreases s,
{
    if s <= 1 {
        s == 1
    } else {
        s % 2 == 1 && full(s / 2)
    }
}

/// The elements of a spine, tree after tree.
spec fn spine<T>(o: Option<Rc<Cell<T>>>) -> Seq<T>
    decreases o,
{
    match o {
        None => Seq::empty(),
        Some(c) => elems(*c.tree) + spine(c.rest),
    }
}

/// The elements of the tree behind `t`.
spec fn tree_elems<T>(t: &Rc<Node<T>>) -> Seq<T> {
    elems(**t)
}

/// The elements of the spine behind `x`.
spec fn spine_at<T>(x: &Option<Rc<Cell<T>>>) -> Seq<T> {
    spine(*x)
}

/// Every cell of the spine holds a complete tree of its size, and the sizes are above `lo`
/// and strictly growing.
spec fn above<T>(o: Option<Rc<Cell<T>>>, lo: nat) -> bool
    decreases o,
{
    match o {
        None => true,
        Some(c) => lo < c.size && complete(*c.tree, c.size as nat) && above(c.rest, c.size as nat),
    }
}

/// A well-formed spine: complete trees, sizes growing, the first two possibly equal.
spec fn spine_wf<T>(o: Option<Rc<Cell<T>>>) -> bool {
    match o {
        None => true,
        Some(c) => complete(*c.tree, c.size as nat) && above(c.rest, (c.size - 1) as nat),
    }
}

proof fn lemma_complete_len<T>(t: Node<T>, size: nat)
    requires
        complete(t, size),
    ensures
        elems(t).len() == size,
        full(size),
    decreases t,
{
    match t.1 {
        Some(l) => match t.2 {
            Some(r) => {
                let ghost lt: Node<T> = *l;
                let ghost rt: Node<T> = *r;
                lemma_complete_len(lt, size / 2);
                lemma_complete_len(rt, size / 2);
            },
            None => {},
        },
        None => {},
    }
}

proof fn lemma_full_gap(a: nat, b: nat)
    requires
        full(a),
        full(b),
        a < b,
    ensures
        2 * a + 1 <= b,
    decreases b,
{
    if a > 1 {
        lemma_full_gap(a / 2, b / 2);
    }
}

proof fn lemma_above_weaken<T>(o: Option<Rc<Cell<T>>>, lo: nat, lo2: nat)
    requires
        above(o, lo),
        lo2 <= lo,
    ensures
        above(o, lo2),
{
}

proof fn lemma_above_wf<T>(o: Option<Rc<Cell<T>>>, lo: nat)
    requires
        above(o, lo),
    ensures
        spine_wf(o),
{
    match o {
        None => {},
        Some(c) => {
            let ghost rest = c.rest;
            lemma_above_weaken(rest, c.size as nat, (c.size - 1) as nat);
        },
    }
}

impl<T> View for Skew<T> {
    type V = Seq<T>;

    closed spec fn view(&self) -> Seq<T> {
        spine(self.0)
    }
}

impl<T> Skew<T> {
    /// The list is well formed, and its length fits in a `usize`.
    pub closed spec fn wf(&self) -> bool {
        spine_wf(self.0) && spine(self.0).len() <= usize::MAX
    }
}

#[inline]
fn tip<T>(a: T) -> (r: Rc<Node<T>>)
    ensures
        complete(*r, 1),
        elems(*r) == seq![a],
{
    Rc::new(Node(a, None, None))
}

#[inline]
fn bin<T>(a: T, l: Rc<Node<T>>, r: Rc<Node<T>>) -> (t: Rc<Node<T>>)
    ensures
        elems(*t) == seq![a] + elems(*l) + elems(*r),
        forall|s: nat| s >= 1 && complete(*l, s) && complete(*r, s) ==> complete(*t, 2 * s + 1),
{
    Rc::new(Node(a, Some(l), Some(r)))
}

#[inline]
fn cell<T>(size: usize, tree: Rc<Node<T>>, rest: Option<Rc<Cell<T>>>) -> (r: Option<Rc<Cell<T>>>)
    ensures
        r == Some(Rc::new(Cell { size, tree, rest })),
        spine(r) == elems(*tree) + spine(rest),
{
    Some(Rc::new(Cell { size, tree, rest }))
}

/// Shares the same cells.
fn share<T>(o: &Option<Rc<Cell<T>>>) -> (r: Option<Rc<Cell<T>>>)
    ensures
        r == *o,
{
    match o {
        None => None,
        Some(c) => Some(c.clone()),
    }
}

/// The list with `head` in front of `tail`.
pub fn cons<T>(head: T, tail: Skew<T>) -> (r: Skew<T>)
    requires
        tail.wf(),
        tail@.len() < usize::MAX,
    ensures
        r.wf(),
        r@ == seq![head] + tail@,
{
    let ghost h = head;
    Skew(
        match tail.0.as_ref() {
            Some(c0) => match c0.rest.as_ref() {
                Some(c1) if c0.size == c1.size => {
                    proof {
                        let ghost t0: Node<T> = *c0.tree;
                        let ghost t1: Node<T> = *c1.tree;
                        let ghost rest1 = c1.rest;
                        assert(tail.0 == Some(*c0));
                        assert(c0.rest == Some(*c1));
                        assert(spine(c0.rest) == elems(*c1.tree) + spine(c1.rest));
                        assert(above(c0.rest, (c0.size - 1) as nat));
                        assert(above(c1.rest, c1.size as nat));
                        lemma_complete_len(t0, c0.size as nat);
                        lemma_complete_len(t1, c1.size as nat);
                        assert(tail@ =~= elems(*c0.tree) + (elems(*c1.tree) + spine(c1.rest)));
                        match rest1 {
                            Some(c2) => {
                                let ghost t2: Node<T> = *c2.tree;
                                lemma_complete_len(t2, c2.size as nat);
                                lemma_full_gap(c1.size as nat, c2.size as nat);
                            },
                            None => {},
                        }
                        assert(above(c1.rest, 2 * c1.size as nat));
                    }
                    let t = bin(head, c0.tree.clone(), c1.tree.clone());
                    let r = cell(c0.size + c1.size + 1, t, share(&c1.rest));
                    proof {
                        assert(spine(r) =~= seq![h] + tail@);
                        assert(complete(*t, (2 * c0.size + 1) as nat));
                        assert(spine_wf(r));
                    }
                    r
                },
                _ => {
                    proof {
                        let ghost t0: Node<T> = *c0.tree;
                        lemma_complete_len(t0, c0.size as nat);
                        assert(tail.0 == Some(*c0));
                        assert(above(c0.rest, (c0.size - 1) as nat));
                        assert(above(c0.rest, c0.size as nat));
                        assert(above(tail.0, 0));
                    }
                    cell(1, tip(head), tail.0)
                },
            },
            _ => cell(1, tip(head), tail.0),
        },
    )
}

/// The empty list.
pub fn nil<T>() -> (r: Skew<T>)
    ensures
        r.wf(),
        r@ == Seq::<T>::empty(),
{
    Skew(None)
}

/// The element at index `k` of a complete tree of `ts` elements: each step halves the
/// size, and compares the index with the half size to pick the subtree.
fn at_tree<T>(k: usize, ts: usize, t: &Rc<Node<T>>) -> (r: Option<&T>)
    requires
        complete(**t, ts as nat),
    ensures
        k < ts ==> (r matches Some(v) && *v == elems(**t)[k as int]),
        k >= ts ==> r is None,
    decreases ts,
{
    proof {
        let ghost cur: Node<T> = **t;
        lemma_complete_len(cur, ts as nat);
    }
    let half = ts / 2;
    match &**t {
        Node(a, ml, mr) => {
            if k == 0 {
                return Some(a);
            }
            if k - 1 < half {
                match ml {
                    Some(lt) => {
                        proof {
                            let ghost l: Node<T> = **lt;
                            let ghost r: Node<T> = *mr.unwrap();
                            lemma_complete_len(l, half as nat);
                            assert(elems(**t) =~= seq![*a] + elems(l) + elems(r));
                        }
                        at_tree(k - 1, half, lt)
                    },
                    None => None,
                }
            } else {
                match mr {
                    Some(rt) => {
                        proof {
                            let ghost l: Node<T> = *ml.unwrap();
                            let ghost r: Node<T> = **rt;
                            lemma_complete_len(l, half as nat);
                            assert(elems(**t) =~= seq![*a] + elems(l) + elems(r));
                        }
                        at_tree(k - 1 - half, half, rt)
                    },
                    None => None,
                }
            }
        },
    }
}

/// The element at index `k` of a spine: whole cells are skipped by their size.
fn at_spine<T>(x: &Option<Rc<Cell<T>>>, k: usize) -> (r: Option<&T>)
    requires
        spine_wf(*x),
    ensures
        k < spine(*x).len() ==> (r matches Some(v) && *v == spine(*x)[k as int]),
        k >= spine(*x).len() ==> r is None,
{
    let ghost whole = spine_at(x);
    let mut cur = x;
    let mut i = k;
    loop
        invariant
            spine_wf(*cur),
            i <= k,
            whole == spine(*x),
            k - i <= whole.len(),
            spine(*cur) == whole.skip(k - i),
        decreases spine(*cur).len(),
    {
        match cur.as_ref() {
            None => {
                proof {
                    assert(spine(*cur).len() == 0);
                }
                return None;
            },
            Some(c) => {
                proof {
                    let ghost tr: Node<T> = *c.tree;
                    let ghost rest = c.rest;
                    lemma_complete_len(tr, c.size as nat);
                    lemma_above_wf(rest, (c.size - 1) as nat);
                    assert(*cur == Some(*c));
                    assert(spine(*cur) =~= elems(*c.tree) + spine(c.rest));
                }
                if c.size <= i {
                    proof {
                        assert(spine(c.rest) =~= spine(*cur).skip(c.size as int));
                        assert(spine(c.rest) =~= whole.skip(k - (i - c.size)));
                    }
                    i = i - c.size;
                    cur = &c.rest;
                } else {
                    proof {
                        assert(spine(*cur)[i as int] == elems(*c.tree)[i as int]);
                    }
                    return at_tree(i, c.size, &c.tree);
                }
            },
        }
    }
}

/// The cells left after dropping the first `k` elements of a complete tree of `ts`
/// elements that stands in front of `rest`: the subtrees passed on the way down
/// become cells of their own.
fn drop_tree<T>(k: usize, ts: usize, t: &Rc<Node<T>>, rest: Option<Rc<Cell<T>>>) -> (r: Option<Rc<Cell<T>>>)
    requires
        complete(**t, ts as nat),
        0 < k < ts,
        above(rest, (ts / 2) as nat),
    ensures
        spine_wf(r),
        spine(r) == elems(**t).skip(k as int) + spine(rest),
    decreases ts,
{
    let half = ts / 2;
    match &**t {
        Node(_, Some(l), Some(r)) => {
            proof {
                let ghost lt: Node<T> = **l;
                let ghost rt: Node<T> = **r;
                lemma_complete_len(lt, half as nat);
                lemma_complete_len(rt, half as nat);
                assert(elems(**t) =~= seq![t.0] + elems(lt) + elems(rt));
            }
            let bnd = 1 + half;
            if k < bnd {
                let rest2 = cell(half, r.clone(), rest);
                if k == 1 {
                    let res = cell(half, l.clone(), rest2);
                    proof {
                        assert(spine(res) =~= elems(**t).skip(k as int) + spine(rest));
                        assert(above(rest2, (half - 1) as nat));
                    }
                    res
                } else {
                    let res = drop_tree(k - 1, half, l, rest2);
                    proof {
                        assert(elems(**t).skip(k as int) =~= elems(**l).skip(k - 1) + elems(**r));
                    }
                    res
                }
            } else if k == bnd {
                proof {
                    lemma_above_weaken(rest, half as nat, (half - 1) as nat);
                    assert(elems(**t).skip(k as int) =~= elems(**r));
                }
                cell(half, r.clone(), rest)
            } else {
                proof {
                    lemma_above_weaken(rest, half as nat, (half / 2) as nat);
                    assert(elems(**t).skip(k as int) =~= elems(**r).skip(k - bnd));
                }
                drop_tree(k - bnd, half, r, rest)
            }
        },
        _ => rest,
    }
}

/// The spine left after dropping its first `k` elements: whole cells are skipped by
/// their size, and the cell holding the cut is split by `drop_tree`.
fn drop_spine<T>(x: &Option<Rc<Cell<T>>>, k: usize) -> (r: Option<Rc<Cell<T>>>)
    requires
        spine_wf(*x),
    ensures
        spine_wf(r),
        k <= spine(*x).len() ==> spine(r) == spine(*x).skip(k as int),
        k > spine(*x).len() ==> spine(r) == Seq::<T>::empty(),
{
    if k == 0 {
        proof {
            assert(spine(*x).skip(0) =~= spine(*x));
        }
        return share(x);
    }
    let ghost whole = spine_at(x);
    let mut cur = x;
    let mut i = k;
    loop
        invariant
            spine_wf(*cur),
            0 < i <= k,
            whole == spine(*x),
            k - i <= whole.len(),
            spine(*cur) == whole.skip(k - i),
        decreases spine(*cur).len(),
    {
        match cur.as_ref() {
            None => {
                proof {
                    assert(spine(*cur).len() == 0);
                }
                return None;
            },
            Some(c) => {
                proof {
                    let ghost tr: Node<T> = *c.tree;
                    let ghost rest = c.rest;
                    lemma_complete_len(tr, c.size as nat);
                    lemma_above_wf(rest, (c.size - 1) as nat);
                    assert(*cur == Some(*c));
                    assert(spine(*cur) =~= elems(*c.tree) + spine(c.rest));
                    assert(spine(c.rest) =~= spine(*cur).skip(c.size as int));
                }
                if c.size < i {
                    proof {
                        assert(spine(c.rest) =~= whole.skip(k - (i - c.size)));
                    }
                    i = i - c.size;
                    cur = &c.rest;
                } else if c.size == i {
                    proof {
                        assert(spine(c.rest) =~= whole.skip(k as int));
                    }
                    return share(&c.rest);
                } else {
                    proof {
                        let ghost rest = c.rest;
                        lemma_above_weaken(rest, (c.size - 1) as nat, (c.size / 2) as nat);
                        assert(whole.skip(k as int) =~= spine(*cur).skip(i as int));
                        assert(elems(*c.tree).skip(i as int) + spine(c.rest) =~= spine(*cur).skip(i as int));
                    }
                    return drop_tree(i, c.size, &c.tree, share(&c.rest));
                }
            },
        }
    }
}

impl<T> Skew<T> {
    /// The empty list.
    pub fn new() -> (r: Skew<T>)
        ensures
            r.wf(),
            r@ == Seq::<T>::empty(),
    {
        Skew(None)
    }

    /// The first element and the rest of the list, or `None` on the empty list.
    ///
    /// A tree with subtrees is split into two cells of half size.
    pub fn uncons(&self) -> (r: Option<(&T, Skew<T>)>)
        requires
            self.wf(),
        ensures
            match r {
                None => self@.len() == 0,
                Some((x, t)) => self@.len() > 0 && *x == self@[0] && t.wf() && t@ == self@.drop_first(),
            },
    {
        match self.0.as_ref() {
            None => None,
            Some(c) => {
                proof {
                    let ghost tr: Node<T> = *c.tree;
                    assert(self.0 == Some(*c));
                    lemma_complete_len(tr, c.size as nat);
                }
                match &*c.tree {
                    Node(a, Some(l), Some(r)) => {
                        let branch_size = c.size / 2;
                        proof {
                            let ghost lt: Node<T> = **l;
                            let ghost rest = c.rest;
                            lemma_complete_len(lt, branch_size as nat);
                            lemma_above_weaken(rest, (c.size - 1) as nat, branch_size as nat);
                        }
                        let inner = cell(branch_size, r.clone(), share(&c.rest));
                        let outer = cell(branch_size, l.clone(), inner);
                        proof {
                            assert(spine(outer) =~= self@.drop_first());
                            assert(above(inner, (branch_size - 1) as nat));
                        }
                        Some((a, Skew(outer)))
                    },
                    Node(a, _, _) => {
                        proof {
                            let ghost rest = c.rest;
                            lemma_above_wf(rest, (c.size - 1) as nat);
                            assert(spine(c.rest) =~= self@.drop_first());
                        }
                        Some((a, Skew(share(&c.rest))))
                    },
                }
            },
        }
    }

    /// The element at index `n`, or `None` when `n` is not below the length.
    pub fn at(&self, n: usize) -> (r: Option<&T>)
        requires
            self.wf(),
        ensures
            n < self@.len() ==> (r matches Some(v) && *v == self@[n as int]),
            n >= self@.len() ==> r is None,
    {
        at_spine(&self.0, n)
    }

    /// The list without its first `n` elements; empty when `n` is past the end.
    pub fn drop(&self, n: usize) -> (r: Skew<T>)
        requires
            self.wf(),
        ensures
            r.wf(),
            n <= self@.len() ==> r@ == self@.skip(n as int),
            n > self@.len() ==> r@ == Seq::<T>::empty(),
    {
        Skew(drop_spine(&self.0, n))
    }

    /// The number of elements, summed cell by cell.
    pub fn len(&self) -> (r: usize)
        requires
            self.wf(),
        ensures
            r == self@.len(),
    {
        let mut total: usize = 0;
        let mut cur = &self.0;
        loop
            invariant
                spine_wf(*cur),
                total + spine(*cur).len() == self@.len(),
                self@.len() <= usize::MAX,
            decreases spine(*cur).len(),
        {
            match cur.as_ref() {
                None => {
                    proof {
                        assert(spine(*cur).len() == 0);
                    }
                    return total;
                },
                Some(c) => {
                    proof {
                        let ghost tr: Node<T> = *c.tree;
                        let ghost rest = c.rest;
                        lemma_complete_len(tr, c.size as nat);
                        lemma_above_wf(rest, (c.size - 1) as nat);
                        assert(*cur == Some(*c));
                        assert(spine(*cur) =~= elems(*c.tree) + spine(c.rest));
                    }
                    total = total + c.size;
                    cur = &c.rest;
                },
            }
        }
    }

    /// Whether the list has no element.
    pub fn is_empty(&self) -> (r: bool)
        requires
            self.wf(),
        ensures
            r == (self@.len() == 0),
    {
        match &self.0 {
            None => true,
            Some(c) => {
                proof {
                    let ghost tr: Node<T> = *c.tree;
                    lemma_complete_len(tr, c.size as nat);
                    assert(self.0 == Some(*c));
                }
                false
            },
        }
    }
}

impl<T: Clone> Skew<T> {
    /// The list in reverse order, built by moving the elements one by one onto an
    /// empty list.
    pub fn reverse(self) -> (r: Skew<T>)
        requires
            clone_exact::<T>(),
            self.wf(),
        ensures
            r.wf(),
            r@ == self@.reverse(),
    {
        let mut acc = nil();
        let mut rest = self;
        let ghost n = self@.len();
        loop
            invariant
                clone_exact::<T>(),
                acc.wf(),
                rest.wf(),
                acc@.len() + rest@.len() == n,
                n == self@.len(),
                n <= usize::MAX,
                acc@ == self@.take(acc@.len() as int).reverse(),
                rest@ == self@.skip(acc@.len() as int),
            decreases rest@.len(),
        {
            match rest.uncons() {
                None => {
                    proof {
                        assert(self@.take(acc@.len() as int) =~= self@);
                    }
                    return acc;
                },
                Some((y, ys)) => {
                    let ghost i: int = acc@.len() as int;
                    let x = y.clone();
                    acc = cons(x, acc);
                    rest = ys;
                    proof {
                        assert(self@.take(i + 1) =~= self@.take(i).push(self@[i]));
                        assert(acc@ =~= self@.take(i + 1).reverse());
                        assert(rest@ =~= self@.skip(i + 1));
                    }
                },
            }
        }
    }

    /// Removes and returns the first element; `None` once the list is empty.
    pub fn next(&mut self) -> (r: Option<T>)
        requires
            clone_exact::<T>(),
            old(self).wf(),
        ensures
            final(self).wf(),
            match r {
                None => old(self)@.len() == 0 && final(self)@ == old(self)@,
                Some(x) => old(self)@.len() > 0 && x == old(self)@[0] && final(self)@ == old(self)@.drop_first(),
            },
    {
        let (h, t) = match self.uncons() {
            None => return None,
            Some((h, t)) => (h.clone(), t),
        };
        *self = t;
        Some(h)
    }

    /// The elements, first to last: the sequence that a serializer writes.
    pub fn to_vec(&self) -> (r: Vec<T>)
        requires
            clone_exact::<T>(),
            self.wf(),
        ensures
            r@ == self@,
    {
        let mut out: Vec<T> = Vec::new();
        let mut rest = self.clone();
        loop
            invariant
                clone_exact::<T>(),
                rest.wf(),
                self.wf(),
                out@ + rest@ == self@,
            decreases rest@.len(),
        {
            match rest.next() {
                None => {
                    proof {
                        assert(out@ =~= self@);
                    }
                    return out;
                },
                Some(x) => {
                            out.push(x);
                    proof {
                        assert(out@ + rest@ =~= self@);
                    }
                },
            }
        }
    }

    /// The list of the given elements, first to last, built as a deserializer reads
    /// a sequence: each element is put in front, and the result is reversed once.
    pub fn from_vec(v: Vec<T>) -> (r: Skew<T>)
        requires
            clone_exact::<T>(),
        ensures
            r.wf(),
            r@ == v@,
    {
        let mut xs = nil();
        let mut i: usize = 0;
        while i < v.len()
            invariant
                clone_exact::<T>(),
                xs.wf(),
                i <= v@.len(),
                xs@ == v@.take(i as int).reverse(),
            decreases v@.len() - i,
        {
            let x = v[i].clone();
            xs = cons(x, xs);
            proof {
                assert(v@.take(i + 1) =~= v@.take(i as int).push(v@[i as int]));
                assert(xs@ =~= v@.take(i + 1).reverse());
            }
            i = i + 1;
        }
        let r = xs.reverse();
        proof {
            assert(v@.take(v@.len() as int) =~= v@);
            assert(r@ =~= v@);
        }
        r
    }
}

/// One operation on a list used as a stack: put an element in front, or take the
/// first one off.
pub enum StackOp<T> {
    Push(T),
    Pop,
}

/// The reference model of a run of stack operations: a sequence that inserts at
/// index 0 and removes index 0 (a removal from the empty sequence changes nothing).
pub open spec fn model_after<T>(m: Seq<T>, ops: Seq<StackOp<T>>) -> Seq<T>
    decreases ops.len(),
{
    if ops.len() == 0 {
        m
    } else {
        let next = match ops[0] {
            StackOp::Push(x) => m.insert(0, x),
            StackOp::Pop => if m.len() > 0 {
                m.remove(0)
            } else {
                m
            },
        };
        model_after(next, ops.drop_first())
    }
}

/// Any run of `cons` and `uncons` on a list follows the reference model: when
/// `lists[i + 1]` is what the `i`-th operation makes of `lists[i]`, as the contracts of
/// `cons` and `uncons` describe it, the last list holds what the model holds.
pub proof fn lemma_cons_uncons_follow_model<T>(lists: Seq<Skew<T>>, ops: Seq<StackOp<T>>)
    requires
        lists.len() == ops.len() + 1,
        forall|i: int|
            0 <= i < ops.len() ==> match #[trigger] ops[i] {
                StackOp::Push(x) => lists[i + 1]@ == seq![x] + lists[i]@,
                StackOp::Pop => lists[i + 1]@ == if lists[i]@.len() > 0 {
                    lists[i]@.drop_first()
                } else {
                    lists[i]@
                },
            },
    ensures
        lists.last()@ == model_after(lists[0]@, ops),
    decreases ops.len(),
{
    if ops.len() > 0 {
        let rest = lists.drop_first();
        let ops2 = ops.drop_first();
        assert forall|i: int| 0 <= i < ops2.len() implies match #[trigger] ops2[i] {
            StackOp::Push(x) => rest[i + 1]@ == seq![x] + rest[i]@,
            StackOp::Pop => rest[i + 1]@ == if rest[i]@.len() > 0 {
                rest[i]@.drop_first()
            } else {
                rest[i]@
            },
        } by {
            assert(ops2[i] == ops[i + 1]);
        }
        lemma_cons_uncons_follow_model(rest, ops2);
        let m = lists[0]@;
        match ops[0] {
            StackOp::Push(x) => {
                assert(seq![x] + m =~= m.insert(0, x));
            },
            StackOp::Pop => {
                if m.len() > 0 {
                    assert(m.drop_first() =~= m.remove(0));
                }
            },
        }
        assert(rest.last() == lists.last());
    }
}

/// Serializing and deserializing give back the same list: `to_vec` lists the
/// elements of `xs` first to last, and `from_vec` rebuilds from them a list `ys`
/// holding them in that order.
pub proof fn lemma_round_trip<T>(xs: Skew<T>, v: Vec<T>, ys: Skew<T>)
    requires
        v@ == xs@,
        ys@ == v@,
    ensures
        ys@ == xs@,
{
}

impl<T> Default for Skew<T> {
    /// The empty list.
    fn default() -> (r: Self)
        ensures
            r.wf(),
            r@ == Seq::<T>::empty(),
    {
        Skew(None)
    }
}

impl<T> Clone for Skew<T> {
    /// Shares the same cells.
    fn clone(&self) -> (r: Self)
        ensures
            r == *self,
    {
        Skew(share(&self.0))
    }
}

} // verus!
