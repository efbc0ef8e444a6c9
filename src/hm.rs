//! Real-time FIFO queues (Hood-Melville): every operation does a bounded amount
//! of work, by spreading the reversal of the rear list over later operations.
use vstd::prelude::*;

use crate::clone_exact;
use crate::list::List;

verus! {

/// The work left after two automaton steps: every operation on a queue advances a
/// running rotation by two steps, after the step that a removal takes back.
pub open spec fn two_steps_less(w: nat) -> nat {
    if w >= 2 {
        (w - 2) as nat
    } else {
        0
    }
}

/// The rotation automaton that rebuilds the front list in the background.
///
/// `Reversing(ok, a, fp, c, rp)` walks the old front `a` onto `fp` and the old rear
/// `c` onto `rp` in lockstep, `ok` counting the walked front elements still valid;
/// `Appending(ok, fp, rp)` moves the `ok` valid elements of `fp` onto `rp`;
/// `Done(nf)` holds the new front.
enum Rot<A> {
    Idle,
    Reversing(usize, List<A>, List<A>, List<A>, List<A>),
    Appending(usize, List<A>, List<A>),
    Done(List<A>),
}

impl<A> Rot<A> {
    /// The number of automaton steps left until the rotation is done.
    spec fn work(self) -> nat {
        match self {
            Rot::Reversing(ok, a, _, _, _) => (2 * a@.len() + ok + 2) as nat,
            Rot::Appending(ok, _, _) => ok as nat + 1,
            _ => 0,
        }
    }

    /// The automaton state is consistent with a visible front `f` and the
    /// elements `pend` that the rotation will append behind it.
    spec fn inv(self, f: Seq<A>, pend: Seq<A>) -> bool {
        match self {
            Rot::Idle => pend.len() == 0,
            Rot::Reversing(ok, a, fp, c, rp) => {
                &&& c@.len() == a@.len() + 1
                &&& fp@.len() == rp@.len()
                &&& ok <= fp@.len()
                &&& f == fp@.take(ok as int).reverse() + a@
                &&& pend == c@.reverse() + rp@
            },
            Rot::Appending(ok, fp, rp) => {
                &&& ok <= fp@.len()
                &&& pend.len() <= rp@.len()
                &&& pend == rp@.skip(rp@.len() - pend.len())
                &&& f == fp@.take(ok as int).reverse() + rp@.take(rp@.len() - pend.len())
            },
            Rot::Done(nf) => nf@ == f + pend,
        }
    }

    /// `r` is the state one step after `self`: the front is walked onto `fp` and the
    /// rear reversed onto `rp` in lockstep; the last rear element starts the appending;
    /// the valid walked elements are moved onto `rp` one by one; then the rotation is done.
    spec fn stepped(self, r: Rot<A>) -> bool {
        match self {
            Rot::Reversing(ok, a, fp, c, rp) => if a@.len() > 0 {
                &&& r matches Rot::Reversing(ok2, a2, fp2, c2, rp2)
                &&& ok2 == ok + 1
                &&& a2@ == a@.drop_first()
                &&& fp2@ == seq![a@[0]] + fp@
                &&& c2@ == c@.drop_first()
                &&& rp2@ == seq![c@[0]] + rp@
            } else {
                &&& r matches Rot::Appending(ok2, fp2, rp2)
                &&& ok2 == ok
                &&& fp2 == fp
                &&& rp2@ == seq![c@[0]] + rp@
            },
            Rot::Appending(ok, fp, rp) => if ok == 0 {
                r == Rot::Done(rp)
            } else {
                &&& r matches Rot::Appending(ok2, fp2, rp2)
                &&& ok2 == ok - 1
                &&& fp2@ == fp@.drop_first()
                &&& rp2@ == seq![fp@[0]] + rp@
            },
            _ => r == self,
        }
    }

    /// `r` is `self` with one walked step taken back after the first element of the
    /// visible front was removed.
    spec fn invalidated(self, r: Rot<A>) -> bool {
        match self {
            Rot::Reversing(ok, a, fp, c, rp) => r == Rot::Reversing((ok - 1) as usize, a, fp, c, rp),
            Rot::Appending(ok, fp, rp) => if ok == 0 {
                r matches Rot::Done(t) && t@ == rp@.drop_first()
            } else {
                r == Rot::Appending((ok - 1) as usize, fp, rp)
            },
            _ => r == self,
        }
    }

    /// One step of the automaton.
    fn exec(self, Ghost(f): Ghost<Seq<A>>, Ghost(pend): Ghost<Seq<A>>) -> (r: Rot<A>)
        where
            A: Clone,
        requires
            clone_exact::<A>(),
            self.inv(f, pend),
            f.len() <= usize::MAX,
        ensures
            self.stepped(r),
            r.inv(f, pend),
            self is Idle ==> r is Idle,
            self is Done ==> r == self,
            (self is Reversing || self is Appending) ==> r.work() + 1 == self.work(),
            r is Reversing ==> r->Reversing_0 >= 1,
            f.len() == 0 && self is Reversing ==> (r is Appending && r->Appending_0 == 0),
            f.len() == 0 && self is Appending ==> r is Done,
    {
        match self {
            Rot::Reversing(ok, a, fp, c, rp) => {
                match a.uncons() {
                    Some((x, a2)) => {
                        let (y, c2) = c.uncons().unwrap();
                        let fp2 = List::cons(x, fp);
                        let rp2 = List::cons(y, rp);
                        proof {
                            assert(fp2@.take(ok + 1) =~= seq![x] + fp@.take(ok as int));
                            assert(fp2@.take(ok + 1).reverse() =~= fp@.take(ok as int).reverse() + seq![x]);
                            assert(f =~= fp2@.take(ok + 1).reverse() + a2@);
                            assert(c@ =~= seq![y] + c2@);
                            assert(c@.reverse() =~= c2@.reverse() + seq![y]);
                            assert(pend =~= c2@.reverse() + rp2@);
                        }
                        Rot::Reversing(ok + 1, a2, fp2, c2, rp2)
                    },
                    None => {
                        let (y, _c2) = c.uncons().unwrap();
                        let rp2 = List::cons(y, rp);
                        proof {
                            assert(c@ =~= seq![y]);
                            assert(pend =~= rp2@);
                            assert(rp2@.skip(0) =~= rp2@);
                            assert(f =~= fp@.take(ok as int).reverse() + rp2@.take(0));
                        }
                        Rot::Appending(ok, fp, rp2)
                    },
                }
            },
            Rot::Appending(ok, fp, rp) => {
                if ok == 0 {
                    proof {
                        assert(fp@.take(0).reverse() =~= Seq::<A>::empty());
                        assert(rp@ =~= rp@.take(rp@.len() - pend.len()) + rp@.skip(rp@.len() - pend.len()));
                        assert(rp@ =~= f + pend);
                    }
                    Rot::Done(rp)
                } else {
                    let (x, fp2) = fp.uncons().unwrap();
                    let rp2 = List::cons(x, rp);
                    proof {
                        let k = rp@.len() - pend.len();
                        assert(fp@.take(ok as int) =~= seq![x] + fp2@.take(ok - 1));
                        assert(fp@.take(ok as int).reverse() =~= fp2@.take(ok - 1).reverse() + seq![x]);
                        assert(rp2@.take(rp2@.len() - pend.len()) =~= seq![x] + rp@.take(k));
                        assert(rp2@.skip(rp2@.len() - pend.len()) =~= rp@.skip(k));
                        assert(f =~= fp2@.take(ok - 1).reverse() + rp2@.take(rp2@.len() - pend.len()));
                    }
                    Rot::Appending(ok - 1, fp2, rp2)
                }
            },
            other => other,
        }
    }
}

impl<A> Rot<A> {
    /// Takes back one walked step after the first element of the visible front
    /// was removed: that element no longer belongs in the new front.
    fn invalidate(self, Ghost(f): Ghost<Seq<A>>, Ghost(pend): Ghost<Seq<A>>) -> (r: Rot<A>)
        requires
            !(self is Done) ==> self.inv(f, pend) && f.len() >= 1,
            self is Reversing ==> self->Reversing_0 >= 1,
        ensures
            self.invalidated(r),
            !(self is Done) ==> r.inv(f.drop_first(), pend),
            self is Idle <==> r is Idle,
            (self is Reversing || self is Appending) ==> r.work() + 1 == self.work(),
    {
        match self {
            Rot::Reversing(ok, a, fp, c, rp) => {
                proof {
                    assert(fp@.take(ok as int) =~= fp@.take(ok - 1) + seq![fp@[ok - 1]]);
                    assert(fp@.take(ok as int).reverse() =~= seq![fp@[ok - 1]] + fp@.take(ok - 1).reverse());
                    assert(f.drop_first() =~= fp@.take(ok - 1).reverse() + a@);
                }
                Rot::Reversing(ok - 1, a, fp, c, rp)
            },
            Rot::Appending(ok, fp, rp) => {
                if ok == 0 {
                    proof {
                        assert(fp@.take(0).reverse() =~= Seq::<A>::empty());
                        assert(f =~= rp@.take(rp@.len() - pend.len()));
                    }
                    let t = rp.tail().unwrap();
                    proof {
                        assert(t@ =~= f.drop_first() + pend);
                    }
                    Rot::Done(t)
                } else {
                    proof {
                        assert(fp@.take(ok as int) =~= fp@.take(ok - 1) + seq![fp@[ok - 1]]);
                        assert(fp@.take(ok as int).reverse() =~= seq![fp@[ok - 1]] + fp@.take(ok - 1).reverse());
                        assert(f.drop_first() =~= fp@.take(ok - 1).reverse() + rp@.take(rp@.len() - pend.len()));
                    }
                    Rot::Appending(ok - 1, fp, rp)
                }
            },
            other => other,
        }
    }
}

impl<A> Rot<A> {
    /// `invalidate` in place.
    fn invalidate_mut(&mut self, Ghost(f): Ghost<Seq<A>>, Ghost(pend): Ghost<Seq<A>>)
        requires
            !(*old(self) is Done) ==> old(self).inv(f, pend) && f.len() >= 1,
            *old(self) is Reversing ==> old(self)->Reversing_0 >= 1,
        ensures
            old(self).invalidated(*final(self)),
            !(*old(self) is Done) ==> final(self).inv(f.drop_first(), pend),
            *old(self) is Idle <==> *final(self) is Idle,
            (*old(self) is Reversing || *old(self) is Appending) ==> final(self).work() + 1 == old(self).work(),
    {
        match self {
            Rot::Reversing(ok, a, fp, _, _) => {
                proof {
                    let k = *ok as int;
                    assert(fp@.take(k) =~= fp@.take(k - 1) + seq![fp@[k - 1]]);
                    assert(fp@.take(k).reverse() =~= seq![fp@[k - 1]] + fp@.take(k - 1).reverse());
                    assert(f.drop_first() =~= fp@.take(k - 1).reverse() + a@);
                }
                *ok = *ok - 1;
            },
            Rot::Appending(ok, fp, rp) => {
                if *ok == 0 {
                    proof {
                        assert(fp@.take(0).reverse() =~= Seq::<A>::empty());
                        assert(f =~= rp@.take(rp@.len() - pend.len()));
                    }
                    let t = rp.tail().unwrap();
                    proof {
                        assert(t@ =~= f.drop_first() + pend);
                    }
                    *self = Rot::Done(t);
                } else {
                    proof {
                        let k = *ok as int;
                        assert(fp@.take(k) =~= fp@.take(k - 1) + seq![fp@[k - 1]]);
                        assert(fp@.take(k).reverse() =~= seq![fp@[k - 1]] + fp@.take(k - 1).reverse());
                        assert(f.drop_first() =~= fp@.take(k - 1).reverse() + rp@.take(rp@.len() - pend.len()));
                    }
                    *ok = *ok - 1;
                }
            },
            _ => {},
        }
    }
}

impl<A> Clone for Rot<A> {
    fn clone(&self) -> (r: Self)
        ensures
            r == *self,
    {
        match self {
            Rot::Idle => Rot::Idle,
            Rot::Reversing(ok, a, fp, c, rp) => Rot::Reversing(*ok, a.clone(), fp.clone(), c.clone(), rp.clone()),
            Rot::Appending(ok, fp, rp) => Rot::Appending(*ok, fp.clone(), rp.clone()),
            Rot::Done(nf) => Rot::Done(nf.clone()),
        }
    }
}

/// A first-in first-out queue whose operations take constant time in the worst case.
///
/// The logical contents are the visible front `f`, then the elements that the
/// running rotation will append behind it, then the rear `r` in reverse.
pub struct Q<A> {
    lenf: usize,
    f: List<A>,
    state: Rot<A>,
    lenr: usize,
    r: List<A>,
}

impl<A> Q<A> {
    /// The elements that the running rotation holds besides the visible front.
    pub closed spec fn pending(self) -> Seq<A> {
        match self.state {
            Rot::Idle => Seq::empty(),
            Rot::Reversing(_, _, _, c, rp) => c@.reverse() + rp@,
            Rot::Appending(_, _, rp) => {
                let p = self.lenf - self.f@.len();
                if 0 <= p <= rp@.len() {
                    rp@.skip(rp@.len() - p)
                } else {
                    Seq::empty()
                }
            },
            Rot::Done(nf) => {
                if self.f@.len() <= nf@.len() {
                    nf@.skip(self.f@.len() as int)
                } else {
                    Seq::empty()
                }
            },
        }
    }

    /// The counters and the automaton agree with the lists.
    pub closed spec fn shape(self) -> bool {
        &&& self.lenf == self.f@.len() + self.pending().len()
        &&& self.lenr == self.r@.len()
        &&& self.lenf + self.lenr <= usize::MAX
        &&& self.state.inv(self.f@, self.pending())
    }

    /// The queue is well formed: the rear is never longer than the front, and a
    /// running rotation is done before the rear could outgrow the front again.
    pub closed spec fn wf(self) -> bool {
        &&& self.shape()
        &&& self.lenr <= self.lenf
        &&& !(self.state is Done)
        &&& (self.state is Reversing ==> self.state->Reversing_0 >= 1)
        &&& (!(self.state is Idle) ==> self.f@.len() >= 1 && self.state.work() <= 2 * (self.lenf - self.lenr))
    }

    /// The automaton steps left in the running rotation (none when idle).
    pub closed spec fn work(self) -> nat {
        self.state.work()
    }

    /// The length of the front, counting the elements a running rotation will append.
    pub closed spec fn front_len(self) -> nat {
        self.lenf as nat
    }

    /// The length of the rear.
    pub closed spec fn rear_len(self) -> nat {
        self.lenr as nat
    }

    /// The visible front list, oldest first.
    pub closed spec fn front(self) -> Seq<A> {
        self.f@
    }

    /// The rear list, newest first.
    pub closed spec fn rear(self) -> Seq<A> {
        self.r@
    }

    /// A rotation is running.
    pub closed spec fn rotating(self) -> bool {
        !(self.state is Idle)
    }

    /// `r` is what `check` makes of `self`. When the rear is longer than the front, a
    /// rotation starts: the rear is emptied into the pending part and the front length
    /// becomes the sum. Otherwise the counters and the rear stay. Either way, once the
    /// automaton is done, its result is installed as the visible front.
    pub closed spec fn checked(self, r: Q<A>) -> bool {
        &&& r@ == self@
        &&& if self.lenr > self.lenf {
            &&& r.lenr == 0
            &&& r.r@ == Seq::<A>::empty()
            &&& r.lenf == self.lenf + self.lenr
            &&& r.f@ == if r.rotating() { self.f@ } else { self.f@ + self.r@.reverse() }
        } else {
            &&& r.lenr == self.lenr
            &&& r.r == self.r
            &&& r.lenf == self.lenf
            &&& r.f@ == if r.rotating() { self.f@ } else { self.f@ + self.pending() }
        }
    }

    /// `r` is what adding `x` at the back of `self` gives, with `snoc` or `snoc_mut`
    /// alike: the sequence with `x` pushed, the counters and lists of `check`, and two
    /// steps of a running rotation.
    pub open spec fn after_snoc(self, x: A, r: Q<A>) -> bool {
        &&& r.wf()
        &&& r@ == self@.push(x)
        &&& if self.rear_len() + 1 > self.front_len() {
            &&& r.rear_len() == 0
            &&& r.rear() == Seq::<A>::empty()
            &&& r.front_len() == self.front_len() + self.rear_len() + 1
            &&& r.front() == if r.rotating() { self.front() } else { self.front() + (seq![x] + self.rear()).reverse() }
        } else {
            &&& r.rear_len() == self.rear_len() + 1
            &&& r.rear() == seq![x] + self.rear()
            &&& r.front_len() == self.front_len()
            &&& r.front() == if r.rotating() { self.front() } else { self.front() + self.pending() }
        }
        &&& self.work() > 0 ==> r.work() == two_steps_less(self.work())
    }

    /// The queue's elements, oldest first.
    pub closed spec fn view(self) -> Seq<A> {
        self.f@ + self.pending() + self.r@.reverse()
    }

    /// Every element of the queue is structurally smaller than the queue.
    pub proof fn lemma_elements_decrease(self)
        ensures
            forall|i: int| 0 <= i < self@.len() ==> decreases_to!(self => #[trigger] self@[i]),
    {
        let f = self.f;
        let r = self.r;
        f.lemma_elements_decrease();
        r.lemma_elements_decrease();
        let nf = f@.len();
        let np = self.pending().len();
        assert forall|i: int| 0 <= i < self@.len() implies decreases_to!(self => #[trigger] self@[i]) by {
            if i < nf {
                assert(self@[i] == f@[i]);
            } else if i < nf + np {
                let j = i - nf;
                assert(self@[i] == self.pending()[j]);
                match self.state {
                    Rot::Idle => {},
                    Rot::Reversing(_, _, _, c, rp) => {
                        c.lemma_elements_decrease();
                        rp.lemma_elements_decrease();
                        if j < c@.len() {
                            assert(self.pending()[j] == c@[c@.len() - 1 - j]);
                            assert(decreases_to!(self => self.state));
                        } else {
                            assert(self.pending()[j] == rp@[j - c@.len()]);
                            assert(decreases_to!(self => self.state));
                        }
                    },
                    Rot::Appending(_, _, rp) => {
                        rp.lemma_elements_decrease();
                        let k = rp@.len() - (self.lenf - self.f@.len());
                        assert(self.pending()[j] == rp@[k + j]);
                        assert(decreases_to!(self => self.state));
                    },
                    Rot::Done(d) => {
                        d.lemma_elements_decrease();
                        assert(self.pending()[j] == d@[nf + j]);
                        assert(decreases_to!(self => self.state));
                    },
                }
            } else {
                let j = i - nf - np;
                assert(self@[i] == r@.reverse()[j]);
                assert(r@.reverse()[j] == r@[r@.len() - 1 - j]);
            }
        }
    }

    /// The queue holding `a` alone.
    pub fn singleton(a: A) -> (r: Q<A>)
        ensures
            r.wf(),
            r@ == seq![a],
    {
        let f = List::cons(a, List::nil());
        let r = List::nil();
        let q = Q { lenf: 1, f, state: Rot::Idle, lenr: 0, r };
        proof {
            assert(q@ =~= seq![a]);
        }
        q
    }

    /// The empty queue.
    pub fn nil() -> (r: Q<A>)
        ensures
            r.wf(),
            r@ == Seq::<A>::empty(),
    {
        let q = Q { lenf: 0, f: List::nil(), state: Rot::Idle, lenr: 0, r: List::nil() };
        proof {
            assert(q@ =~= Seq::<A>::empty());
        }
        q
    }

    /// Whether the queue has no element.
    pub fn is_empty(&self) -> (r: bool)
        requires
            self.wf(),
        ensures
            r == (self@.len() == 0),
    {
        self.lenf == 0
    }

    /// The number of elements.
    pub fn length(&self) -> (r: usize)
        requires
            self.wf(),
        ensures
            r == self@.len(),
    {
        self.lenf + self.lenr
    }
}

impl<A: Clone> Q<A> {
    /// Runs the automaton two steps, and installs the new front once it is done.
    fn exec2(self) -> (r: Q<A>)
        requires
            clone_exact::<A>(),
            self.shape(),
            self.lenr <= self.lenf,
            !(self.state is Idle) ==> self.state.work() <= 2 * (self.lenf - self.lenr) + 2,
        ensures
            r.wf(),
            r@ == self@,
            r.lenf == self.lenf,
            r.lenr == self.lenr,
            r.r == self.r,
            r.f@ == if r.rotating() { self.f@ } else { self.f@ + self.pending() },
            r.work() == two_steps_less(self.state.work()),
    {
        let ghost f = self.f@;
        let ghost pend = self.pending();
        let Q { lenf, f: front, state, lenr, r } = self;
        let s1 = state.exec(Ghost(f), Ghost(pend));
        let s2 = s1.exec(Ghost(f), Ghost(pend));
        match s2 {
            Rot::Done(nf) => {
                let q = Q { lenf, f: nf, state: Rot::Idle, lenr, r };
                proof {
                    assert(q@ =~= self@);
                }
                q
            },
            other => {
                let q = Q { lenf, f: front, state: other, lenr, r };
                proof {
                    assert(q.pending() =~= pend);
                }
                q
            },
        }
    }

    /// `exec2` in place.
    fn exec2_mut(&mut self)
        requires
            clone_exact::<A>(),
            old(self).shape(),
            old(self).lenr <= old(self).lenf,
            !(old(self).state is Idle) ==> old(self).state.work() <= 2 * (old(self).lenf - old(self).lenr) + 2,
        ensures
            final(self).wf(),
            final(self)@ == old(self)@,
            final(self).lenf == old(self).lenf,
            final(self).lenr == old(self).lenr,
            final(self).r == old(self).r,
            final(self).f@ == if final(self).rotating() { old(self).f@ } else { old(self).f@ + old(self).pending() },
            final(self).work() == two_steps_less(old(self).state.work()),
    {
        let ghost f = self.f@;
        let ghost pend = self.pending();
        let s1 = self.state.clone().exec(Ghost(f), Ghost(pend));
        let s2 = s1.exec(Ghost(f), Ghost(pend));
        match s2 {
            Rot::Done(nf) => {
                self.f = nf;
                self.state = Rot::Idle;
                proof {
                    assert(self@ =~= old(self)@);
                }
            },
            other => {
                self.state = other;
                proof {
                    assert(self.pending() =~= pend);
                }
            },
        }
    }

    /// Starts a rotation when the rear has outgrown the front, then advances the automaton.
    fn check(self) -> (r: Q<A>)
        requires
            clone_exact::<A>(),
            self.shape(),
            self.lenr <= self.lenf + 1,
            self.lenr == self.lenf + 1 ==> self.state is Idle,
            !(self.state is Idle) ==> self.state.work() <= 2 * (self.lenf - self.lenr) + 2,
        ensures
            r.wf(),
            self.checked(r),
            !(self.state is Idle) ==> r.work() == two_steps_less(self.state.work()),
    {
        if self.lenr <= self.lenf {
            self.exec2()
        } else {
            let Q { lenf, f, state: _, lenr, r } = self;
            let a = f.clone();
            let q = Q {
                lenf: lenf + lenr,
                f,
                state: Rot::Reversing(0, a, List::nil(), r, List::nil()),
                lenr: 0,
                r: List::nil(),
            };
            proof {
                assert(a@ =~= Seq::<A>::empty().take(0).reverse() + a@);
                assert(q@ =~= self@);
            }
            q.exec2()
        }
    }

    /// `check` in place.
    fn check_mut(&mut self)
        requires
            clone_exact::<A>(),
            old(self).shape(),
            old(self).lenr <= old(self).lenf + 1,
            old(self).lenr == old(self).lenf + 1 ==> old(self).state is Idle,
            !(old(self).state is Idle) ==> old(self).state.work() <= 2 * (old(self).lenf - old(self).lenr) + 2,
        ensures
            final(self).wf(),
            old(self).checked(*final(self)),
            !(old(self).state is Idle) ==> final(self).work() == two_steps_less(old(self).state.work()),
    {
        if self.lenr > self.lenf {
            let a = self.f.clone();
            *self = Q {
                lenf: self.lenf + self.lenr,
                f: self.f.clone(),
                state: Rot::Reversing(0, a, List::nil(), self.r.clone(), List::nil()),
                lenr: 0,
                r: List::nil(),
            };
            proof {
                assert(a@ =~= Seq::<A>::empty().take(0).reverse() + a@);
                assert(self@ =~= old(self)@);
            }
        }
        self.exec2_mut();
    }

    /// The queue with `x` added at the back.
    pub fn snoc(self, x: A) -> (r: Q<A>)
        requires
            clone_exact::<A>(),
            self.wf(),
            self@.len() < usize::MAX,
        ensures
            self.after_snoc(x, r),
    {
        let Q { lenf, f, state, lenr, r } = self;
        let q = Q { lenf, f, state, lenr: lenr + 1, r: List::cons(x, r) };
        proof {
            assert(q.pending() =~= self.pending());
            assert(q@ =~= self@.push(x));
        }
        q.check()
    }

    /// Adds `x` at the back, in place.
    pub fn snoc_mut(&mut self, x: A)
        requires
            clone_exact::<A>(),
            old(self).wf(),
            old(self)@.len() < usize::MAX,
        ensures
            old(self).after_snoc(x, *final(self)),
    {
        self.lenr = self.lenr + 1;
        let r = self.r.clone();
        self.r = List::cons(x, r);
        proof {
            assert(self.pending() =~= old(self).pending());
            assert(self@ =~= old(self)@.push(x));
        }
        self.check_mut();
    }

    /// The oldest element and the queue without it, or `None` on the empty queue.
    pub fn uncons(self) -> (r: Option<(A, Q<A>)>)
        requires
            clone_exact::<A>(),
            self.wf(),
        ensures
            match r {
                None => self@.len() == 0,
                Some((x, q)) => self@.len() > 0 && x == self@[0] && q.wf() && q@ == self@.drop_first()
                    && (self.work() > 0 ==> q.work() == two_steps_less((self.work() - 1) as nat)),
            },
    {
        let ghost pend = self.pending();
        let Q { lenf, f, state, lenr, r } = self;
        match f.uncons() {
            None => {
                proof {
                    assert(self@ =~= Seq::<A>::empty());
                }
                None
            },
            Some((x, fp)) => {
                let st = state.invalidate(Ghost(f@), Ghost(pend));
                let q = Q { lenf: lenf - 1, f: fp, state: st, lenr, r };
                proof {
                    assert(q.pending() =~= pend);
                    assert(q@ =~= self@.drop_first());
                }
                Some((x, q.check()))
            },
        }
    }

    /// Removes and returns the oldest element; `None` once the queue is drained.
    pub fn next(&mut self) -> (r: Option<A>)
        requires
            clone_exact::<A>(),
            old(self).wf(),
        ensures
            final(self).wf(),
            match r {
                None => old(self)@.len() == 0 && final(self)@ == old(self)@,
                Some(x) => old(self)@.len() > 0 && x == old(self)@[0] && final(self)@ == old(self)@.drop_first()
                    && (old(self).work() > 0 ==> final(self).work() == two_steps_less((old(self).work() - 1) as nat)),
            },
    {
        let ghost pend = self.pending();
        let ghost f0 = self.f@;
        match self.f.uncons() {
            None => {
                proof {
                    assert(self@ =~= Seq::<A>::empty());
                }
                None
            },
            Some((x, fp)) => {
                self.lenf = self.lenf - 1;
                self.f = fp;
                self.state.invalidate_mut(Ghost(f0), Ghost(pend));
                proof {
                    assert(self.pending() =~= pend);
                    assert(self@ =~= old(self)@.drop_first());
                }
                self.check_mut();
                Some(x)
            },
        }
    }

    /// Adds the elements of `items` at the back, first to last.
    pub fn extend(&mut self, items: Vec<A>)
        requires
            clone_exact::<A>(),
            old(self).wf(),
            old(self)@.len() + items@.len() <= usize::MAX,
        ensures
            final(self).wf(),
            final(self)@ == old(self)@ + items@,
    {
        let mut i: usize = 0;
        while i < items.len()
            invariant
                clone_exact::<A>(),
                self.wf(),
                i <= items@.len(),
                old(self)@.len() + items@.len() <= usize::MAX,
                self@ == old(self)@ + items@.take(i as int),
            decreases items@.len() - i,
        {
            self.snoc_mut(items[i].clone());
            proof {
                assert(items@.take(i + 1) =~= items@.take(i as int).push(items@[i as int]));
            }
            i = i + 1;
        }
        proof {
            assert(items@.take(items@.len() as int) =~= items@);
        }
    }

    /// The queue of the given elements, first to last.
    pub fn from_vec(items: Vec<A>) -> (r: Q<A>)
        requires
            clone_exact::<A>(),
        ensures
            r.wf(),
            r@ == items@,
    {
        let mut r = Q::nil();
        let n = items.len();
        let mut i: usize = 0;
        while i < n
            invariant
                clone_exact::<A>(),
                r.wf(),
                n == items@.len(),
                i <= n,
                r@ == items@.take(i as int),
            decreases n - i,
        {
            r.snoc_mut(items[i].clone());
            proof {
                assert(items@.take(i + 1) =~= items@.take(i as int).push(items@[i as int]));
            }
            i = i + 1;
        }
        proof {
            assert(items@.take(n as int) =~= items@);
        }
        r
    }
}

impl<A> Default for Q<A> {
    /// The empty queue.
    fn default() -> (r: Self)
        ensures
            r.wf(),
            r@ == Seq::<A>::empty(),
    {
        Q::nil()
    }
}

impl<A> Clone for Q<A> {
    /// Shares the lists; copies no element.
    fn clone(&self) -> (r: Self)
        ensures
            r == *self,
    {
        Q { lenf: self.lenf, f: self.f.clone(), state: self.state.clone(), lenr: self.lenr, r: self.r.clone() }
    }
}

} // verus!
