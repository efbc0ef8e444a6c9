//! Hash-consed handles for the toolchain's terms and names: a table hands out one
//! shared allocation per distinct live value, so equal values compare by identity.
use std::collections::hash_map::RandomState;
use std::collections::HashMap;
use std::hash::{BuildHasher, Hash};
use std::rc::Rc;
use vstd::prelude::*;

use crate::hashcons::{
    hashes_model, map_keys, map_shrink_to_fit, map_with_capacity_and_hasher, map_with_hasher, rc_address,
    rc_ptr_eq, rc_strong_count, weak_address, weak_of, weak_ptr_eq, weak_upgrade,
    WeakRef,
};

verus! {

/// A shared handle to a value. Two handles are equal when they point to the same
/// allocation.
pub struct Hc<T>(Rc<T>);

/// A weak handle: it does not keep the value alive, and turns back into a handle
/// only while a handle to the value lives elsewhere.
#[verifier::reject_recursive_types(T)]
pub struct Wc<T>(WeakRef<T>);

impl<T> Hc<T> {
    /// The value behind the handle.
    pub closed spec fn view(self) -> T {
        *self.0
    }

    /// The value behind the handle.
    pub fn get(&self) -> (r: &T)
        ensures
            *r == self@,
    {
        &*self.0
    }

    /// The address of the allocation, which identifies it while it is alive.
    pub fn id(&self) -> usize {
        rc_address(&self.0)
    }

    /// A weak handle to the same allocation.
    pub fn downgrade(&self) -> (r: Wc<T>)
        ensures
            r@ == self@,
    {
        Wc(weak_of(&self.0))
    }

    /// The number of handles to the allocation, this one among them.
    pub fn strong_count(&self) -> (r: usize)
        ensures
            r >= 1,
    {
        rc_strong_count(&self.0)
    }
}

impl<T> Clone for Hc<T> {
    /// Another handle to the same allocation.
    fn clone(&self) -> (r: Self)
        ensures
            r == *self,
    {
        Hc(self.0.clone())
    }
}

impl<T> PartialEq for Hc<T> {
    /// Identity: whether both handles point to the same allocation.
    fn eq(&self, rhs: &Self) -> (r: bool)
        ensures
            r ==> self@ == rhs@,
    {
        rc_ptr_eq(&self.0, &rhs.0)
    }
}

impl<T> vstd::std_specs::cmp::PartialEqSpecImpl for Hc<T> {
    open spec fn obeys_eq_spec() -> bool {
        false
    }

    open spec fn eq_spec(&self, rhs: &Self) -> bool {
        self@ == rhs@
    }
}

impl<T> Eq for Hc<T> {
}

impl<T> Wc<T> {
    /// The value of the allocation that the weak handle was made from.
    pub closed spec fn view(self) -> T {
        self.0@
    }

    /// A handle to the allocation, or `None` once no handle to it is alive.
    pub fn upgrade(&self) -> (r: Option<Hc<T>>)
        ensures
            r matches Some(h) ==> h@ == self@,
    {
        match weak_upgrade(&self.0) {
            Some(rc) => Some(Hc(rc)),
            None => None,
        }
    }

    /// The address of the allocation, which identifies it while a weak or strong
    /// handle to it is alive.
    pub fn id(&self) -> usize {
        weak_address(&self.0)
    }
}

impl<T> PartialEq for Wc<T> {
    /// Identity: whether both point to the same allocation.
    fn eq(&self, rhs: &Self) -> (r: bool)
        ensures
            r ==> self@ == rhs@,
    {
        weak_ptr_eq(&self.0, &rhs.0)
    }
}

impl<T> vstd::std_specs::cmp::PartialEqSpecImpl for Wc<T> {
    open spec fn obeys_eq_spec() -> bool {
        false
    }

    open spec fn eq_spec(&self, rhs: &Self) -> bool {
        self@ == rhs@
    }
}

impl<T> Eq for Wc<T> {
}

/// A hash-consing table: it maps each value to a weak reference on the allocation that
/// was handed out for it.
#[verifier::reject_recursive_types(T)]
#[verifier::reject_recursive_types(S)]
pub struct Constable<T: Hash + Eq + Clone, S = RandomState>(HashMap<T, WeakRef<T>, S>);

impl<T: Hash + Eq + Clone, S> Constable<T, S> {
    /// The values that have an entry, live or stale.
    pub closed spec fn view(self) -> Set<T> {
        self.0@.dom()
    }

    /// Each entry's weak handle was made from a clone of its key.
    pub closed spec fn wf(self) -> bool {
        hashes_model::<T, S>() ==> forall|k: T| #[trigger] self.0@.contains_key(k) ==> vstd::pervasive::cloned(k, self.0@[k]@)
    }
}

impl<T: Hash + Eq + Clone> Constable<T, RandomState> {
    /// An empty table.
    pub fn new() -> (r: Self)
        ensures
            r.wf(),
            r@ == Set::<T>::empty(),
    {
        let r = Constable(HashMap::new());
        proof {
            assert(r@ =~= Set::<T>::empty());
        }
        r
    }

    /// An empty table with room for `capacity` values.
    pub fn with_capacity(capacity: usize) -> (r: Self)
        ensures
            r.wf(),
            r@ == Set::<T>::empty(),
    {
        let r = Constable(HashMap::with_capacity(capacity));
        proof {
            assert(r@ =~= Set::<T>::empty());
        }
        r
    }
}

impl<T: Hash + Eq + Clone, S: BuildHasher> Constable<T, S> {
    /// An empty table hashing with `build_hasher`.
    pub fn with_hasher(build_hasher: S) -> (r: Self)
        ensures
            r.wf(),
            r@ == Set::<T>::empty(),
    {
        let r = Constable(map_with_hasher(build_hasher));
        proof {
            assert(r@ =~= Set::<T>::empty());
        }
        r
    }

    /// An empty table with room for `capacity` values, hashing with `build_hasher`.
    pub fn with_capacity_and_hasher(capacity: usize, build_hasher: S) -> (r: Self)
        ensures
            r.wf(),
            r@ == Set::<T>::empty(),
    {
        let r = Constable(map_with_capacity_and_hasher(capacity, build_hasher));
        proof {
            assert(r@ =~= Set::<T>::empty());
        }
        r
    }

    /// Records `wc` as the weak handle for `key`. The entry it replaces, if any, no
    /// longer upgrades.
    fn insert(&mut self, key: T, wc: WeakRef<T>)
        requires
            vstd::pervasive::cloned(key, wc@),
        ensures
            old(self).wf() ==> final(self).wf(),
            hashes_model::<T, S>() ==> final(self).0@ == old(self).0@.insert(key, wc),
            hashes_model::<T, S>() ==> final(self)@ == old(self)@.insert(key),
    {
        self.0.insert(key, wc);
        proof {
            if hashes_model::<T, S>() {
                assert(self@ =~= old(self)@.insert(key));
            }
        }
    }

    /// The live handle recorded for `key`, if there is one.
    fn get(&self, key: &T) -> (r: Option<Hc<T>>)
        ensures
            hashes_model::<T, S>() ==> (r matches Some(h) ==> self@.contains(*key)),
            hashes_model::<T, S>() && self.wf() ==> (r matches Some(h) ==> vstd::pervasive::cloned(*key, h@)),
    {
        match self.0.get(key) {
            None => None,
            Some(w) => match weak_upgrade(w) {
                Some(rc) => Some(Hc(rc)),
                None => None,
            },
        }
    }

    /// The canonical handle for `e`, and whether it was just allocated.
    ///
    /// A live handle recorded for an equal value is shared; otherwise a new allocation
    /// holding a clone of `e` is made and recorded.
    pub fn mk_is_new(&mut self, e: T) -> (r: (Hc<T>, bool))
        ensures
            old(self).wf() ==> final(self).wf(),
            old(self).wf() && hashes_model::<T, S>() ==> vstd::pervasive::cloned(e, r.0@),
            r.1 ==> vstd::pervasive::cloned(e, r.0@),
            hashes_model::<T, S>() ==> final(self)@ == old(self)@.insert(e),
            hashes_model::<T, S>() && !r.1 ==> old(self)@.contains(e),
    {
        let found = self.get(&e);
        proof {
            if hashes_model::<T, S>() && found is Some {
                assert(self@ =~= self@.insert(e));
            }
        }
        self.mk_with_lookup(e, found)
    }

    /// The canonical handle for `e`, given what looking `e` up found: the live handle
    /// found, shared, with the table unchanged; or, when none was found, a new
    /// allocation holding a clone of `e`, recorded for `e`.
    pub fn mk_with_lookup(&mut self, e: T, found: Option<Hc<T>>) -> (r: (Hc<T>, bool))
        ensures
            found matches Some(h) ==> r == (h, false) && *final(self) == *old(self),
            found is None ==> r.1 && vstd::pervasive::cloned(e, r.0@),
            found is None ==> (old(self).wf() ==> final(self).wf()),
            found is None ==> (hashes_model::<T, S>() ==> final(self)@ == old(self)@.insert(e)),
    {
        match found {
            Some(hc) => (hc, false),
            None => {
                let hc = Hc(Rc::new(e.clone()));
                self.insert(e, weak_of(&hc.0));
                (hc, true)
            },
        }
    }

    /// The canonical handle for `e`.
    pub fn mk(&mut self, e: T) -> (r: Hc<T>)
        ensures
            old(self).wf() ==> final(self).wf(),
            old(self).wf() && hashes_model::<T, S>() ==> vstd::pervasive::cloned(e, r@),
            hashes_model::<T, S>() ==> final(self)@ == old(self)@.insert(e),
    {
        self.mk_is_new(e).0
    }

    /// Removes the entries whose value is no longer alive: each key is looked up, its
    /// weak reference asked whether a handle is alive, and the dead keys removed.
    pub fn collect(&mut self)
        ensures
            old(self).wf() ==> final(self).wf(),
            hashes_model::<T, S>() ==> final(self)@.subset_of(old(self)@),
    {
        let mut keys = map_keys(&self.0);
        let mut dead: Vec<T> = Vec::new();
        loop
            decreases keys@.len(),
        {
            match keys.pop() {
                None => break,
                Some(k) => {
                    let live = match self.0.get(&k) {
                        Some(w) => w.is_live(),
                        None => true,
                    };
                    if !live {
                        dead.push(k);
                    }
                },
            }
        }
        self.remove_keys(dead);
    }

    /// Removes the entries of the keys in `dead`.
    pub fn remove_keys(&mut self, dead: Vec<T>)
        ensures
            old(self).wf() ==> final(self).wf(),
            hashes_model::<T, S>() ==> final(self)@ == old(self)@.difference(dead@.to_set()),
    {
        let mut i: usize = 0;
        let n = dead.len();
        while i < n
            invariant
                n == dead@.len(),
                i <= n,
                old(self).wf() ==> self.wf(),
                hashes_model::<T, S>() ==> self.0@ == old(self).0@.remove_keys(dead@.take(i as int).to_set()),
            decreases n - i,
        {
            self.0.remove(&dead[i]);
            proof {
                if hashes_model::<T, S>() {
                    let s0 = dead@.take(i as int);
                    let s1 = dead@.take(i + 1);
                    let x = dead@[i as int];
                    assert forall|a: T| #[trigger] s1.contains(a) <==> (s0.contains(a) || a == x) by {
                        if s1.contains(a) {
                            let j = choose|j: int| 0 <= j < s1.len() && s1[j] == a;
                            if j < s0.len() {
                                assert(s0[j] == a);
                            }
                        }
                        if s0.contains(a) {
                            let j = choose|j: int| 0 <= j < s0.len() && s0[j] == a;
                            assert(s1[j] == a);
                        }
                        if a == x {
                            assert(s1[i as int] == a);
                        }
                    }
                    assert(s1.to_set() =~= s0.to_set().insert(x));
                    assert(self.0@ =~= old(self).0@.remove_keys(dead@.take(i + 1).to_set()));
                }
            }
            i = i + 1;
        }
        proof {
            if hashes_model::<T, S>() {
                assert(dead@.take(n as int) =~= dead@);
                assert(self@ =~= old(self)@.difference(dead@.to_set()));
            }
        }
    }

    /// Releases the spare room of the table.
    pub fn shrink_to_fit(&mut self)
        ensures
            old(self).wf() ==> final(self).wf(),
            final(self)@ == old(self)@,
    {
        map_shrink_to_fit(&mut self.0);
    }

    /// `collect`, then `shrink_to_fit`.
    pub fn collect_to_fit(&mut self)
        ensures
            old(self).wf() ==> final(self).wf(),
            hashes_model::<T, S>() ==> final(self)@.subset_of(old(self)@),
    {
        self.collect();
        self.shrink_to_fit();
    }

    /// Makes room for `additional` more values.
    pub fn reserve(&mut self, additional: usize)
        ensures
            old(self).wf() ==> final(self).wf(),
            final(self)@ == old(self)@,
    {
        self.0.reserve(additional);
    }
}

/// The table operations, on a mutable borrow of a table.
pub trait HashConstable<T: Hash>: Sized {
    fn mk_is_new(self, elm: T) -> (Hc<T>, bool);

    fn mk(self, elm: T) -> Hc<T>;

    fn collect(self);

    fn shrink_to_fit(self);

    fn collect_to_fit(self);

    fn reserve(self, additional: usize);
}

impl<'a, T: Hash + Eq + Clone, S: BuildHasher> HashConstable<T> for &'a mut Constable<T, S> {
    fn mk_is_new(self, elm: T) -> (Hc<T>, bool) {
        Constable::mk_is_new(self, elm)
    }

    fn mk(self, elm: T) -> Hc<T> {
        Constable::mk(self, elm)
    }

    fn collect(self) {
        Constable::collect(self)
    }

    fn shrink_to_fit(self) {
        Constable::shrink_to_fit(self)
    }

    fn collect_to_fit(self) {
        Constable::collect_to_fit(self)
    }

    fn reserve(self, additional: usize) {
        Constable::reserve(self, additional)
    }
}

} // verus!
