//! Identifiers with a niche: the index is stored complemented, so the stored word is
//! never zero, and the largest `u32` is not an index.
use std::num::{NonZeroU32, TryFromIntError};
use vstd::prelude::*;

verus! {

/// An index below `u32::MAX`, stored as its bitwise complement.
#[derive(Clone, Copy, Debug, PartialEq, Eq, Structural, PartialOrd, Hash)]
pub struct Id(u32);

/// Relies on `NonZeroU32::try_from`: it fails exactly on zero.
#[verifier::external_body]
pub(crate) fn check_nonzero(x: u32) -> (r: Result<(), TryFromIntError>)
    ensures
        r is Ok <==> x != 0,
{
    match NonZeroU32::try_from(x) {
        Ok(_) => Ok(()),
        Err(e) => Err(e),
    }
}

/// The bitwise complement of a 32-bit word.
pub(crate) fn complement(i: u32) -> (r: u32)
    ensures
        r == u32::MAX - i,
{
    let r = !i;
    proof {
        assert(!i == u32::MAX - i) by (bit_vector);
    }
    r
}

impl Id {
    /// The index.
    pub closed spec fn view(self) -> u32 {
        (u32::MAX - self.0) as u32
    }

    /// The stored word is not zero.
    pub closed spec fn wf(self) -> bool {
        self.0 != 0
    }

    /// Two identifiers with the same index are the same identifier.
    pub proof fn lemma_view_injective(a: Id, b: Id)
        ensures
            (a == b) <==> (a@ == b@),
    {
    }

    /// The identifier of index `i`, or `None` for `u32::MAX`.
    #[inline]
    pub fn new(i: u32) -> (r: Option<Id>)
        ensures
            r is Some <==> i != u32::MAX,
            r matches Some(id) ==> id@ == i && id.wf(),
    {
        let c = complement(i);
        if c == 0 {
            None
        } else {
            Some(Id(c))
        }
    }

    /// The index.
    #[inline]
    pub fn u32(self) -> (r: u32)
        ensures
            r == self@,
    {
        complement(self.0)
    }

    /// The identifier of index `i`; an error for `u32::MAX`.
    #[inline]
    pub fn from_u32(i: u32) -> (r: Result<Id, TryFromIntError>)
        ensures
            r is Ok <==> i != u32::MAX,
            r matches Ok(id) ==> id@ == i && id.wf(),
    {
        let c = complement(i);
        match check_nonzero(c) {
            Ok(()) => Ok(Id(c)),
            Err(e) => Err(e),
        }
    }
}

impl From<Id> for u32 {
    fn from(id: Id) -> (r: u32) {
        id.u32()
    }
}

impl vstd::std_specs::convert::FromSpecImpl<Id> for u32 {
    open spec fn obeys_from_spec() -> bool {
        true
    }

    open spec fn from_spec(v: Id) -> u32 {
        v@
    }
}

impl From<Id> for usize {
    fn from(id: Id) -> (r: usize) {
        id.u32() as usize
    }
}

impl vstd::std_specs::convert::FromSpecImpl<Id> for usize {
    open spec fn obeys_from_spec() -> bool {
        true
    }

    open spec fn from_spec(v: Id) -> usize {
        v@ as usize
    }
}

impl Default for Id {
    /// Index zero.
    fn default() -> (r: Self)
        ensures
            r@ == 0,
            r.wf(),
    {
        Id(u32::MAX)
    }
}

} // verus!
