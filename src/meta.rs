//! Metaentifiers with a niche: the index is stored complemented, so the stored word is
//! never zero, and the largest `u32` is not an index.
use std::num::TryFromIntError;
use vstd::prelude::*;

use crate::id::{check_nonzero, complement};

verus! {

/// An index below `u32::MAX`, stored as its bitwise complement.
#[derive(Clone, Copy, Debug, PartialEq, Eq, Structural, PartialOrd, Hash)]
pub struct Meta(u32);

impl Meta {
    /// The index.
    pub closed spec fn view(self) -> u32 {
        (u32::MAX - self.0) as u32
    }

    /// The stored word is not zero.
    pub closed spec fn wf(self) -> bool {
        self.0 != 0
    }

    /// Two identifiers with the same index are the same identifier.
    pub proof fn lemma_view_injective(a: Meta, b: Meta)
        ensures
            (a == b) <==> (a@ == b@),
    {
    }

    /// The identifier of index `i`, or `None` for `u32::MAX`.
    #[inline]
    pub fn new(i: u32) -> (r: Option<Meta>)
        ensures
            r is Some <==> i != u32::MAX,
            r matches Some(id) ==> id@ == i && id.wf(),
    {
        let c = complement(i);
        if c == 0 {
            None
        } else {
            Some(Meta(c))
        }
    }

    /// The index.
    #[inline]
    pub fn u32(self) -> (r: u32)
        ensures
            r == self@,
    {
        complement(self.0)
    }

    /// The identifier of index `i`; an error for `u32::MAX`.
    #[inline]
    pub fn from_u32(i: u32) -> (r: Result<Meta, TryFromIntError>)
        ensures
            r is Ok <==> i != u32::MAX,
            r matches Ok(id) ==> id@ == i && id.wf(),
    {
        let c = complement(i);
        match check_nonzero(c) {
            Ok(()) => Ok(Meta(c)),
            Err(e) => Err(e),
        }
    }
}

impl From<Meta> for u32 {
    fn from(id: Meta) -> (r: u32) {
        id.u32()
    }
}

impl vstd::std_specs::convert::FromSpecImpl<Meta> for u32 {
    open spec fn obeys_from_spec() -> bool {
        true
    }

    open spec fn from_spec(v: Meta) -> u32 {
        v@
    }
}

impl From<Meta> for usize {
    fn from(id: Meta) -> (r: usize) {
        id.u32() as usize
    }
}

impl vstd::std_specs::convert::FromSpecImpl<Meta> for usize {
    open spec fn obeys_from_spec() -> bool {
        true
    }

    open spec fn from_spec(v: Meta) -> usize {
        v@ as usize
    }
}

impl Default for Meta {
    /// Index zero.
    fn default() -> (r: Self)
        ensures
            r@ == 0,
            r.wf(),
    {
        Meta(u32::MAX)
    }
}

} // verus!
