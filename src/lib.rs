//! Persistent sequences with structural sharing, and the utilities around them.
//!
//! - `list`: immutable singly-linked lists with shared tails.
//! - `skew`, `ralist`: skew-binary random-access lists (constant-time `cons` and
//!   `uncons`, logarithmic `at` and `drop`), with `usize` and `u32` sizes.
//! - `hm`: real-time queues whose rotation is an explicit automaton, two steps per call.
//! - `cat`: catenable lists, bootstrapped over the queue.
//! - `hashcons`, `hc`: hash-consing tables handing out one allocation per live value.
//! - `disjoint_sets`, `sets`, `id`, `meta`: union-find over niche-carrying identifiers.
//! - `lens`: lenses onto parts of structures.
use vstd::prelude::*;

pub mod cat;
pub mod disjoint_sets;
pub mod hashcons;
pub mod hc;
pub mod hm;
pub mod id;
pub mod lens;
pub mod list;
pub mod meta;
pub mod ralist;
pub mod sets;
pub mod skew;

verus! {

/// Cloning a value of `A` gives back a value equal to it.
///
/// The sequence types here copy elements with `Clone` when they move them from one
/// shared node to another; their contracts speak of element sequences, so the
/// operations that copy ask for this.
pub open spec fn clone_exact<A: Clone>() -> bool {
    forall|a: A, b: A| #[trigger] call_ensures(A::clone, (&a,), b) ==> a == b
}

} // verus!
