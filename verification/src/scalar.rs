//! The scalar field: exponents of the prime-order subgroup, reduced modulo
//! its order. Scalars are ordered lexicographically by their canonical
//! big-integer representation, which here is a single machine word.

use core::cmp::Ordering;
use vstd::prelude::*;
use crate::params::SUBGROUP_ORDER;

verus! {

/// A scalar, stored as one reduced machine word.
#[derive(Clone, Copy, PartialEq, Eq, Structural, Debug, Hash)]
pub struct Scalar {
    pub v: u64,
}

impl View for Scalar {
    type V = int;

    open spec fn view(&self) -> int {
        self.v as int
    }
}

impl Scalar {
    /// Whether the stored word is a canonical representative.
    pub open spec fn valid(self) -> bool {
        self.v < SUBGROUP_ORDER
    }

    /// Wraps a canonical representative.
    pub fn new(v: u64) -> (r: Scalar)
        requires
            v < SUBGROUP_ORDER,
        ensures
            r@ == v,
            r.valid(),
    {
        Scalar { v }
    }

    /// Reduces an arbitrary word into the scalar field.
    pub fn from_u64(v: u64) -> (r: Scalar)
        ensures
            r@ == v as int % (SUBGROUP_ORDER as int),
            r.valid(),
    {
        Scalar { v: v % SUBGROUP_ORDER }
    }

    /// The canonical big-integer representation: here, the single word.
    pub fn to_bigint(&self) -> (r: u64)
        ensures
            r == self.v,
    {
        self.v
    }

    /// The lexicographic ordering of `self` and `other`, by comparing the
    /// canonical big-integer representations.
    pub fn cmp(&self, other: &Self) -> (r: Ordering)
        ensures
            (r == Ordering::Less) == (self@ < other@),
            (r == Ordering::Equal) == (self@ == other@),
            (r == Ordering::Greater) == (self@ > other@),
    {
        if self.v < other.v {
            Ordering::Less
        } else if self.v == other.v {
            Ordering::Equal
        } else {
            Ordering::Greater
        }
    }
}

impl PartialOrd for Scalar {
    /// The lexicographic ordering of the canonical representations.
    fn partial_cmp(&self, other: &Self) -> (r: Option<Ordering>) {
        if self.v < other.v {
            Some(Ordering::Less)
        } else if self.v == other.v {
            Some(Ordering::Equal)
        } else {
            Some(Ordering::Greater)
        }
    }
}

impl vstd::std_specs::cmp::PartialOrdSpecImpl for Scalar {
    open spec fn obeys_partial_cmp_spec() -> bool {
        true
    }

    open spec fn partial_cmp_spec(&self, other: &Self) -> Option<Ordering> {
        if self.v < other.v {
            Some(Ordering::Less)
        } else if self.v == other.v {
            Some(Ordering::Equal)
        } else {
            Some(Ordering::Greater)
        }
    }
}

} // verus!
