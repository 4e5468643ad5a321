//! The curve parameters: one fixed configuration, chosen at build time.
//!
//! The model is the twisted Edwards family a*x^2 + y^2 = 1 + d*x^2*y^2, here
//! with a = -1 and d = 0, so the equation is y^2 - x^2 = 1. The full point
//! group has order MODULUS - 1 = COFACTOR * SUBGROUP_ORDER; the prime-order
//! subgroup has SUBGROUP_ORDER elements, and the generator below generates
//! it. The birationally equivalent Montgomery model B*y^2 = x^3 + A*x^2 + x
//! has A = 2*(a + d)/(a - d) and B = 4/(a - d); both are recorded here as
//! companion constants of the same configuration.

use vstd::prelude::*;
use crate::field::{Fp, fmul, fneg, lemma_mod_literal};

verus! {

/// The twisted Edwards coefficient A, the field's minus one.
pub const EDWARDS_A: u64 = 22;

/// The twisted Edwards coefficient D.
pub const EDWARDS_D: u64 = 0;

/// The cofactor of the curve: the index of the prime-order subgroup in the
/// full point group.
pub const COFACTOR: u64 = 2;

/// The inverse of the cofactor modulo the subgroup order.
pub const COFACTOR_INV: u64 = 6;

/// The order of the prime-order subgroup (the scalar field's modulus).
pub const SUBGROUP_ORDER: u64 = 11;

/// The x-coordinate of the subgroup generator.
pub const GENERATOR_X: u64 = 5;

/// The y-coordinate of the subgroup generator.
pub const GENERATOR_Y: u64 = 7;

/// The coefficient A of the birationally equivalent Montgomery model.
pub const MONTGOMERY_A: u64 = 2;

/// The coefficient B of the birationally equivalent Montgomery model.
pub const MONTGOMERY_B: u64 = 19;

/// Applies the Edwards coefficient A to a field element, as used by the
/// curve-equation checks.
pub fn mul_by_a(elem: &Fp) -> (r: Fp)
    requires
        elem.valid(),
    ensures
        r.valid(),
        r@ == fmul(elem@, fneg(1)),
{
    proof {
        lemma_mod_literal(-1, -1, 22);
        assert(fneg(1) == EDWARDS_A as int);
    }
    elem.mul(Fp::new(EDWARDS_A))
}

/// The cofactor as a little-endian sequence of machine words.
pub fn cofactor() -> (r: Vec<u64>)
    ensures
        r@.len() == 1,
        r@[0] == COFACTOR,
{
    let mut out: Vec<u64> = Vec::new();
    out.push(COFACTOR);
    out
}

} // verus!
