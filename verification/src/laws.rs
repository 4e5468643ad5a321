//! The algebraic laws of the group, stated once over the specification
//! functions that the operation contracts use.
//!
//! Together with the lemmas beside the operations themselves (neutrality of
//! the identity and cancellation against the negation in `affine`, the round
//! trip and the mixed-addition agreement in `projective`), these are the
//! group-theoretic guarantees of the library.

use vstd::prelude::*;
use vstd::arithmetic::mul::lemma_mul_is_distributive_add;
use vstd::arithmetic::mul::lemma_mul_is_distributive_add_other_way;
use vstd::arithmetic::mul::lemma_mul_is_associative;
use crate::field::{
    fadd, fsub, fmul, fpow, in_field, lemma_fadd_mods, lemma_fsub_mods,
    lemma_fmul_mod_left, lemma_fmul_mod_right, lemma_fmul_cancel,
    lemma_mod_in_field, lemma_fermat, lemma_fpow_mul, lemma_fpow_adds, lemma_fpow_one_exp,
    lemma_fmul_one,
};
use crate::affine::{Affine, lemma_on_curve_mult_rep_nonzero};
use crate::projective::{Projective, proj_add_spec, in_subgroup};
use crate::params::{COFACTOR, COFACTOR_INV, SUBGROUP_ORDER};

verus! {

/// Projective addition is associative, coordinate for coordinate: grouping
/// does not even change the chosen class representative.
#[verifier::rlimit(80)]
pub proof fn lemma_projective_add_associative(a: Projective, b: Projective, c: Projective)
    ensures
        proj_add_spec(proj_add_spec(a, b), c) == proj_add_spec(a, proj_add_spec(b, c)),
{
    let x1 = a.x@;
    let y1 = a.y@;
    let z1 = a.z@;
    let x2 = b.x@;
    let y2 = b.y@;
    let z2 = b.z@;
    let x3 = c.x@;
    let y3 = c.y@;
    let z3 = c.z@;
    lemma_mod_in_field(x1 * y2 + y1 * x2);
    lemma_mod_in_field(y1 * y2 + x1 * x2);
    lemma_mod_in_field(z1 * z2);
    lemma_mod_in_field(x2 * y3 + y2 * x3);
    lemma_mod_in_field(y2 * y3 + x2 * x3);
    lemma_mod_in_field(z2 * z3);
    lemma_fadd_mods(x1 * y2, y1 * x2);
    lemma_fadd_mods(y1 * y2, x1 * x2);
    lemma_fadd_mods(x2 * y3, y2 * x3);
    lemma_fadd_mods(y2 * y3, x2 * x3);
    lemma_fmul_mod_left(x1 * y2 + y1 * x2, y3);
    lemma_fmul_mod_left(y1 * y2 + x1 * x2, x3);
    lemma_fmul_mod_left(y1 * y2 + x1 * x2, y3);
    lemma_fmul_mod_left(x1 * y2 + y1 * x2, x3);
    lemma_fmul_mod_left(z1 * z2, z3);
    lemma_fmul_mod_right(x1, y2 * y3 + x2 * x3);
    lemma_fmul_mod_right(y1, x2 * y3 + y2 * x3);
    lemma_fmul_mod_right(y1, y2 * y3 + x2 * x3);
    lemma_fmul_mod_right(x1, x2 * y3 + y2 * x3);
    lemma_fmul_mod_right(z1, z2 * z3);
    lemma_fadd_mods((x1 * y2 + y1 * x2) * y3, (y1 * y2 + x1 * x2) * x3);
    lemma_fadd_mods((y1 * y2 + x1 * x2) * y3, (x1 * y2 + y1 * x2) * x3);
    lemma_fadd_mods(x1 * (y2 * y3 + x2 * x3), y1 * (x2 * y3 + y2 * x3));
    lemma_fadd_mods(y1 * (y2 * y3 + x2 * x3), x1 * (x2 * y3 + y2 * x3));
    lemma_assoc_identity(x1, y1, x2, y2, x3, y3);
    lemma_assoc_identity(y1, x1, y2, x2, y3, x3);
    lemma_assoc_z(z1, z2, z3);
}

/// The ring identity behind associativity of the group law, one coordinate.
proof fn lemma_assoc_identity(x1: int, y1: int, x2: int, y2: int, x3: int, y3: int)
    ensures
        (x1 * y2 + y1 * x2) * y3 + (y1 * y2 + x1 * x2) * x3 == x1 * (y2 * y3 + x2 * x3) + y1 * (
        x2 * y3 + y2 * x3),
{
    lemma_mul_is_distributive_add_other_way(y3, x1 * y2, y1 * x2);
    lemma_mul_is_distributive_add_other_way(x3, y1 * y2, x1 * x2);
    lemma_mul_is_distributive_add(x1, y2 * y3, x2 * x3);
    lemma_mul_is_distributive_add(y1, x2 * y3, y2 * x3);
    lemma_mul_is_associative(x1, y2, y3);
    lemma_mul_is_associative(y1, x2, y3);
    lemma_mul_is_associative(y1, y2, x3);
    lemma_mul_is_associative(x1, x2, x3);
}

/// Plain associativity of multiplication, for the denominators.
proof fn lemma_assoc_z(z1: int, z2: int, z3: int)
    ensures
        (z1 * z2) * z3 == z1 * (z2 * z3),
{
    lemma_mul_is_associative(z1, z2, z3);
}

/// Cofactor clearing: multiplying any on-curve point by the cofactor lands
/// in the prime-order subgroup, whether or not the point started there.
pub proof fn lemma_cofactor_clearing(a: Affine)
    requires
        a.valid(),
        a.on_curve_spec(),
    ensures
        in_subgroup(fpow(a.mult_rep(), COFACTOR as nat)),
{
    lemma_on_curve_mult_rep_nonzero(a);
    lemma_fpow_mul(a.mult_rep(), COFACTOR as nat, SUBGROUP_ORDER as nat);
    lemma_fermat(a.mult_rep());
}

/// The cofactor inverse round trip: on a subgroup class, multiplying by the
/// cofactor's inverse and then by the cofactor returns the original class.
pub proof fn lemma_cofactor_inv_round_trip(u: int)
    requires
        in_field(u),
        in_subgroup(u),
    ensures
        fpow(fpow(u, COFACTOR_INV as nat), COFACTOR as nat) == u,
{
    lemma_fpow_mul(u, COFACTOR_INV as nat, COFACTOR as nat);
    lemma_fpow_adds(u, SUBGROUP_ORDER as nat, 1nat);
    lemma_fpow_one_exp(u);
    lemma_fmul_one(u);
}

/// The conversions are loss-free: a point's group class determines the
/// point, so no two distinct on-curve affine points share a projective
/// class.
pub proof fn lemma_class_determines_point(a: Affine, b: Affine)
    requires
        a.valid(),
        b.valid(),
        a.on_curve_spec(),
        b.on_curve_spec(),
        a.mult_rep() == b.mult_rep(),
    ensures
        a == b,
{
    lemma_on_curve_mult_rep_nonzero(a);
    lemma_on_curve_mult_rep_nonzero(b);
    // The two halves of the factored curve equation agree...
    lemma_fmul_cancel(a.mult_rep(), a.plus_rep(), b.plus_rep());
    // ...so both coordinates are pinned, since 2 is invertible.
    lemma_fadd_mods(a.y@ - a.x@, a.y@ + a.x@);
    lemma_fadd_mods(b.y@ - b.x@, b.y@ + b.x@);
    lemma_fsub_mods(a.y@ + a.x@, a.y@ - a.x@);
    lemma_fsub_mods(b.y@ + b.x@, b.y@ - b.x@);
    assert(fmul(2, a.y@) == fadd(a.mult_rep(), a.plus_rep()));
    assert(fmul(2, b.y@) == fadd(b.mult_rep(), b.plus_rep()));
    assert(fmul(2, a.x@) == fsub(a.plus_rep(), a.mult_rep()));
    assert(fmul(2, b.x@) == fsub(b.plus_rep(), b.mult_rep()));
    lemma_fmul_cancel(2, a.y@, b.y@);
    lemma_fmul_cancel(2, a.x@, b.x@);
}

} // verus!
