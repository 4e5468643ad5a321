//! Projective points of the curve.
//!
//! A projective point (X : Y : Z) with Z nonzero stands for the affine point
//! (X/Z, Y/Z); the class is unchanged under scaling of all three
//! coordinates. Incremental arithmetic stays in this form and needs no field
//! inversion; normalization back to affine costs one inversion, and a batch
//! of points is normalized with a single shared inversion.
//!
//! The model of a point's group class is again its multiplicative
//! representative, here (Y - X) / Z.

use vstd::prelude::*;
use crate::field::{
    Fp, fp, fadd, fsub, fmul, finv, fpow, in_field, md,
    lemma_finv, lemma_finv_unique, lemma_finv_mul, lemma_finv_one, lemma_fmul_cancel,
    lemma_no_zero_divisors, lemma_fmul_one, lemma_fmul_comm, lemma_fmul_shuffle, lemma_fmul_assoc,
    lemma_fmul_sub_factor, lemma_fmul_add_factor, lemma_mod_in_field,
    lemma_fmul_in_field, lemma_fpow_adds, lemma_fpow_one_exp, lemma_law_diff,
    lemma_law_sum, lemma_diff_of_squares, lemma_fadd_mods, lemma_fmul_mods,
};
use crate::affine::{Affine, affine_neg_spec};
use crate::params::{COFACTOR, COFACTOR_INV, SUBGROUP_ORDER, GENERATOR_X, GENERATOR_Y};
use vstd::arithmetic::power::lemma_pow0;

verus! {

/// A projective point. Validity asks for canonical coordinates and a nonzero
/// scaling denominator; every class, the identity included, has such a
/// representative, so normalization is total.
#[derive(Clone, Copy, PartialEq, Eq, Structural, Debug, Hash)]
pub struct Projective {
    pub x: Fp,
    pub y: Fp,
    pub z: Fp,
}

/// The identity class (0 : 1 : 1).
pub open spec fn proj_zero() -> Projective {
    Projective { x: fp(0), y: fp(1), z: fp(1) }
}

/// The projective form of an affine point: denominator one.
pub open spec fn to_projective_spec(a: Affine) -> Projective {
    Projective { x: a.x, y: a.y, z: fp(1) }
}

/// The affine point of a projective class: both coordinates divided by Z.
pub open spec fn to_affine_spec(p: Projective) -> Affine {
    Affine { x: fp(fmul(p.x@, finv(p.z@))), y: fp(fmul(p.y@, finv(p.z@))) }
}

/// The same division, kept in projective form with denominator one.
pub open spec fn normalize_spec(p: Projective) -> Projective {
    Projective { x: fp(fmul(p.x@, finv(p.z@))), y: fp(fmul(p.y@, finv(p.z@))), z: fp(1) }
}

/// The addition law in projective coordinates; denominators multiply.
pub open spec fn proj_add_spec(a: Projective, b: Projective) -> Projective {
    Projective {
        x: fp(fadd(fmul(a.x@, b.y@), fmul(a.y@, b.x@))),
        y: fp(fadd(fmul(a.y@, b.y@), fmul(a.x@, b.x@))),
        z: fp(fmul(a.z@, b.z@)),
    }
}

/// Mixed addition: the affine operand has denominator one, so the
/// accumulator's denominator is kept.
pub open spec fn mixed_add_spec(p: Projective, a: Affine) -> Projective {
    Projective {
        x: fp(fadd(fmul(p.x@, a.y@), fmul(p.y@, a.x@))),
        y: fp(fadd(fmul(p.y@, a.y@), fmul(p.x@, a.x@))),
        z: p.z,
    }
}

/// Membership in the prime-order subgroup, on the model: the group class has
/// multiplicative order dividing SUBGROUP_ORDER.
pub open spec fn in_subgroup(u: int) -> bool {
    fpow(u, SUBGROUP_ORDER as nat) == 1
}

/// The value of a most-significant-first bit sequence.
pub open spec fn bits_val(s: Seq<bool>) -> nat
    decreases s.len(),
{
    if s.len() == 0 {
        0
    } else {
        2 * bits_val(s.drop_last()) + (if s.last() {
            1nat
        } else {
            0nat
        })
    }
}

impl Projective {
    /// Canonical coordinates with a nonzero denominator.
    pub open spec fn valid(self) -> bool {
        self.x.valid() && self.y.valid() && self.z.valid() && self.z@ != 0
    }

    /// The projective curve equation Y^2 - X^2 = Z^2.
    pub open spec fn on_curve_spec(self) -> bool {
        fsub(fmul(self.y@, self.y@), fmul(self.x@, self.x@)) == fmul(self.z@, self.z@)
    }

    /// The multiplicative representative (Y - X) / Z of the class.
    pub open spec fn mult_rep(self) -> int {
        fmul(fsub(self.y@, self.x@), finv(self.z@))
    }

    /// The identity class.
    pub fn zero() -> (r: Projective)
        ensures
            r == proj_zero(),
            r.valid(),
            r.mult_rep() == 1,
    {
        proof {
            lemma_finv_one();
            lemma_fmul_one(1);
        }
        Projective { x: Fp::zero(), y: Fp::one(), z: Fp::one() }
    }

    /// Whether this class is the identity.
    pub fn is_zero(&self) -> (r: bool)
        requires
            self.valid(),
        ensures
            r == (self.mult_rep() == 1),
    {
        proof {
            lemma_mult_rep_one(*self);
        }
        let d = self.y.sub(self.x);
        d.v == self.z.v
    }

    /// Whether conversion to affine is free: the denominator is one.
    pub fn is_normalized(&self) -> (r: bool)
        ensures
            r == (self.z@ == 1),
    {
        self.z.v == 1
    }

    /// A fixed generator of the prime-order subgroup, in projective form:
    /// the affine generator with denominator one.
    pub fn prime_subgroup_generator() -> (r: Projective)
        ensures
            r.x@ == GENERATOR_X as int,
            r.y@ == GENERATOR_Y as int,
            r.z@ == 1,
            r.valid(),
            r.on_curve_spec(),
            in_subgroup(r.mult_rep()),
    {
        let g = Affine::prime_subgroup_generator();
        g.to_projective()
    }

    /// Full projective addition.
    pub fn add(&self, other: &Projective) -> (r: Projective)
        requires
            self.valid(),
            other.valid(),
        ensures
            r == proj_add_spec(*self, *other),
            r.valid(),
    {
        proof {
            lemma_no_zero_divisors(self.z@, other.z@);
            lemma_mod_in_field(self.z@ * other.z@);
        }
        let x3 = self.x.mul(other.y).add(self.y.mul(other.x));
        let y3 = self.y.mul(other.y).add(self.x.mul(other.x));
        let z3 = self.z.mul(other.z);
        Projective { x: x3, y: y3, z: z3 }
    }

    /// Point doubling; one coordinate product is shared between the two
    /// halves of the output.
    pub fn double(&self) -> (r: Projective)
        requires
            self.valid(),
        ensures
            r == proj_add_spec(*self, *self),
            r.valid(),
    {
        proof {
            lemma_no_zero_divisors(self.z@, self.z@);
            lemma_mod_in_field(self.z@ * self.z@);
        }
        let xy = self.x.mul(self.y);
        let x3 = xy.add(xy);
        let y3 = self.y.square().add(self.x.square());
        let z3 = self.z.square();
        Projective { x: x3, y: y3, z: z3 }
    }

    /// In-place doubling.
    pub fn double_in_place(&mut self)
        requires
            old(self).valid(),
        ensures
            *final(self) == proj_add_spec(*old(self), *old(self)),
            final(self).valid(),
    {
        *self = self.double();
    }

    /// Adds an affine operand into this accumulator with the cheaper mixed
    /// formula.
    pub fn add_assign_mixed(&mut self, other: &Affine)
        requires
            old(self).valid(),
            other.valid(),
        ensures
            *final(self) == mixed_add_spec(*old(self), *other),
            final(self).valid(),
    {
        let x3 = self.x.mul(other.y).add(self.y.mul(other.x));
        let y3 = self.y.mul(other.y).add(self.x.mul(other.x));
        *self = Projective { x: x3, y: y3, z: self.z };
    }

    /// Mixed addition into a fresh point.
    pub fn add_mixed(&self, other: &Affine) -> (r: Projective)
        requires
            self.valid(),
            other.valid(),
        ensures
            r == mixed_add_spec(*self, *other),
            r.valid(),
    {
        let mut copy = *self;
        copy.add_assign_mixed(other);
        copy
    }

    /// Subtracts an affine operand: addition of its negation.
    pub fn sub_assign_mixed(&mut self, other: &Affine)
        requires
            old(self).valid(),
            other.valid(),
        ensures
            *final(self) == mixed_add_spec(*old(self), affine_neg_spec(*other)),
            final(self).valid(),
    {
        let n = other.neg();
        self.add_assign_mixed(&n);
    }

    /// Normalizes this class to its affine point with one field inversion.
    pub fn to_affine(&self) -> (r: Affine)
        requires
            self.valid(),
        ensures
            r == to_affine_spec(*self),
            r.valid(),
            r.mult_rep() == self.mult_rep(),
            self.on_curve_spec() ==> r.on_curve_spec(),
    {
        proof {
            lemma_to_affine_props(*self);
        }
        let w = self.z.inverse();
        Affine { x: self.x.mul(w), y: self.y.mul(w) }
    }
}

/// For a valid class, the representative is one exactly when Y - X equals Z.
pub proof fn lemma_mult_rep_one(p: Projective)
    requires
        p.valid(),
    ensures
        (p.mult_rep() == 1) == (fsub(p.y@, p.x@) == p.z@),
{
    let d = fsub(p.y@, p.x@);
    let z = p.z@;
    lemma_finv(z);
    lemma_mod_in_field(p.y@ - p.x@);
    if p.mult_rep() == 1 {
        if finv(z) == 0 {
            assert(fmul(d, 0) == 0);
        }
        lemma_fmul_cancel(finv(z), d, z);
    }
}

/// Projective addition multiplies the group classes.
pub proof fn lemma_proj_add_mult_rep(a: Projective, b: Projective)
    requires
        a.valid(),
        b.valid(),
    ensures
        proj_add_spec(a, b).valid(),
        proj_add_spec(a, b).mult_rep() == fmul(a.mult_rep(), b.mult_rep()),
{
    let d1 = fsub(a.y@, a.x@);
    let d2 = fsub(b.y@, b.x@);
    lemma_no_zero_divisors(a.z@, b.z@);
    lemma_mod_in_field(a.z@ * b.z@);
    lemma_mod_in_field(a.y@ * b.y@ + a.x@ * b.x@);
    lemma_mod_in_field(a.x@ * b.y@ + a.y@ * b.x@);
    lemma_fadd_mods(a.y@ * b.y@, a.x@ * b.x@);
    lemma_fadd_mods(a.x@ * b.y@, a.y@ * b.x@);
    lemma_law_diff(a.x@, a.y@, b.x@, b.y@);
    lemma_finv_mul(a.z@, b.z@);
    lemma_fmul_shuffle(d1, d2, finv(a.z@), finv(b.z@));
}

/// Projective addition keeps the curve.
#[verifier::rlimit(40)]
pub proof fn lemma_proj_add_on_curve(a: Projective, b: Projective)
    requires
        a.valid(),
        b.valid(),
        a.on_curve_spec(),
        b.on_curve_spec(),
    ensures
        proj_add_spec(a, b).on_curve_spec(),
{
    let s = proj_add_spec(a, b);
    lemma_mod_in_field(a.y@ * b.y@ + a.x@ * b.x@);
    lemma_mod_in_field(a.x@ * b.y@ + a.y@ * b.x@);
    lemma_mod_in_field(a.z@ * b.z@);
    lemma_fadd_mods(a.y@ * b.y@, a.x@ * b.x@);
    lemma_fadd_mods(a.x@ * b.y@, a.y@ * b.x@);
    lemma_law_diff(a.x@, a.y@, b.x@, b.y@);
    lemma_law_sum(a.x@, a.y@, b.x@, b.y@);
    lemma_diff_of_squares(s.x@, s.y@);
    let d1 = fsub(a.y@, a.x@);
    let d2 = fsub(b.y@, b.x@);
    let p1 = fadd(a.y@, a.x@);
    let p2 = fadd(b.y@, b.x@);
    lemma_fmul_shuffle(d1, d2, p1, p2);
    lemma_diff_of_squares(a.x@, a.y@);
    lemma_diff_of_squares(b.x@, b.y@);
    lemma_fmul_shuffle(a.z@, a.z@, b.z@, b.z@);
    lemma_fmul_mods(a.z@ * b.z@, a.z@ * b.z@);
}

/// The projective form of an affine point has the same group class.
pub proof fn lemma_to_projective_props(a: Affine)
    requires
        a.valid(),
    ensures
        to_projective_spec(a).valid(),
        to_projective_spec(a).mult_rep() == a.mult_rep(),
        a.on_curve_spec() ==> to_projective_spec(a).on_curve_spec(),
{
    lemma_finv_one();
    lemma_mod_in_field(a.y@ - a.x@);
    lemma_fmul_one(a.mult_rep());
    lemma_fmul_one(1);
}

/// Mixed addition agrees with full projective addition on the projective
/// form of the affine operand.
pub proof fn lemma_mixed_is_general(p: Projective, a: Affine)
    requires
        p.valid(),
        a.valid(),
    ensures
        mixed_add_spec(p, a) == proj_add_spec(p, to_projective_spec(a)),
{
    lemma_fmul_one(p.z@);
}

/// Mixed addition multiplies the group classes.
pub proof fn lemma_mixed_mult_rep(p: Projective, a: Affine)
    requires
        p.valid(),
        a.valid(),
    ensures
        mixed_add_spec(p, a).valid(),
        mixed_add_spec(p, a).mult_rep() == fmul(p.mult_rep(), a.mult_rep()),
        p.on_curve_spec() && a.on_curve_spec() ==> mixed_add_spec(p, a).on_curve_spec(),
{
    lemma_mixed_is_general(p, a);
    lemma_to_projective_props(a);
    lemma_proj_add_mult_rep(p, to_projective_spec(a));
    if p.on_curve_spec() && a.on_curve_spec() {
        lemma_proj_add_on_curve(p, to_projective_spec(a));
    }
}

/// Normalization divides out the denominator: the affine image is valid, has
/// the same group class, and stays on the curve.
pub proof fn lemma_to_affine_props(p: Projective)
    requires
        p.valid(),
    ensures
        to_affine_spec(p).valid(),
        to_affine_spec(p).mult_rep() == p.mult_rep(),
        p.on_curve_spec() ==> to_affine_spec(p).on_curve_spec(),
{
    let w = finv(p.z@);
    let x = p.x@;
    let y = p.y@;
    lemma_finv(p.z@);
    lemma_fmul_in_field(x, w);
    lemma_fmul_in_field(y, w);
    lemma_fmul_sub_factor(y, x, w);
    let a = to_affine_spec(p);
    if p.on_curve_spec() {
        lemma_diff_of_squares(a.x@, a.y@);
        lemma_fmul_add_factor(y, x, w);
        lemma_fmul_shuffle(fsub(y, x), w, fadd(y, x), w);
        lemma_diff_of_squares(x, y);
        lemma_fmul_shuffle(p.z@, p.z@, w, w);
        lemma_fmul_one(1);
    }
}

/// Normalizing in place is the projective form of the affine image.
pub proof fn lemma_normalize_props(p: Projective)
    requires
        p.valid(),
    ensures
        normalize_spec(p).valid(),
        normalize_spec(p).z@ == 1,
        normalize_spec(p).mult_rep() == p.mult_rep(),
        p.on_curve_spec() ==> normalize_spec(p).on_curve_spec(),
        to_affine_spec(p) == (Affine { x: normalize_spec(p).x, y: normalize_spec(p).y }),
{
    lemma_to_affine_props(p);
    let n = normalize_spec(p);
    lemma_finv_one();
    lemma_mod_in_field(n.y@ - n.x@);
    lemma_fmul_one(fsub(n.y@, n.x@));
    if p.on_curve_spec() {
        lemma_curve_eq_to_proj(to_affine_spec(p));
    }
}

/// An affine point on the curve is on the projective curve with Z = 1.
proof fn lemma_curve_eq_to_proj(a: Affine)
    requires
        a.on_curve_spec(),
    ensures
        to_projective_spec(a).on_curve_spec(),
{
    lemma_fmul_one(1);
}

/// One step of the most-significant-first bit value.
proof fn lemma_bits_val_step(s: Seq<bool>, i: int)
    requires
        0 <= i < s.len(),
    ensures
        bits_val(s.take(i + 1)) == 2 * bits_val(s.take(i)) + (if s[i] {
            1nat
        } else {
            0nat
        }),
{
    assert(s.take(i + 1).drop_last() =~= s.take(i));
    assert(s.take(i + 1).last() == s[i]);
}

/// The bit pattern of the cofactor.
proof fn lemma_bits_val_cofactor(s: Seq<bool>)
    requires
        s =~= Seq::<bool>::empty().push(true).push(false),
    ensures
        bits_val(s) == COFACTOR,
{
    assert(s.drop_last() =~= Seq::<bool>::empty().push(true));
    assert(Seq::<bool>::empty().push(true).drop_last() =~= Seq::<bool>::empty());
    assert(bits_val(Seq::<bool>::empty()) == 0);
    assert(bits_val(Seq::<bool>::empty().push(true)) == 1);
}

/// The bit pattern of the cofactor's inverse modulo the subgroup order.
proof fn lemma_bits_val_cofactor_inv(s: Seq<bool>)
    requires
        s =~= Seq::<bool>::empty().push(true).push(true).push(false),
    ensures
        bits_val(s) == COFACTOR_INV,
{
    assert(s.drop_last() =~= Seq::<bool>::empty().push(true).push(true));
    assert(Seq::<bool>::empty().push(true).push(true).drop_last() =~= Seq::<
        bool,
    >::empty().push(true));
    assert(Seq::<bool>::empty().push(true).drop_last() =~= Seq::<bool>::empty());
    assert(bits_val(Seq::<bool>::empty()) == 0);
    assert(bits_val(Seq::<bool>::empty().push(true)) == 1);
    assert(bits_val(Seq::<bool>::empty().push(true).push(true)) == 3);
}

/// The bit pattern of the subgroup order.
proof fn lemma_bits_val_order(s: Seq<bool>)
    requires
        s =~= Seq::<bool>::empty().push(true).push(false).push(true).push(true),
    ensures
        bits_val(s) == SUBGROUP_ORDER,
{
    assert(s.drop_last() =~= Seq::<bool>::empty().push(true).push(false).push(true));
    assert(Seq::<bool>::empty().push(true).push(false).push(true).drop_last() =~= Seq::<
        bool,
    >::empty().push(true).push(false));
    assert(Seq::<bool>::empty().push(true).push(false).drop_last() =~= Seq::<
        bool,
    >::empty().push(true));
    assert(Seq::<bool>::empty().push(true).drop_last() =~= Seq::<bool>::empty());
    assert(bits_val(Seq::<bool>::empty()) == 0);
    assert(bits_val(Seq::<bool>::empty().push(true)) == 1);
    assert(bits_val(Seq::<bool>::empty().push(true).push(false)) == 2);
    assert(bits_val(Seq::<bool>::empty().push(true).push(false).push(true)) == 5);
}

/// The generator's class has multiplicative order dividing the subgroup
/// order: 2^11 is 1 in the field, assembled from repeated squarings.
proof fn lemma_generator_order()
    ensures
        fpow(2, SUBGROUP_ORDER as nat) == 1,
{
    lemma_fpow_one_exp(2);
    lemma_fpow_adds(2, 1nat, 1nat);
    lemma_fpow_adds(2, 2nat, 2nat);
    lemma_fpow_adds(2, 4nat, 4nat);
    lemma_fpow_adds(2, 8nat, 2nat);
    lemma_fpow_adds(2, 10nat, 1nat);
    assert(SUBGROUP_ORDER == 11);
    assert(fpow(2, 1nat) == 2);
    assert(fpow(2, 2nat) == 4);
    assert(fpow(2, 4nat) == 16);
    assert(fpow(2, 8nat) == 3);
    assert(fpow(2, 10nat) == 12);
    assert(fpow(2, 11nat) == 1);
}

impl Affine {
    /// A fixed generator of the prime-order subgroup.
    pub fn prime_subgroup_generator() -> (r: Affine)
        ensures
            r.x@ == GENERATOR_X as int,
            r.y@ == GENERATOR_Y as int,
            r.valid(),
            r.on_curve_spec(),
            in_subgroup(r.mult_rep()),
    {
        proof {
            assert((49 as int) % (23 as int) == 3);
            lemma_generator_order();
        }
        Affine { x: Fp::new(GENERATOR_X), y: Fp::new(GENERATOR_Y) }
    }

    /// Lifts this point into projective form with denominator one.
    pub fn to_projective(&self) -> (r: Projective)
        requires
            self.valid(),
        ensures
            r == to_projective_spec(*self),
            r.valid(),
            r.mult_rep() == self.mult_rep(),
            self.on_curve_spec() ==> r.on_curve_spec(),
    {
        proof {
            lemma_to_projective_props(*self);
        }
        Projective { x: self.x, y: self.y, z: Fp::one() }
    }

    /// Scalar multiplication by a most-significant-first bit sequence of
    /// any width, by double-and-add over a projective accumulator.
    pub fn mul_bits(&self, bits: &Vec<bool>) -> (r: Projective)
        requires
            self.valid(),
        ensures
            r.valid(),
            r.mult_rep() == fpow(self.mult_rep(), bits_val(bits@)),
            self.on_curve_spec() ==> r.on_curve_spec(),
    {
        let ghost u = self.mult_rep();
        let mut acc = Projective::zero();
        proof {
            assert(bits@.take(0) =~= Seq::<bool>::empty());
            lemma_pow0(u);
            lemma_mod_in_field(self.y@ - self.x@);
        }
        let mut i: usize = 0;
        while i < bits.len()
            invariant
                i <= bits@.len(),
                self.valid(),
                acc.valid(),
                u == self.mult_rep(),
                in_field(u),
                acc.mult_rep() == fpow(u, bits_val(bits@.take(i as int))),
                self.on_curve_spec() ==> acc.on_curve_spec(),
            decreases bits@.len() - i,
        {
            let ghost k = bits_val(bits@.take(i as int));
            proof {
                lemma_proj_add_mult_rep(acc, acc);
                if self.on_curve_spec() {
                    lemma_proj_add_on_curve(acc, acc);
                }
                lemma_fpow_adds(u, k, k);
            }
            acc = acc.double();
            if bits[i] {
                proof {
                    lemma_mixed_mult_rep(acc, *self);
                    lemma_fpow_one_exp(u);
                    lemma_fpow_adds(u, k + k, 1nat);
                }
                acc.add_assign_mixed(self);
            }
            proof {
                lemma_bits_val_step(bits@, i as int);
            }
            i = i + 1;
        }
        proof {
            assert(bits@.take(bits@.len() as int) =~= bits@);
        }
        acc
    }

    /// Multiplies by the cofactor, in projective form. For any on-curve
    /// input, the result lies in the prime-order subgroup.
    pub fn mul_by_cofactor_to_projective(&self) -> (r: Projective)
        requires
            self.valid(),
        ensures
            r.valid(),
            r.mult_rep() == fpow(self.mult_rep(), COFACTOR as nat),
            self.on_curve_spec() ==> r.on_curve_spec(),
    {
        let mut bits: Vec<bool> = Vec::new();
        bits.push(true);
        bits.push(false);
        proof {
            lemma_bits_val_cofactor(bits@);
        }
        self.mul_bits(&bits)
    }

    /// Multiplies by the cofactor; the affine form of the projective
    /// product.
    pub fn mul_by_cofactor(&self) -> (r: Affine)
        requires
            self.valid(),
        ensures
            r.valid(),
            r.mult_rep() == fpow(self.mult_rep(), COFACTOR as nat),
            self.on_curve_spec() ==> r.on_curve_spec(),
    {
        self.mul_by_cofactor_to_projective().to_affine()
    }

    /// Multiplies by the inverse of the cofactor modulo the subgroup order.
    /// Composed with `mul_by_cofactor` it recovers a subgroup point.
    pub fn mul_by_cofactor_inv(&self) -> (r: Affine)
        requires
            self.valid(),
        ensures
            r.valid(),
            r.mult_rep() == fpow(self.mult_rep(), COFACTOR_INV as nat),
            self.on_curve_spec() ==> r.on_curve_spec(),
    {
        let mut bits: Vec<bool> = Vec::new();
        bits.push(true);
        bits.push(true);
        bits.push(false);
        proof {
            lemma_bits_val_cofactor_inv(bits@);
        }
        self.mul_bits(&bits).to_affine()
    }

    /// Decides membership in the prime-order subgroup by multiplying with
    /// the subgroup order; callers are expected to have checked the curve
    /// equation first.
    pub fn is_in_correct_subgroup_assuming_on_curve(&self) -> (r: bool)
        requires
            self.valid(),
        ensures
            r == in_subgroup(self.mult_rep()),
    {
        let mut bits: Vec<bool> = Vec::new();
        bits.push(true);
        bits.push(false);
        bits.push(true);
        bits.push(true);
        proof {
            lemma_bits_val_order(bits@);
        }
        let p = self.mul_bits(&bits);
        p.is_zero()
    }
}

/// The running product of the denominators of the first `k` points.
pub open spec fn zprod(s: Seq<Projective>, k: int) -> int
    decreases k,
{
    if k <= 0 {
        1
    } else {
        fmul(zprod(s, k - 1), s[k - 1].z@)
    }
}

/// The running product of nonzero denominators is a nonzero field element.
proof fn lemma_zprod_nonzero(s: Seq<Projective>, k: int)
    requires
        0 <= k <= s.len(),
        forall|j: int| 0 <= j < s.len() ==> (#[trigger] s[j]).valid(),
    ensures
        in_field(zprod(s, k)),
        zprod(s, k) != 0,
    decreases k,
{
    if k > 0 {
        lemma_zprod_nonzero(s, k - 1);
        lemma_no_zero_divisors(zprod(s, k - 1), s[k - 1].z@);
        lemma_fmul_in_field(zprod(s, k - 1), s[k - 1].z@);
    }
}

impl Projective {
    /// Normalizes every element of the sequence so that affine conversion
    /// is free, spending exactly one field inversion for the whole batch:
    /// a forward pass accumulates the running product of the denominators,
    /// the accumulated product is inverted once, and a backward pass
    /// recovers each element's inverse denominator from the inverse of the
    /// running product. Order is preserved; the identity class participates
    /// like any other element, since every valid denominator is nonzero.
    #[verifier::rlimit(100)]
    pub fn batch_normalization(v: &mut Vec<Projective>)
        requires
            forall|j: int| 0 <= j < old(v)@.len() ==> (#[trigger] old(v)@[j]).valid(),
        ensures
            final(v)@.len() == old(v)@.len(),
            forall|j: int|
                0 <= j < old(v)@.len() ==> final(v)@[j] == normalize_spec(
                    #[trigger] old(v)@[j],
                ),
    {
        let ghost g = v@;
        let n = v.len();
        if n == 0 {
            return ;
        }
        let mut prods: Vec<Fp> = Vec::new();
        let mut acc = Fp::one();
        let mut i: usize = 0;
        while i < n
            invariant
                v@ == g,
                g.len() == n,
                forall|j: int| 0 <= j < n ==> (#[trigger] g[j]).valid(),
                i <= n,
                prods@.len() == i,
                forall|j: int| 0 <= j < i ==> (#[trigger] prods@[j])@ == zprod(g, j + 1),
                forall|j: int| 0 <= j < i ==> (#[trigger] prods@[j]).valid(),
                acc@ == zprod(g, i as int),
                acc.valid(),
                acc@ != 0,
            decreases n - i,
        {
            proof {
                lemma_no_zero_divisors(acc@, g[i as int].z@);
            }
            acc = acc.mul(v[i].z);
            prods.push(acc);
            i = i + 1;
        }
        let mut t = acc.inverse();
        proof {
            lemma_zprod_nonzero(g, n as int);
        }
        let mut i: usize = n;
        while i > 0
            invariant
                v@.len() == n,
                g.len() == n,
                prods@.len() == n,
                forall|j: int| 0 <= j < n ==> (#[trigger] g[j]).valid(),
                forall|j: int| 0 <= j < n ==> (#[trigger] prods@[j])@ == zprod(g, j + 1),
                i <= n,
                forall|j: int| 0 <= j < i ==> v@[j] == #[trigger] g[j],
                forall|j: int| i <= j < n ==> v@[j] == normalize_spec(#[trigger] g[j]),
                t.valid(),
                t@ == finv(zprod(g, i as int)),
            decreases i,
        {
            i = i - 1;
            let zi = v[i].z;
            proof {
                lemma_zprod_nonzero(g, i as int);
                lemma_zprod_nonzero(g, i as int + 1);
                lemma_finv(zprod(g, i as int + 1));
            }
            let w = if i == 0 {
                t
            } else {
                t.mul(prods[i - 1])
            };
            proof {
                assert(zprod(g, i as int + 1) == fmul(zprod(g, i as int), g[i as int].z@));
                if i == 0 {
                    assert(zprod(g, 0) == 1);
                    lemma_fmul_one(g[0].z@);
                } else {
                    lemma_fmul_assoc(t@, zprod(g, i as int), g[i as int].z@);
                }
                assert(fmul(w@, zi@) == 1);
                lemma_fmul_comm(zi@, w@);
                lemma_finv_unique(zi@, w@);
            }
            let xn = v[i].x.mul(w);
            let yn = v[i].y.mul(w);
            let upd = Projective { x: xn, y: yn, z: Fp::one() };
            v[i] = upd;
            let ghost told = t@;
            t = t.mul(zi);
            proof {
                assert(zprod(g, i as int + 1) == fmul(zprod(g, i as int), g[i as int].z@));
                lemma_fmul_assoc(told, zi@, zprod(g, i as int));
                lemma_fmul_comm(zi@, zprod(g, i as int));
                assert(fmul(t@, zprod(g, i as int)) == 1);
                lemma_fmul_comm(t@, zprod(g, i as int));
                lemma_finv_unique(zprod(g, i as int), t@);
            }
        }
    }

    /// Normalizes the whole sequence with one shared inversion and converts
    /// every element to its affine form, in order.
    pub fn batch_normalization_into_affine(v: Vec<Projective>) -> (r: Vec<Affine>)
        requires
            forall|j: int| 0 <= j < v@.len() ==> (#[trigger] v@[j]).valid(),
        ensures
            r@.len() == v@.len(),
            forall|j: int| 0 <= j < v@.len() ==> r@[j] == to_affine_spec(#[trigger] v@[j]),
    {
        let ghost g = v@;
        let mut w = v;
        Projective::batch_normalization(&mut w);
        let mut out: Vec<Affine> = Vec::new();
        let mut i: usize = 0;
        while i < w.len()
            invariant
                w@.len() == g.len(),
                forall|j: int| 0 <= j < g.len() ==> (#[trigger] g[j]).valid(),
                forall|j: int| 0 <= j < g.len() ==> w@[j] == normalize_spec(#[trigger] g[j]),
                i <= g.len(),
                out@.len() == i,
                forall|j: int| 0 <= j < i ==> out@[j] == to_affine_spec(#[trigger] g[j]),
            decreases g.len() - i,
        {
            proof {
                lemma_normalize_props(g[i as int]);
            }
            let a = Affine { x: w[i].x, y: w[i].y };
            out.push(a);
            i = i + 1;
        }
        out
    }
}

/// The affine round trip: lifting a point to projective form and
/// normalizing back returns the same point.
pub proof fn lemma_affine_round_trip(a: Affine)
    requires
        a.valid(),
    ensures
        to_affine_spec(to_projective_spec(a)) == a,
{
    lemma_finv_one();
    lemma_fmul_one(a.x@);
    lemma_fmul_one(a.y@);
}

} // verus!
