//! Affine points of the curve.
//!
//! The curve is given in twisted Edwards form with coefficient A = -1 and
//! D = 0 over the base field: its equation is y^2 - x^2 = 1. The addition law
//! is complete (it needs no case split and no inversion), and the identity is
//! the affine point (0, 1); there is no point at infinity.
//!
//! The equation factors as (y - x) * (y + x) = 1, so the map sending a point
//! to `y - x` is an isomorphism onto the multiplicative group of the field.
//! That image, `mult_rep`, is the mathematical model of a point's group
//! class: every group-law contract below is stated through it.

use vstd::prelude::*;
use crate::field::{
    Fp, fp, fadd, fsub, fmul, fneg, in_field, md, MODULUS,
    lemma_fadd_mods, lemma_fsub_mods, lemma_fadd_mod_right,
    lemma_fadd_neg, lemma_fadd_neg_self, lemma_fmul_neg, lemma_fmul_one,
    lemma_fmul_shuffle, lemma_fneg_involution, lemma_mod_in_field, lemma_small,
    lemma_fsub_mod_right, lemma_fmul_in_field, lemma_law_diff, lemma_law_sum,
    lemma_diff_of_squares,
};

verus! {

/// An affine point: a raw coordinate pair. Construction does not validate
/// curve membership; `is_on_curve` and the subgroup check are explicit,
/// separately evaluated predicates.
#[derive(Clone, Copy, PartialEq, Eq, Structural, Debug, Hash)]
pub struct Affine {
    pub x: Fp,
    pub y: Fp,
}

/// The curve equation y^2 - x^2 = 1 on the model.
pub open spec fn curve_eq(x: int, y: int) -> bool {
    fsub(fmul(y, y), fmul(x, x)) == 1
}

/// The identity point (0, 1).
pub open spec fn affine_zero() -> Affine {
    Affine { x: fp(0), y: fp(1) }
}

/// The negation of a point: x is negated, y is kept.
pub open spec fn affine_neg_spec(a: Affine) -> Affine {
    Affine { x: fp(fneg(a.x@)), y: a.y }
}

/// The complete addition law in coordinates:
/// (x1, y1) + (x2, y2) = (x1 y2 + y1 x2, y1 y2 + x1 x2).
pub open spec fn affine_add_spec(a: Affine, b: Affine) -> Affine {
    Affine {
        x: fp(fadd(fmul(a.x@, b.y@), fmul(a.y@, b.x@))),
        y: fp(fadd(fmul(a.y@, b.y@), fmul(a.x@, b.x@))),
    }
}

impl Affine {
    /// Both coordinates are canonical field representatives.
    pub open spec fn valid(self) -> bool {
        self.x.valid() && self.y.valid()
    }

    /// Whether the coordinates satisfy the curve equation.
    pub open spec fn on_curve_spec(self) -> bool {
        curve_eq(self.x@, self.y@)
    }

    /// The multiplicative representative y - x of the point's group class.
    pub open spec fn mult_rep(self) -> int {
        fsub(self.y@, self.x@)
    }

    /// The cofactor image y + x; on the curve it is the inverse of
    /// `mult_rep`.
    pub open spec fn plus_rep(self) -> int {
        fadd(self.y@, self.x@)
    }

    /// Raw construction from a coordinate pair. No validation happens here:
    /// callers must check `is_on_curve` (and, where it matters, the subgroup
    /// predicate) before trusting the result.
    pub fn from_coordinates(coordinates: (Fp, Fp)) -> (r: Affine)
        ensures
            r.x == coordinates.0,
            r.y == coordinates.1,
    {
        Affine { x: coordinates.0, y: coordinates.1 }
    }

    /// The identity point.
    pub fn zero() -> (r: Affine)
        ensures
            r == affine_zero(),
            r.valid(),
    {
        Affine { x: Fp::zero(), y: Fp::one() }
    }

    /// Whether this is the identity point.
    pub fn is_zero(&self) -> (r: bool)
        ensures
            r == (*self == affine_zero()),
    {
        self.x.v == 0 && self.y.v == 1
    }

    /// The x-coordinate.
    pub fn to_x_coordinate(&self) -> (r: Fp)
        ensures
            r == self.x,
    {
        self.x
    }

    /// The y-coordinate.
    pub fn to_y_coordinate(&self) -> (r: Fp)
        ensures
            r == self.y,
    {
        self.y
    }

    /// Whether the point satisfies the curve equation.
    pub fn is_on_curve(&self) -> (r: bool)
        requires
            self.valid(),
        ensures
            r == self.on_curve_spec(),
    {
        let lhs = self.y.square().sub(self.x.square());
        lhs.v == 1
    }

    /// Point negation.
    pub fn neg(self) -> (r: Affine)
        requires
            self.valid(),
        ensures
            r == affine_neg_spec(self),
            r.valid(),
    {
        Affine { x: self.x.neg(), y: self.y }
    }

    /// Attempts to construct a point from an x-coordinate by solving the
    /// curve equation for y. The result is on the curve but not guaranteed
    /// to lie in the prime-order subgroup. When two roots exist, `greatest`
    /// selects the larger y under the canonical ordering of representatives
    /// if and only if it is set.
    pub fn from_x_coordinate(x: Fp, greatest: bool) -> (r: Option<Affine>)
        requires
            x.valid(),
        ensures
            match r {
                Some(p) => p.x == x && p.valid() && p.on_curve_spec() && (greatest
                    ==> fneg(p.y@) <= p.y@) && (!greatest ==> p.y@ <= fneg(p.y@)),
                None => forall|y: int| in_field(y) ==> !curve_eq(x@, y),
            },
    {
        let rhs = Fp::one().add(x.square());
        match rhs.sqrt() {
            Some(s) => {
                let t = s.neg();
                proof {
                    lemma_fmul_neg(fneg(s@), s@);
                    lemma_fmul_neg(s@, s@);
                    lemma_fmul_in_field(s@, s@);
                    lemma_fneg_involution(fmul(s@, s@));
                    lemma_fneg_involution(s@);
                    lemma_curve_eq_solve_y(x@, s@);
                    lemma_curve_eq_solve_y(x@, fneg(s@));
                }
                let yv = if greatest {
                    if s.v >= t.v { s } else { t }
                } else {
                    if s.v >= t.v { t } else { s }
                };
                Some(Affine { x, y: yv })
            },
            None => {
                proof {
                    assert forall|y: int| in_field(y) implies !curve_eq(x@, y) by {
                        lemma_curve_eq_solve_y(x@, y);
                    }
                }
                None
            },
        }
    }

    /// Attempts to construct a point from a y-coordinate by solving the
    /// curve equation for x; the mirror of `from_x_coordinate`, with
    /// `greatest` selecting the larger x.
    pub fn from_y_coordinate(y: Fp, greatest: bool) -> (r: Option<Affine>)
        requires
            y.valid(),
        ensures
            match r {
                Some(p) => p.y == y && p.valid() && p.on_curve_spec() && (greatest
                    ==> fneg(p.x@) <= p.x@) && (!greatest ==> p.x@ <= fneg(p.x@)),
                None => forall|x: int| in_field(x) ==> !curve_eq(x, y@),
            },
    {
        let rhs = y.square().sub(Fp::one());
        match rhs.sqrt() {
            Some(s) => {
                let t = s.neg();
                proof {
                    lemma_fmul_neg(fneg(s@), s@);
                    lemma_fmul_neg(s@, s@);
                    lemma_fmul_in_field(s@, s@);
                    lemma_fneg_involution(fmul(s@, s@));
                    lemma_fneg_involution(s@);
                    lemma_curve_eq_solve_x(s@, y@);
                    lemma_curve_eq_solve_x(fneg(s@), y@);
                }
                let xv = if greatest {
                    if s.v >= t.v { s } else { t }
                } else {
                    if s.v >= t.v { t } else { s }
                };
                Some(Affine { x: xv, y })
            },
            None => {
                proof {
                    assert forall|x: int| in_field(x) implies !curve_eq(x, y@) by {
                        lemma_curve_eq_solve_x(x, y@);
                    }
                }
                None
            },
        }
    }

    /// Point addition by the complete law; no inversion and no case split.
    pub fn add(self, other: Affine) -> (r: Affine)
        requires
            self.valid(),
            other.valid(),
        ensures
            r == affine_add_spec(self, other),
            r.valid(),
    {
        let x3 = self.x.mul(other.y).add(self.y.mul(other.x));
        let y3 = self.y.mul(other.y).add(self.x.mul(other.x));
        Affine { x: x3, y: y3 }
    }
}

/// The canonical two-byte decoding: an x and a y representative that satisfy
/// the curve equation; anything else decodes to nothing.
pub open spec fn decode_spec(bytes: Seq<u8>) -> Option<Affine> {
    if bytes.len() == 2 && (bytes[0] as int) < md() && (bytes[1] as int) < md() && curve_eq(
        bytes[0] as int,
        bytes[1] as int,
    ) {
        Some(Affine { x: fp(bytes[0] as int), y: fp(bytes[1] as int) })
    } else {
        None
    }
}

impl Affine {
    /// Best-effort deterministic decoding of a byte string into a valid
    /// point, for deriving points from hash output. Returns nothing exactly
    /// when the bytes do not decode to an on-curve point.
    pub fn from_random_bytes(bytes: &Vec<u8>) -> (r: Option<Affine>)
        ensures
            r == decode_spec(bytes@),
            match r {
                Some(p) => p.valid() && p.on_curve_spec(),
                None => true,
            },
    {
        if bytes.len() != 2 {
            return None;
        }
        let b0 = bytes[0] as u64;
        let b1 = bytes[1] as u64;
        if b0 >= MODULUS || b1 >= MODULUS {
            return None;
        }
        let p = Affine { x: Fp::new(b0), y: Fp::new(b1) };
        if p.is_on_curve() {
            Some(p)
        } else {
            None
        }
    }

    /// The canonical two-byte encoding of this point; decoding it recovers
    /// the point exactly when the point is on the curve.
    pub fn encode(&self) -> (r: Vec<u8>)
        requires
            self.valid(),
        ensures
            r@.len() == 2,
            r@[0] as int == self.x@,
            r@[1] as int == self.y@,
            self.on_curve_spec() ==> decode_spec(r@) == Some(*self),
    {
        let mut out: Vec<u8> = Vec::new();
        out.push(self.x.v as u8);
        out.push(self.y.v as u8);
        out
    }
}

/// Adds the points of `b` into the points of `a`, pairwise and in order.
/// The addition law is complete, so the whole batch is a single pass with
/// no per-pair inversion.
pub fn batch_add(a: &mut Vec<Affine>, b: &Vec<Affine>)
    requires
        old(a)@.len() == b@.len(),
        forall|j: int| 0 <= j < old(a)@.len() ==> (#[trigger] old(a)@[j]).valid(),
        forall|j: int| 0 <= j < b@.len() ==> (#[trigger] b@[j]).valid(),
    ensures
        final(a)@.len() == old(a)@.len(),
        forall|j: int|
            0 <= j < old(a)@.len() ==> final(a)@[j] == affine_add_spec(
                #[trigger] old(a)@[j],
                b@[j],
            ),
{
    let ghost g = a@;
    let n = a.len();
    let mut i: usize = 0;
    while i < n
        invariant
            a@.len() == n,
            g.len() == n,
            b@.len() == n,
            forall|j: int| 0 <= j < n ==> (#[trigger] g[j]).valid(),
            forall|j: int| 0 <= j < n ==> (#[trigger] b@[j]).valid(),
            i <= n,
            forall|j: int| i <= j < n ==> a@[j] == #[trigger] g[j],
            forall|j: int| 0 <= j < i ==> a@[j] == affine_add_spec(#[trigger] g[j], b@[j]),
        decreases n - i,
    {
        proof {
            assert(a@[i as int] == g[i as int]);
        }
        let s = a[i].add(b[i]);
        a[i] = s;
        i = i + 1;
    }
}

/// Addition multiplies the group classes: the map `mult_rep` is a
/// homomorphism from the addition law into the field's multiplicative group.
pub proof fn lemma_add_mult_rep(a: Affine, b: Affine)
    ensures
        affine_add_spec(a, b).mult_rep() == fmul(a.mult_rep(), b.mult_rep()),
{
    lemma_mod_in_field(a.y@ * b.y@ + a.x@ * b.x@);
    lemma_mod_in_field(a.x@ * b.y@ + a.y@ * b.x@);
    lemma_fadd_mods(a.y@ * b.y@, a.x@ * b.x@);
    lemma_fadd_mods(a.x@ * b.y@, a.y@ * b.x@);
    lemma_law_diff(a.x@, a.y@, b.x@, b.y@);
}

/// The mirror fact for the cofactor image y + x.
pub proof fn lemma_add_plus_rep(a: Affine, b: Affine)
    ensures
        affine_add_spec(a, b).plus_rep() == fmul(a.plus_rep(), b.plus_rep()),
{
    lemma_mod_in_field(a.y@ * b.y@ + a.x@ * b.x@);
    lemma_mod_in_field(a.x@ * b.y@ + a.y@ * b.x@);
    lemma_fadd_mods(a.y@ * b.y@, a.x@ * b.x@);
    lemma_fadd_mods(a.x@ * b.y@, a.y@ * b.x@);
    lemma_law_sum(a.x@, a.y@, b.x@, b.y@);
}

/// On the curve, the two representatives multiply to one: the factored form
/// of the curve equation.
pub proof fn lemma_curve_factor(a: Affine)
    ensures
        a.on_curve_spec() == (fmul(a.mult_rep(), a.plus_rep()) == 1),
{
    lemma_diff_of_squares(a.x@, a.y@);
}

/// On the curve the group class is never zero.
pub proof fn lemma_on_curve_mult_rep_nonzero(a: Affine)
    requires
        a.on_curve_spec(),
    ensures
        a.mult_rep() != 0,
        in_field(a.mult_rep()),
        in_field(a.plus_rep()),
        fmul(a.mult_rep(), a.plus_rep()) == 1,
{
    lemma_curve_factor(a);
    lemma_mod_in_field(a.y@ - a.x@);
    lemma_mod_in_field(a.y@ + a.x@);
    if a.mult_rep() == 0 {
        assert(fmul(0, a.plus_rep()) == 0);
    }
}

/// The sum of two curve points lies on the curve.
#[verifier::rlimit(40)]
pub proof fn lemma_add_on_curve(a: Affine, b: Affine)
    requires
        a.on_curve_spec(),
        b.on_curve_spec(),
    ensures
        affine_add_spec(a, b).on_curve_spec(),
        affine_add_spec(a, b).valid(),
{
    lemma_curve_factor(a);
    lemma_curve_factor(b);
    lemma_add_mult_rep(a, b);
    lemma_add_plus_rep(a, b);
    lemma_fmul_shuffle(a.mult_rep(), b.mult_rep(), a.plus_rep(), b.plus_rep());
    lemma_fmul_one(1);
    lemma_curve_factor(affine_add_spec(a, b));
    lemma_mod_in_field(a.x@ * b.y@ + a.y@ * b.x@);
    lemma_mod_in_field(a.y@ * b.y@ + a.x@ * b.x@);
    lemma_fadd_mods(a.x@ * b.y@, a.y@ * b.x@);
    lemma_fadd_mods(a.y@ * b.y@, a.x@ * b.x@);
}

/// The identity point is neutral for addition.
pub proof fn lemma_add_zero(a: Affine)
    requires
        a.valid(),
    ensures
        affine_add_spec(a, affine_zero()) == a,
{
    lemma_fmul_one(a.x@);
    lemma_fmul_one(a.y@);
    lemma_small(a.x@);
    lemma_small(a.y@);
    assert(affine_zero().y@ == 1);
    assert(affine_zero().x@ == 0);
    assert(fmul(a.x@, affine_zero().y@) == a.x@);
    assert(fmul(a.y@, affine_zero().x@) == 0);
    assert(fadd(a.x@, 0) == a.x@);
    assert(fadd(a.y@, 0) == a.y@);
    assert(affine_add_spec(a, affine_zero()).x == a.x);
    assert(affine_add_spec(a, affine_zero()).y == a.y);
}

/// A point and its negation add to the identity.
pub proof fn lemma_add_neg(a: Affine)
    requires
        a.valid(),
        a.on_curve_spec(),
    ensures
        affine_add_spec(a, affine_neg_spec(a)) == affine_zero(),
{
    let x = a.x@;
    let y = a.y@;
    lemma_mod_in_field(-x);
    // x-coordinate of the sum: x*y + y*(-x) = 0.
    lemma_fmul_neg(y, x);
    lemma_fadd_neg_self(fmul(x, y));
    // y-coordinate of the sum: y*y + x*(-x) = y^2 - x^2 = 1.
    lemma_fmul_neg(x, x);
    lemma_fadd_neg(fmul(y, y), fmul(x, x));
}

/// Solving the curve equation for y at a fixed x.
pub proof fn lemma_curve_eq_solve_y(x: int, y: int)
    requires
        in_field(x),
        in_field(y),
    ensures
        curve_eq(x, y) == (fmul(y, y) == fadd(1, fmul(x, x))),
{
    let yy = fmul(y, y);
    let xx = fmul(x, x);
    lemma_mod_in_field(y * y);
    lemma_mod_in_field(x * x);
    if curve_eq(x, y) {
        lemma_fadd_mod_right(xx, yy - xx);
        lemma_small(yy);
    }
    if fmul(y, y) == fadd(1, fmul(x, x)) {
        lemma_small(xx);
        lemma_fsub_mods(1 + xx, xx);
    }
}

/// Solving the curve equation for x at a fixed y.
pub proof fn lemma_curve_eq_solve_x(x: int, y: int)
    requires
        in_field(x),
        in_field(y),
    ensures
        curve_eq(x, y) == (fmul(x, x) == fsub(fmul(y, y), 1)),
{
    let yy = fmul(y, y);
    let xx = fmul(x, x);
    lemma_mod_in_field(y * y);
    lemma_mod_in_field(x * x);
    if curve_eq(x, y) {
        lemma_fadd_mod_right(xx, yy - xx);
        lemma_small(yy);
        lemma_small(xx);
        lemma_small(1);
        lemma_fsub_mods(xx + 1, 1);
    }
    if fmul(x, x) == fsub(fmul(y, y), 1) {
        lemma_fsub_mod_right(yy, yy - 1);
    }
}

} // verus!
