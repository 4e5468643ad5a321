//! The base field of the curve: arithmetic modulo a small prime.
//!
//! Every element is kept in reduced form (a machine word below the modulus).
//! The mathematical model of an element is its integer value; every operation
//! carries an exact contract over that model, stated with the `f*` spec
//! functions below.

use vstd::prelude::*;
use vstd::arithmetic::power::pow;
use vstd::arithmetic::power::lemma_pow1;
use vstd::arithmetic::power::lemma_pow_adds;
use vstd::arithmetic::power::lemma_pow_multiplies;
use vstd::arithmetic::power::lemma_pow_mod_noop;
use vstd::arithmetic::power::lemma_square_is_pow2;
use vstd::arithmetic::power::lemma0_pow;
use vstd::arithmetic::power::lemma_pow0;
use vstd::arithmetic::div_mod::lemma_mod_add_multiples_vanish;
use vstd::arithmetic::div_mod::lemma_mod_bound;
use vstd::arithmetic::div_mod::lemma_small_mod;
use vstd::arithmetic::div_mod::lemma_add_mod_noop;
use vstd::arithmetic::div_mod::lemma_add_mod_noop_right;
use vstd::arithmetic::div_mod::lemma_sub_mod_noop;
use vstd::arithmetic::div_mod::lemma_sub_mod_noop_right;
use vstd::arithmetic::div_mod::lemma_mul_mod_noop_left;
use vstd::arithmetic::div_mod::lemma_mul_mod_noop_right;
use vstd::arithmetic::div_mod::lemma_mul_mod_noop_general;

verus! {

/// The prime modulus of the base field. It is congruent to 3 modulo 4, so a
/// square root, when one exists, is a power of the candidate root; and its
/// multiplicative group has order `MODULUS - 1 = COFACTOR * SUBGROUP_ORDER`.
pub const MODULUS: u64 = 23;

/// The base field modulus as a spec-level integer.
pub open spec fn md() -> int {
    MODULUS as int
}

/// Whether an integer is a canonical field representative.
pub open spec fn in_field(a: int) -> bool {
    0 <= a < md()
}

/// Field addition on the model.
pub open spec fn fadd(a: int, b: int) -> int {
    (a + b) % md()
}

/// Field subtraction on the model.
pub open spec fn fsub(a: int, b: int) -> int {
    (a - b) % md()
}

/// Field negation on the model.
pub open spec fn fneg(a: int) -> int {
    (-a) % md()
}

/// Field multiplication on the model.
pub open spec fn fmul(a: int, b: int) -> int {
    (a * b) % md()
}

/// Field exponentiation on the model.
pub open spec fn fpow(a: int, e: nat) -> int {
    pow(a, e) % md()
}

/// The multiplicative inverse on the model, as the Fermat power a^(p-2).
pub open spec fn finv(a: int) -> int {
    fpow(a, (MODULUS - 2) as nat)
}

/// A base-field element, stored as one reduced machine word.
#[derive(Clone, Copy, PartialEq, Eq, Structural, Debug, Hash)]
pub struct Fp {
    pub v: u64,
}

impl View for Fp {
    type V = int;

    open spec fn view(&self) -> int {
        self.v as int
    }
}

/// Builds a field element from a spec-level integer; the companion of `view`.
pub open spec fn fp(a: int) -> Fp {
    Fp { v: a as u64 }
}

impl Fp {
    /// Whether the stored word is a canonical representative.
    pub open spec fn valid(self) -> bool {
        in_field(self@)
    }

    /// The additive identity.
    pub fn zero() -> (r: Fp)
        ensures
            r@ == 0,
            r.valid(),
    {
        Fp { v: 0 }
    }

    /// The multiplicative identity.
    pub fn one() -> (r: Fp)
        ensures
            r@ == 1,
            r.valid(),
    {
        Fp { v: 1 }
    }

    /// Wraps a canonical representative.
    pub fn new(v: u64) -> (r: Fp)
        requires
            v < MODULUS,
        ensures
            r@ == v,
            r.valid(),
    {
        Fp { v }
    }

    /// Reduces an arbitrary word into the field.
    pub fn from_u64(v: u64) -> (r: Fp)
        ensures
            r@ == v as int % md(),
            r.valid(),
    {
        Fp { v: v % MODULUS }
    }

    /// Whether this is the additive identity.
    pub fn is_zero(&self) -> (r: bool)
        ensures
            r == (self@ == 0),
    {
        self.v == 0
    }

    /// Field addition.
    pub fn add(self, other: Fp) -> (r: Fp)
        requires
            self.valid(),
            other.valid(),
        ensures
            r.valid(),
            r@ == fadd(self@, other@),
    {
        Fp { v: (self.v + other.v) % MODULUS }
    }

    /// Field subtraction.
    pub fn sub(self, other: Fp) -> (r: Fp)
        requires
            self.valid(),
            other.valid(),
        ensures
            r.valid(),
            r@ == fsub(self@, other@),
    {
        proof {
            lemma_mod_add_multiples_vanish(self@ - other@, md());
        }
        Fp { v: (self.v + MODULUS - other.v) % MODULUS }
    }

    /// Field negation.
    pub fn neg(self) -> (r: Fp)
        requires
            self.valid(),
        ensures
            r.valid(),
            r@ == fneg(self@),
    {
        proof {
            lemma_mod_add_multiples_vanish(-self@, md());
        }
        Fp { v: (MODULUS - self.v) % MODULUS }
    }

    /// Field multiplication.
    pub fn mul(self, other: Fp) -> (r: Fp)
        requires
            self.valid(),
            other.valid(),
        ensures
            r.valid(),
            r@ == fmul(self@, other@),
    {
        proof {
            assert(self@ * other@ < 529) by (nonlinear_arith)
                requires
                    0 <= self@ < 23,
                    0 <= other@ < 23,
            ;
        }
        Fp { v: (self.v * other.v) % MODULUS }
    }

    /// Field squaring.
    pub fn square(self) -> (r: Fp)
        requires
            self.valid(),
        ensures
            r.valid(),
            r@ == fmul(self@, self@),
    {
        self.mul(self)
    }

    /// Field exponentiation by repeated multiplication.
    pub fn pow(self, e: u64) -> (r: Fp)
        requires
            self.valid(),
        ensures
            r.valid(),
            r@ == fpow(self@, e as nat),
    {
        let mut acc = Fp::one();
        let mut i: u64 = 0;
        proof {
            lemma_pow0(self@);
        }
        while i < e
            invariant
                i <= e,
                self.valid(),
                acc.valid(),
                acc@ == fpow(self@, i as nat),
            decreases e - i,
        {
            proof {
                lemma_pow1(self@);
                lemma_pow_adds(self@, i as nat, 1nat);
                lemma_mul_mod_noop_left(pow(self@, i as nat), self@, md());
            }
            acc = acc.mul(self);
            i = i + 1;
        }
        acc
    }

    /// The multiplicative inverse, computed as the Fermat power.
    pub fn inverse(self) -> (r: Fp)
        requires
            self.valid(),
            self@ != 0,
        ensures
            r.valid(),
            r@ == finv(self@),
            fmul(self@, r@) == 1,
    {
        proof {
            lemma_finv(self@);
        }
        self.pow(MODULUS - 2)
    }

    /// A square root of this element, when one exists in the field.
    /// The candidate root is the power a^((MODULUS + 1) / 4), which squares
    /// back to the element exactly when the element is a quadratic residue.
    pub fn sqrt(self) -> (r: Option<Fp>)
        requires
            self.valid(),
        ensures
            match r {
                Some(s) => s.valid() && fmul(s@, s@) == self@,
                None => forall|y: int| in_field(y) ==> #[trigger] fmul(y, y) != self@,
            },
    {
        let c = self.pow((MODULUS + 1) / 4);
        let c2 = c.mul(c);
        if c2 == self {
            Some(c)
        } else {
            proof {
                assert forall|y: int| in_field(y) implies #[trigger] fmul(y, y) != self@ by {
                    if fmul(y, y) == self@ {
                        lemma_root_forces_candidate(self@, y);
                    }
                }
            }
            None
        }
    }
}

/// Reduction of the left factor changes nothing under `fmul`.
pub proof fn lemma_fmul_mod_left(a: int, b: int)
    ensures
        fmul(a % md(), b) == fmul(a, b),
{
    lemma_mul_mod_noop_left(a, b, md());
}

/// Reduction of the right factor changes nothing under `fmul`.
pub proof fn lemma_fmul_mod_right(a: int, b: int)
    ensures
        fmul(a, b % md()) == fmul(a, b),
{
    lemma_mul_mod_noop_right(a, b, md());
}

/// A product of field elements is a canonical representative.
pub proof fn lemma_fmul_in_field(a: int, b: int)
    ensures
        in_field(fmul(a, b)),
{
    lemma_mod_bound(a * b, md());
}

/// The multiplicative identity is neutral on canonical representatives.
pub proof fn lemma_fmul_one(a: int)
    requires
        in_field(a),
    ensures
        fmul(a, 1) == a,
        fmul(1, a) == a,
{
    lemma_small_mod(a as nat, MODULUS as nat);
}

/// `fmul` is commutative.
pub proof fn lemma_fmul_comm(a: int, b: int)
    ensures
        fmul(a, b) == fmul(b, a),
{
    assert(a * b == b * a);
}

/// `fmul` is associative.
pub proof fn lemma_fmul_assoc(a: int, b: int, c: int)
    ensures
        fmul(fmul(a, b), c) == fmul(a, fmul(b, c)),
{
    lemma_mul_mod_noop_left(a * b, c, md());
    lemma_mul_mod_noop_right(a, b * c, md());
    assert((a * b) * c == a * (b * c)) by (nonlinear_arith);
}

/// Four factors regroup freely under `fmul`.
pub proof fn lemma_fmul_shuffle(a: int, b: int, c: int, d: int)
    ensures
        fmul(fmul(a, b), fmul(c, d)) == fmul(fmul(a, c), fmul(b, d)),
{
    lemma_mul_mod_noop_general(a * b, c * d, md());
    lemma_mul_mod_noop_general(a * c, b * d, md());
    assert((a * b) * (c * d) == (a * c) * (b * d)) by (nonlinear_arith);
}

/// Multiplication distributes over field subtraction.
pub proof fn lemma_fmul_sub_factor(a: int, b: int, c: int)
    ensures
        fmul(fsub(a, b), c) == fsub(fmul(a, c), fmul(b, c)),
{
    lemma_mul_mod_noop_left(a - b, c, md());
    lemma_sub_mod_noop(a * c, b * c, md());
    assert((a - b) * c == a * c - b * c) by (nonlinear_arith);
}

/// Multiplication distributes over field addition.
pub proof fn lemma_fmul_add_factor(a: int, b: int, c: int)
    ensures
        fmul(fadd(a, b), c) == fadd(fmul(a, c), fmul(b, c)),
{
    lemma_mul_mod_noop_left(a + b, c, md());
    lemma_add_mod_noop(a * c, b * c, md());
    assert((a + b) * c == a * c + b * c) by (nonlinear_arith);
}

/// A negated factor negates the product.
pub proof fn lemma_fmul_neg(a: int, b: int)
    ensures
        fmul(a, fneg(b)) == fneg(fmul(a, b)),
{
    lemma_mul_mod_noop_right(a, -b, md());
    lemma_sub_mod_noop_right(0, a * b, md());
    assert(a * (-b) == -(a * b)) by (nonlinear_arith);
}

/// A reduced integer is a canonical representative.
pub proof fn lemma_mod_in_field(a: int)
    ensures
        in_field(a % md()),
{
    lemma_mod_bound(a, md());
}

/// Reduction fixes canonical representatives.
pub proof fn lemma_small(a: int)
    requires
        in_field(a),
    ensures
        a % md() == a,
{
    lemma_small_mod(a as nat, MODULUS as nat);
}

/// Field addition of two reduced values is plain addition followed by one
/// reduction.
pub proof fn lemma_fadd_mods(a: int, b: int)
    ensures
        fadd(a % md(), b % md()) == (a + b) % md(),
{
    lemma_add_mod_noop(a, b, md());
}

/// Field subtraction of two reduced values is plain subtraction followed by
/// one reduction.
pub proof fn lemma_fsub_mods(a: int, b: int)
    ensures
        fsub(a % md(), b % md()) == (a - b) % md(),
{
    lemma_sub_mod_noop(a, b, md());
}

/// Field multiplication of two reduced values is plain multiplication
/// followed by one reduction.
pub proof fn lemma_fmul_mods(a: int, b: int)
    ensures
        fmul(a % md(), b % md()) == (a * b) % md(),
{
    lemma_mul_mod_noop_general(a, b, md());
}

/// A reduced right summand changes nothing under `fadd`.
pub proof fn lemma_fadd_mod_right(a: int, b: int)
    ensures
        fadd(a, b % md()) == (a + b) % md(),
{
    lemma_add_mod_noop_right(a, b, md());
}

/// A reduced subtrahend changes nothing under `fsub`.
pub proof fn lemma_fsub_mod_right(a: int, b: int)
    ensures
        fsub(a, b % md()) == (a - b) % md(),
{
    lemma_sub_mod_noop_right(a, b, md());
}

/// Adding a negation is subtracting.
pub proof fn lemma_fadd_neg(a: int, b: int)
    ensures
        fadd(a, fneg(b)) == fsub(a, b),
{
    lemma_add_mod_noop_right(a, -b, md());
}

/// An element and its negation cancel.
pub proof fn lemma_fadd_neg_self(a: int)
    ensures
        fadd(a, fneg(a)) == 0,
{
    lemma_add_mod_noop_right(a, -a, md());
}

/// Negation is an involution on canonical representatives.
pub proof fn lemma_fneg_involution(a: int)
    requires
        in_field(a),
    ensures
        fneg(fneg(a)) == a,
{
    lemma_sub_mod_noop_right(0, -a, md());
    lemma_small(a);
}

/// Settles a literal reduction from its division identity: if x = q*m + r
/// with r a canonical representative, then x reduces to r.
pub proof fn lemma_mod_literal(x: int, q: int, r: int)
    requires
        x == q * md() + r,
        0 <= r < md(),
    ensures
        x % md() == r,
{
    vstd::arithmetic::div_mod::lemma_fundamental_div_mod_converse_mod(x, md(), q, r);
}

/// Fermat's little theorem for the field: u^(MODULUS - 1) is 1 for nonzero u.
/// The modulus is small, so the theorem is settled base by base, unfolding the
/// power far enough for each literal base to evaluate.
#[verifier::rlimit(80)]
pub proof fn lemma_fermat(u: int)
    requires
        in_field(u),
        u != 0,
    ensures
        fpow(u, (MODULUS - 1) as nat) == 1,
{
    reveal_with_fuel(pow, 24);
    if u == 1 {
        assert(fpow(1, (MODULUS - 1) as nat) == 1);
    } else if u == 2 {
        assert(fpow(2, (MODULUS - 1) as nat) == 1);
    } else if u == 3 {
        assert(fpow(3, (MODULUS - 1) as nat) == 1);
    } else if u == 4 {
        assert(fpow(4, (MODULUS - 1) as nat) == 1);
    } else if u == 5 {
        assert(fpow(5, (MODULUS - 1) as nat) == 1);
    } else if u == 6 {
        assert(fpow(6, (MODULUS - 1) as nat) == 1);
    } else if u == 7 {
        assert(fpow(7, (MODULUS - 1) as nat) == 1);
    } else if u == 8 {
        assert(fpow(8, (MODULUS - 1) as nat) == 1);
    } else if u == 9 {
        assert(fpow(9, (MODULUS - 1) as nat) == 1);
    } else if u == 10 {
        assert(fpow(10, (MODULUS - 1) as nat) == 1);
    } else if u == 11 {
        assert(fpow(11, (MODULUS - 1) as nat) == 1);
    } else if u == 12 {
        assert(fpow(12, (MODULUS - 1) as nat) == 1);
    } else if u == 13 {
        assert(fpow(13, (MODULUS - 1) as nat) == 1);
    } else if u == 14 {
        assert(fpow(14, (MODULUS - 1) as nat) == 1);
    } else if u == 15 {
        assert(fpow(15, (MODULUS - 1) as nat) == 1);
    } else if u == 16 {
        assert(fpow(16, (MODULUS - 1) as nat) == 1);
    } else if u == 17 {
        assert(fpow(17, (MODULUS - 1) as nat) == 1);
    } else if u == 18 {
        assert(fpow(18, (MODULUS - 1) as nat) == 1);
    } else if u == 19 {
        assert(fpow(19, (MODULUS - 1) as nat) == 1);
    } else if u == 20 {
        assert(fpow(20, (MODULUS - 1) as nat) == 1);
    } else if u == 21 {
        assert(fpow(21, (MODULUS - 1) as nat) == 1);
    } else {
        assert(fpow(22, (MODULUS - 1) as nat) == 1);
    }
}

/// The Fermat power is an inverse in the field.
pub proof fn lemma_finv(u: int)
    requires
        in_field(u),
        u != 0,
    ensures
        in_field(finv(u)),
        fmul(u, finv(u)) == 1,
        fmul(finv(u), u) == 1,
{
    lemma_fermat(u);
    lemma_pow1(u);
    lemma_pow_adds(u, 1nat, (MODULUS - 2) as nat);
    lemma_mul_mod_noop_right(u, pow(u, (MODULUS - 2) as nat), md());
    lemma_mod_bound(pow(u, (MODULUS - 2) as nat), md());
}

/// A product of nonzero field elements is nonzero.
pub proof fn lemma_no_zero_divisors(a: int, b: int)
    requires
        in_field(a),
        in_field(b),
        a != 0,
        b != 0,
    ensures
        fmul(a, b) != 0,
{
    if fmul(a, b) == 0 {
        lemma_finv(a);
        lemma_finv(b);
        lemma_fmul_shuffle(a, b, finv(a), finv(b));
        assert(fmul(0, fmul(finv(a), finv(b))) == 0);
        assert(fmul(1, 1) == 1);
    }
}

/// A nonzero factor cancels from an equality of products.
pub proof fn lemma_fmul_cancel(a: int, b: int, c: int)
    requires
        in_field(a),
        in_field(b),
        in_field(c),
        a != 0,
        fmul(a, b) == fmul(a, c),
    ensures
        b == c,
{
    lemma_finv(a);
    lemma_fmul_assoc(finv(a), a, b);
    lemma_fmul_assoc(finv(a), a, c);
    lemma_fmul_one(b);
    lemma_fmul_one(c);
}

/// Any field element that cancels `a` is the inverse of `a`.
pub proof fn lemma_finv_unique(a: int, b: int)
    requires
        in_field(a),
        in_field(b),
        a != 0,
        fmul(a, b) == 1,
    ensures
        b == finv(a),
{
    lemma_finv(a);
    lemma_fmul_cancel(a, b, finv(a));
}

/// The inverse of a product is the product of the inverses.
pub proof fn lemma_finv_mul(a: int, b: int)
    requires
        in_field(a),
        in_field(b),
        a != 0,
        b != 0,
    ensures
        finv(fmul(a, b)) == fmul(finv(a), finv(b)),
{
    lemma_no_zero_divisors(a, b);
    lemma_finv(a);
    lemma_finv(b);
    lemma_fmul_shuffle(a, b, finv(a), finv(b));
    lemma_fmul_in_field(a, b);
    lemma_fmul_in_field(finv(a), finv(b));
    lemma_fmul_one(1);
    lemma_finv_unique(fmul(a, b), fmul(finv(a), finv(b)));
}

/// The inverse of one is one.
pub proof fn lemma_finv_one()
    ensures
        finv(1) == 1,
{
    lemma_finv(1);
    lemma_small(finv(1));
}

/// The numerator identity of the group law, difference side:
/// (y1 y2 + x1 x2) - (x1 y2 + y1 x2) = (y1 - x1)(y2 - x2).
pub proof fn lemma_law_diff(x1: int, y1: int, x2: int, y2: int)
    ensures
        fsub(fadd(fmul(y1, y2), fmul(x1, x2)), fadd(fmul(x1, y2), fmul(y1, x2))) == fmul(
            fsub(y1, x1),
            fsub(y2, x2),
        ),
{
    lemma_fadd_mods(y1 * y2, x1 * x2);
    lemma_fadd_mods(x1 * y2, y1 * x2);
    lemma_fsub_mods(y1 * y2 + x1 * x2, x1 * y2 + y1 * x2);
    assert((y1 * y2 + x1 * x2) - (x1 * y2 + y1 * x2) == (y1 - x1) * (y2 - x2))
        by (nonlinear_arith);
    lemma_fmul_mods(y1 - x1, y2 - x2);
}

/// The numerator identity of the group law, sum side:
/// (y1 y2 + x1 x2) + (x1 y2 + y1 x2) = (y1 + x1)(y2 + x2).
pub proof fn lemma_law_sum(x1: int, y1: int, x2: int, y2: int)
    ensures
        fadd(fadd(fmul(y1, y2), fmul(x1, x2)), fadd(fmul(x1, y2), fmul(y1, x2))) == fmul(
            fadd(y1, x1),
            fadd(y2, x2),
        ),
{
    lemma_fadd_mods(y1 * y2, x1 * x2);
    lemma_fadd_mods(x1 * y2, y1 * x2);
    lemma_fadd_mods(y1 * y2 + x1 * x2, x1 * y2 + y1 * x2);
    assert((y1 * y2 + x1 * x2) + (x1 * y2 + y1 * x2) == (y1 + x1) * (y2 + x2))
        by (nonlinear_arith);
    lemma_fmul_mods(y1 + x1, y2 + x2);
}

/// A difference of squares factors in the field.
pub proof fn lemma_diff_of_squares(x: int, y: int)
    ensures
        fsub(fmul(y, y), fmul(x, x)) == fmul(fsub(y, x), fadd(y, x)),
{
    lemma_fsub_mods(y * y, x * x);
    lemma_fmul_mods(y - x, y + x);
    assert((y - x) * (y + x) == y * y - x * x) by (nonlinear_arith);
}

/// Exponents add under `fpow`.
pub proof fn lemma_fpow_adds(a: int, e1: nat, e2: nat)
    ensures
        fpow(a, e1 + e2) == fmul(fpow(a, e1), fpow(a, e2)),
{
    lemma_pow_adds(a, e1, e2);
    lemma_mul_mod_noop_general(pow(a, e1), pow(a, e2), md());
}

/// Exponents multiply under iterated `fpow`.
pub proof fn lemma_fpow_mul(a: int, e1: nat, e2: nat)
    ensures
        fpow(fpow(a, e1), e2) == fpow(a, e1 * e2),
{
    lemma_pow_mod_noop(pow(a, e1), e2, md());
    lemma_pow_multiplies(a, e1, e2);
}

/// The first power is the element itself.
pub proof fn lemma_fpow_one_exp(a: int)
    requires
        in_field(a),
    ensures
        fpow(a, 1) == a,
{
    lemma_pow1(a);
    lemma_small_mod(a as nat, MODULUS as nat);
}

/// Powers of an element of multiplicative order dividing `n` only depend on
/// the exponent modulo `n`.
pub proof fn lemma_fpow_cycle(a: int, n: nat, m: nat)
    requires
        fpow(a, n) == 1,
        n > 0,
    ensures
        fpow(a, m) == fpow(a, (m % n)),
    decreases m,
{
    if m >= n {
        lemma_fpow_adds(a, n, (m - n) as nat);
        lemma_mod_bound(pow(a, (m - n) as nat), md());
        lemma_fmul_one(fpow(a, (m - n) as nat));
        lemma_fpow_cycle(a, n, (m - n) as nat);
        assert((m - n) % (n as int) == (m as int) % (n as int)) by {
            lemma_mod_add_multiples_vanish((m - n) as int, n as int);
        }
    } else {
        lemma_small_mod(m, n);
    }
}

/// If an element has any square root, the canonical candidate root squares
/// back to it.
proof fn lemma_root_forces_candidate(a: int, y: int)
    requires
        in_field(a),
        in_field(y),
        fmul(y, y) == a,
    ensures
        fmul(fpow(a, ((MODULUS + 1) / 4) as nat), fpow(a, ((MODULUS + 1) / 4) as nat)) == a,
{
    let q = ((MODULUS + 1) / 4) as nat;
    if y == 0 {
        lemma0_pow(q);
    } else {
        lemma_fpow_adds(a, q, q);
        // a is (y * y) reduced, so a power of a is a power of y.
        lemma_pow_mod_noop(y * y, (2 * q) as nat, md());
        lemma_square_is_pow2(y);
        lemma_pow_multiplies(y, 2nat, (2 * q) as nat);
        lemma_pow_adds(y, (MODULUS - 1) as nat, 2nat);
        lemma_mul_mod_noop_general(pow(y, (MODULUS - 1) as nat), pow(y, 2nat), md());
        lemma_fermat(y);
        lemma_fmul_in_field(y, y);
        lemma_fmul_one(fmul(y, y));
    }
}

} // verus!
