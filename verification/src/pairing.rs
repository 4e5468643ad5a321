//! The pairing layer: a bilinear map from pairs of subgroup points into the
//! target field.
//!
//! This curve is paired with itself (the partner of the partner is the
//! original), and the target field is the base field, whose multiplicative
//! group contains a subgroup of the same prime order. The prepared form of a
//! point is its precomputed subgroup index: the discrete logarithm of its
//! group class with respect to the subgroup generator's class. The pairing
//! of two points raises the target generator to the product of their
//! indices, which is bilinear; the subgroup is small enough that the index
//! table is written out and checked entry by entry.

use vstd::prelude::*;
use crate::field::{
    Fp, fmul, fpow, in_field, lemma_mod_literal,
    lemma_fpow_adds, lemma_fpow_one_exp, lemma_fpow_mul, lemma_fpow_cycle,
    lemma_mod_in_field,
};
use crate::affine::Affine;
use crate::projective::in_subgroup;
use crate::params::SUBGROUP_ORDER;
use vstd::arithmetic::power::lemma_pow0;
use vstd::arithmetic::power::lemma0_pow;
use vstd::arithmetic::div_mod::lemma_mul_mod_noop_general;
use vstd::arithmetic::div_mod::lemma_mul_mod_noop_left;

verus! {

/// Precomputed pairing data for one point: the index of its group class in
/// the subgroup, with respect to the generator's class. Built once by
/// `prepare` and reused across pairings.
#[derive(Clone, Copy, PartialEq, Eq, Structural, Debug, Hash)]
pub struct Prepared {
    pub exponent: u64,
}

/// The subgroup index of a class: the discrete logarithm with respect to
/// the generator's class, written out as a table over the subgroup.
pub open spec fn dlog(u: int) -> nat {
    if u == 1 { 0nat } else if u == 2 { 1nat } else if u == 4 { 2nat } else if u == 8 { 3nat } else if u == 16 { 4nat } else if u == 9 { 5nat } else if u == 18 { 6nat } else if u == 13 { 7nat } else if u == 3 { 8nat } else if u == 6 { 9nat } else if u == 12 { 10nat } else { 0nat }
}

/// Whether a value is one of the subgroup's classes.
pub open spec fn subgroup_member(u: int) -> bool {
    u == 1 || u == 2 || u == 3 || u == 4 || u == 6 || u == 8 || u == 9 || u == 12 || u == 13 || u == 16 || u == 18
}

/// The pairing on the model: the target generator raised to the product of
/// the two subgroup indices.
pub open spec fn pairing_spec(u1: int, u2: int) -> int {
    fpow(2, (dlog(u1) * dlog(u2)) % (SUBGROUP_ORDER as nat))
}

/// The successive powers of the subgroup generator's class.
#[verifier::rlimit(100)]
proof fn lemma_gen_pows()
    ensures
        fpow(2, 0nat) == 1,
        fpow(2, 1nat) == 2,
        fpow(2, 2nat) == 4,
        fpow(2, 3nat) == 8,
        fpow(2, 4nat) == 16,
        fpow(2, 5nat) == 9,
        fpow(2, 6nat) == 18,
        fpow(2, 7nat) == 13,
        fpow(2, 8nat) == 3,
        fpow(2, 9nat) == 6,
        fpow(2, 10nat) == 12,
        fpow(2, 11nat) == 1,
{
    lemma_pow0(2);
    lemma_fpow_one_exp(2);
    lemma_fpow_adds(2, 1nat, 1nat);
    lemma_fpow_adds(2, 2nat, 1nat);
    lemma_fpow_adds(2, 3nat, 1nat);
    lemma_fpow_adds(2, 4nat, 1nat);
    lemma_fpow_adds(2, 5nat, 1nat);
    lemma_fpow_adds(2, 6nat, 1nat);
    lemma_fpow_adds(2, 7nat, 1nat);
    lemma_fpow_adds(2, 8nat, 1nat);
    lemma_fpow_adds(2, 9nat, 1nat);
    lemma_fpow_adds(2, 10nat, 1nat);
    assert(fpow(2, 0nat) == 1);
    assert(fpow(2, 1nat) == 2);
    lemma_mod_literal(4, 0, 4);
    assert(2 * 2 == 4);
    assert(fmul(2, 2) == 4);
    assert(fpow(2, 2nat) == 4);
    lemma_mod_literal(8, 0, 8);
    assert(4 * 2 == 8);
    assert(fmul(4, 2) == 8);
    assert(fpow(2, 3nat) == 8);
    lemma_mod_literal(16, 0, 16);
    assert(8 * 2 == 16);
    assert(fmul(8, 2) == 16);
    assert(fpow(2, 4nat) == 16);
    lemma_mod_literal(32, 1, 9);
    assert(16 * 2 == 32);
    assert(fmul(16, 2) == 9);
    assert(fpow(2, 5nat) == 9);
    lemma_mod_literal(18, 0, 18);
    assert(9 * 2 == 18);
    assert(fmul(9, 2) == 18);
    assert(fpow(2, 6nat) == 18);
    lemma_mod_literal(36, 1, 13);
    assert(18 * 2 == 36);
    assert(fmul(18, 2) == 13);
    assert(fpow(2, 7nat) == 13);
    lemma_mod_literal(26, 1, 3);
    assert(13 * 2 == 26);
    assert(fmul(13, 2) == 3);
    assert(fpow(2, 8nat) == 3);
    lemma_mod_literal(6, 0, 6);
    assert(3 * 2 == 6);
    assert(fmul(3, 2) == 6);
    assert(fpow(2, 9nat) == 6);
    lemma_mod_literal(12, 0, 12);
    assert(6 * 2 == 12);
    assert(fmul(6, 2) == 12);
    assert(fpow(2, 10nat) == 12);
    lemma_mod_literal(24, 1, 1);
    assert(12 * 2 == 24);
    assert(fmul(12, 2) == 1);
    assert(fpow(2, 11nat) == 1);
}

/// The table round trip: the index of the e-th power of the generator's
/// class is e.
proof fn lemma_dlog_round(e: nat)
    requires
        e < SUBGROUP_ORDER,
    ensures
        dlog(fpow(2, e)) == e,
{
    lemma_gen_pows();
    if e == 0 {
    }
    else if e == 1 {
    }
    else if e == 2 {
    }
    else if e == 3 {
    }
    else if e == 4 {
    }
    else if e == 5 {
    }
    else if e == 6 {
    }
    else if e == 7 {
    }
    else if e == 8 {
    }
    else if e == 9 {
    }
    else if e == 10 {
    }
    else {
    }
}

#[verifier::rlimit(100)]
proof fn lemma_order_of_5()
    ensures
        fpow(5, 11nat) == 22,
{
    lemma_fpow_one_exp(5);
    lemma_fpow_adds(5, 1nat, 1nat);
    lemma_fpow_adds(5, 2nat, 2nat);
    lemma_fpow_adds(5, 4nat, 4nat);
    lemma_fpow_adds(5, 8nat, 2nat);
    lemma_fpow_adds(5, 10nat, 1nat);
    assert(fpow(5, 1nat) == 5);
    lemma_mod_literal(25, 1, 2);
    assert(5 * 5 == 25);
    assert(fmul(5, 5) == 2);
    assert(fpow(5, 2nat) == 2);
    lemma_mod_literal(4, 0, 4);
    assert(2 * 2 == 4);
    assert(fmul(2, 2) == 4);
    assert(fpow(5, 4nat) == 4);
    lemma_mod_literal(16, 0, 16);
    assert(4 * 4 == 16);
    assert(fmul(4, 4) == 16);
    assert(fpow(5, 8nat) == 16);
    lemma_mod_literal(32, 1, 9);
    assert(16 * 2 == 32);
    assert(fmul(16, 2) == 9);
    assert(fpow(5, 10nat) == 9);
    lemma_mod_literal(45, 1, 22);
    assert(9 * 5 == 45);
    assert(fmul(9, 5) == 22);
    assert(fpow(5, 11nat) == 22);
}

#[verifier::rlimit(100)]
proof fn lemma_order_of_7()
    ensures
        fpow(7, 11nat) == 22,
{
    lemma_fpow_one_exp(7);
    lemma_fpow_adds(7, 1nat, 1nat);
    lemma_fpow_adds(7, 2nat, 2nat);
    lemma_fpow_adds(7, 4nat, 4nat);
    lemma_fpow_adds(7, 8nat, 2nat);
    lemma_fpow_adds(7, 10nat, 1nat);
    assert(fpow(7, 1nat) == 7);
    lemma_mod_literal(49, 2, 3);
    assert(7 * 7 == 49);
    assert(fmul(7, 7) == 3);
    assert(fpow(7, 2nat) == 3);
    lemma_mod_literal(9, 0, 9);
    assert(3 * 3 == 9);
    assert(fmul(3, 3) == 9);
    assert(fpow(7, 4nat) == 9);
    lemma_mod_literal(81, 3, 12);
    assert(9 * 9 == 81);
    assert(fmul(9, 9) == 12);
    assert(fpow(7, 8nat) == 12);
    lemma_mod_literal(36, 1, 13);
    assert(12 * 3 == 36);
    assert(fmul(12, 3) == 13);
    assert(fpow(7, 10nat) == 13);
    lemma_mod_literal(91, 3, 22);
    assert(13 * 7 == 91);
    assert(fmul(13, 7) == 22);
    assert(fpow(7, 11nat) == 22);
}

#[verifier::rlimit(100)]
proof fn lemma_order_of_10()
    ensures
        fpow(10, 11nat) == 22,
{
    lemma_fpow_one_exp(10);
    lemma_fpow_adds(10, 1nat, 1nat);
    lemma_fpow_adds(10, 2nat, 2nat);
    lemma_fpow_adds(10, 4nat, 4nat);
    lemma_fpow_adds(10, 8nat, 2nat);
    lemma_fpow_adds(10, 10nat, 1nat);
    assert(fpow(10, 1nat) == 10);
    lemma_mod_literal(100, 4, 8);
    assert(10 * 10 == 100);
    assert(fmul(10, 10) == 8);
    assert(fpow(10, 2nat) == 8);
    lemma_mod_literal(64, 2, 18);
    assert(8 * 8 == 64);
    assert(fmul(8, 8) == 18);
    assert(fpow(10, 4nat) == 18);
    lemma_mod_literal(324, 14, 2);
    assert(18 * 18 == 324);
    assert(fmul(18, 18) == 2);
    assert(fpow(10, 8nat) == 2);
    lemma_mod_literal(16, 0, 16);
    assert(2 * 8 == 16);
    assert(fmul(2, 8) == 16);
    assert(fpow(10, 10nat) == 16);
    lemma_mod_literal(160, 6, 22);
    assert(16 * 10 == 160);
    assert(fmul(16, 10) == 22);
    assert(fpow(10, 11nat) == 22);
}

#[verifier::rlimit(100)]
proof fn lemma_order_of_11()
    ensures
        fpow(11, 11nat) == 22,
{
    lemma_fpow_one_exp(11);
    lemma_fpow_adds(11, 1nat, 1nat);
    lemma_fpow_adds(11, 2nat, 2nat);
    lemma_fpow_adds(11, 4nat, 4nat);
    lemma_fpow_adds(11, 8nat, 2nat);
    lemma_fpow_adds(11, 10nat, 1nat);
    assert(fpow(11, 1nat) == 11);
    lemma_mod_literal(121, 5, 6);
    assert(11 * 11 == 121);
    assert(fmul(11, 11) == 6);
    assert(fpow(11, 2nat) == 6);
    lemma_mod_literal(36, 1, 13);
    assert(6 * 6 == 36);
    assert(fmul(6, 6) == 13);
    assert(fpow(11, 4nat) == 13);
    lemma_mod_literal(169, 7, 8);
    assert(13 * 13 == 169);
    assert(fmul(13, 13) == 8);
    assert(fpow(11, 8nat) == 8);
    lemma_mod_literal(48, 2, 2);
    assert(8 * 6 == 48);
    assert(fmul(8, 6) == 2);
    assert(fpow(11, 10nat) == 2);
    lemma_mod_literal(22, 0, 22);
    assert(2 * 11 == 22);
    assert(fmul(2, 11) == 22);
    assert(fpow(11, 11nat) == 22);
}

#[verifier::rlimit(100)]
proof fn lemma_order_of_14()
    ensures
        fpow(14, 11nat) == 22,
{
    lemma_fpow_one_exp(14);
    lemma_fpow_adds(14, 1nat, 1nat);
    lemma_fpow_adds(14, 2nat, 2nat);
    lemma_fpow_adds(14, 4nat, 4nat);
    lemma_fpow_adds(14, 8nat, 2nat);
    lemma_fpow_adds(14, 10nat, 1nat);
    assert(fpow(14, 1nat) == 14);
    lemma_mod_literal(196, 8, 12);
    assert(14 * 14 == 196);
    assert(fmul(14, 14) == 12);
    assert(fpow(14, 2nat) == 12);
    lemma_mod_literal(144, 6, 6);
    assert(12 * 12 == 144);
    assert(fmul(12, 12) == 6);
    assert(fpow(14, 4nat) == 6);
    lemma_mod_literal(36, 1, 13);
    assert(6 * 6 == 36);
    assert(fmul(6, 6) == 13);
    assert(fpow(14, 8nat) == 13);
    lemma_mod_literal(156, 6, 18);
    assert(13 * 12 == 156);
    assert(fmul(13, 12) == 18);
    assert(fpow(14, 10nat) == 18);
    lemma_mod_literal(252, 10, 22);
    assert(18 * 14 == 252);
    assert(fmul(18, 14) == 22);
    assert(fpow(14, 11nat) == 22);
}

#[verifier::rlimit(100)]
proof fn lemma_order_of_15()
    ensures
        fpow(15, 11nat) == 22,
{
    lemma_fpow_one_exp(15);
    lemma_fpow_adds(15, 1nat, 1nat);
    lemma_fpow_adds(15, 2nat, 2nat);
    lemma_fpow_adds(15, 4nat, 4nat);
    lemma_fpow_adds(15, 8nat, 2nat);
    lemma_fpow_adds(15, 10nat, 1nat);
    assert(fpow(15, 1nat) == 15);
    lemma_mod_literal(225, 9, 18);
    assert(15 * 15 == 225);
    assert(fmul(15, 15) == 18);
    assert(fpow(15, 2nat) == 18);
    lemma_mod_literal(324, 14, 2);
    assert(18 * 18 == 324);
    assert(fmul(18, 18) == 2);
    assert(fpow(15, 4nat) == 2);
    lemma_mod_literal(4, 0, 4);
    assert(2 * 2 == 4);
    assert(fmul(2, 2) == 4);
    assert(fpow(15, 8nat) == 4);
    lemma_mod_literal(72, 3, 3);
    assert(4 * 18 == 72);
    assert(fmul(4, 18) == 3);
    assert(fpow(15, 10nat) == 3);
    lemma_mod_literal(45, 1, 22);
    assert(3 * 15 == 45);
    assert(fmul(3, 15) == 22);
    assert(fpow(15, 11nat) == 22);
}

#[verifier::rlimit(100)]
proof fn lemma_order_of_17()
    ensures
        fpow(17, 11nat) == 22,
{
    lemma_fpow_one_exp(17);
    lemma_fpow_adds(17, 1nat, 1nat);
    lemma_fpow_adds(17, 2nat, 2nat);
    lemma_fpow_adds(17, 4nat, 4nat);
    lemma_fpow_adds(17, 8nat, 2nat);
    lemma_fpow_adds(17, 10nat, 1nat);
    assert(fpow(17, 1nat) == 17);
    lemma_mod_literal(289, 12, 13);
    assert(17 * 17 == 289);
    assert(fmul(17, 17) == 13);
    assert(fpow(17, 2nat) == 13);
    lemma_mod_literal(169, 7, 8);
    assert(13 * 13 == 169);
    assert(fmul(13, 13) == 8);
    assert(fpow(17, 4nat) == 8);
    lemma_mod_literal(64, 2, 18);
    assert(8 * 8 == 64);
    assert(fmul(8, 8) == 18);
    assert(fpow(17, 8nat) == 18);
    lemma_mod_literal(234, 10, 4);
    assert(18 * 13 == 234);
    assert(fmul(18, 13) == 4);
    assert(fpow(17, 10nat) == 4);
    lemma_mod_literal(68, 2, 22);
    assert(4 * 17 == 68);
    assert(fmul(4, 17) == 22);
    assert(fpow(17, 11nat) == 22);
}

#[verifier::rlimit(100)]
proof fn lemma_order_of_19()
    ensures
        fpow(19, 11nat) == 22,
{
    lemma_fpow_one_exp(19);
    lemma_fpow_adds(19, 1nat, 1nat);
    lemma_fpow_adds(19, 2nat, 2nat);
    lemma_fpow_adds(19, 4nat, 4nat);
    lemma_fpow_adds(19, 8nat, 2nat);
    lemma_fpow_adds(19, 10nat, 1nat);
    assert(fpow(19, 1nat) == 19);
    lemma_mod_literal(361, 15, 16);
    assert(19 * 19 == 361);
    assert(fmul(19, 19) == 16);
    assert(fpow(19, 2nat) == 16);
    lemma_mod_literal(256, 11, 3);
    assert(16 * 16 == 256);
    assert(fmul(16, 16) == 3);
    assert(fpow(19, 4nat) == 3);
    lemma_mod_literal(9, 0, 9);
    assert(3 * 3 == 9);
    assert(fmul(3, 3) == 9);
    assert(fpow(19, 8nat) == 9);
    lemma_mod_literal(144, 6, 6);
    assert(9 * 16 == 144);
    assert(fmul(9, 16) == 6);
    assert(fpow(19, 10nat) == 6);
    lemma_mod_literal(114, 4, 22);
    assert(6 * 19 == 114);
    assert(fmul(6, 19) == 22);
    assert(fpow(19, 11nat) == 22);
}

#[verifier::rlimit(100)]
proof fn lemma_order_of_20()
    ensures
        fpow(20, 11nat) == 22,
{
    lemma_fpow_one_exp(20);
    lemma_fpow_adds(20, 1nat, 1nat);
    lemma_fpow_adds(20, 2nat, 2nat);
    lemma_fpow_adds(20, 4nat, 4nat);
    lemma_fpow_adds(20, 8nat, 2nat);
    lemma_fpow_adds(20, 10nat, 1nat);
    assert(fpow(20, 1nat) == 20);
    lemma_mod_literal(400, 17, 9);
    assert(20 * 20 == 400);
    assert(fmul(20, 20) == 9);
    assert(fpow(20, 2nat) == 9);
    lemma_mod_literal(81, 3, 12);
    assert(9 * 9 == 81);
    assert(fmul(9, 9) == 12);
    assert(fpow(20, 4nat) == 12);
    lemma_mod_literal(144, 6, 6);
    assert(12 * 12 == 144);
    assert(fmul(12, 12) == 6);
    assert(fpow(20, 8nat) == 6);
    lemma_mod_literal(54, 2, 8);
    assert(6 * 9 == 54);
    assert(fmul(6, 9) == 8);
    assert(fpow(20, 10nat) == 8);
    lemma_mod_literal(160, 6, 22);
    assert(8 * 20 == 160);
    assert(fmul(8, 20) == 22);
    assert(fpow(20, 11nat) == 22);
}

#[verifier::rlimit(100)]
proof fn lemma_order_of_21()
    ensures
        fpow(21, 11nat) == 22,
{
    lemma_fpow_one_exp(21);
    lemma_fpow_adds(21, 1nat, 1nat);
    lemma_fpow_adds(21, 2nat, 2nat);
    lemma_fpow_adds(21, 4nat, 4nat);
    lemma_fpow_adds(21, 8nat, 2nat);
    lemma_fpow_adds(21, 10nat, 1nat);
    assert(fpow(21, 1nat) == 21);
    lemma_mod_literal(441, 19, 4);
    assert(21 * 21 == 441);
    assert(fmul(21, 21) == 4);
    assert(fpow(21, 2nat) == 4);
    lemma_mod_literal(16, 0, 16);
    assert(4 * 4 == 16);
    assert(fmul(4, 4) == 16);
    assert(fpow(21, 4nat) == 16);
    lemma_mod_literal(256, 11, 3);
    assert(16 * 16 == 256);
    assert(fmul(16, 16) == 3);
    assert(fpow(21, 8nat) == 3);
    lemma_mod_literal(12, 0, 12);
    assert(3 * 4 == 12);
    assert(fmul(3, 4) == 12);
    assert(fpow(21, 10nat) == 12);
    lemma_mod_literal(252, 10, 22);
    assert(12 * 21 == 252);
    assert(fmul(12, 21) == 22);
    assert(fpow(21, 11nat) == 22);
}

#[verifier::rlimit(100)]
proof fn lemma_order_of_22()
    ensures
        fpow(22, 11nat) == 22,
{
    lemma_fpow_one_exp(22);
    lemma_fpow_adds(22, 1nat, 1nat);
    lemma_fpow_adds(22, 2nat, 2nat);
    lemma_fpow_adds(22, 4nat, 4nat);
    lemma_fpow_adds(22, 8nat, 2nat);
    lemma_fpow_adds(22, 10nat, 1nat);
    assert(fpow(22, 1nat) == 22);
    lemma_mod_literal(484, 21, 1);
    assert(22 * 22 == 484);
    assert(fmul(22, 22) == 1);
    assert(fpow(22, 2nat) == 1);
    lemma_mod_literal(1, 0, 1);
    assert(1 * 1 == 1);
    assert(fmul(1, 1) == 1);
    assert(fpow(22, 4nat) == 1);
    lemma_mod_literal(1, 0, 1);
    assert(1 * 1 == 1);
    assert(fmul(1, 1) == 1);
    assert(fpow(22, 8nat) == 1);
    lemma_mod_literal(1, 0, 1);
    assert(1 * 1 == 1);
    assert(fmul(1, 1) == 1);
    assert(fpow(22, 10nat) == 1);
    lemma_mod_literal(22, 0, 22);
    assert(1 * 22 == 22);
    assert(fmul(1, 22) == 22);
    assert(fpow(22, 11nat) == 22);
}

/// Every subgroup class is a power of the generator's class: the check
/// walks the whole field, computing the order of every candidate.
#[verifier::rlimit(100)]
pub proof fn lemma_subgroup_generated(u: int)
    requires
        in_field(u),
        in_subgroup(u),
    ensures
        subgroup_member(u),
        dlog(u) < SUBGROUP_ORDER,
        fpow(2, dlog(u)) == u,
{
    lemma_gen_pows();
    assert(SUBGROUP_ORDER == 11);
    if u == 0 {
        lemma0_pow(11nat);
        assert(fpow(0, 11nat) == 0);
        assert(false);
    }
    else if u == 1 {
    }
    else if u == 2 {
    }
    else if u == 3 {
    }
    else if u == 4 {
    }
    else if u == 6 {
    }
    else if u == 8 {
    }
    else if u == 9 {
    }
    else if u == 12 {
    }
    else if u == 13 {
    }
    else if u == 16 {
    }
    else if u == 18 {
    }
    else if u == 5 {
        lemma_order_of_5();
        assert(false);
    }
    else if u == 7 {
        lemma_order_of_7();
        assert(false);
    }
    else if u == 10 {
        lemma_order_of_10();
        assert(false);
    }
    else if u == 11 {
        lemma_order_of_11();
        assert(false);
    }
    else if u == 14 {
        lemma_order_of_14();
        assert(false);
    }
    else if u == 15 {
        lemma_order_of_15();
        assert(false);
    }
    else if u == 17 {
        lemma_order_of_17();
        assert(false);
    }
    else if u == 19 {
        lemma_order_of_19();
        assert(false);
    }
    else if u == 20 {
        lemma_order_of_20();
        assert(false);
    }
    else if u == 21 {
        lemma_order_of_21();
        assert(false);
    }
    else if u == 22 {
        lemma_order_of_22();
        assert(false);
    }
    else {
        assert(!in_field(u));
        assert(false);
    }
}

impl Affine {
    /// Builds the prepared pairing form of this subgroup point: its
    /// precomputed subgroup index.
    pub fn prepare(&self) -> (r: Prepared)
        requires
            self.valid(),
            in_subgroup(self.mult_rep()),
        ensures
            r.exponent < SUBGROUP_ORDER,
            r.exponent as nat == dlog(self.mult_rep()),
    {
        proof {
            lemma_mod_in_field(self.y@ - self.x@);
            lemma_subgroup_generated(self.mult_rep());
        }
        let d = self.y.sub(self.x);
        let e: u64 = match d.v {
            1 => 0,
            2 => 1,
            4 => 2,
            8 => 3,
            16 => 4,
            9 => 5,
            18 => 6,
            13 => 7,
            3 => 8,
            6 => 9,
            12 => 10,
            _ => {
                proof {
                    assert(false);
                }
                0
            },
        };
        Prepared { exponent: e }
    }

    /// Evaluates the bilinear pairing of this point against a point of the
    /// partner curve, returning a target-field element. The result is a
    /// pure function of the two group classes.
    pub fn pairing_with(&self, other: &Affine) -> (r: Fp)
        requires
            self.valid(),
            other.valid(),
            in_subgroup(self.mult_rep()),
            in_subgroup(other.mult_rep()),
        ensures
            r.valid(),
            r@ == pairing_spec(self.mult_rep(), other.mult_rep()),
    {
        let p1 = self.prepare();
        let p2 = other.prepare();
        proof {
            assert(p1.exponent * p2.exponent < 121) by (nonlinear_arith)
                requires
                    p1.exponent < 11,
                    p2.exponent < 11,
            ;
        }
        let e: u64 = (p1.exponent * p2.exponent) % SUBGROUP_ORDER;
        Fp::new(2).pow(e)
    }
}

/// Bilinearity of the pairing: pairing the a-th multiple of one subgroup
/// class with the b-th multiple of another equals the pairing of the
/// originals raised to the product of the scalars.
pub proof fn lemma_pairing_bilinear(u1: int, u2: int, a: nat, b: nat)
    requires
        in_field(u1),
        in_field(u2),
        in_subgroup(u1),
        in_subgroup(u2),
    ensures
        pairing_spec(fpow(u1, a), fpow(u2, b)) == fpow(pairing_spec(u1, u2), a * b),
{
    lemma_gen_pows();
    lemma_subgroup_generated(u1);
    lemma_subgroup_generated(u2);
    let d1 = dlog(u1);
    let d2 = dlog(u2);
    lemma_fpow_mul(2, d1, a);
    lemma_fpow_cycle(2, SUBGROUP_ORDER as nat, d1 * a);
    lemma_dlog_round((d1 * a) % (SUBGROUP_ORDER as nat));
    lemma_fpow_mul(2, d2, b);
    lemma_fpow_cycle(2, SUBGROUP_ORDER as nat, d2 * b);
    lemma_dlog_round((d2 * b) % (SUBGROUP_ORDER as nat));
    lemma_mul_mod_noop_general((d1 * a) as int, (d2 * b) as int, SUBGROUP_ORDER as int);
    lemma_fpow_mul(2, (d1 * d2) % (SUBGROUP_ORDER as nat), a * b);
    lemma_fpow_cycle(2, SUBGROUP_ORDER as nat, ((d1 * d2) % (SUBGROUP_ORDER as nat)) * (a * b));
    lemma_mul_mod_noop_left((d1 * d2) as int, (a * b) as int, SUBGROUP_ORDER as int);
    lemma_mul_rearrange(d1 as int, a as int, d2 as int, b as int);
}

/// The ring identity behind bilinearity: products regroup.
proof fn lemma_mul_rearrange(d1: int, a: int, d2: int, b: int)
    ensures
        (d1 * a) * (d2 * b) == (d1 * d2) * (a * b),
{
    assert((d1 * a) * (d2 * b) == (d1 * d2) * (a * b)) by (nonlinear_arith);
}

} // verus!
