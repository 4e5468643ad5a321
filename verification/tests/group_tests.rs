use curve_group::affine::Affine;
use curve_group::affine::batch_add;
use curve_group::field::Fp;
use curve_group::params::cofactor;
use curve_group::params::mul_by_a;
use curve_group::params::COFACTOR;
use curve_group::projective::Projective;
use curve_group::scalar::Scalar;

fn gen() -> Affine {
    Affine::prime_subgroup_generator()
}

fn double_gen() -> Affine {
    gen().to_projective().double().to_affine()
}

#[test]
fn generator_is_on_curve_and_in_subgroup() {
    let g = gen();
    assert_eq!(g.to_x_coordinate(), Fp::new(5));
    assert_eq!(g.to_y_coordinate(), Fp::new(7));
    assert!(g.is_on_curve());
    assert!(g.is_in_correct_subgroup_assuming_on_curve());
}

#[test]
fn affine_projective_round_trip() {
    let g = gen();
    assert_eq!(g.to_projective().to_affine(), g);
    let d = double_gen();
    assert_eq!(d.to_projective().to_affine(), d);
    let z = Affine::zero();
    assert_eq!(z.to_projective().to_affine(), z);
}

#[test]
fn doubling_matches_self_addition() {
    let p = gen().to_projective();
    assert_eq!(p.double(), p.add(&p));
    let q = p.double();
    assert_eq!(q.double(), q.add(&q));
}

#[test]
fn double_in_place_matches_double() {
    let p = gen().to_projective();
    let mut q = p;
    q.double_in_place();
    assert_eq!(q, p.double());
}

#[test]
fn addition_is_associative() {
    let a = gen().to_projective();
    let b = a.double();
    let c = b.add(&a);
    let left = a.add(&b).add(&c);
    let right = a.add(&b.add(&c));
    assert_eq!(left, right);
    // The classes agree as affine points as well.
    assert_eq!(left.to_affine(), right.to_affine());
}

#[test]
fn identity_is_neutral() {
    let g = gen();
    let sum = g.add(Affine::zero());
    assert_eq!(sum, g);
    let p = g.to_projective().add(&Projective::zero());
    assert_eq!(p.to_affine(), g);
}

#[test]
fn negation_cancels() {
    let g = gen();
    assert_eq!(g.add(g.neg()), Affine::zero());
    let d = double_gen();
    assert_eq!(d.add(d.neg()), Affine::zero());
}

#[test]
fn mixed_addition_matches_full_addition() {
    let a = gen().to_projective().double();
    let b = double_gen();
    assert_eq!(a.add_mixed(&b), a.add(&b.to_projective()));
    let mut c = a;
    c.add_assign_mixed(&b);
    assert_eq!(c, a.add(&b.to_projective()));
}

#[test]
fn sub_assign_mixed_is_addition_of_negation() {
    let a = gen().to_projective().double();
    let b = gen();
    let mut s = a;
    s.sub_assign_mixed(&b);
    let mut t = a;
    t.add_assign_mixed(&b.neg());
    assert_eq!(s, t);
    // Adding back recovers the original class.
    let mut back = s;
    back.add_assign_mixed(&b);
    assert_eq!(back.to_affine(), a.to_affine());
}

#[test]
fn mul_bits_five_equals_repeated_addition() {
    // The bit sequence [1, 0, 1], most significant first, is five.
    let g = gen();
    let five_g = g.mul_bits(&vec![true, false, true]);
    let mut acc = g.to_projective();
    acc.add_assign_mixed(&g);
    acc.add_assign_mixed(&g);
    acc.add_assign_mixed(&g);
    acc.add_assign_mixed(&g);
    assert_eq!(five_g.to_affine(), acc.to_affine());
    assert_eq!(five_g.to_affine(), Affine::from_coordinates((Fp::new(16), Fp::new(2))));
}

#[test]
fn mul_bits_empty_is_identity() {
    let g = gen();
    let p = g.mul_bits(&vec![]);
    assert!(p.is_zero());
    assert_eq!(p.to_affine(), Affine::zero());
}

#[test]
fn cofactor_is_two() {
    assert_eq!(cofactor(), vec![COFACTOR]);
}

#[test]
fn cofactor_clearing_lands_in_subgroup() {
    // (16, 21) is on the curve but outside the prime-order subgroup.
    let x = Affine::from_coordinates((Fp::new(16), Fp::new(21)));
    assert!(x.is_on_curve());
    assert!(!x.is_in_correct_subgroup_assuming_on_curve());
    let cleared = x.mul_by_cofactor();
    assert!(cleared.is_on_curve());
    assert!(cleared.is_in_correct_subgroup_assuming_on_curve());
    assert_eq!(cleared, gen());
    let proj = x.mul_by_cofactor_to_projective();
    assert_eq!(proj.to_affine(), cleared);
    // A subgroup point stays in the subgroup.
    assert!(gen().mul_by_cofactor().is_in_correct_subgroup_assuming_on_curve());
}

#[test]
fn cofactor_inverse_round_trip() {
    let g = gen();
    assert_eq!(g.mul_by_cofactor_inv().mul_by_cofactor(), g);
    let d = double_gen();
    assert_eq!(d.mul_by_cofactor_inv().mul_by_cofactor(), d);
}

#[test]
fn from_x_coordinate_picks_root_by_greatest() {
    // For x = 5 the two roots are y = 16 and y = 7; 16 is the greater.
    let hi = Affine::from_x_coordinate(Fp::new(5), true).unwrap();
    let lo = Affine::from_x_coordinate(Fp::new(5), false).unwrap();
    assert_eq!(hi, Affine::from_coordinates((Fp::new(5), Fp::new(16))));
    assert_eq!(lo, Affine::from_coordinates((Fp::new(5), Fp::new(7))));
    assert!(hi.is_on_curve());
    assert!(lo.is_on_curve());
    // The two y-coordinates are additive inverses, and the `greatest` one
    // is strictly larger.
    assert_eq!(hi.to_y_coordinate(), lo.to_y_coordinate().neg());
    assert!(hi.to_y_coordinate().v > lo.to_y_coordinate().v);
}

#[test]
fn from_x_coordinate_rejects_non_residue() {
    assert!(Affine::from_x_coordinate(Fp::new(2), true).is_none());
    assert!(Affine::from_x_coordinate(Fp::new(2), false).is_none());
}

#[test]
fn from_y_coordinate_picks_root_by_greatest() {
    let hi = Affine::from_y_coordinate(Fp::new(7), true).unwrap();
    let lo = Affine::from_y_coordinate(Fp::new(7), false).unwrap();
    assert_eq!(hi, Affine::from_coordinates((Fp::new(18), Fp::new(7))));
    assert_eq!(lo, Affine::from_coordinates((Fp::new(5), Fp::new(7))));
    assert!(hi.is_on_curve());
    assert!(lo.is_on_curve());
}

#[test]
fn from_random_bytes_round_trip() {
    let g = gen();
    let bytes = g.encode();
    assert_eq!(bytes, vec![5u8, 7u8]);
    assert_eq!(Affine::from_random_bytes(&bytes), Some(g));
}

#[test]
fn from_random_bytes_rejects_invalid() {
    // Off-curve coordinates.
    assert_eq!(Affine::from_random_bytes(&vec![5u8, 8u8]), None);
    // Out-of-range words.
    assert_eq!(Affine::from_random_bytes(&vec![200u8, 7u8]), None);
    // Wrong length.
    assert_eq!(Affine::from_random_bytes(&vec![5u8]), None);
    assert_eq!(Affine::from_random_bytes(&vec![]), None);
}

#[test]
fn batch_normalization_matches_individual_conversion() {
    // A scaled representative of the generator: (10 : 14 : 2).
    let scaled = Projective { x: Fp::new(10), y: Fp::new(14), z: Fp::new(2) };
    let pts = vec![
        gen().to_projective().double(),
        Projective::zero(),
        scaled,
        gen().mul_bits(&vec![true, false, true]),
    ];
    let individually: Vec<Affine> = pts.iter().map(|p| p.to_affine()).collect();
    let mut normalized = pts.clone();
    Projective::batch_normalization(&mut normalized);
    for p in &normalized {
        assert!(p.is_normalized());
    }
    let batched = Projective::batch_normalization_into_affine(pts);
    assert_eq!(batched, individually);
    assert_eq!(batched[1], Affine::zero());
    assert_eq!(batched[2], gen());
}

#[test]
fn batch_normalization_empty() {
    let mut pts: Vec<Projective> = vec![];
    Projective::batch_normalization(&mut pts);
    assert!(pts.is_empty());
    let out = Projective::batch_normalization_into_affine(vec![]);
    assert!(out.is_empty());
}

#[test]
fn batch_add_adds_pairwise() {
    let g = gen();
    let d = double_gen();
    let mut a = vec![g, d];
    let b = vec![g, g];
    batch_add(&mut a, &b);
    assert_eq!(a[0], g.add(g));
    assert_eq!(a[1], d.add(g));
}

#[test]
fn projective_generator_matches_affine_generator() {
    assert_eq!(Projective::prime_subgroup_generator().to_affine(), gen());
}

#[test]
fn pairing_is_deterministic() {
    let g = gen();
    let d = double_gen();
    let first = g.pairing_with(&d);
    let second = g.pairing_with(&d);
    assert_eq!(first, second);
}

#[test]
fn pairing_is_bilinear() {
    // a = 2, b = 3: pairing(2G, 3G) must equal pairing(G, G)^6.
    let g = gen();
    let two_g = g.mul_bits(&vec![true, false]).to_affine();
    let three_g = g.mul_bits(&vec![true, true]).to_affine();
    let lhs = two_g.pairing_with(&three_g);
    let base = g.pairing_with(&g);
    assert_eq!(base, Fp::new(2));
    assert_eq!(lhs, base.pow(6));
    assert_eq!(lhs, Fp::new(18));
}

#[test]
fn prepared_form_is_the_subgroup_index() {
    assert_eq!(gen().prepare().exponent, 1);
    assert_eq!(double_gen().prepare().exponent, 2);
    assert_eq!(Affine::zero().prepare().exponent, 0);
}

#[test]
fn scalar_ordering_is_lexicographic() {
    let a = Scalar::new(3);
    let b = Scalar::new(5);
    assert!(a < b);
    assert!(b > a);
    assert_eq!(a.partial_cmp(&a), Some(std::cmp::Ordering::Equal));
    assert_eq!(a.to_bigint(), 3);
    assert_eq!(Scalar::from_u64(14).to_bigint(), 3);
}

#[test]
fn mul_by_a_negates() {
    assert_eq!(mul_by_a(&Fp::new(1)), Fp::new(22));
    assert_eq!(mul_by_a(&Fp::new(0)), Fp::new(0));
    assert_eq!(mul_by_a(&Fp::new(22)), Fp::new(1));
}

#[test]
fn field_inverse_and_sqrt() {
    assert_eq!(Fp::new(2).inverse(), Fp::new(12));
    assert_eq!(Fp::new(4).inverse(), Fp::new(6));
    let r = Fp::new(3).sqrt().unwrap();
    assert_eq!(r.mul(r), Fp::new(3));
    assert!(Fp::new(5).sqrt().is_none());
}
