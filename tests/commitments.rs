use lambdaworks_math::cyclic_group::IsGroup;
use lambdaworks_math::elliptic_curve::short_weierstrass::curves::bls12_381::curve::{
    BLS12381Curve, BLS12381FieldElement,
};
use lambdaworks_math::elliptic_curve::short_weierstrass::curves::bls12_381::default_types::{
    FrElement, FrField,
};
use lambdaworks_math::elliptic_curve::short_weierstrass::point::ShortWeierstrassProjectivePoint;
use lambdaworks_math::elliptic_curve::traits::IsEllipticCurve;
use lambdaworks_math::fft::cpu::roots_of_unity::get_powers_of_primitive_root;
use lambdaworks_math::field::traits::RootsConfig;
use lambdaworks_math::msm::naive::msm;
use lambdaworks_math::polynomial::Polynomial;
use lambdaworks_math::unsigned_integer::element::{U256, U384};
use tauvslagrange::field::Scalar;
use tauvslagrange::group::Point;
use tauvslagrange::prover::{Prover, ProverError};
use tauvslagrange::serialize::SerializedSRS;
use tauvslagrange::srs::{generate_srs, vandemonde_challenge};
use tauvslagrange::utils::{fft_g, in_place_nr_2radix_fft_g, random_poly, to_lagrange_basis, window_size};

type G1 = ShortWeierstrassProjectivePoint<BLS12381Curve>;

fn to_g1(p: &Point) -> G1 {
    let [a, b, c] = [p.x, p.y, p.z].map(|l| BLS12381FieldElement::new(U384 { limbs: l }));
    G1::new([a, b, c]).unwrap()
}

fn from_g1(p: &G1) -> Point {
    let a = p.to_affine();
    Point {
        x: a.x().representative().limbs,
        y: a.y().representative().limbs,
        z: a.z().representative().limbs,
    }
}

fn generator() -> Point {
    from_g1(&BLS12381Curve::generator())
}

fn to_fr(s: &Scalar) -> FrElement {
    FrElement::new(U256 { limbs: s.limbs })
}

fn scalars(values: &[u64]) -> Vec<Scalar> {
    values.iter().map(|v| Scalar::from_u64(*v)).collect()
}

fn naive_msm(cs: &[Scalar], points: &[Point]) -> Point {
    let cs: Vec<U256> = cs.iter().map(|s| U256 { limbs: s.limbs }).collect();
    let ps: Vec<G1> = points.iter().map(to_g1).collect();
    from_g1(&msm(&cs, &ps).unwrap())
}

fn natural_domain(n: usize) -> Vec<Scalar> {
    let order = n.trailing_zeros() as u64;
    get_powers_of_primitive_root::<FrField>(order, n, RootsConfig::Natural)
        .unwrap()
        .iter()
        .map(|v| Scalar { limbs: v.representative().limbs })
        .collect()
}

#[test]
fn test_vandemonde_challenge() {
    let challenge = vandemonde_challenge(&Scalar::from_u64(2), 5);
    assert_eq!(challenge, scalars(&[2, 4, 8, 16, 32]));
}

#[test]
fn test_to_lagrange_basis() {
    let srs = generate_srs(8, Scalar::from_u64(42));
    let coefficients = scalars(&[6, 28, 31, 85, 30, 71, 79, 58]);

    // Through the coefficients and the powers of tau.
    let commitment1 = naive_msm(&coefficients, &srs);

    // Through the evaluations on the 8th roots of unity and the Lagrange basis.
    let coeffs: Vec<FrElement> = coefficients.iter().map(to_fr).collect();
    let evaluations: Vec<Scalar> = Polynomial::evaluate_fft::<FrField>(&Polynomial::new(&coeffs), 1, None)
        .unwrap()
        .iter()
        .map(|e| Scalar { limbs: e.representative().limbs })
        .collect();
    let lagrange_basis = to_lagrange_basis(&srs).unwrap();
    let commitment2 = naive_msm(&evaluations, &lagrange_basis);

    assert!(commitment1 == commitment2);
}

#[test]
fn srs_starts_with_generator_and_scales_by_powers() {
    let tau = Scalar::from_u64(42);
    let srs = generate_srs(4, tau);
    assert_eq!(srs.len(), 4);
    assert_eq!(srs[0], generator());
    let g = BLS12381Curve::generator();
    assert_eq!(srs[1], from_g1(&g.operate_with_self(42u64)));
    assert_eq!(srs[3], from_g1(&g.operate_with_self(42u64 * 42 * 42)));
    assert_eq!(generate_srs(4, tau), srs);
    assert_eq!(generate_srs(3, Scalar::from_u64(7))[0], generator());
}

#[test]
fn srs_of_length_zero_and_one() {
    assert!(generate_srs(0, Scalar::from_u64(5)).is_empty());
    assert_eq!(generate_srs(1, Scalar::from_u64(5)), vec![generator()]);
}

#[test]
fn vandemonde_challenge_of_zero_length_is_empty() {
    assert!(vandemonde_challenge(&Scalar::from_u64(9), 0).is_empty());
}

#[test]
fn both_commitment_paths_agree() {
    let tau = Scalar::from_u64(1234567);
    let base = scalars(&[3, 1, 4, 1, 5, 9, 2, 6]);
    let witness = scalars(&[2, 7, 1, 8, 2, 8, 1, 8]);
    let prover = Prover::new(base).unwrap();
    assert_eq!(prover.poly_eval.len(), 16);
    let srs = generate_srs(16, tau);
    let lagrange = to_lagrange_basis(&srs).unwrap();
    let c1 = prover.commit_polynomial(&witness, &srs).unwrap();
    let c2 = prover.commit_lagrange(&witness, &lagrange).unwrap();
    assert_eq!(c1, c2);
}

#[test]
fn commitment_matches_the_product_polynomial() {
    // (1 + x) * (2 + 3x) = 2 + 5x + 3x^2
    let tau = Scalar::from_u64(11);
    let prover = Prover::new(scalars(&[1, 1])).unwrap();
    let srs = generate_srs(4, tau);
    let c = prover.commit_polynomial(&scalars(&[2, 3]), &srs).unwrap();
    let g = BLS12381Curve::generator();
    let expected = g.operate_with_self(2u64 + 5 * 11 + 3 * 121);
    assert_eq!(c, from_g1(&expected));
    let lagrange = to_lagrange_basis(&srs).unwrap();
    assert_eq!(prover.commit_lagrange(&scalars(&[2, 3]), &lagrange).unwrap(), c);
}

#[test]
fn random_commitments_agree() {
    let tau = Scalar::from_u64(99991);
    let base = random_poly(15);
    let witness = random_poly(15);
    assert_eq!(base.len(), 16);
    let prover = Prover::new(base).unwrap();
    let srs = generate_srs(32, tau);
    let lagrange = to_lagrange_basis(&srs).unwrap();
    assert_eq!(
        prover.commit_polynomial(&witness, &srs).unwrap(),
        prover.commit_lagrange(&witness, &lagrange).unwrap()
    );
}

#[test]
fn lagrange_round_trip_recovers_powers_of_tau() {
    let tau = Scalar::from_u64(31337);
    for log in 1..=6u32 {
        let n = 1usize << log;
        let srs = generate_srs(n, tau);
        let lagrange = to_lagrange_basis(&srs).unwrap();
        assert_ne!(lagrange, srs);
        let back = fft_g(&lagrange, &natural_domain(n));
        assert_eq!(back, srs);
    }
}

#[test]
fn lagrange_basis_of_one_point_is_the_point() {
    let srs = generate_srs(1, Scalar::from_u64(3));
    assert_eq!(to_lagrange_basis(&srs).unwrap(), srs);
}

#[test]
fn lagrange_basis_needs_a_power_of_two() {
    let srs = generate_srs(3, Scalar::from_u64(3));
    assert_eq!(to_lagrange_basis(&srs), Err(ProverError::FftPrecondition));
    assert_eq!(to_lagrange_basis(&Vec::new()), Err(ProverError::FftPrecondition));
}

#[test]
fn msm_of_one_term_scales_the_point() {
    // A constant base 1 and a constant witness c give c at both domain points,
    // and the two Lagrange points sum to the generator.
    let srs = generate_srs(2, Scalar::from_u64(5));
    let lagrange = to_lagrange_basis(&srs).unwrap();
    let prover = Prover::new(scalars(&[1])).unwrap();
    let c = prover.commit_lagrange(&scalars(&[7]), &lagrange).unwrap();
    assert_eq!(c, from_g1(&BLS12381Curve::generator().operate_with_self(7u64)));
    assert_eq!(naive_msm(&scalars(&[7]), &srs[..1]), c);
    assert_eq!(naive_msm(&[], &[]), from_g1(&G1::neutral_element()));
}

#[test]
fn window_size_heuristic_values() {
    assert_eq!(window_size(0), 0);
    assert_eq!(window_size(1), 0);
    assert_eq!(window_size(2), 0);
    assert_eq!(window_size(4), 1);
    assert_eq!(window_size(8), 2);
    assert_eq!(window_size(1 << 17), 13);
    assert_eq!(window_size(usize::MAX), 50);
    let mut last = 0;
    for k in 0..5000usize {
        let w = window_size(k);
        assert!(w >= last);
        last = w;
    }
}

#[test]
fn witness_of_other_size_is_rejected_on_both_paths() {
    let prover = Prover::new(scalars(&[1, 2, 3, 4])).unwrap();
    let srs = generate_srs(8, Scalar::from_u64(2));
    let lagrange = to_lagrange_basis(&srs).unwrap();
    let witness = scalars(&[1, 2, 3, 4, 5]);
    assert_eq!(prover.commit_polynomial(&witness, &srs), Err(ProverError::DomainMismatch));
    assert_eq!(prover.commit_lagrange(&witness, &lagrange), Err(ProverError::DomainMismatch));
}

#[test]
fn lagrange_reference_string_of_wrong_length_is_rejected() {
    let prover = Prover::new(scalars(&[1, 2, 3, 4])).unwrap();
    let srs = generate_srs(4, Scalar::from_u64(2));
    let lagrange = to_lagrange_basis(&srs).unwrap();
    assert_eq!(prover.commit_lagrange(&scalars(&[4, 3, 2, 1]), &lagrange), Err(ProverError::MsmPrecondition));
}

#[test]
fn short_powers_of_tau_are_rejected() {
    let prover = Prover::new(scalars(&[1, 2, 3, 4])).unwrap();
    let srs = generate_srs(3, Scalar::from_u64(2));
    assert_eq!(prover.commit_polynomial(&scalars(&[4, 3, 2, 1]), &srs), Err(ProverError::MsmPrecondition));
}

#[test]
fn serialized_points_load_back() {
    let srs = generate_srs(4, Scalar::from_u64(8));
    let ser = SerializedSRS::from_points(&srs);
    assert_eq!(ser.points.len(), 4);
    assert!(ser.points[0].0.starts_with("0x17f1d3a7"));
    assert_eq!(ser.to_ec_points(), Some(srs));
}

#[test]
fn malformed_serialized_points_are_rejected() {
    let bad_hex = SerializedSRS { points: vec![("0xzz".to_string(), "0x1".to_string())] };
    assert_eq!(bad_hex.to_ec_points(), None);
    let off_curve = SerializedSRS { points: vec![("0x1".to_string(), "0x1".to_string())] };
    assert_eq!(off_curve.to_ec_points(), None);
}

#[test]
fn zero_polynomial_cannot_be_a_base() {
    assert_eq!(Prover::new(Vec::new()).err(), Some(ProverError::FftPrecondition));
    assert_eq!(Prover::new(scalars(&[0, 0, 0])).err(), Some(ProverError::FftPrecondition));
    assert!(Prover::new(scalars(&[0, 0, 1])).is_ok());
}

#[test]
fn in_place_fft_of_nothing_does_nothing() {
    let mut input: Vec<Point> = Vec::new();
    in_place_nr_2radix_fft_g(&mut input, &Vec::new());
    assert!(input.is_empty());
    let mut one = generate_srs(1, Scalar::from_u64(4));
    let before = one.clone();
    in_place_nr_2radix_fft_g(&mut one, &Vec::new());
    assert_eq!(one, before);
}

#[test]
fn recursive_fft_reads_half_of_the_domain() {
    let srs = generate_srs(8, Scalar::from_u64(17));
    let lagrange = to_lagrange_basis(&srs).unwrap();
    let domain = natural_domain(8);
    assert_eq!(fft_g(&lagrange, &domain[..4]), fft_g(&lagrange, &domain));
}
