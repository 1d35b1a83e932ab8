use ark_ec::{AffineRepr, CurveGroup, VariableBaseMSM};
use ark_ff::{PrimeField, UniformRand};
use barustenberg::errors::Error;
use barustenberg::field::{Fq, Fr};
use barustenberg::group::G1Affine;
use barustenberg::msm::msm_naive;
use barustenberg::pippenger::{
    bucket_count, build_point_table, double_times_exec, get_optimal_bucket_width, pippenger,
    split_scalar, PippengerRuntimeState,
};
use rand::rngs::StdRng;
use rand::SeedableRng;

fn fq(v: ark_bn254::Fq) -> Fq {
    Fq { limbs: v.into_bigint().0 }
}

fn from_ark_g1(p: ark_bn254::G1Affine) -> G1Affine {
    if p.infinity {
        G1Affine::identity()
    } else {
        G1Affine { x: fq(p.x), y: fq(p.y), infinity: false }
    }
}

fn from_ark_fr(v: ark_bn254::Fr) -> Fr {
    Fr { limbs: v.into_bigint().0 }
}

fn random_inputs(rng: &mut StdRng, n: usize) -> (Vec<ark_bn254::Fr>, Vec<ark_bn254::G1Affine>) {
    let scalars = (0..n).map(|_| ark_bn254::Fr::rand(rng)).collect();
    let points = (0..n)
        .map(|_| (ark_bn254::G1Affine::generator() * ark_bn254::Fr::rand(rng)).into_affine())
        .collect();
    (scalars, points)
}

fn run(scalars: &[ark_bn254::Fr], points: &[ark_bn254::G1Affine]) -> G1Affine {
    let s: Vec<Fr> = scalars.iter().map(|v| from_ark_fr(*v)).collect();
    let p: Vec<G1Affine> = points.iter().map(|v| from_ark_g1(*v)).collect();
    let mut state = PippengerRuntimeState::new(s.len());
    let result = pippenger(&s, &p, &mut state).unwrap();
    assert_eq!(result, msm_naive(&s, &p).unwrap());
    assert_eq!(state.pippenger(&s, &p).unwrap(), result);
    result
}

#[test]
fn pippenger_of_nothing_is_the_identity() {
    let mut state = PippengerRuntimeState::new(0);
    assert_eq!(pippenger(&[], &[], &mut state), Ok(G1Affine::identity()));
    assert_eq!(msm_naive(&[], &[]), Ok(G1Affine::identity()));
}

#[test]
fn pippenger_refuses_different_lengths() {
    let mut state = PippengerRuntimeState::new(2);
    let g = G1Affine::generator();
    assert_eq!(pippenger(&[Fr::one()], &[g, g], &mut state), Err(Error::InvalidInput));
    assert_eq!(pippenger(&[Fr::one(), Fr::one()], &[g], &mut state), Err(Error::InvalidInput));
    assert_eq!(pippenger(&[], &[g], &mut state), Err(Error::InvalidInput));
    assert_eq!(msm_naive(&[Fr::one()], &[]), Err(Error::InvalidInput));
}

#[test]
fn pippenger_agrees_with_the_sum_term_by_term() {
    let mut rng = StdRng::seed_from_u64(31);
    for n in [1usize, 2, 3, 5, 9, 10, 17, 34, 35, 40] {
        let (scalars, points) = random_inputs(&mut rng, n);
        let result = run(&scalars, &points);
        let expected = ark_bn254::G1Projective::msm(&points, &scalars).unwrap().into_affine();
        assert_eq!(result, from_ark_g1(expected), "for {} points", n);
    }
}

#[test]
fn pippenger_with_zero_scalars_is_the_identity() {
    let mut rng = StdRng::seed_from_u64(32);
    let (_, points) = random_inputs(&mut rng, 12);
    let zeros = vec![ark_bn254::Fr::from(0u64); 12];
    assert_eq!(run(&zeros, &points), G1Affine::identity());
}

#[test]
fn pippenger_skips_points_at_infinity() {
    let mut rng = StdRng::seed_from_u64(33);
    let (scalars, mut points) = random_inputs(&mut rng, 6);
    let full = run(&scalars, &points);
    let dropped = points[2];
    points[2] = ark_bn254::G1Affine::identity();
    let without = run(&scalars, &points);
    assert_eq!(without.add(&from_ark_g1((dropped * scalars[2]).into_affine())), full);
    let all_infinity = vec![ark_bn254::G1Affine::identity(); 6];
    assert_eq!(run(&scalars, &all_infinity), G1Affine::identity());
}

#[test]
fn pippenger_with_small_and_extreme_scalars() {
    let g = ark_bn254::G1Affine::generator();
    let minus_one = -ark_bn254::Fr::from(1u64);
    assert_eq!(run(&[ark_bn254::Fr::from(1u64)], &[g]), G1Affine::generator());
    assert_eq!(run(&[ark_bn254::Fr::from(2u64)], &[g]), from_ark_g1((g + g).into_affine()));
    assert_eq!(run(&[minus_one], &[g]), G1Affine::generator().neg());
    // 1 * G + (-1) * G
    assert_eq!(run(&[ark_bn254::Fr::from(1u64), minus_one], &[g, g]), G1Affine::identity());
    // a scalar with only its high half set
    let high = ark_bn254::Fr::from(2u64).pow_by(127);
    assert_eq!(run(&[high], &[g]), from_ark_g1((g * high).into_affine()));
    assert_eq!(
        run(&[high + minus_one, high], &[g, g]),
        from_ark_g1((g * (high + high + minus_one)).into_affine())
    );
}

trait PowBy {
    fn pow_by(self, e: u64) -> Self;
}

impl PowBy for ark_bn254::Fr {
    fn pow_by(self, e: u64) -> Self {
        ark_ff::Field::pow(&self, [e])
    }
}

#[test]
fn pippenger_is_deterministic() {
    let mut rng = StdRng::seed_from_u64(34);
    let (scalars, points) = random_inputs(&mut rng, 20);
    assert_eq!(run(&scalars, &points), run(&scalars, &points));
}

#[test]
fn point_table_holds_each_point_and_its_inverse() {
    let mut rng = StdRng::seed_from_u64(35);
    let (_, points) = random_inputs(&mut rng, 4);
    let points: Vec<G1Affine> = points.iter().map(|p| from_ark_g1(*p)).collect();
    let table = build_point_table(&points);
    assert_eq!(table.len(), 8);
    for i in 0..4 {
        assert_eq!(table[2 * i], points[i]);
        assert_eq!(table[2 * i + 1], points[i].neg());
        assert_eq!(table[2 * i].add(&table[2 * i + 1]), G1Affine::identity());
    }
    assert!(build_point_table(&[]).is_empty());
}

#[test]
fn scalars_split_into_two_halves() {
    let mut rng = StdRng::seed_from_u64(36);
    for _ in 0..20 {
        let s = from_ark_fr(ark_bn254::Fr::rand(&mut rng));
        let (lo, hi) = split_scalar(&s);
        assert!(lo < 1 << 127);
        assert!(hi < 1 << 127);
        // lo + hi * 2^127 spells the limbs
        let low_limbs = (s.limbs[0] as u128) | ((s.limbs[1] as u128) << 64);
        assert_eq!(lo, low_limbs & ((1 << 127) - 1));
        let high_limbs = (s.limbs[2] as u128) | ((s.limbs[3] as u128) << 64);
        assert_eq!(hi, (low_limbs >> 127) | (high_limbs << 1));
    }
    assert_eq!(split_scalar(&Fr::zero()), (0, 0));
    assert_eq!(split_scalar(&Fr::from_u64(5)), (5, 0));
    assert_eq!(split_scalar(&Fr { limbs: [0, 1 << 63, 0, 0] }), (0, 1));
}

#[test]
fn bucket_widths_and_counts() {
    assert_eq!(get_optimal_bucket_width(0), 1);
    assert_eq!(get_optimal_bucket_width(1), 1);
    assert_eq!(get_optimal_bucket_width(2), 2);
    assert_eq!(get_optimal_bucket_width(9), 2);
    assert_eq!(get_optimal_bucket_width(10), 3);
    assert_eq!(get_optimal_bucket_width(35), 4);
    assert_eq!(get_optimal_bucket_width(1 << 14), 11);
    assert_eq!(get_optimal_bucket_width(14617149), 21);
    assert_eq!(get_optimal_bucket_width(usize::MAX), 21);
    assert_eq!(bucket_count(1), 1);
    assert_eq!(bucket_count(2), 2);
    assert_eq!(bucket_count(5), 16);
    assert_eq!(bucket_count(21), 1 << 20);
}

#[test]
fn doubling_multiplies_by_powers_of_two() {
    let g = G1Affine::generator();
    assert_eq!(double_times_exec(&g, 0), g);
    assert_eq!(double_times_exec(&g, 1), g.add(&g));
    assert_eq!(double_times_exec(&g, 5), g.mul(&Fr::from_u64(32)));
    assert_eq!(double_times_exec(&G1Affine::identity(), 7), G1Affine::identity());
}
