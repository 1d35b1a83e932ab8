use ark_ec::{AffineRepr, CurveGroup};
use ark_ff::{PrimeField, UniformRand};
use barustenberg::field::{Fq, Fr};
use barustenberg::group::{pairing_check, Fq2, G1Affine, G2Affine};
use rand::rngs::StdRng;
use rand::SeedableRng;

fn fq(v: ark_bn254::Fq) -> Fq {
    Fq { limbs: v.into_bigint().0 }
}

fn from_ark_g1(p: ark_bn254::G1Affine) -> G1Affine {
    if p.infinity {
        G1Affine::identity()
    } else {
        G1Affine { x: fq(p.x), y: fq(p.y), infinity: false }
    }
}

fn from_ark_g2(p: ark_bn254::G2Affine) -> G2Affine {
    G2Affine {
        x: Fq2 { c0: fq(p.x.c0), c1: fq(p.x.c1) },
        y: Fq2 { c0: fq(p.y.c0), c1: fq(p.y.c1) },
        infinity: p.infinity,
    }
}

fn from_ark_fr(v: ark_bn254::Fr) -> Fr {
    Fr { limbs: v.into_bigint().0 }
}

fn random_point(rng: &mut StdRng) -> ark_bn254::G1Affine {
    (ark_bn254::G1Affine::generator() * ark_bn254::Fr::rand(rng)).into_affine()
}

#[test]
fn generator_is_one_two_and_on_the_curve() {
    let g = G1Affine::generator();
    assert_eq!(g, from_ark_g1(ark_bn254::G1Affine::generator()));
    assert_eq!(g.x, Fq::one());
    assert_eq!(g.y, Fq::from_u64(2));
    assert!(g.on_curve());
    assert!(!g.is_point_at_infinity());
}

#[test]
fn identity_is_on_the_curve_and_at_infinity() {
    let o = G1Affine::identity();
    assert!(o.on_curve());
    assert!(o.is_point_at_infinity());
    assert_eq!(o.neg(), o);
}

#[test]
fn off_curve_points_are_told_apart() {
    assert!(!G1Affine::from_xy(Fq::one(), Fq::one()).on_curve());
    assert!(!G1Affine::from_xy(Fq::zero(), Fq::zero()).on_curve());
    assert!(G1Affine::from_xy(Fq::one(), Fq::from_u64(2).neg()).on_curve());
}

#[test]
fn addition_agrees_with_ark() {
    let mut rng = StdRng::seed_from_u64(11);
    for _ in 0..10 {
        let a = random_point(&mut rng);
        let b = random_point(&mut rng);
        let sum = from_ark_g1(a).add(&from_ark_g1(b));
        assert_eq!(sum, from_ark_g1((a + b).into_affine()));
        assert!(sum.on_curve());
    }
    let g = G1Affine::generator();
    let doubled = g.add(&g);
    assert_eq!(doubled, from_ark_g1((ark_bn254::G1Affine::generator() * ark_bn254::Fr::from(2u64)).into_affine()));
    assert_ne!(doubled, g);
    assert_eq!(g.add(&G1Affine::identity()), g);
    assert_eq!(G1Affine::identity().add(&g), g);
    assert_eq!(g.add(&g.neg()), G1Affine::identity());
}

#[test]
fn multiplication_agrees_with_ark() {
    let mut rng = StdRng::seed_from_u64(12);
    for _ in 0..10 {
        let a = random_point(&mut rng);
        let s = ark_bn254::Fr::rand(&mut rng);
        let product = from_ark_g1(a).mul(&from_ark_fr(s));
        assert_eq!(product, from_ark_g1((a * s).into_affine()));
    }
    let g = G1Affine::generator();
    assert_eq!(g.mul(&Fr::zero()), G1Affine::identity());
    assert_eq!(g.mul(&Fr::one()), g);
    assert_eq!(g.mul(&Fr::from_u64(3)), g.add(&g).add(&g));
    assert_eq!(G1Affine::identity().mul(&Fr::from_u64(5)), G1Affine::identity());
}

#[test]
fn negation_reflects_the_point() {
    let mut rng = StdRng::seed_from_u64(13);
    let a = random_point(&mut rng);
    assert_eq!(from_ark_g1(a).neg(), from_ark_g1(-a));
    assert!(from_ark_g1(a).equals(&from_ark_g1(a)));
    assert!(!from_ark_g1(a).equals(&from_ark_g1(-a)));
}

#[test]
fn pairing_check_accepts_matching_multiples() {
    // e(s G, G2) * e(-G, s G2) == 1
    let mut rng = StdRng::seed_from_u64(14);
    let s = ark_bn254::Fr::rand(&mut rng);
    let g = ark_bn254::G1Affine::generator();
    let g2x = (ark_bn254::G2Affine::generator() * s).into_affine();
    let p0 = from_ark_g1((g * s).into_affine());
    let p1 = from_ark_g1(-g);
    assert!(pairing_check(&p0, &p1, &from_ark_g2(g2x)));
}

#[test]
fn pairing_check_rejects_other_multiples() {
    let mut rng = StdRng::seed_from_u64(15);
    let s = ark_bn254::Fr::rand(&mut rng);
    let g = ark_bn254::G1Affine::generator();
    let g2x = from_ark_g2((ark_bn254::G2Affine::generator() * s).into_affine());
    let wrong = from_ark_g1((g * (s + ark_bn254::Fr::from(1u64))).into_affine());
    let p1 = from_ark_g1(-g);
    assert!(!pairing_check(&wrong, &p1, &g2x));
    // swapping the arguments is not the same check
    let p0 = from_ark_g1((g * s).into_affine());
    assert!(!pairing_check(&p1, &p0, &g2x));
}

#[test]
fn pairing_check_of_two_identities_is_one() {
    let g2 = from_ark_g2(ark_bn254::G2Affine::generator());
    assert!(pairing_check(&G1Affine::identity(), &G1Affine::identity(), &g2));
    assert!(!pairing_check(&G1Affine::generator(), &G1Affine::identity(), &g2));
}
