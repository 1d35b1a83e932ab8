use ark_ff::{BigInteger, Field, PrimeField, UniformRand};
use barustenberg::field::{Fq, Fr};
use rand::rngs::StdRng;
use rand::SeedableRng;

fn to_ark(v: &Fr) -> ark_bn254::Fr {
    ark_bn254::Fr::from_bigint(ark_ff::BigInt(v.limbs)).unwrap()
}

fn from_ark(v: ark_bn254::Fr) -> Fr {
    Fr { limbs: v.into_bigint().0 }
}

fn random_fr(rng: &mut StdRng) -> Fr {
    from_ark(ark_bn254::Fr::rand(rng))
}

const FR_MODULUS_LIMBS: [u64; 4] =
    [0x43e1f593f0000001, 0x2833e84879b97091, 0xb85045b68181585d, 0x30644e72e131a029];
const FQ_MODULUS_LIMBS: [u64; 4] =
    [0x3c208c16d87cfd47, 0x97816a916871ca8d, 0xb85045b68181585d, 0x30644e72e131a029];

#[test]
fn fr_add_wraps_at_modulus() {
    let minus_one = Fr::zero().sub(&Fr::one());
    assert_eq!(
        minus_one.limbs,
        [0x43e1f593f0000000, 0x2833e84879b97091, 0xb85045b68181585d, 0x30644e72e131a029]
    );
    assert_eq!(minus_one.add(&Fr::from_u64(2)), Fr::one());
    assert_eq!(minus_one.add(&Fr::one()), Fr::zero());
}

#[test]
fn fr_small_products_are_exact() {
    assert_eq!(Fr::from_u64(3).mul(&Fr::from_u64(5)), Fr::from_u64(15));
    assert_eq!(Fr::from_u64(7).square(), Fr::from_u64(49));
    assert_eq!(Fr::from_u64(9).sub(&Fr::from_u64(4)), Fr::from_u64(5));
    assert_eq!(Fr::from_u64(4).neg().add(&Fr::from_u64(4)), Fr::zero());
    assert_eq!(Fr::zero().neg(), Fr::zero());
}

#[test]
fn fr_operations_agree_with_ark() {
    let mut rng = StdRng::seed_from_u64(1);
    for _ in 0..50 {
        let a = random_fr(&mut rng);
        let b = random_fr(&mut rng);
        assert_eq!(a.add(&b), from_ark(to_ark(&a) + to_ark(&b)));
        assert_eq!(a.sub(&b), from_ark(to_ark(&a) - to_ark(&b)));
        assert_eq!(a.mul(&b), from_ark(to_ark(&a) * to_ark(&b)));
        assert_eq!(a.neg(), from_ark(-to_ark(&a)));
        assert_eq!(a.square(), from_ark(to_ark(&a).square()));
    }
}

#[test]
fn fr_inverse_of_zero_is_none_and_of_others_an_inverse() {
    assert!(Fr::zero().inverse().is_none());
    assert_eq!(Fr::one().inverse(), Some(Fr::one()));
    let mut rng = StdRng::seed_from_u64(2);
    for _ in 0..20 {
        let a = random_fr(&mut rng);
        let inverse = a.inverse().unwrap();
        assert_eq!(a.mul(&inverse), Fr::one());
    }
    let two = Fr::from_u64(2);
    let half = two.inverse().unwrap();
    // (r + 1) / 2
    assert_eq!(
        half.limbs,
        [0xa1f0fac9f8000001, 0x9419f4243cdcb848, 0xdc2822db40c0ac2e, 0x183227397098d014]
    );
}

#[test]
fn fr_pow_matches_repeated_multiplication() {
    let base = Fr::from_u64(3);
    assert_eq!(base.pow(0), Fr::one());
    assert_eq!(base.pow(1), base);
    assert_eq!(base.pow(5), Fr::from_u64(243));
    let mut rng = StdRng::seed_from_u64(3);
    let a = random_fr(&mut rng);
    let mut expected = Fr::one();
    for e in 0..40u64 {
        assert_eq!(a.pow(e), expected);
        expected = expected.mul(&a);
    }
    assert_eq!(a.pow(123456789), from_ark(to_ark(&a).pow([123456789u64])));
}

#[test]
fn fr_from_limbs_accepts_exactly_the_canonical_range() {
    let m = FR_MODULUS_LIMBS;
    assert!(Fr::from_limbs(m[0], m[1], m[2], m[3]).is_none());
    assert!(Fr::from_limbs(m[0] + 1, m[1], m[2], m[3]).is_none());
    assert!(Fr::from_limbs(0, 0, 0, m[3] + 1).is_none());
    assert!(Fr::from_limbs(u64::MAX, u64::MAX, u64::MAX, u64::MAX).is_none());
    let top = Fr::from_limbs(m[0] - 1, m[1], m[2], m[3]).unwrap();
    assert_eq!(top.add(&Fr::one()), Fr::zero());
    assert_eq!(Fr::from_limbs(5, 0, 0, 0), Some(Fr::from_u64(5)));
    assert_eq!(Fr::from_limbs(0, 0, 0, 0), Some(Fr::zero()));
}

#[test]
fn fq_from_limbs_accepts_exactly_the_canonical_range() {
    let m = FQ_MODULUS_LIMBS;
    assert!(Fq::from_limbs(m[0], m[1], m[2], m[3]).is_none());
    let top = Fq::from_limbs(m[0] - 1, m[1], m[2], m[3]).unwrap();
    assert_eq!(top.add(&Fq::one()), Fq::zero());
    // the order of the scalar field is a canonical element of the base field
    let r = FR_MODULUS_LIMBS;
    assert!(Fq::from_limbs(r[0], r[1], r[2], r[3]).is_some());
}

#[test]
fn fr_bytes_are_big_endian_and_fixed_width() {
    let one = Fr::one().to_be_bytes();
    assert_eq!(one.len(), 32);
    assert_eq!(one[31], 1);
    assert!(one[..31].iter().all(|b| *b == 0));
    let v = Fr::from_u64(0x0102030405060708).to_be_bytes();
    assert_eq!(&v[24..], &[1, 2, 3, 4, 5, 6, 7, 8]);
    let mut rng = StdRng::seed_from_u64(4);
    for _ in 0..20 {
        let a = random_fr(&mut rng);
        let bytes = a.to_be_bytes();
        assert_eq!(bytes, to_ark(&a).into_bigint().to_bytes_be());
        assert_eq!(Fr::from_be_bytes_mod_order(&bytes), a);
    }
}

#[test]
fn fr_from_bytes_reduces_modulo_the_order() {
    let all_ones = [0xffu8; 32];
    let reduced = Fr::from_be_bytes_mod_order(&all_ones);
    assert_eq!(reduced, from_ark(ark_bn254::Fr::from_be_bytes_mod_order(&all_ones)));
    // 2^256 - 1 = 5 * r + rest, so the result is not the bytes themselves
    assert_ne!(reduced.to_be_bytes(), all_ones.to_vec());
    assert_eq!(Fr::from_be_bytes_mod_order(&[]), Fr::zero());
    assert_eq!(Fr::from_be_bytes_mod_order(&[1, 0]), Fr::from_u64(256));
    // the order itself reduces to zero
    let mut modulus = Vec::new();
    for limb in FR_MODULUS_LIMBS.iter().rev() {
        modulus.extend_from_slice(&limb.to_be_bytes());
    }
    assert_eq!(Fr::from_be_bytes_mod_order(&modulus), Fr::zero());
    // longer strings are numbers too
    let mut long = vec![1u8];
    long.extend_from_slice(&[0u8; 32]);
    assert_eq!(
        Fr::from_be_bytes_mod_order(&long),
        from_ark(ark_bn254::Fr::from_be_bytes_mod_order(&long))
    );
}

#[test]
fn fq_operations_agree_with_ark() {
    let mut rng = StdRng::seed_from_u64(5);
    for _ in 0..20 {
        let x = ark_bn254::Fq::rand(&mut rng);
        let y = ark_bn254::Fq::rand(&mut rng);
        let a = Fq { limbs: x.into_bigint().0 };
        let b = Fq { limbs: y.into_bigint().0 };
        assert_eq!(a.add(&b).limbs, (x + y).into_bigint().0);
        assert_eq!(a.sub(&b).limbs, (x - y).into_bigint().0);
        assert_eq!(a.mul(&b).limbs, (x * y).into_bigint().0);
        assert_eq!(a.neg().limbs, (-x).into_bigint().0);
        assert_eq!(a.to_be_bytes(), x.into_bigint().to_bytes_be());
    }
}

#[test]
fn fq_from_fr_keeps_the_integer() {
    let mut rng = StdRng::seed_from_u64(6);
    let a = random_fr(&mut rng);
    assert_eq!(Fq::from_fr(&a).limbs, a.limbs);
    assert!(Fr::from_u64(7).equals(&Fr::from_u64(7)));
    assert!(!Fr::from_u64(7).equals(&Fr::from_u64(8)));
    assert!(Fr::zero().is_zero());
    assert!(!Fr::one().is_zero());
}
