use ark_ec::{AffineRepr, CurveGroup};
use ark_ff::{BigInteger, PrimeField};
use barustenberg::bytes::{
    bytes_equal, fq_from_bytes, fr_from_bytes, fr_to_bytes, g1_from_bytes, g1_to_bytes,
    u32_to_be_bytes,
};
use barustenberg::errors::Error;
use barustenberg::field::{Fq, Fr};
use barustenberg::group::{G1Affine, G2Affine};
use barustenberg::reference_string::{ProverReferenceString, VerifierMemReferenceString};

fn fq(v: ark_bn254::Fq) -> Fq {
    Fq { limbs: v.into_bigint().0 }
}

fn points(n: u64) -> Vec<G1Affine> {
    (1..=n).map(|i| G1Affine::generator().mul(&Fr::from_u64(i))).collect()
}

const FQ_MODULUS: [u8; 32] = [
    0x30, 0x64, 0x4e, 0x72, 0xe1, 0x31, 0xa0, 0x29, 0xb8, 0x50, 0x45, 0xb6, 0x81, 0x81, 0x58, 0x5d,
    0x97, 0x81, 0x6a, 0x91, 0x68, 0x71, 0xca, 0x8d, 0x3c, 0x20, 0x8c, 0x16, 0xd8, 0x7c, 0xfd, 0x47,
];
const FR_MODULUS: [u8; 32] = [
    0x30, 0x64, 0x4e, 0x72, 0xe1, 0x31, 0xa0, 0x29, 0xb8, 0x50, 0x45, 0xb6, 0x81, 0x81, 0x58, 0x5d,
    0x28, 0x33, 0xe8, 0x48, 0x79, 0xb9, 0x70, 0x91, 0x43, 0xe1, 0xf5, 0x93, 0xf0, 0x00, 0x00, 0x01,
];

#[test]
fn monomial_points_up_to_the_last_degree() {
    let srs = ProverReferenceString::new(points(5));
    assert_eq!(srs.get_monomial_size(), 5);
    assert_eq!(srs.get_monomial_points(0).unwrap(), &srs.monomials[..1]);
    assert_eq!(srs.get_monomial_points(3).unwrap().len(), 4);
    assert_eq!(srs.get_monomial_points(4).unwrap(), &srs.monomials[..]);
}

#[test]
fn monomial_points_beyond_the_last_degree_are_refused() {
    let srs = ProverReferenceString::new(points(5));
    assert_eq!(srs.get_monomial_points(5), Err(Error::InsufficientSrs));
    assert_eq!(srs.get_monomial_points(6), Err(Error::InsufficientSrs));
    assert_eq!(srs.get_monomial_points(usize::MAX), Err(Error::InsufficientSrs));
    let empty = ProverReferenceString::new(Vec::new());
    assert_eq!(empty.get_monomial_points(0), Err(Error::InsufficientSrs));
}

#[test]
fn verifier_reference_string_reads_its_point() {
    let g2 = ark_bn254::G2Affine::generator();
    let mut bytes = Vec::new();
    for c in [g2.x.c0, g2.x.c1, g2.y.c0, g2.y.c1] {
        bytes.extend_from_slice(&c.into_bigint().to_bytes_be());
    }
    assert_eq!(bytes.len(), 128);
    let srs = VerifierMemReferenceString::new(&bytes).unwrap();
    let point = srs.get_g2x();
    assert_eq!(point.x.c0, fq(g2.x.c0));
    assert_eq!(point.x.c1, fq(g2.x.c1));
    assert_eq!(point.y.c0, fq(g2.y.c0));
    assert_eq!(point.y.c1, fq(g2.y.c1));
    assert!(!point.infinity);
    assert_eq!(G2Affine::from_bytes(&bytes), Some(point));
    assert_eq!(VerifierMemReferenceString::from_point(point).get_g2x(), point);
}

#[test]
fn verifier_reference_string_refuses_malformed_bytes() {
    assert_eq!(VerifierMemReferenceString::new(&[]).err(), Some(Error::SerializationError));
    assert_eq!(VerifierMemReferenceString::new(&[0u8; 127]).err(), Some(Error::SerializationError));
    assert_eq!(VerifierMemReferenceString::new(&[0u8; 129]).err(), Some(Error::SerializationError));
    // a component that is not below the order of the base field
    let mut bytes = vec![0u8; 128];
    bytes[32..64].copy_from_slice(&FQ_MODULUS);
    assert_eq!(VerifierMemReferenceString::new(&bytes).err(), Some(Error::SerializationError));
    bytes[32..64].copy_from_slice(&[0xff; 32]);
    assert_eq!(VerifierMemReferenceString::new(&bytes).err(), Some(Error::SerializationError));
    assert!(VerifierMemReferenceString::new(&[0u8; 128]).is_ok());
}

#[test]
fn field_elements_are_read_only_in_canonical_form() {
    assert_eq!(fq_from_bytes(&[0u8; 32]), Some(Fq::zero()));
    assert_eq!(fq_from_bytes(&FQ_MODULUS), None);
    assert_eq!(fr_from_bytes(&FR_MODULUS), None);
    // the order of the scalar field is below that of the base field
    assert!(fq_from_bytes(&FR_MODULUS).is_some());
    assert_eq!(fr_from_bytes(&FQ_MODULUS), None);
    let mut below = FR_MODULUS;
    below[31] = 0;
    assert_eq!(fr_from_bytes(&below), Some(Fr::zero().sub(&Fr::one())));
    assert_eq!(fr_from_bytes(&[0u8; 31]), None);
    assert_eq!(fr_from_bytes(&[0u8; 33]), None);
    assert_eq!(fr_from_bytes(&[]), None);
    let v = Fr::from_u64(0xdead_beef);
    assert_eq!(fr_from_bytes(&fr_to_bytes(&v)), Some(v));
    assert_eq!(fr_to_bytes(&v), v.to_be_bytes());
}

#[test]
fn points_are_written_and_read_as_x_then_y() {
    let p = G1Affine::generator().mul(&Fr::from_u64(7));
    let bytes = g1_to_bytes(&p);
    assert_eq!(bytes.len(), 64);
    assert_eq!(&bytes[..32], &p.x.to_be_bytes()[..]);
    assert_eq!(&bytes[32..], &p.y.to_be_bytes()[..]);
    assert_eq!(g1_from_bytes(&bytes), Some(p));
    let ark = (ark_bn254::G1Affine::generator() * ark_bn254::Fr::from(7u64)).into_affine();
    assert_eq!(&bytes[..32], &ark.x.into_bigint().to_bytes_be()[..]);
    assert_eq!(g1_from_bytes(&bytes[..63]), None);
    assert_eq!(g1_from_bytes(&[]), None);
    let mut bad = bytes.clone();
    bad[..32].copy_from_slice(&FQ_MODULUS);
    assert_eq!(g1_from_bytes(&bad), None);
    // reading asks for canonical coordinates, not for the curve
    let off = g1_from_bytes(&[0u8; 64]).unwrap();
    assert!(!off.on_curve());
    assert!(!off.is_point_at_infinity());
}

#[test]
fn small_helpers_on_bytes() {
    assert!(bytes_equal(&[], &[]));
    assert!(bytes_equal(&[1, 2, 3], &[1, 2, 3]));
    assert!(!bytes_equal(&[1, 2, 3], &[1, 2, 4]));
    assert!(!bytes_equal(&[1, 2, 3], &[1, 2]));
    assert_eq!(u32_to_be_bytes(0), vec![0, 0, 0, 0]);
    assert_eq!(u32_to_be_bytes(0x01020304), vec![1, 2, 3, 4]);
    assert_eq!(u32_to_be_bytes(u32::MAX), vec![255, 255, 255, 255]);
    assert_eq!(u32_to_be_bytes(8), 8u32.to_be_bytes().to_vec());
}
