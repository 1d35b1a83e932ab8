use ark_ff::{FftField, PrimeField};
use barustenberg::errors::Error;
use barustenberg::evaluation_domain::EvaluationDomain;
use barustenberg::field::Fr;

#[test]
fn domain_sizes_are_powers_of_two_up_to_two_to_the_28() {
    for k in 0..=28usize {
        let d = EvaluationDomain::new(1 << k).unwrap();
        assert_eq!(d.size, 1 << k);
        assert_eq!(d.log2_size, k);
    }
    for size in [3usize, 5, 6, 7, 12, 100, (1 << 28) + 1, 1 << 29, usize::MAX] {
        assert_eq!(EvaluationDomain::new(size).err(), Some(Error::InvalidInput), "size {}", size);
    }
    let empty = EvaluationDomain::new(0).unwrap();
    assert_eq!(empty.size, 0);
    assert_eq!(EvaluationDomain::empty().size, 0);
}

#[test]
fn the_root_has_the_order_of_the_domain() {
    for k in [0usize, 1, 2, 3, 10] {
        let n = 1u64 << k;
        let d = EvaluationDomain::new(n as usize).unwrap();
        let expected = ark_bn254::Fr::get_root_of_unity(n).unwrap();
        assert_eq!(d.root.limbs, expected.into_bigint().0);
        assert_eq!(d.root.pow(n), Fr::one());
        if n >= 2 {
            assert_eq!(d.root.pow(n / 2), Fr::one().neg());
        }
        assert_eq!(d.root.mul(&d.root_inverse), Fr::one());
        assert_eq!(d.domain, Fr::from_u64(n));
        assert_eq!(d.domain.mul(&d.domain_inverse), Fr::one());
        assert_eq!(d.generator, Fr::from_u64(5));
        assert_eq!(d.generator.mul(&d.generator_inverse), Fr::one());
    }
    assert_eq!(EvaluationDomain::new(1).unwrap().root, Fr::one());
}

#[test]
fn the_lookup_table_holds_the_powers_of_the_root() {
    let mut d = EvaluationDomain::new(8).unwrap();
    assert!(d.roots.is_empty());
    d.compute_lookup_table();
    assert_eq!(d.roots.len(), 8);
    let mut power = Fr::one();
    for i in 0..8 {
        assert_eq!(d.roots[i], power);
        power = power.mul(&d.root);
    }
    assert_eq!(power, Fr::one());
    let copy = d.duplicate();
    assert_eq!(copy.roots, d.roots);
    assert_eq!(copy.root, d.root);
    let mut empty = EvaluationDomain::empty();
    empty.compute_lookup_table();
    assert!(empty.roots.is_empty());
}

#[test]
fn lagrange_evaluations_in_closed_form() {
    let n = 8u64;
    let d = EvaluationDomain::new(n as usize).unwrap();
    let z = Fr::from_u64(123456789);
    let e = d.get_lagrange_evaluations(&z).unwrap();
    let z_n = z.pow(n);
    assert_eq!(e.vanishing_poly, z_n.sub(&Fr::one()));
    // L_1(z) = (z^n - 1) / (n (z - 1))
    assert_eq!(e.l_start.mul(&d.domain).mul(&z.sub(&Fr::one())), e.vanishing_poly);
    // L_n(z) = (z^n - 1) / (n (z w - 1))
    assert_eq!(e.l_end.mul(&d.domain).mul(&z.mul(&d.root).sub(&Fr::one())), e.vanishing_poly);
    // the first Lagrange polynomial as the sum over the domain says the same:
    // prod over the other points of (z - w^i) / (1 - w^i)
    let mut numerator = Fr::one();
    let mut denominator = Fr::one();
    let mut w = d.root;
    for _ in 1..n {
        numerator = numerator.mul(&z.sub(&w));
        denominator = denominator.mul(&Fr::one().sub(&w));
        w = w.mul(&d.root);
    }
    assert_eq!(e.l_start, numerator.mul(&denominator.inverse().unwrap()));
}

#[test]
fn lagrange_evaluations_have_no_value_on_their_poles() {
    let d = EvaluationDomain::new(8).unwrap();
    assert!(d.get_lagrange_evaluations(&Fr::one()).is_none());
    assert!(d.get_lagrange_evaluations(&d.root_inverse).is_none());
    // at another point of the domain the vanishing polynomial is zero
    let e = d.get_lagrange_evaluations(&d.root).unwrap();
    assert_eq!(e.vanishing_poly, Fr::zero());
    assert_eq!(e.l_start, Fr::zero());
    assert!(EvaluationDomain::empty().get_lagrange_evaluations(&Fr::from_u64(2)).is_none());
}
