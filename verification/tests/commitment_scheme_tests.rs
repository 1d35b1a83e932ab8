use ark_ec::{AffineRepr, CurveGroup};
use ark_ff::{PrimeField, UniformRand};
use barustenberg::commitment_scheme::KateCommitmentScheme;
use barustenberg::errors::Error;
use barustenberg::field::{Fq, Fr};
use barustenberg::group::{pairing_check, Fq2, G1Affine, G2Affine};
use barustenberg::msm::msm_naive;
use barustenberg::opening::{compute_opening_polynomial, open_in_place};
use barustenberg::pippenger::PippengerRuntimeState;
use barustenberg::polynomial::{evaluate, Polynomial};
use barustenberg::polynomial_store::PolynomialStore;
use barustenberg::reference_string::ProverReferenceString;
use barustenberg::work_queue::{Work, WorkItem, WorkQueue};
use rand::rngs::StdRng;
use rand::SeedableRng;

fn fq(v: ark_bn254::Fq) -> Fq {
    Fq { limbs: v.into_bigint().0 }
}

fn from_ark_g1(p: ark_bn254::G1Affine) -> G1Affine {
    if p.infinity {
        G1Affine::identity()
    } else {
        G1Affine { x: fq(p.x), y: fq(p.y), infinity: false }
    }
}

fn from_ark_g2(p: ark_bn254::G2Affine) -> G2Affine {
    G2Affine {
        x: Fq2 { c0: fq(p.x.c0), c1: fq(p.x.c1) },
        y: Fq2 { c0: fq(p.y.c0), c1: fq(p.y.c1) },
        infinity: p.infinity,
    }
}

fn from_ark_fr(v: ark_bn254::Fr) -> Fr {
    Fr { limbs: v.into_bigint().0 }
}

fn random_fr(rng: &mut StdRng) -> Fr {
    from_ark_fr(ark_bn254::Fr::rand(rng))
}

fn random_scalars(rng: &mut StdRng, n: usize) -> Vec<Fr> {
    (0..n).map(|_| random_fr(rng)).collect()
}

/// The powers of a secret in the first group and the secret in the second.
fn reference_string(rng: &mut StdRng, size: usize) -> (ProverReferenceString, G2Affine) {
    let tau = ark_bn254::Fr::rand(rng);
    let mut power = ark_bn254::Fr::from(1u64);
    let mut points = Vec::new();
    for _ in 0..size {
        points.push(from_ark_g1((ark_bn254::G1Affine::generator() * power).into_affine()));
        power *= tau;
    }
    let g2x = from_ark_g2((ark_bn254::G2Affine::generator() * tau).into_affine());
    (ProverReferenceString::new(points), g2x)
}

/// Commits to the coefficients through the queue.
fn commit(coefficients: &[Fr], constant: Fr, srs: &ProverReferenceString) -> G1Affine {
    let mut store = PolynomialStore::new();
    let handle = store.put("f", Polynomial::from_coefficients(coefficients.to_vec()));
    let mut queue = WorkQueue::new();
    let mut scheme = KateCommitmentScheme::new();
    scheme.commit(handle, 0, coefficients.len(), "F".to_string(), constant, &mut queue);
    assert_eq!(queue.pending(), 1);
    assert!(queue.get_result("F").is_none());
    let mut state = PippengerRuntimeState::new(coefficients.len());
    queue.process_queue(&store, srs, &mut state).unwrap();
    assert_eq!(queue.pending(), 0);
    queue.get_result("F").unwrap()
}

#[test]
fn test_commitment_scheme() {
    let n = 16;
    let mut rng = StdRng::seed_from_u64(21);
    let (srs, g2x) = reference_string(&mut rng, n);
    let poly = random_scalars(&mut rng, n);
    let z = random_fr(&mut rng);
    let value = evaluate(&poly, &z, n);

    let commitment = commit(&poly, Fr::one(), &srs);
    assert_eq!(commitment, msm_naive(&poly, &srs.monomials).unwrap());
    assert!(commitment.on_curve());

    let scheme = KateCommitmentScheme::new();
    let mut opening = vec![Fr::zero(); n];
    scheme.compute_opening_polynomial(&poly, &mut opening, &z, n);
    let proof = commit(&opening, Fr::one(), &srs);

    // e(C - y G + z W, G2) * e(-W, x G2) == 1
    let left = commitment.add(&G1Affine::generator().mul(&value).neg()).add(&proof.mul(&z));
    assert!(pairing_check(&left, &proof.neg(), &g2x));

    // a wrong value does not verify
    let wrong = value.add(&Fr::one());
    let left = commitment.add(&G1Affine::generator().mul(&wrong).neg()).add(&proof.mul(&z));
    assert!(!pairing_check(&left, &proof.neg(), &g2x));
}

#[test]
fn opening_polynomial_is_the_quotient() {
    let mut rng = StdRng::seed_from_u64(22);
    for n in [1usize, 2, 3, 8, 33] {
        let poly = random_scalars(&mut rng, n);
        let z = random_fr(&mut rng);
        let mut dest = vec![Fr::from_u64(77); n + 2];
        compute_opening_polynomial(&poly, &mut dest, &z, n);
        // what follows the first n entries stays
        assert_eq!(dest[n], Fr::from_u64(77));
        assert_eq!(dest[n + 1], Fr::from_u64(77));
        // the division leaves no remainder
        assert_eq!(dest[n - 1], Fr::zero());
        let at_z = evaluate(&poly, &z, n);
        for _ in 0..5 {
            let r = random_fr(&mut rng);
            let w_at_r = evaluate(&dest, &r, n);
            assert_eq!(w_at_r.mul(&r.sub(&z)), evaluate(&poly, &r, n).sub(&at_z));
        }
    }
}

#[test]
fn opening_polynomial_follows_the_recurrence() {
    // F = 3 + 2 X + X^2 at z = 1: F(1) = 6, W = 3 + X
    let poly = vec![Fr::from_u64(3), Fr::from_u64(2), Fr::from_u64(1)];
    let z = Fr::one();
    let mut dest = vec![Fr::zero(); 3];
    compute_opening_polynomial(&poly, &mut dest, &z, 3);
    assert_eq!(dest, vec![Fr::from_u64(3), Fr::from_u64(1), Fr::zero()]);
    // by hand: d = inverse of -z, dest[0] = (F[0] - F(z)) d, dest[k] = (F[k] - dest[k - 1]) d
    let mut rng = StdRng::seed_from_u64(23);
    let poly = random_scalars(&mut rng, 6);
    let z = random_fr(&mut rng);
    let d = z.neg().inverse().unwrap();
    let mut dest = vec![Fr::zero(); 6];
    compute_opening_polynomial(&poly, &mut dest, &z, 6);
    let at_z = evaluate(&poly, &z, 6);
    assert_eq!(dest[0], poly[0].sub(&at_z).mul(&d));
    for k in 1..6 {
        assert_eq!(dest[k], poly[k].sub(&dest[k - 1]).mul(&d));
    }
}

#[test]
fn open_in_place_touches_only_its_range() {
    let mut rng = StdRng::seed_from_u64(24);
    let original = random_scalars(&mut rng, 12);
    let z = random_fr(&mut rng);
    let mut dest = original.clone();
    open_in_place(&mut dest, 4, 5, &z);
    assert_eq!(&dest[..4], &original[..4]);
    assert_eq!(&dest[9..], &original[9..]);
    let mut expected = vec![Fr::zero(); 5];
    compute_opening_polynomial(&original[4..9], &mut expected, &z, 5);
    assert_eq!(&dest[4..9], &expected[..]);
}

#[test]
fn evaluate_reads_the_first_n_coefficients() {
    let coefficients = vec![Fr::from_u64(1), Fr::from_u64(2), Fr::from_u64(3), Fr::from_u64(4)];
    let x = Fr::from_u64(10);
    assert_eq!(evaluate(&coefficients, &x, 0), Fr::zero());
    assert_eq!(evaluate(&coefficients, &x, 1), Fr::from_u64(1));
    assert_eq!(evaluate(&coefficients, &x, 3), Fr::from_u64(321));
    assert_eq!(evaluate(&coefficients, &x, 4), Fr::from_u64(4321));
    assert_eq!(Polynomial::from_coefficients(coefficients).evaluate(&x), Fr::from_u64(4321));
}

#[test]
fn committing_twice_gives_the_same_commitment() {
    let mut rng = StdRng::seed_from_u64(25);
    let (srs, _) = reference_string(&mut rng, 8);
    let poly = random_scalars(&mut rng, 8);
    let constant = random_fr(&mut rng);
    let first = commit(&poly, constant, &srs);
    let second = commit(&poly, constant, &srs);
    assert_eq!(first, second);
    // one queue, two tags
    let mut store = PolynomialStore::new();
    let handle = store.put("f", Polynomial::from_coefficients(poly.clone()));
    let mut queue = WorkQueue::new();
    let mut scheme = KateCommitmentScheme::new();
    scheme.commit(handle, 0, 8, "A".to_string(), constant, &mut queue);
    scheme.commit(handle, 0, 8, "B".to_string(), constant, &mut queue);
    let mut state = PippengerRuntimeState::new(8);
    queue.process_queue(&store, &srs, &mut state).unwrap();
    assert_eq!(queue.get_result("A"), queue.get_result("B"));
    assert_eq!(queue.get_result("A"), Some(first));
}

#[test]
fn committing_with_different_constants_gives_different_commitments() {
    let mut rng = StdRng::seed_from_u64(26);
    let (srs, _) = reference_string(&mut rng, 8);
    let poly = random_scalars(&mut rng, 8);
    let plain = commit(&poly, Fr::one(), &srs);
    let doubled = commit(&poly, Fr::from_u64(2), &srs);
    assert_ne!(plain, doubled);
    assert_eq!(doubled, plain.add(&plain));
    // the constant scales the commitment
    let constant = random_fr(&mut rng);
    assert_eq!(commit(&poly, constant, &srs), plain.mul(&constant));
    // the zero polynomial commits to the point at infinity whatever the constant
    let zero = vec![Fr::zero(); 8];
    assert_eq!(commit(&zero, Fr::from_u64(3), &srs), G1Affine::identity());
}

#[test]
fn generic_batch_open_folds_and_opens_each_batch() {
    let mut rng = StdRng::seed_from_u64(27);
    let n = 4;
    let m = 3;
    let t = 2;
    let src = random_scalars(&mut rng, t * n * m);
    let z_points = random_scalars(&mut rng, t);
    let challenges = random_scalars(&mut rng, t);
    let constants = vec![Fr::one(), Fr::from_u64(5)];
    let tags = vec!["W_A".to_string(), "W_B".to_string()];
    let mut dest = Polynomial::from_coefficients(vec![Fr::from_u64(9); t * n + 1]);
    let mut queue = WorkQueue::new();
    let mut scheme = KateCommitmentScheme::new();
    scheme.generic_batch_open(
        &src, &mut dest, 0, m, &z_points, t, &challenges, n, &tags, &constants, &mut queue,
    );
    assert_eq!(dest.size(), t * n + 1);
    assert_eq!(dest.get(t * n), Fr::from_u64(9));
    for i in 0..t {
        // fold by hand
        let mut folded = vec![Fr::zero(); n];
        let mut power = Fr::one();
        for j in 0..m {
            for k in 0..n {
                folded[k] = folded[k].add(&power.mul(&src[i * n * m + j * n + k]));
            }
            power = power.mul(&challenges[i]);
        }
        let mut expected = vec![Fr::zero(); n];
        compute_opening_polynomial(&folded, &mut expected, &z_points[i], n);
        assert_eq!(&dest.coefficients[i * n..(i + 1) * n], &expected[..]);
    }
    assert_eq!(queue.pending(), t);
    for i in 0..t {
        assert_eq!(queue.items[i].tag, tags[i]);
        match &queue.items[i].work {
            Work::ScalarMultiplication { handle, offset, size, constant } => {
                assert_eq!(*handle, 0);
                assert_eq!(*offset, i * n);
                assert_eq!(*size, n);
                assert_eq!(*constant, constants[i]);
            }
            _ => panic!("no commitment was asked for"),
        }
    }
    // draining commits to each opened polynomial
    let (srs, _) = reference_string(&mut rng, n);
    let mut store = PolynomialStore::new();
    let coefficients = dest.coefficients.clone();
    assert_eq!(store.put("dest", dest), 0);
    let mut state = PippengerRuntimeState::new(n);
    queue.process_queue(&store, &srs, &mut state).unwrap();
    for i in 0..t {
        let expected = msm_naive(&coefficients[i * n..(i + 1) * n], &srs.monomials)
            .unwrap()
            .mul(&constants[i]);
        assert_eq!(queue.get_result(&tags[i]), Some(expected));
    }
}

#[test]
fn generic_batch_open_reads_only_the_first_points_and_challenges() {
    let mut rng = StdRng::seed_from_u64(61);
    let n = 4;
    let src = random_scalars(&mut rng, n);
    // more points and challenges than are opened; the second point is zero
    let z_points = vec![random_fr(&mut rng), Fr::zero(), random_fr(&mut rng)];
    let challenges = random_scalars(&mut rng, 3);
    let tags = vec!["W".to_string()];
    let constants = vec![Fr::one()];
    let mut dest = Polynomial::from_coefficients(vec![Fr::from_u64(9); n + 2]);
    let mut queue = WorkQueue::new();
    let mut scheme = KateCommitmentScheme::new();
    scheme.generic_batch_open(
        &src, &mut dest, 0, 1, &z_points, 1, &challenges, n, &tags, &constants, &mut queue,
    );
    // one polynomial for the point: the plain opening, whatever the challenge
    let mut expected = vec![Fr::zero(); n];
    compute_opening_polynomial(&src, &mut expected, &z_points[0], n);
    assert_eq!(&dest.coefficients[..n], &expected[..]);
    assert_eq!(expected[n - 1], Fr::zero());
    assert_eq!(dest.get(n), Fr::from_u64(9));
    assert_eq!(dest.get(n + 1), Fr::from_u64(9));
    assert_eq!(queue.pending(), 1);
}

#[test]
fn generic_batch_open_of_no_points_changes_nothing() {
    let mut rng = StdRng::seed_from_u64(62);
    let values = random_scalars(&mut rng, 5);
    for n in [0usize, 3] {
        let mut dest = Polynomial::from_coefficients(values.clone());
        let mut queue = WorkQueue::new();
        let mut scheme = KateCommitmentScheme::new();
        scheme.commit(0, 0, 5, "F".to_string(), Fr::one(), &mut queue);
        scheme.generic_batch_open(
            &[], &mut dest, 0, 2, &values[..2], 0, &[], n, &[], &[], &mut queue,
        );
        assert_eq!(dest.coefficients, values);
        assert_eq!(queue.pending(), 1);
        assert_eq!(queue.items[0].tag, "F");
    }
}

#[test]
fn queue_refuses_items_it_cannot_compute_and_stays_as_it_was() {
    let mut rng = StdRng::seed_from_u64(28);
    let (srs, _) = reference_string(&mut rng, 4);
    let mut store = PolynomialStore::new();
    let handle = store.put("f", Polynomial::from_coefficients(random_scalars(&mut rng, 6)));
    let mut state = PippengerRuntimeState::new(4);
    let item = |handle: usize, offset: usize, size: usize, tag: &str| WorkItem {
        work: Work::ScalarMultiplication { handle, offset, size, constant: Fr::one() },
        tag: tag.to_string(),
    };
    // more coefficients than the reference string has points
    let mut queue = WorkQueue::new();
    queue.add_to_queue(item(handle, 0, 4, "ok"));
    queue.add_to_queue(item(handle, 0, 5, "long"));
    assert_eq!(queue.process_queue(&store, &srs, &mut state), Err(Error::InsufficientSrs));
    assert_eq!(queue.pending(), 2);
    assert!(queue.get_result("ok").is_none());
    // a range beyond the polynomial
    let mut queue = WorkQueue::new();
    queue.add_to_queue(item(handle, 3, 4, "beyond"));
    assert_eq!(queue.process_queue(&store, &srs, &mut state), Err(Error::InvalidInput));
    // a polynomial that is not there
    let mut queue = WorkQueue::new();
    queue.add_to_queue(item(handle + 1, 0, 1, "missing"));
    assert_eq!(queue.process_queue(&store, &srs, &mut state), Err(Error::InvalidInput));
    // the first failure is the one reported
    let mut queue = WorkQueue::new();
    queue.add_to_queue(item(handle, 0, 5, "long"));
    queue.add_to_queue(item(handle + 1, 0, 1, "missing"));
    assert_eq!(queue.process_queue(&store, &srs, &mut state), Err(Error::InsufficientSrs));
    // a later item with a tag that was used takes the place of the earlier
    let mut queue = WorkQueue::new();
    queue.add_to_queue(item(handle, 0, 2, "same"));
    queue.add_to_queue(item(handle, 2, 2, "same"));
    queue.process_queue(&store, &srs, &mut state).unwrap();
    let coefficients = &store.get("f").unwrap().coefficients;
    assert_eq!(
        queue.get_result("same"),
        Some(msm_naive(&coefficients[2..4], &srs.monomials[..2]).unwrap())
    );
    // an empty queue drains to nothing
    let mut queue = WorkQueue::new();
    assert_eq!(queue.process_queue(&store, &srs, &mut state), Ok(()));
}
