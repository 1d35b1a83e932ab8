use ark_ec::{AffineRepr, CurveGroup};
use ark_ff::{PrimeField, UniformRand};
use barustenberg::bytes::{fr_to_bytes, g1_to_bytes};
use barustenberg::commitment_scheme::KateCommitmentScheme;
use barustenberg::errors::Error;
use barustenberg::field::{Fq, Fr};
use barustenberg::group::G1Affine;
use barustenberg::manifest::{Manifest, ManifestEntry, RoundManifest};
use barustenberg::msm::msm_naive;
use barustenberg::opening::compute_opening_polynomial;
use barustenberg::opening_batch::{
    add_scaled, combine_polynomials, combine_shifted_polynomials, count_shifted, prepare_opening,
};
use barustenberg::polynomial::{evaluate, Polynomial};
use barustenberg::proving_key::ProvingKey;
use barustenberg::reference_string::ProverReferenceString;
use barustenberg::hash::HashType;
use barustenberg::settings::{polynomial_manifest, ComposerType};
use barustenberg::transcript::Transcript;
use barustenberg::work_queue::{Work, WorkItem, WorkQueue};
use rand::rngs::StdRng;
use rand::SeedableRng;

fn fq(v: ark_bn254::Fq) -> Fq {
    Fq { limbs: v.into_bigint().0 }
}

fn random_fr(rng: &mut StdRng) -> Fr {
    Fr { limbs: ark_bn254::Fr::rand(rng).into_bigint().0 }
}

fn reference_string(rng: &mut StdRng, size: usize) -> ProverReferenceString {
    let tau = ark_bn254::Fr::rand(rng);
    let mut power = ark_bn254::Fr::from(1u64);
    let mut points = Vec::new();
    for _ in 0..size {
        let p = (ark_bn254::G1Affine::generator() * power).into_affine();
        points.push(G1Affine { x: fq(p.x), y: fq(p.y), infinity: false });
        power *= tau;
    }
    ProverReferenceString::new(points)
}

const LABELS: [&str; 12] = [
    "w_1", "w_2", "w_3", "z_perm", "q_1", "q_2", "q_3", "q_m", "q_c", "sigma_1", "sigma_2",
    "sigma_3",
];

/// A key with random polynomials and a transcript that holds the
/// challenges `z` and `nu`.
fn setup(n: usize, seed: u64, points: usize) -> (StdRng, ProvingKey, Transcript) {
    let mut rng = StdRng::seed_from_u64(seed);
    let srs = reference_string(&mut rng, points);
    let mut key = ProvingKey::new(n, 0, srs, ComposerType::Standard).unwrap();
    for label in LABELS {
        let coefficients = (0..n).map(|_| random_fr(&mut rng)).collect();
        key.polynomial_store.put(label, Polynomial::from_coefficients(coefficients));
    }
    for part in key.quotient_polynomial_parts.iter_mut().take(3) {
        let coefficients = (0..n + 1).map(|_| random_fr(&mut rng)).collect();
        *part = Polynomial::from_coefficients(coefficients);
    }
    let manifest = Manifest::new(vec![
        RoundManifest::new(vec![ManifestEntry::new("seed", 1, false)], "z", 1),
        RoundManifest::new(vec![], "nu", 14),
    ]);
    let mut transcript = Transcript::new(manifest, HashType::Keccak256, 32).unwrap();
    transcript.add_element("seed", vec![seed as u8]);
    transcript.apply_fiat_shamir("z").unwrap();
    transcript.apply_fiat_shamir("nu").unwrap();
    (rng, key, transcript)
}

#[test]
fn add_scaled_adds_as_far_as_the_source_reaches() {
    let mut dest = vec![Fr::from_u64(1), Fr::from_u64(2), Fr::from_u64(3)];
    add_scaled(&mut dest, &[Fr::from_u64(10), Fr::from_u64(20)], &Fr::from_u64(3));
    assert_eq!(dest, vec![Fr::from_u64(31), Fr::from_u64(62), Fr::from_u64(3)]);
    add_scaled(&mut dest, &[], &Fr::from_u64(3));
    assert_eq!(dest, vec![Fr::from_u64(31), Fr::from_u64(62), Fr::from_u64(3)]);
}

#[test]
fn polynomials_are_combined_with_their_challenges() {
    let n = 4;
    let (_, key, transcript) = setup(n, 61, n + 1);
    let manifest = polynomial_manifest(ComposerType::Standard);
    assert_eq!(count_shifted(&manifest), 1);
    let combined = combine_polynomials(&transcript, &key.polynomial_store, &manifest, n + 1).unwrap();
    assert_eq!(combined.len(), n + 1);
    for k in 0..n {
        let mut expected = Fr::zero();
        for (i, label) in LABELS.iter().enumerate() {
            let nu = transcript.get_challenge_field_element("nu", i).unwrap();
            expected = expected.add(&nu.mul(&key.polynomial_store.get(label).unwrap().get(k)));
        }
        assert_eq!(combined[k], expected);
    }
    assert_eq!(combined[n], Fr::zero());
    let shifted =
        combine_shifted_polynomials(&transcript, &key.polynomial_store, &manifest, n).unwrap();
    let nu = transcript.get_challenge_field_element("nu", 12).unwrap();
    for k in 0..n {
        assert_eq!(shifted[k], nu.mul(&key.polynomial_store.get("z_perm").unwrap().get(k)));
    }
    // a polynomial that is longer than the combination is refused
    assert_eq!(
        combine_polynomials(&transcript, &key.polynomial_store, &manifest, n - 1),
        Err(Error::InvalidInput)
    );
    assert_eq!(
        combine_shifted_polynomials(&transcript, &key.polynomial_store, &manifest, n - 1),
        Err(Error::InvalidInput)
    );
}

#[test]
fn the_opening_adds_the_quotient_with_powers_of_zeta() {
    let n = 4;
    let (_, key, transcript) = setup(n, 62, n + 1);
    let prepared = prepare_opening(&transcript, &key).unwrap();
    let zeta = transcript.get_challenge_field_element("z", 0).unwrap();
    assert_eq!(prepared.zeta, zeta);
    assert_eq!(prepared.zeta_omega, zeta.mul(&key.small_domain.root));
    let manifest = polynomial_manifest(ComposerType::Standard);
    let mut expected =
        combine_polynomials(&transcript, &key.polynomial_store, &manifest, n + 1).unwrap();
    let nu = transcript.get_challenge_field_element("nu", 13).unwrap();
    let mut weight = nu;
    for part in key.quotient_polynomial_parts.iter().take(3) {
        add_scaled(&mut expected, &part.coefficients, &weight);
        weight = weight.mul(&zeta.pow(n as u64));
    }
    assert_eq!(prepared.combined, expected);
    assert_eq!(
        prepared.shifted,
        combine_shifted_polynomials(&transcript, &key.polynomial_store, &manifest, n).unwrap()
    );
}

#[test]
fn batch_open_stores_commits_and_records() {
    let n = 4;
    let (_, mut key, mut transcript) = setup(n, 63, n + 1);
    let prepared = prepare_opening(&transcript, &key).unwrap();
    let mut queue = WorkQueue::new();
    let mut scheme = KateCommitmentScheme::new();
    assert_eq!(scheme.batch_open(&mut transcript, &mut queue, &mut key), Ok(()));
    let mut wz = vec![Fr::zero(); n + 1];
    compute_opening_polynomial(&prepared.combined, &mut wz, &prepared.zeta, n + 1);
    let mut wzo = vec![Fr::zero(); n];
    compute_opening_polynomial(&prepared.shifted, &mut wzo, &prepared.zeta_omega, n);
    assert_eq!(key.polynomial_store.get("opening_poly").unwrap().coefficients, wz);
    assert_eq!(key.polynomial_store.get("shifted_opening_poly").unwrap().coefficients, wzo);
    assert_eq!(key.polynomial_store.len(), 14);
    assert_eq!(queue.pending(), 0);
    let pi_z = msm_naive(&wz, &key.reference_string.monomials).unwrap();
    let pi_z_omega = msm_naive(&wzo, &key.reference_string.monomials[..n]).unwrap();
    assert_eq!(queue.get_result("PI_Z"), Some(pi_z));
    assert_eq!(queue.get_result("PI_Z_OMEGA"), Some(pi_z_omega));
    assert_eq!(transcript.get_group_element("PI_Z"), Ok(pi_z));
    assert_eq!(transcript.get_element("PI_Z_OMEGA"), Ok(g1_to_bytes(&pi_z_omega)));
    // opening again replaces the two polynomials
    assert_eq!(scheme.batch_open(&mut transcript, &mut queue, &mut key), Ok(()));
    assert_eq!(key.polynomial_store.len(), 14);
}

#[test]
fn batch_open_drains_what_was_pending() {
    let n = 4;
    let (_, mut key, mut transcript) = setup(n, 64, n + 1);
    let mut queue = WorkQueue::new();
    let handle = key.polynomial_store.handle_of("w_1").unwrap();
    queue.add_to_queue(WorkItem {
        work: Work::ScalarMultiplication { handle, offset: 0, size: n, constant: Fr::one() },
        tag: "W_1".to_string(),
    });
    let mut scheme = KateCommitmentScheme::new();
    assert_eq!(scheme.batch_open(&mut transcript, &mut queue, &mut key), Ok(()));
    let w_1 = &key.polynomial_store.get("w_1").unwrap().coefficients;
    assert_eq!(
        queue.get_result("W_1"),
        Some(msm_naive(w_1, &key.reference_string.monomials[..n]).unwrap())
    );
    assert!(queue.get_result("PI_Z").is_some());
}

#[test]
fn batch_open_fails_before_it_changes_anything() {
    let n = 4;
    let mut scheme = KateCommitmentScheme::new();
    // the reference string lacks the point for the highest coefficient
    let (_, mut key, mut transcript) = setup(n, 65, n);
    let mut queue = WorkQueue::new();
    assert_eq!(
        scheme.batch_open(&mut transcript, &mut queue, &mut key),
        Err(Error::InsufficientSrs)
    );
    assert_eq!(key.polynomial_store.len(), 12);
    assert!(!transcript.has_element("PI_Z"));
    // no challenge: a protocol error
    let (_, mut key, _) = setup(n, 66, n + 1);
    let manifest = Manifest::new(vec![RoundManifest::new(vec![], "z", 1)]);
    let mut empty = Transcript::new(manifest, HashType::Keccak256, 32).unwrap();
    assert_eq!(scheme.batch_open(&mut empty, &mut queue, &mut key), Err(Error::ProtocolError));
    empty.apply_fiat_shamir("z").unwrap();
    // the challenges `nu` are missing
    assert_eq!(scheme.batch_open(&mut empty, &mut queue, &mut key), Err(Error::ProtocolError));
    // a polynomial is missing
    let (mut rng, _, mut transcript) = setup(n, 67, n + 1);
    let mut key =
        ProvingKey::new(n, 0, reference_string(&mut rng, n + 1), ComposerType::Standard).unwrap();
    assert_eq!(
        scheme.batch_open(&mut transcript, &mut queue, &mut key),
        Err(Error::InvalidInput)
    );
    assert_eq!(key.polynomial_store.len(), 0);
    // the empty circuit
    let mut key = ProvingKey::default();
    assert_eq!(
        scheme.batch_open(&mut transcript, &mut queue, &mut key),
        Err(Error::InvalidInput)
    );
}

#[test]
fn opening_evaluations_are_added_under_the_labels() {
    let n = 4;
    let (_, key, mut transcript) = setup(n, 68, n + 1);
    let scheme = KateCommitmentScheme::new();
    assert_eq!(scheme.add_opening_evaluations_to_transcript(&mut transcript, &key, false), Ok(()));
    let zeta = transcript.get_challenge_field_element("z", 0).unwrap();
    for label in LABELS {
        let coefficients = &key.polynomial_store.get(label).unwrap().coefficients;
        assert_eq!(transcript.get_field_element(label), Ok(evaluate(coefficients, &zeta, n)));
    }
    let z_perm = &key.polynomial_store.get("z_perm").unwrap().coefficients;
    let shifted = evaluate(z_perm, &zeta.mul(&key.small_domain.root), n);
    assert_eq!(transcript.get_element("z_perm_omega"), Ok(fr_to_bytes(&shifted)));
    assert!(!transcript.has_element("w_1_omega"));
}

#[test]
fn opening_evaluations_are_refused_where_they_cannot_be_computed() {
    let n = 4;
    let (mut rng, key, mut transcript) = setup(n, 69, n + 1);
    let scheme = KateCommitmentScheme::new();
    // values in Lagrange form
    assert_eq!(
        scheme.add_opening_evaluations_to_transcript(&mut transcript, &key, true),
        Err(Error::InvalidInput)
    );
    assert!(!transcript.has_element("w_1"));
    // no challenge
    let manifest = Manifest::new(vec![RoundManifest::new(vec![], "z", 1)]);
    let mut empty = Transcript::new(manifest, HashType::Keccak256, 32).unwrap();
    assert_eq!(
        scheme.add_opening_evaluations_to_transcript(&mut empty, &key, false),
        Err(Error::ProtocolError)
    );
    // a polynomial is missing: what came before it is added
    let mut partial =
        ProvingKey::new(n, 0, reference_string(&mut rng, n + 1), ComposerType::Standard).unwrap();
    partial.polynomial_store.put("w_1", Polynomial::new(n));
    assert_eq!(
        scheme.add_opening_evaluations_to_transcript(&mut transcript, &partial, false),
        Err(Error::InvalidInput)
    );
    assert_eq!(transcript.get_field_element("w_1"), Ok(Fr::zero()));
    assert!(!transcript.has_element("w_2"));
}

#[test]
fn opening_evaluations_from_values_on_the_domain() {
    let n = 4;
    let (_, mut key, mut from_coefficients) = setup(n, 70, n + 1);
    let (_, _, mut from_values) = setup(n, 70, n + 1);
    for label in LABELS {
        let coefficients = key.polynomial_store.get(label).unwrap().coefficients.clone();
        let values = key.small_domain.fft(&coefficients).unwrap();
        key.polynomial_store.put(&format!("{}_lagrange", label), Polynomial::from_coefficients(values));
    }
    let scheme = KateCommitmentScheme::new();
    assert_eq!(
        scheme.add_opening_evaluations_to_transcript(&mut from_coefficients, &key, false),
        Ok(())
    );
    assert_eq!(scheme.add_opening_evaluations_to_transcript(&mut from_values, &key, true), Ok(()));
    for label in LABELS {
        assert_eq!(from_values.get_element(label), from_coefficients.get_element(label));
    }
    assert_eq!(
        from_values.get_element("z_perm_omega"),
        from_coefficients.get_element("z_perm_omega")
    );
    // values of another number than the domain has points are refused
    key.polynomial_store.put("w_2_lagrange", Polynomial::new(n + 1));
    let (_, _, mut transcript) = setup(n, 70, n + 1);
    assert_eq!(
        scheme.add_opening_evaluations_to_transcript(&mut transcript, &key, true),
        Err(Error::InvalidInput)
    );
    assert!(transcript.has_element("w_1"));
    assert!(!transcript.has_element("w_2"));
}
