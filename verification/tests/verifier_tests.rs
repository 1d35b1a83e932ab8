use ark_ec::{AffineRepr, CurveGroup};
use ark_ff::{PrimeField, UniformRand};
use barustenberg::arithmetic_circuit::{generate_test_data, SECOND_WIRE_TAG, THIRD_WIRE_TAG};
use barustenberg::circuit_polynomials::{
    compute_permutation_lagrange_base_single, fill_test_key, SECOND_WIRE_COSET, THIRD_WIRE_COSET,
};
use barustenberg::bytes::{fr_to_bytes, g1_to_bytes, u32_to_be_bytes};
use barustenberg::commitment_scheme::KateCommitmentScheme;
use barustenberg::errors::{Error, RejectReason, Verdict};
use barustenberg::evaluation_domain::EvaluationDomain;
use barustenberg::field::{Fq, Fr};
use barustenberg::group::{Fq2, G1Affine, G2Affine};
use barustenberg::label_map::LabelMap;
use barustenberg::msm::msm_naive;
use barustenberg::plonk_verifier::proof_system::plonk::VerifierBase as PlonkVerifier;
use barustenberg::plonk_verifier::{
    batch_commitments, derive_challenges, evaluate_lagrange, evaluate_quotient, final_check,
    generate_verifier, verify_proof, ChallengePoint, Proof, Step, Verifier, VerifierBase,
    VerifierBaseImpl, VerifierWidgets,
};
use barustenberg::pippenger::PippengerRuntimeState;
use barustenberg::polynomial::Polynomial;
use barustenberg::proving_key::ProvingKey;
use barustenberg::reference_string::{ProverReferenceString, VerifierMemReferenceString};
use barustenberg::settings::{ComposerType, Settings};
use barustenberg::transcript::Transcript;
use barustenberg::verification_key::VerificationKey;
use barustenberg::work_queue::WorkQueue;
use rand::rngs::StdRng;
use rand::SeedableRng;

fn fq(v: ark_bn254::Fq) -> Fq {
    Fq { limbs: v.into_bigint().0 }
}

fn from_ark_g1(p: ark_bn254::G1Affine) -> G1Affine {
    if p.infinity {
        G1Affine::identity()
    } else {
        G1Affine { x: fq(p.x), y: fq(p.y), infinity: false }
    }
}

fn from_ark_g2(p: ark_bn254::G2Affine) -> G2Affine {
    G2Affine {
        x: Fq2 { c0: fq(p.x.c0), c1: fq(p.x.c1) },
        y: Fq2 { c0: fq(p.y.c0), c1: fq(p.y.c1) },
        infinity: p.infinity,
    }
}

fn random_fr(rng: &mut StdRng) -> Fr {
    Fr { limbs: ark_bn254::Fr::rand(rng).into_bigint().0 }
}

fn reference_string(rng: &mut StdRng, size: usize) -> (ProverReferenceString, G2Affine) {
    let tau = ark_bn254::Fr::rand(rng);
    let mut power = ark_bn254::Fr::from(1u64);
    let mut points = Vec::new();
    for _ in 0..size {
        points.push(from_ark_g1((ark_bn254::G1Affine::generator() * power).into_affine()));
        power *= tau;
    }
    let g2x = from_ark_g2((ark_bn254::G2Affine::generator() * tau).into_affine());
    (ProverReferenceString::new(points), g2x)
}

/// The coefficients of the polynomial with the given values on a domain.
fn interpolate(values: &[Fr], domain: &EvaluationDomain) -> Vec<Fr> {
    domain.ifft(values).unwrap()
}

fn poly_mul(a: &[Fr], b: &[Fr]) -> Vec<Fr> {
    let mut out = vec![Fr::zero(); a.len() + b.len() - 1];
    for i in 0..a.len() {
        for j in 0..b.len() {
            out[i + j] = out[i + j].add(&a[i].mul(&b[j]));
        }
    }
    out
}

fn poly_add(a: &[Fr], b: &[Fr]) -> Vec<Fr> {
    let mut out = vec![Fr::zero(); a.len().max(b.len())];
    for i in 0..a.len() {
        out[i] = out[i].add(&a[i]);
    }
    for i in 0..b.len() {
        out[i] = out[i].add(&b[i]);
    }
    out
}

/// The quotient of a polynomial by `X^n - 1`, which must divide it.
fn divide_by_vanishing(p: &[Fr], n: usize) -> Vec<Fr> {
    let mut rest = p.to_vec();
    let mut quotient = vec![Fr::zero(); p.len() - n];
    for i in (n..p.len()).rev() {
        quotient[i - n] = rest[i];
        rest[i - n] = rest[i - n].add(&rest[i]);
        rest[i] = Fr::zero();
    }
    assert!(rest.iter().all(|c| c.is_zero()), "the relation does not hold on the domain");
    quotient
}

/// The relations of the circuit: the arithmetic relation
/// `q_m a b + q_1 a + q_2 b + q_3 c + q_c = 0` and, weighted by the powers
/// of `alpha`, the permutation argument: the grand product goes from row
/// to row by the quotient of the wires' identity and permutation terms,
/// and starts at one.
#[derive(Clone, Copy, PartialEq, Debug)]
struct StandardRelations;

/// `(a + beta s_1 + gamma) (b + beta s_2 + gamma) (c + beta s_3 + gamma)`.
fn permutation_term(wires: [Fr; 3], s: [Fr; 3], beta: &Fr, gamma: &Fr) -> Fr {
    let mut product = Fr::one();
    for j in 0..3 {
        product = product.mul(&wires[j].add(&beta.mul(&s[j])).add(gamma));
    }
    product
}

impl VerifierWidgets for StandardRelations {
    fn compute_quotient_evaluation_contribution(
        &self,
        _key: &VerificationKey,
        point: &ChallengePoint,
        transcript: &Transcript,
    ) -> Fr {
        let get = |name: &str| transcript.get_field_element(name).unwrap_or(Fr::zero());
        let (a, b, c) = (get("w_1"), get("w_2"), get("w_3"));
        let arithmetic = get("q_m")
            .mul(&a)
            .mul(&b)
            .add(&get("q_1").mul(&a))
            .add(&get("q_2").mul(&b))
            .add(&get("q_3").mul(&c))
            .add(&get("q_c"));
        let beta = transcript.get_challenge_field_element("beta", 0).unwrap_or(Fr::zero());
        let gamma = transcript.get_challenge_field_element("beta", 1).unwrap_or(Fr::zero());
        let zeta = point.zeta;
        let identity = [
            zeta,
            zeta.mul(&Fr::from_u64(SECOND_WIRE_COSET)),
            zeta.mul(&Fr::from_u64(THIRD_WIRE_COSET)),
        ];
        let sigma = [get("sigma_1"), get("sigma_2"), get("sigma_3")];
        let z = get("z_perm");
        let step = permutation_term([a, b, c], identity, &beta, &gamma)
            .mul(&z)
            .sub(&permutation_term([a, b, c], sigma, &beta, &gamma).mul(&get("z_perm_omega")));
        let start = z.sub(&Fr::one()).mul(&point.lagrange.l_start);
        arithmetic.add(&point.alpha.mul(&step)).add(&point.alpha.square().mul(&start))
    }

    fn append_scalar_multiplication_inputs(
        &self,
        _key: &VerificationKey,
        _point: &ChallengePoint,
        _transcript: &Transcript,
        _scalars: &mut LabelMap<Fr>,
    ) {
    }
}

struct Fixture {
    key: ProvingKey,
    g2x: G2Affine,
    proof: Vec<u8>,
}

/// Builds the circuit of `n` gates that alternates multiplication gates,
/// `a b + a + b + 1 - c = 0`, and addition gates, the second half of the
/// wires a copy of the first, and proves it.
fn prove(n: usize, seed: u64) -> Fixture {
    let mut rng = StdRng::seed_from_u64(seed);
    let (srs, g2x) = reference_string(&mut rng, n + 1);
    let mut key = ProvingKey::new(n, 0, srs, ComposerType::Standard).unwrap();
    let one = Fr::one();
    let zero = Fr::zero();
    let values: Vec<Fr> = (0..5 * (n / 4)).map(|_| random_fr(&mut rng)).collect();
    let circuit = generate_test_data(n, &values).unwrap();
    fill_test_key(&circuit, &mut key).unwrap();
    let domain = EvaluationDomain::new(n).unwrap();
    if circuit.sigma_1_mapping.iter().enumerate().all(|(i, m)| *m as usize == i) {
        // the permutation of so small a circuit leaves every row in place, and
        // a grand product that never moves has no opening at the shifted
        // point: swap the halves whole
        for (wire, tag) in [0, SECOND_WIRE_TAG, THIRD_WIRE_TAG].into_iter().enumerate() {
            let mapping: Vec<u32> = (0..n).map(|i| ((i + n / 2) % n) as u32 + tag).collect();
            let values = compute_permutation_lagrange_base_single(&mapping, &domain);
            let coefficients = interpolate(&values, &domain);
            let store = &mut key.polynomial_store;
            store.put(&format!("sigma_{}_lagrange", wire + 1), Polynomial::from_coefficients(values));
            store.put(&format!("sigma_{}", wire + 1), Polynomial::from_coefficients(coefficients));
        }
    }
    let stored = |key: &ProvingKey, label: &str| -> Vec<Fr> {
        key.polynomial_store.get(label).unwrap().coefficients.clone()
    };
    let wires = [stored(&key, "w_1_lagrange"), stored(&key, "w_2_lagrange"), stored(&key, "w_3_lagrange")];
    let a = interpolate(&wires[0], &domain);
    let b = interpolate(&wires[1], &domain);
    let c = interpolate(&wires[2], &domain);
    let s_l = stored(&key, "q_1");
    let s_r = stored(&key, "q_2");
    let s_o = stored(&key, "q_3");
    let s_m = stored(&key, "q_m");
    let s_c = stored(&key, "q_c");
    let h_w1 = key.polynomial_store.put("w_1", Polynomial::from_coefficients(a.clone()));
    let h_w2 = key.polynomial_store.put("w_2", Polynomial::from_coefficients(b.clone()));
    let h_w3 = key.polynomial_store.put("w_3", Polynomial::from_coefficients(c.clone()));

    let settings = Settings::Standard;
    let mut transcript = Transcript::new(
        settings.create_manifest(0),
        settings.hash_type(),
        settings.num_challenge_bytes(),
    )
    .unwrap();
    let mut scheme = KateCommitmentScheme::new();
    let mut queue = WorkQueue::new();
    transcript.add_element("circuit_size", u32_to_be_bytes(n as u32));
    transcript.add_element("public_input_size", u32_to_be_bytes(0));
    transcript.apply_fiat_shamir("init").unwrap();

    transcript.add_element("public_inputs", vec![]);
    for (handle, tag) in [(h_w1, "W_1"), (h_w2, "W_2"), (h_w3, "W_3")] {
        scheme.commit(handle, 0, n, tag.to_string(), one, &mut queue);
    }
    queue
        .process_queue(&key.polynomial_store, &key.reference_string, &mut key.pippenger_runtime_state)
        .unwrap();
    for tag in ["W_1", "W_2", "W_3"] {
        transcript.add_element(tag, g1_to_bytes(&queue.get_result(tag).unwrap()));
    }
    transcript.apply_fiat_shamir("eta").unwrap();
    transcript.apply_fiat_shamir("beta").unwrap();
    let beta = transcript.get_challenge_field_element("beta", 0).unwrap();
    let gamma = transcript.get_challenge_field_element("beta", 1).unwrap();

    // the grand product of the permutation argument, row by row
    let cosets = [one, Fr::from_u64(SECOND_WIRE_COSET), Fr::from_u64(THIRD_WIRE_COSET)];
    let sigmas = [
        stored(&key, "sigma_1_lagrange"),
        stored(&key, "sigma_2_lagrange"),
        stored(&key, "sigma_3_lagrange"),
    ];
    let mut z_values = vec![one];
    let mut point = one;
    for i in 0..n {
        let row = [wires[0][i], wires[1][i], wires[2][i]];
        let identity = [point.mul(&cosets[0]), point.mul(&cosets[1]), point.mul(&cosets[2])];
        let sigma = [sigmas[0][i], sigmas[1][i], sigmas[2][i]];
        let numerator = permutation_term(row, identity, &beta, &gamma);
        let denominator = permutation_term(row, sigma, &beta, &gamma);
        let next = z_values[i].mul(&numerator).mul(&denominator.inverse().unwrap());
        z_values.push(next);
        point = point.mul(&domain.root);
    }
    assert_eq!(z_values.pop(), Some(one), "the wires do not meet the copy constraints");
    let z = interpolate(&z_values, &domain);
    let h_z = key.polynomial_store.put("z_perm", Polynomial::from_coefficients(z.clone()));
    scheme.commit(h_z, 0, n, "Z_PERM".to_string(), one, &mut queue);
    queue
        .process_queue(&key.polynomial_store, &key.reference_string, &mut key.pippenger_runtime_state)
        .unwrap();
    transcript.add_element("Z_PERM", g1_to_bytes(&queue.get_result("Z_PERM").unwrap()));
    transcript.apply_fiat_shamir("alpha").unwrap();
    let alpha = transcript.get_challenge_field_element("alpha", 0).unwrap();

    // the quotient of the relations by the vanishing polynomial, in three
    // parts that are blinded so that none is zero
    let arithmetic = poly_add(
        &poly_add(&poly_mul(&poly_mul(&s_m, &a), &b), &poly_mul(&s_l, &a)),
        &poly_add(&poly_add(&poly_mul(&s_r, &b), &poly_mul(&s_o, &c)), &s_c),
    );
    let scaled = |p: &[Fr], factor: &Fr| -> Vec<Fr> { p.iter().map(|v| v.mul(factor)).collect() };
    let term = |others: [Vec<Fr>; 3]| -> Vec<Fr> {
        let mut product = vec![one];
        for (wire, other) in [&a, &b, &c].into_iter().zip(others.iter()) {
            let factor = poly_add(&poly_add(wire, &scaled(other, &beta)), &[gamma]);
            product = poly_mul(&product, &factor);
        }
        product
    };
    let identity = term([vec![zero, cosets[0]], vec![zero, cosets[1]], vec![zero, cosets[2]]]);
    let permuted = term([stored(&key, "sigma_1"), stored(&key, "sigma_2"), stored(&key, "sigma_3")]);
    let mut power = one;
    let mut z_shifted = Vec::new();
    for coefficient in z.iter() {
        z_shifted.push(coefficient.mul(&power));
        power = power.mul(&domain.root);
    }
    let mut first = vec![zero; n];
    first[0] = one;
    let l_start = interpolate(&first, &domain);
    let step = poly_add(
        &poly_mul(&identity, &z),
        &scaled(&poly_mul(&permuted, &z_shifted), &one.neg()),
    );
    let start = poly_mul(&poly_add(&z, &[one.neg()]), &l_start);
    let numerator = poly_add(
        &arithmetic,
        &poly_add(&scaled(&step, &alpha), &scaled(&start, &alpha.square())),
    );
    let mut quotient = divide_by_vanishing(&numerator, n);
    quotient.resize(3 * n, zero);
    let blind_1 = random_fr(&mut rng);
    let blind_2 = random_fr(&mut rng);
    let mut t_1 = quotient[..n].to_vec();
    t_1.push(blind_1);
    let mut t_2 = quotient[n..2 * n].to_vec();
    t_2[0] = t_2[0].sub(&blind_1);
    t_2.push(blind_2);
    let mut t_3 = quotient[2 * n..].to_vec();
    t_3[0] = t_3[0].sub(&blind_2);
    t_3.push(zero);
    let parts = [t_1, t_2, t_3];
    for (i, part) in parts.iter().enumerate() {
        key.quotient_polynomial_parts[i] = Polynomial::from_coefficients(part.clone());
        let label = format!("t_{}", i + 1);
        let handle = key.polynomial_store.put(&label, Polynomial::from_coefficients(part.clone()));
        scheme.commit(handle, 0, n + 1, format!("T_{}", i + 1), one, &mut queue);
    }
    queue
        .process_queue(&key.polynomial_store, &key.reference_string, &mut key.pippenger_runtime_state)
        .unwrap();
    for tag in ["T_1", "T_2", "T_3"] {
        transcript.add_element(tag, g1_to_bytes(&queue.get_result(tag).unwrap()));
    }
    transcript.apply_fiat_shamir("z").unwrap();

    let zeta = transcript.get_challenge_field_element("z", 0).unwrap();
    let zeta_n = zeta.pow(n as u64);
    let mut t_eval = zero;
    let mut weight = one;
    for part in parts.iter() {
        t_eval = t_eval.add(&weight.mul(&Polynomial::from_coefficients(part.clone()).evaluate(&zeta)));
        weight = weight.mul(&zeta_n);
    }
    transcript.add_element("t", fr_to_bytes(&t_eval));
    scheme.add_opening_evaluations_to_transcript(&mut transcript, &key, false).unwrap();
    transcript.apply_fiat_shamir("nu").unwrap();
    scheme.batch_open(&mut transcript, &mut queue, &mut key).unwrap();
    transcript.apply_fiat_shamir("separator").unwrap();
    let proof = transcript.export_proof().unwrap();
    Fixture { key, g2x, proof }
}

fn verifier_of(fixture: &Fixture) -> Verifier<StandardRelations> {
    Verifier::generate_verifier(
        &fixture.key,
        VerifierMemReferenceString::from_point(fixture.g2x),
        StandardRelations,
    )
    .unwrap()
}

#[test]
fn verify_arithmetic_proof_small() {
    let n = 8;
    let fixture = prove(n, 41);
    let verifier = verifier_of(&fixture);
    let proof = Proof::new(fixture.proof.clone());
    let result = verifier.verify_proof(&proof).unwrap();
    assert_eq!(result, Verdict::Accept);
    assert!(PlonkVerifier::verify_proof(&verifier, &proof));
    // the same through the parts of the verifier
    let base = generate_verifier(&fixture.key, VerifierMemReferenceString::from_point(fixture.g2x))
        .unwrap();
    assert_eq!(verify_proof(&base, &proof, &StandardRelations), Ok(Verdict::Accept));
    assert_eq!(
        verify_proof(&VerifierBase::from_other(&base), &proof, &StandardRelations),
        Ok(Verdict::Accept)
    );
}

#[test]
fn proofs_of_other_circuit_sizes_verify() {
    for (n, seed) in [(16usize, 42u64), (32, 43), (256, 59)] {
        let fixture = prove(n, seed);
        let verifier = verifier_of(&fixture);
        assert_eq!(verifier.verify_proof(&Proof::new(fixture.proof.clone())), Ok(Verdict::Accept));
    }
}

#[test]
fn a_proof_of_512_gates_verifies() {
    let fixture = prove(512, 63);
    let verifier = verifier_of(&fixture);
    assert_eq!(verifier.verify_proof(&Proof::new(fixture.proof.clone())), Ok(Verdict::Accept));
}

#[test]
fn the_proof_has_the_layout_of_the_manifest() {
    let fixture = prove(8, 44);
    // three wires, the grand product, three parts of the quotient, the
    // opening proofs: nine points; twelve values and one shifted value
    assert_eq!(fixture.proof.len(), 9 * 64 + 13 * 32);
    let verifier = verifier_of(&fixture);
    assert_eq!(verifier.manifest.get_num_rounds(), 7);
    let names: Vec<&str> = verifier.manifest.rounds.iter().map(|r| r.challenge.as_str()).collect();
    assert_eq!(names, vec!["init", "eta", "beta", "alpha", "z", "nu", "separator"]);
    assert_eq!(verifier.manifest.rounds[5].num_challenges, 14);
    let key = verifier.key.as_ref().unwrap();
    assert_eq!(key.circuit_size, 8);
    assert_eq!(key.program_width, 3);
    assert_eq!(key.commitments.len(), 8);
    // the commitments of the key are the sums over the reference string
    let q_1 = fixture.key.polynomial_store.get("q_1").unwrap();
    let expected =
        msm_naive(&q_1.coefficients, &fixture.key.reference_string.monomials[..8]).unwrap();
    assert_eq!(key.commitments.get("Q_1"), Some(&expected));
    assert!(key.commitments.get("W_1").is_none());
    assert!(verifier.validate_commitments());
    assert!(verifier.validate_scalars());
}

#[test]
fn a_flipped_byte_in_the_opening_proof_is_rejected() {
    let fixture = prove(8, 45);
    let verifier = verifier_of(&fixture);
    let len = fixture.proof.len();
    // PI_Z lies 128 bytes before the end, PI_Z_OMEGA 64 bytes
    for position in [len - 128, len - 100, len - 65, len - 64, len - 33, len - 1] {
        for bit in [0u8, 7] {
            let mut damaged = fixture.proof.clone();
            damaged[position] ^= 1 << bit;
            let verdict = verifier.verify_proof(&Proof::new(damaged)).unwrap();
            assert!(
                matches!(verdict, Verdict::Reject(_)),
                "byte {} bit {} was accepted",
                position,
                bit
            );
        }
    }
}

#[test]
fn a_flipped_byte_anywhere_is_rejected() {
    let fixture = prove(8, 46);
    let verifier = verifier_of(&fixture);
    for position in (0..fixture.proof.len()).step_by(7) {
        let mut damaged = fixture.proof.clone();
        damaged[position] ^= 0x10;
        let verdict = verifier.verify_proof(&Proof::new(damaged)).unwrap();
        assert!(matches!(verdict, Verdict::Reject(_)), "byte {} was accepted", position);
    }
}

#[test]
fn another_point_on_the_curve_fails_the_pairing() {
    let fixture = prove(8, 47);
    let verifier = verifier_of(&fixture);
    let len = fixture.proof.len();
    let mut damaged = fixture.proof.clone();
    damaged[len - 128..len - 64].copy_from_slice(&g1_to_bytes(&G1Affine::generator()));
    assert_eq!(
        verifier.verify_proof(&Proof::new(damaged)),
        Ok(Verdict::Reject(RejectReason::PairingMismatch))
    );
    // a point off the curve is told apart before
    let mut damaged = fixture.proof.clone();
    damaged[len - 128..len - 64].copy_from_slice(&[0u8; 64]);
    assert_eq!(
        verifier.verify_proof(&Proof::new(damaged)),
        Ok(Verdict::Reject(RejectReason::InvalidPoint))
    );
    let mut damaged = fixture.proof.clone();
    damaged[len - 64..].copy_from_slice(&[0xffu8; 64]);
    assert_eq!(
        verifier.verify_proof(&Proof::new(damaged)),
        Ok(Verdict::Reject(RejectReason::InvalidPoint))
    );
}

#[test]
fn damaged_proofs_are_rejected_without_panic() {
    let fixture = prove(8, 48);
    let verifier = verifier_of(&fixture);
    // the empty proof
    assert_eq!(
        verifier.verify_proof(&Proof::default()),
        Ok(Verdict::Reject(RejectReason::MissingChallenge))
    );
    assert!(!PlonkVerifier::verify_proof(&verifier, &Proof::default()));
    // a proof that is too short or too long
    let len = fixture.proof.len();
    assert_eq!(
        verifier.verify_proof(&Proof::new(fixture.proof[..len - 1].to_vec())),
        Ok(Verdict::Reject(RejectReason::MissingChallenge))
    );
    let mut longer = fixture.proof.clone();
    longer.push(0);
    assert_eq!(
        verifier.verify_proof(&Proof::new(longer)),
        Ok(Verdict::Reject(RejectReason::MissingChallenge))
    );
    // all zeros, of the right length: the points are not on the curve
    assert_eq!(
        verifier.verify_proof(&Proof::new(vec![0u8; len])),
        Ok(Verdict::Reject(RejectReason::InvalidPoint))
    );
    assert_eq!(
        verifier.verify_proof(&Proof::new(vec![0xffu8; len])),
        Ok(Verdict::Reject(RejectReason::InvalidPoint))
    );
}

#[test]
fn a_proof_for_another_key_is_rejected() {
    let fixture = prove(8, 49);
    let other = prove(8, 50);
    let verifier = verifier_of(&other);
    assert_eq!(
        verifier.verify_proof(&Proof::new(fixture.proof.clone())),
        Ok(Verdict::Reject(RejectReason::PairingMismatch))
    );
}

#[test]
fn a_verifier_without_key_or_scheme_accepts_nothing() {
    let fixture = prove(8, 51);
    let proof = Proof::new(fixture.proof.clone());
    let manifest = Settings::Standard.create_manifest(0);
    let keyless: Verifier<StandardRelations> = PlonkVerifier::new(None, manifest, StandardRelations);
    assert_eq!(keyless.verify_proof(&proof), Err(Error::InvalidInput));
    assert!(!PlonkVerifier::verify_proof(&keyless, &proof));
    assert!(!keyless.validate_commitments());
    assert!(keyless.validate_scalars());
    let mut base =
        generate_verifier(&fixture.key, VerifierMemReferenceString::from_point(fixture.g2x)).unwrap();
    base.commitment_scheme = None;
    assert_eq!(verify_proof(&base, &proof, &StandardRelations), Err(Error::InvalidInput));
    let copy = VerifierBase::from_other(&base);
    assert!(copy.commitment_scheme.is_none());
    assert_eq!(copy.key.circuit_size, 8);
}

#[test]
fn generate_verifier_refuses_keys_it_cannot_commit_to() {
    let fixture = prove(8, 52);
    let crs = VerifierMemReferenceString::from_point(fixture.g2x);
    // a reference string that is too short
    let mut rng = StdRng::seed_from_u64(53);
    let (short, _) = reference_string(&mut rng, 3);
    let mut key = ProvingKey::new(4, 0, short, ComposerType::Standard).unwrap();
    assert_eq!(
        generate_verifier(&key, VerifierMemReferenceString::from_point(fixture.g2x)).err(),
        Some(Error::InsufficientSrs)
    );
    // a selector is missing
    let (srs, _) = reference_string(&mut rng, 4);
    key.reference_string = srs;
    assert_eq!(
        generate_verifier(&key, VerifierMemReferenceString::from_point(fixture.g2x)).err(),
        Some(Error::InvalidInput)
    );
    // the empty circuit
    assert_eq!(generate_verifier(&ProvingKey::default(), crs).err(), Some(Error::InvalidInput));
}

#[test]
fn validators_tell_bad_commitments_and_scalars() {
    let fixture = prove(8, 54);
    let mut verifier = verifier_of(&fixture);
    assert!(verifier.validate_commitments());
    verifier.key.as_mut().unwrap().commitments.insert("Q_1", G1Affine::identity());
    assert!(!verifier.validate_commitments());
    verifier.key.as_mut().unwrap().commitments.insert(
        "Q_1",
        G1Affine::from_xy(Fq::one(), Fq::one()),
    );
    assert!(!verifier.validate_commitments());
    assert!(verifier.validate_scalars());
    verifier.kate_g1_elements.insert("A", G1Affine::generator());
    assert!(!verifier.validate_scalars());
    verifier.kate_fr_elements.insert("A", Fr::one());
    assert!(verifier.validate_scalars());
    verifier.kate_fr_elements.insert("B", Fr::one());
    assert!(!verifier.validate_scalars());
}

#[test]
fn the_steps_of_the_verifier_one_by_one() {
    let fixture = prove(8, 55);
    let base =
        generate_verifier(&fixture.key, VerifierMemReferenceString::from_point(fixture.g2x)).unwrap();
    let proof = Proof::new(fixture.proof.clone());
    let mut transcript = match derive_challenges(&base.key, &base.manifest, base.settings, &proof) {
        Ok(Step::Continue(t)) => t,
        _ => panic!("no challenges"),
    };
    assert_eq!(transcript.current_round, 5);
    assert_eq!(transcript.get_element("circuit_size"), Ok(vec![0, 0, 0, 8]));
    let point = match evaluate_lagrange(&transcript, &base.key) {
        Ok(Step::Continue(p)) => p,
        _ => panic!("no point"),
    };
    assert_eq!(point.zeta, transcript.get_challenge_field_element("z", 0).unwrap());
    assert_eq!(point.alpha, transcript.get_challenge_field_element("alpha", 0).unwrap());
    assert_eq!(point.lagrange.vanishing_poly, point.zeta.pow(8).sub(&Fr::one()));
    let numerator =
        StandardRelations.compute_quotient_evaluation_contribution(&base.key, &point, &transcript);
    // a vanishing polynomial of value zero rejects
    let mut copy = Transcript::from_proof(
        &fixture.proof,
        base.manifest.duplicate(),
        base.settings.hash_type(),
        base.settings.num_challenge_bytes(),
    )
    .unwrap();
    assert!(matches!(
        evaluate_quotient(&mut copy, &numerator, &Fr::zero()),
        Ok(Step::Reject(RejectReason::InvalidPoint))
    ));
    assert!(matches!(
        evaluate_quotient(&mut transcript, &numerator, &point.lagrange.vanishing_poly),
        Ok(Step::Continue(()))
    ));
    assert_eq!(transcript.current_round, 7);
    assert_eq!(
        transcript.get_field_element("t"),
        Ok(numerator.mul(&point.lagrange.vanishing_poly.inverse().unwrap()))
    );
    let scheme = KateCommitmentScheme::new();
    let accumulators = match batch_commitments(&transcript, &base.key, &scheme) {
        Ok(Step::Continue(a)) => a,
        _ => panic!("no commitments"),
    };
    // twelve polynomials, three parts of the quotient, the generator, two proofs
    assert_eq!(accumulators.kate_g1_elements.len(), 18);
    assert_eq!(accumulators.kate_fr_elements.len(), 18);
    assert_eq!(accumulators.kate_g1_elements.get("BATCH_EVALUATION"), Some(&G1Affine::generator()));
    assert_eq!(accumulators.kate_fr_elements.get("PI_Z"), Some(&point.zeta));
    let separator = transcript.get_challenge_field_element("separator", 0).unwrap();
    assert_eq!(
        accumulators.kate_fr_elements.get("PI_Z_OMEGA"),
        Some(&separator.mul(&point.zeta).mul(&base.key.domain.root))
    );
    assert_eq!(
        accumulators.kate_fr_elements.get("W_1"),
        Some(&transcript.get_challenge_field_element("nu", 0).unwrap())
    );
    // the grand product is opened at the shifted point too
    let nu_z = transcript.get_challenge_field_element("nu", 3).unwrap();
    let nu_shifted = transcript.get_challenge_field_element("nu", 12).unwrap();
    assert_eq!(
        accumulators.kate_fr_elements.get("Z_PERM"),
        Some(&nu_z.add(&separator.mul(&nu_shifted)))
    );
    let nu_t = transcript.get_challenge_field_element("nu", 13).unwrap();
    assert_eq!(
        accumulators.kate_fr_elements.get("T_2"),
        Some(&nu_t.mul(&point.zeta.pow(8)))
    );
    let mut state = PippengerRuntimeState::new(18);
    assert_eq!(final_check(&transcript, &base.key, &accumulators, &mut state), Ok(Verdict::Accept));
    // another numerator changes the quotient and with it the challenges
    let mut other = match derive_challenges(&base.key, &base.manifest, base.settings, &proof) {
        Ok(Step::Continue(t)) => t,
        _ => panic!("no challenges"),
    };
    let wrong = numerator.add(&Fr::one());
    assert!(matches!(
        evaluate_quotient(&mut other, &wrong, &point.lagrange.vanishing_poly),
        Ok(Step::Continue(()))
    ));
    let accumulators = match batch_commitments(&other, &base.key, &scheme) {
        Ok(Step::Continue(a)) => a,
        _ => panic!("no commitments"),
    };
    assert_eq!(
        final_check(&other, &base.key, &accumulators, &mut state),
        Ok(Verdict::Reject(RejectReason::PairingMismatch))
    );
}

#[test]
fn a_manifest_without_the_rounds_is_an_error() {
    let fixture = prove(8, 56);
    let mut base =
        generate_verifier(&fixture.key, VerifierMemReferenceString::from_point(fixture.g2x)).unwrap();
    // the variant with four wires asks for other elements
    base.manifest = Settings::Turbo.create_manifest(0);
    assert_eq!(
        verify_proof(&base, &Proof::new(fixture.proof.clone()), &StandardRelations),
        Ok(Verdict::Reject(RejectReason::MissingChallenge))
    );
    // a manifest whose first round has another name
    let mut manifest = Settings::Standard.create_manifest(0);
    manifest.rounds[0].challenge = "start".to_string();
    base.manifest = manifest;
    assert_eq!(
        verify_proof(&base, &Proof::new(fixture.proof.clone()), &StandardRelations),
        Err(Error::ProtocolError)
    );
}

#[test]
fn verifier_base_impl_is_the_verifier() {
    let fixture = prove(8, 57);
    let verifier: VerifierBaseImpl<StandardRelations> = verifier_of(&fixture);
    assert_eq!(verifier.settings, Settings::Standard);
    assert_eq!(verifier.widgets, StandardRelations);
    assert!(verifier.kate_g1_elements.len() == 0);
    assert!(verifier.kate_fr_elements.len() == 0);
}

#[test]
fn a_new_verifier_keeps_its_parts_and_takes_the_variant_of_the_key() {
    let fixture = prove(8, 60);
    let made = verifier_of(&fixture);
    let key = made.key.as_ref().unwrap();
    for (code, settings) in [(0u32, Settings::Standard), (1, Settings::Turbo), (2, Settings::Ultra)] {
        let mut copy = key.duplicate();
        copy.composer_type = code;
        let manifest = settings.create_manifest(0);
        let rounds = manifest.get_num_rounds();
        let verifier: Verifier<StandardRelations> =
            PlonkVerifier::new(Some(copy), manifest, StandardRelations);
        assert_eq!(verifier.settings, settings);
        assert_eq!(verifier.manifest.get_num_rounds(), rounds);
        assert_eq!(verifier.widgets, StandardRelations);
        assert_eq!(verifier.kate_g1_elements.len(), 0);
        assert_eq!(verifier.kate_fr_elements.len(), 0);
        let kept = verifier.key.as_ref().unwrap();
        assert_eq!(kept.composer_type, code);
        assert_eq!(kept.circuit_size, 8);
        assert_eq!(kept.commitments.len(), key.commitments.len());
    }
    let keyless: Verifier<StandardRelations> =
        PlonkVerifier::new(None, Settings::Turbo.create_manifest(0), StandardRelations);
    assert!(keyless.key.is_none());
    assert_eq!(keyless.settings, Settings::Standard);
    // a verifier made from its parts decides as the one that was generated
    let again: Verifier<StandardRelations> = PlonkVerifier::new(
        Some(key.duplicate()),
        Settings::Standard.create_manifest(0),
        StandardRelations,
    );
    let proof = Proof::new(fixture.proof.clone());
    assert!(PlonkVerifier::verify_proof(&again, &proof));
    assert_eq!(again.verify_proof(&proof), Ok(Verdict::Accept));
    let mut damaged = fixture.proof.clone();
    damaged.pop();
    assert!(!PlonkVerifier::verify_proof(&again, &Proof::new(damaged.clone())));
    assert_eq!(
        again.verify_proof(&Proof::new(damaged)),
        Ok(Verdict::Reject(RejectReason::MissingChallenge))
    );
}

/// Relations that answer with a scalar that is no element of the field.
struct BrokenNumerator;

impl VerifierWidgets for BrokenNumerator {
    fn compute_quotient_evaluation_contribution(
        &self,
        _key: &VerificationKey,
        _point: &ChallengePoint,
        _transcript: &Transcript,
    ) -> Fr {
        Fr { limbs: [u64::MAX; 4] }
    }

    fn append_scalar_multiplication_inputs(
        &self,
        _key: &VerificationKey,
        _point: &ChallengePoint,
        _transcript: &Transcript,
        _scalars: &mut LabelMap<Fr>,
    ) {
    }
}

/// Relations that leave the scalars with a label twice.
struct BrokenScalars;

impl VerifierWidgets for BrokenScalars {
    fn compute_quotient_evaluation_contribution(
        &self,
        key: &VerificationKey,
        point: &ChallengePoint,
        transcript: &Transcript,
    ) -> Fr {
        StandardRelations.compute_quotient_evaluation_contribution(key, point, transcript)
    }

    fn append_scalar_multiplication_inputs(
        &self,
        _key: &VerificationKey,
        _point: &ChallengePoint,
        _transcript: &Transcript,
        scalars: &mut LabelMap<Fr>,
    ) {
        scalars.keys.push("W_1".to_string());
        scalars.values.push(Fr::one());
    }
}

/// Relations that change a scalar.
struct ChangedScalars;

impl VerifierWidgets for ChangedScalars {
    fn compute_quotient_evaluation_contribution(
        &self,
        key: &VerificationKey,
        point: &ChallengePoint,
        transcript: &Transcript,
    ) -> Fr {
        StandardRelations.compute_quotient_evaluation_contribution(key, point, transcript)
    }

    fn append_scalar_multiplication_inputs(
        &self,
        _key: &VerificationKey,
        _point: &ChallengePoint,
        _transcript: &Transcript,
        scalars: &mut LabelMap<Fr>,
    ) {
        let old = *scalars.get("Q_1").unwrap();
        scalars.insert("Q_1", old.add(&Fr::one()));
    }
}

#[test]
fn what_the_relations_return_is_checked() {
    let fixture = prove(8, 58);
    let base =
        generate_verifier(&fixture.key, VerifierMemReferenceString::from_point(fixture.g2x)).unwrap();
    let proof = Proof::new(fixture.proof.clone());
    assert_eq!(verify_proof(&base, &proof, &BrokenNumerator), Err(Error::InvalidInput));
    assert_eq!(verify_proof(&base, &proof, &BrokenScalars), Err(Error::InvalidInput));
    assert_eq!(
        verify_proof(&base, &proof, &ChangedScalars),
        Ok(Verdict::Reject(RejectReason::PairingMismatch))
    );
    assert_eq!(verify_proof(&base, &proof, &StandardRelations), Ok(Verdict::Accept));
}
